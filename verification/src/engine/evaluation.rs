use crate::engine::analysis::{
    aims_at, analysis_of, center_control, holds_color, king_safety, king_square,
    lemma_reachable_contains, lemma_square_at, material_among, material_balance, mobility_among,
    reachable, square_at, threats, threats_among, total_mobility, BoardAnalysis,
};
use crate::engine::rl::RLEngine;
use crate::engine::sampling::uniform_below;
use crate::game::board::{Board, Position, Square};
use crate::game::piece::Color;
use vstd::prelude::*;

verus! {

/// Half the width of the noise band, in thousandths of a point: the noise
/// of an evaluation lies in `-NOISE_SPAN .. NOISE_SPAN`.
pub const NOISE_SPAN: i64 = 200;

/// No score is larger in absolute value, noise included.
pub const SCORE_LIMIT: i64 = 1_400_000_000;

/// The score of a position for `color` before noise, in thousandths of a
/// point: material, plus 3 for each point of own king safety, minus 2.5 for
/// each point of the opponent's king safety, plus 0.1 for each destination
/// in a mobility list, minus 2 for each threat against `color`, plus 1.5
/// for each controlled central square.
pub open spec fn static_score(pos: Position, color: Color) -> int {
    1000 * material_balance(pos, color) + 3000 * king_safety(pos, color) - 2500 * king_safety(
        pos,
        color.opposite(),
    ) + 100 * total_mobility(pos) - 2000 * threats(pos, color).len() + 1500 * center_control(pos)
}

/// The part of the score that does not depend on king safety or threats:
/// material, mobility and center control.
pub open spec fn positional_score(pos: Position, color: Color) -> int {
    1000 * material_balance(pos, color) + 100 * total_mobility(pos) + 1500 * center_control(pos)
}

/// The material on `n` squares is at most `n` kings.
pub proof fn lemma_material_among_bound(pos: Position, color: Color, n: int)
    requires
        0 <= n,
    ensures
        -20000 * n <= material_among(pos, color, n) <= 20000 * n,
    decreases n,
{
    if n > 0 {
        lemma_material_among_bound(pos, color, n - 1);
    }
}

/// A piece has at most 64 destinations.
pub proof fn lemma_mobility_among_bound(pos: Position, n: int)
    requires
        0 <= n,
    ensures
        0 <= mobility_among(pos, n) <= 64 * n,
    decreases n,
{
    if n > 0 {
        lemma_mobility_among_bound(pos, n - 1);
        lemma_reachable_contains(pos, square_at(n - 1), (0, 0));
    }
}

/// A piece makes at most 64 threats.
pub proof fn lemma_threats_among_bound(pos: Position, color: Color, n: int)
    requires
        0 <= n,
    ensures
        threats_among(pos, color, n).len() <= 64 * n,
    decreases n,
{
    if n > 0 {
        lemma_threats_among_bound(pos, color, n - 1);
        let from = square_at(n - 1);
        lemma_reachable_contains(pos, from, (0, 0));
        reachable(pos, from).lemma_filter_len(|to: Square| holds_color(pos, color, to));
    }
}

/// King safety lies between two points off for each of at most 4096
/// threats and one point for each of eight neighbors.
pub proof fn lemma_king_safety_bound(pos: Position, color: Color)
    ensures
        -8192 <= king_safety(pos, color) <= 8,
{
    lemma_threats_among_bound(pos, color, 64);
    let all = threats(pos, color);
    assert(all.take(all.len() as int) =~= all);
    match king_square(pos, color) {
        Some(king) => {
            all.lemma_filter_len(aims_at(king));
        },
        None => {},
    }
}

/// Material is counted with opposite signs for the two colors.
pub proof fn lemma_material_antisymmetric(pos: Position, color: Color)
    ensures
        material_balance(pos, color) == -material_balance(pos, color.opposite()),
{
    lemma_material_among_antisymmetric(pos, color, 64);
}

/// Material on the first `n` squares is counted with opposite signs for
/// the two colors.
proof fn lemma_material_among_antisymmetric(pos: Position, color: Color, n: int)
    requires
        0 <= n,
    ensures
        material_among(pos, color, n) == -material_among(pos, color.opposite(), n),
    decreases n,
{
    if n > 0 {
        lemma_material_among_antisymmetric(pos, color, n - 1);
    }
}

/// Mobility and center control count for both colors alike, so the scores
/// of the two colors from material, mobility and center control add up to
/// twice the mobility and center terms.
pub proof fn lemma_positional_scores_add_up(pos: Position, color: Color)
    ensures
        positional_score(pos, color) + positional_score(pos, color.opposite()) == 2 * (100
            * total_mobility(pos) + 1500 * center_control(pos)),
{
    lemma_material_antisymmetric(pos, color);
}

/// Where no piece can move, the score from material, mobility and center
/// control of one color is the negated score of the other.
pub proof fn lemma_positional_score_antisymmetric(pos: Position, color: Color)
    requires
        total_mobility(pos) == 0,
        center_control(pos) == 0,
    ensures
        positional_score(pos, color) == -positional_score(pos, color.opposite()),
{
    lemma_positional_scores_add_up(pos, color);
}

/// The score is the positional score plus the terms of king safety and
/// threats, which are weighted differently for the two colors.
pub proof fn lemma_static_score_parts(pos: Position, color: Color)
    ensures
        static_score(pos, color) == positional_score(pos, color) + 3000 * king_safety(pos, color)
            - 2500 * king_safety(pos, color.opposite()) - 2000 * threats(pos, color).len(),
{
}

/// Every score, noise included, stays within the score limit.
pub proof fn lemma_static_score_bound(pos: Position, color: Color)
    ensures
        -SCORE_LIMIT + NOISE_SPAN <= static_score(pos, color) <= SCORE_LIMIT - NOISE_SPAN,
{
    lemma_material_among_bound(pos, color, 64);
    lemma_mobility_among_bound(pos, 64);
    lemma_threats_among_bound(pos, color, 64);
    lemma_king_safety_bound(pos, color);
    lemma_king_safety_bound(pos, color.opposite());
}

impl RLEngine {
    /// Sum of the lengths of the mobility lists of an analysis.
    fn mobility_sum(
        &self,
        analysis: &BoardAnalysis,
        Ghost(pos): Ghost<Position>,
        Ghost(color): Ghost<Color>,
    ) -> (total: i64)
        requires
            analysis.wf(),
            analysis@ == analysis_of(pos, color),
        ensures
            total == total_mobility(pos),
    {
        let mut total: i64 = 0;
        let mut idx: usize = 0;
        while idx < 64
            invariant
                idx <= 64,
                analysis.wf(),
                analysis@ == analysis_of(pos, color),
                total == mobility_among(pos, idx as int),
                0 <= total <= 64 * idx,
            decreases 64 - idx,
        {
            let ghost sq = square_at(idx as int);
            proof {
                lemma_square_at(sq);
                lemma_reachable_contains(pos, sq, (0, 0));
                assert(analysis@.mobility.contains_key(sq) == analysis_of(
                    pos,
                    color,
                ).mobility.contains_key(sq));
                if pos.pieces.contains_key(sq) {
                    assert(analysis@.mobility[sq] == analysis_of(pos, color).mobility[sq]);
                } else {
                    if reachable(pos, sq).len() > 0 {
                        lemma_reachable_contains(pos, sq, reachable(pos, sq)[0]);
                        assert(reachable(pos, sq).contains(reachable(pos, sq)[0]));
                    }
                }
            }
            if let Some(moves) = &analysis.piece_mobility[idx] {
                total += moves.len() as i64;
            }
            idx += 1;
        }
        total
    }

    /// The score of a position for `color` with the given noise added, in
    /// thousandths of a point.
    pub fn evaluate_with_noise(&self, board: &Board, color: Color, noise: i64) -> (score: i64)
        requires
            -NOISE_SPAN <= noise < NOISE_SPAN,
        ensures
            score == static_score(board@, color) + noise,
            -SCORE_LIMIT <= score <= SCORE_LIMIT,
    {
        let analysis = self.analyze_board(board, color);
        let opponent_analysis = self.analyze_board(board, color.opposite());
        proof {
            lemma_static_score_bound(board@, color);
            lemma_material_among_bound(board@, color, 64);
            lemma_mobility_among_bound(board@, 64);
            lemma_threats_among_bound(board@, color, 64);
            lemma_king_safety_bound(board@, color);
            lemma_king_safety_bound(board@, color.opposite());
        }
        let mobility = self.mobility_sum(&analysis, Ghost(board@), Ghost(color));
        let mut score: i64 = 1000 * (analysis.material_balance as i64);
        score += 3000 * (analysis.king_safety as i64);
        score -= 2500 * (opponent_analysis.king_safety as i64);
        score += 100 * mobility;
        score -= 2000 * (analysis.threats.len() as i64);
        score += 1500 * (analysis.center_control as i64);
        score += noise;
        score
    }

    /// The score of a position for `color`, in thousandths of a point, with
    /// noise drawn uniformly from the noise band to break ties.
    pub fn evaluate_position(&self, board: &Board, color: Color) -> (score: i64)
        ensures
            static_score(board@, color) - NOISE_SPAN <= score < static_score(board@, color)
                + NOISE_SPAN,
            -SCORE_LIMIT <= score <= SCORE_LIMIT,
    {
        let noise = uniform_below(400) as i64 - NOISE_SPAN;
        self.evaluate_with_noise(board, color, noise)
    }
}

} // verus!
