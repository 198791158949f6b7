use crate::engine::analysis::{
    analysis_of, king_safety_at, king_square, lemma_filter_take_none, lemma_filter_take_step,
    lemma_reachable_contains, lemma_square_at, reachable, square_at, threats, BoardAnalysis,
};
use crate::engine::ranking::{rank_all, Candidate, Step};
use crate::engine::rl::RLEngine;
use crate::game::board::{on_board, Board, Position, Square};
use crate::game::piece::Color;
use vstd::prelude::*;

verus! {

/// The king's move onto `to`, rated by the safety of the king on `to`
/// afterwards, against the threats of the position before the move.
pub open spec fn king_step(pos: Position, color: Color, king: Square) -> spec_fn(
    Square,
) -> Candidate {
    |to: Square|
        (
            (king, to),
            king_safety_at(pos.after(king, to), color, to, threats(pos, color)) as i64,
        )
}

/// The first `n` moves of the king of `color`, each rated by the king's
/// safety after it.
pub open spec fn king_steps_among(pos: Position, color: Color, king: Square, n: int) -> Seq<
    Candidate,
> {
    reachable(pos, king).take(n).map_values(king_step(pos, color, king))
}

/// The test whether a destination is one of the two squares of a threat.
pub open spec fn meets(threat: (Square, Square)) -> spec_fn(Square) -> bool {
    |to: Square| to == threat.0 || to == threat.1
}

/// The move from `from` onto `to`, rated by the safety of the king on
/// `king` afterwards, against the threats of the position before the move.
pub open spec fn relief(pos: Position, color: Color, king: Square, from: Square) -> spec_fn(
    Square,
) -> Candidate {
    |to: Square|
        (
            (from, to),
            king_safety_at(pos.after(from, to), color, king, threats(pos, color)) as i64,
        )
}

/// The moves among the first `n` of the piece on `from` that capture the
/// attacker of a threat or land on its target, each rated by the king's
/// safety after it.
pub open spec fn reliefs_from_among(
    pos: Position,
    color: Color,
    king: Square,
    threat: (Square, Square),
    from: Square,
    n: int,
) -> Seq<Candidate> {
    reachable(pos, from).take(n).filter(meets(threat)).map_values(relief(pos, color, king, from))
}

/// The moves of the piece on `from` against a threat; none for the king
/// itself.
pub open spec fn reliefs_from(
    pos: Position,
    color: Color,
    king: Square,
    threat: (Square, Square),
    from: Square,
) -> Seq<Candidate> {
    if from != king {
        reliefs_from_among(pos, color, king, threat, from, reachable(pos, from).len() as int)
    } else {
        Seq::empty()
    }
}

/// The moves against a threat of the pieces on the first `n` squares.
pub open spec fn reliefs_among(
    pos: Position,
    color: Color,
    king: Square,
    threat: (Square, Square),
    n: int,
) -> Seq<Candidate>
    decreases n,
{
    if n <= 0 {
        Seq::empty()
    } else {
        reliefs_among(pos, color, king, threat, n - 1) + reliefs_from(
            pos,
            color,
            king,
            threat,
            square_at(n - 1),
        )
    }
}

/// The moves against the first `n` threats against `color`.
pub open spec fn reliefs_upto(pos: Position, color: Color, king: Square, n: int) -> Seq<Candidate>
    decreases n,
{
    if n <= 0 {
        Seq::empty()
    } else {
        reliefs_upto(pos, color, king, n - 1) + reliefs_among(
            pos,
            color,
            king,
            threats(pos, color)[n - 1],
            64,
        )
    }
}

/// The first of the entries with the highest rating, if there is an entry.
pub open spec fn first_best(entries: Seq<Candidate>) -> Option<Step> {
    if entries.len() > 0 {
        Some(rank_all(entries)[0].0)
    } else {
        None
    }
}

/// The move that brings the king of `color` to safety. If the king can
/// move, it is the king's move with the safest destination. Else it is,
/// among the moves of the other pieces that capture the attacker of a
/// threat against `color` or land on its target, the one that leaves the
/// king safest. Of several best moves the first counts, the threats taken
/// in their order and the pieces and destinations in reading order. There
/// is none when `color` has no king, or no such move.
pub open spec fn escape_move(pos: Position, color: Color) -> Option<Step> {
    match king_square(pos, color) {
        None => None,
        Some(king) => {
            let steps = king_steps_among(pos, color, king, reachable(pos, king).len() as int);
            if steps.len() > 0 {
                first_best(steps)
            } else {
                first_best(reliefs_upto(pos, color, king, threats(pos, color).len() as int))
            }
        },
    }
}

/// The moves of one piece against a threat grow with its destinations
/// one at a time.
proof fn lemma_reliefs_from_step(
    pos: Position,
    color: Color,
    king: Square,
    threat: (Square, Square),
    from: Square,
    n: int,
)
    requires
        0 <= n < reachable(pos, from).len(),
    ensures
        reliefs_from_among(pos, color, king, threat, from, n + 1) == (if meets(threat)(
            reachable(pos, from)[n],
        ) {
            reliefs_from_among(pos, color, king, threat, from, n).push(
                relief(pos, color, king, from)(reachable(pos, from)[n]),
            )
        } else {
            reliefs_from_among(pos, color, king, threat, from, n)
        }),
{
    let r = reachable(pos, from);
    let p = meets(threat);
    let f = relief(pos, color, king, from);
    lemma_filter_take_step(r, p, n);
    if p(r[n]) {
        assert(r.take(n).filter(p).push(r[n]).map_values(f) =~= r.take(n).filter(p).map_values(
            f,
        ).push(f(r[n])));
    }
}

/// Among no destinations there is no move against a threat.
proof fn lemma_reliefs_from_none(
    pos: Position,
    color: Color,
    king: Square,
    threat: (Square, Square),
    from: Square,
)
    ensures
        reliefs_from_among(pos, color, king, threat, from, 0) == Seq::<Candidate>::empty(),
{
    lemma_filter_take_none(reachable(pos, from), meets(threat));
    assert(reliefs_from_among(pos, color, king, threat, from, 0) =~= Seq::<Candidate>::empty());
}

/// The king's safety never leaves the range of a rating.
proof fn lemma_king_safety_at_bound(
    pos: Position,
    color: Color,
    king: Square,
    threats: Seq<(Square, Square)>,
)
    requires
        threats.len() <= 4096,
    ensures
        -8192 <= king_safety_at(pos, color, king, threats) <= 8,
{
    assert(threats.take(threats.len() as int) =~= threats);
    threats.lemma_filter_len(crate::engine::analysis::aims_at(king));
}

impl RLEngine {
    /// Appends the king's moves, each rated by the king's safety after it.
    fn collect_king_steps(
        &self,
        board: &Board,
        color: Color,
        king_pos: (usize, usize),
        moves: &Vec<(usize, usize)>,
        analysis: &BoardAnalysis,
        found: &mut Vec<Candidate>,
    )
        requires
            on_board(king_pos),
            moves@ == reachable(board@, king_pos),
            analysis.threats@ == threats(board@, color),
            analysis.threats.len() <= 4096,
            old(found)@.len() == 0,
        ensures
            final(found)@ == king_steps_among(board@, color, king_pos, moves.len() as int),
    {
        let ghost pos = board@;
        let mut k: usize = 0;
        assert(found@ =~= king_steps_among(pos, color, king_pos, 0));
        while k < moves.len()
            invariant
                k <= moves.len(),
                pos == board@,
                on_board(king_pos),
                moves@ == reachable(pos, king_pos),
                analysis.threats@ == threats(pos, color),
                analysis.threats.len() <= 4096,
                found@ == king_steps_among(pos, color, king_pos, k as int),
            decreases moves.len() - k,
        {
            let to = moves[k];
            proof {
                lemma_reachable_contains(pos, king_pos, to);
                assert(reachable(pos, king_pos).contains(to));
                lemma_king_safety_at_bound(pos.after(king_pos, to), color, to, analysis.threats@);
            }
            let mut board_copy = *board;
            if board_copy.move_piece(king_pos, to) {
                let safety = self.evaluate_king_safety(&board_copy, to, color, analysis);
                found.push(((king_pos, to), safety as i64));
                assert(found@ =~= king_steps_among(pos, color, king_pos, k + 1)) by {
                    assert(reachable(pos, king_pos).take(k + 1).drop_last() =~= reachable(
                        pos,
                        king_pos,
                    ).take(k as int));
                }
            }
            k += 1;
        }
    }

    /// Appends the moves of the piece on `from` that capture the attacker
    /// of a threat or land on its target.
    fn collect_reliefs(
        &self,
        board: &Board,
        color: Color,
        king_pos: (usize, usize),
        threat: ((usize, usize), (usize, usize)),
        from: (usize, usize),
        moves: &Vec<(usize, usize)>,
        analysis: &BoardAnalysis,
        found: &mut Vec<Candidate>,
    )
        requires
            on_board(king_pos),
            on_board(from),
            moves@ == reachable(board@, from),
            analysis.threats@ == threats(board@, color),
            analysis.threats.len() <= 4096,
        ensures
            final(found)@ == old(found)@ + reliefs_from_among(
                board@,
                color,
                king_pos,
                threat,
                from,
                moves.len() as int,
            ),
    {
        let ghost pos = board@;
        let mut k: usize = 0;
        proof {
            lemma_reliefs_from_none(pos, color, king_pos, threat, from);
            assert(found@ + Seq::<Candidate>::empty() =~= found@);
        }
        while k < moves.len()
            invariant
                k <= moves.len(),
                pos == board@,
                on_board(king_pos),
                on_board(from),
                moves@ == reachable(pos, from),
                analysis.threats@ == threats(pos, color),
                analysis.threats.len() <= 4096,
                found@ == old(found)@ + reliefs_from_among(
                    pos,
                    color,
                    king_pos,
                    threat,
                    from,
                    k as int,
                ),
            decreases moves.len() - k,
        {
            let to = moves[k];
            proof {
                lemma_reliefs_from_step(pos, color, king_pos, threat, from, k as int);
                lemma_reachable_contains(pos, from, to);
                assert(reachable(pos, from).contains(to));
                lemma_king_safety_at_bound(
                    pos.after(from, to),
                    color,
                    king_pos,
                    analysis.threats@,
                );
            }
            let onto_attacker = to.0 == threat.0.0 && to.1 == threat.0.1;
            let onto_target = to.0 == threat.1.0 && to.1 == threat.1.1;
            if onto_attacker || onto_target {
                let mut board_copy = *board;
                if board_copy.move_piece(from, to) {
                    let safety = self.evaluate_king_safety(&board_copy, king_pos, color, analysis);
                    found.push(((from, to), safety as i64));
                    assert(found@ =~= old(found)@ + reliefs_from_among(
                        pos,
                        color,
                        king_pos,
                        threat,
                        from,
                        k + 1,
                    ));
                }
            }
            k += 1;
        }
    }

    /// Appends the moves against one threat of all pieces but the king.
    fn collect_reliefs_against(
        &self,
        board: &Board,
        color: Color,
        king_pos: (usize, usize),
        threat: ((usize, usize), (usize, usize)),
        analysis: &BoardAnalysis,
        found: &mut Vec<Candidate>,
    )
        requires
            on_board(king_pos),
            analysis.wf(),
            analysis@ == analysis_of(board@, color),
        ensures
            final(found)@ == old(found)@ + reliefs_among(board@, color, king_pos, threat, 64),
    {
        let ghost pos = board@;
        let mut idx: usize = 0;
        assert(found@ + Seq::<Candidate>::empty() =~= found@);
        while idx < 64
            invariant
                idx <= 64,
                pos == board@,
                on_board(king_pos),
                analysis.wf(),
                analysis@ == analysis_of(pos, color),
                found@ == old(found)@ + reliefs_among(pos, color, king_pos, threat, idx as int),
            decreases 64 - idx,
        {
            let from = (idx / 8, idx % 8);
            let ghost before = found@;
            proof {
                lemma_square_at(from);
                assert(before + Seq::<Candidate>::empty() =~= before);
                assert(analysis@.mobility.contains_key(from) == analysis_of(
                    pos,
                    color,
                ).mobility.contains_key(from));
                if pos.pieces.contains_key(from) {
                    assert(analysis@.mobility[from] == analysis_of(pos, color).mobility[from]);
                } else {
                    lemma_reliefs_from_none(pos, color, king_pos, threat, from);
                    if reachable(pos, from).len() > 0 {
                        lemma_reachable_contains(pos, from, reachable(pos, from)[0]);
                        assert(reachable(pos, from).contains(reachable(pos, from)[0]));
                    }
                }
            }
            if !(from.0 == king_pos.0 && from.1 == king_pos.1) {
                if let Some(moves) = &analysis.piece_mobility[idx] {
                    self.collect_reliefs(
                        board,
                        color,
                        king_pos,
                        threat,
                        from,
                        moves,
                        analysis,
                        found,
                    );
                }
            }
            proof {
                assert(found@ =~= old(found)@ + reliefs_among(
                    pos,
                    color,
                    king_pos,
                    threat,
                    idx + 1,
                ));
            }
            idx += 1;
        }
    }

    /// The move that brings the king of `color` to safety, given the
    /// analysis of the board for `color`.
    pub fn find_escape_move(&self, board: &Board, color: Color, analysis: &BoardAnalysis) -> (best:
        Option<Step>)
        requires
            analysis.wf(),
            analysis@ == analysis_of(board@, color),
        ensures
            best == escape_move(board@, color),
    {
        let ghost pos = board@;
        let king_pos = match self.find_king(board, color) {
            Some(king_pos) => king_pos,
            None => {
                return None;
            },
        };
        proof {
            lemma_square_at(king_pos);
            assert(analysis@.mobility.contains_key(king_pos) == analysis_of(
                pos,
                color,
            ).mobility.contains_key(king_pos));
            assert(analysis@.mobility[king_pos] == analysis_of(pos, color).mobility[king_pos]);
        }
        let mut found: Vec<Candidate> = Vec::new();
        if let Some(moves) = &analysis.piece_mobility[king_pos.0 * 8 + king_pos.1] {
            self.collect_king_steps(board, color, king_pos, moves, analysis, &mut found);
        }
        if found.len() == 0 {
            let mut t: usize = 0;
            while t < analysis.threats.len()
                invariant
                    t <= analysis.threats.len(),
                    pos == board@,
                    on_board(king_pos),
                    analysis.wf(),
                    analysis@ == analysis_of(pos, color),
                    found@ == reliefs_upto(pos, color, king_pos, t as int),
                decreases analysis.threats.len() - t,
            {
                let threat = analysis.threats[t];
                self.collect_reliefs_against(board, color, king_pos, threat, analysis, &mut found);
                t += 1;
            }
        }
        if found.len() == 0 {
            return None;
        }
        let ranked = self.rank_candidates(&found);
        proof {
            crate::engine::ranking::lemma_rank_all_permutes(found@);
        }
        Some(ranked[0].0)
    }
}

} // verus!
