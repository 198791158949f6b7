use crate::engine::analysis::{
    analysis_of, holds_color, king_attacked, lemma_filter_take_none, lemma_filter_take_step,
    lemma_reachable_contains, lemma_square_at, lemma_threats_onto_step, material_value,
    piece_value, reachable, square_at, threats, threats_onto, threats_onto_among, BoardAnalysis,
};
use crate::engine::rl::{RLEngine, MAX_OPPONENT_MOVES};
use crate::game::board::{on_board, Board, Position, Square};
use crate::game::piece::Color;
use vstd::prelude::*;

verus! {

/// A move.
pub type Step = ((usize, usize), (usize, usize));

/// A move with its priority.
pub type Candidate = (Step, i64);

/// Where a candidate with the given priority enters a ranked list: behind
/// every entry at the end of the list whose priority is smaller.
pub open spec fn insertion_point<A>(ranked: Seq<(A, i64)>, priority: i64) -> int
    decreases ranked.len(),
{
    if ranked.len() == 0 {
        0
    } else if ranked.last().1 >= priority {
        ranked.len() as int
    } else {
        insertion_point(ranked.drop_last(), priority)
    }
}

/// The entries ordered by falling priority, entries of equal priority in
/// the order in which they were given.
pub open spec fn rank_all<A>(candidates: Seq<(A, i64)>) -> Seq<(A, i64)>
    decreases candidates.len(),
{
    if candidates.len() == 0 {
        Seq::empty()
    } else {
        let ranked = rank_all(candidates.drop_last());
        ranked.insert(insertion_point(ranked, candidates.last().1), candidates.last())
    }
}

/// No entry has a smaller priority than a later one.
pub open spec fn falling<A>(ranked: Seq<(A, i64)>) -> bool {
    forall|i: int, j: int| 0 <= i < j < ranked.len() ==> ranked[i].1 >= ranked[j].1
}

/// The insertion point lies in the list, behind an entry of at least the
/// given priority and before entries of smaller priority only.
pub proof fn lemma_insertion_point<A>(ranked: Seq<(A, i64)>, priority: i64)
    ensures
        0 <= insertion_point(ranked, priority) <= ranked.len(),
        forall|k: int|
            insertion_point(ranked, priority) <= k < ranked.len() ==> (#[trigger] ranked[k]).1
                < priority,
        insertion_point(ranked, priority) > 0 ==> ranked[insertion_point(ranked, priority) - 1].1
            >= priority,
    decreases ranked.len(),
{
    if ranked.len() > 0 && ranked.last().1 < priority {
        let rest = ranked.drop_last();
        lemma_insertion_point(rest, priority);
        assert forall|k: int| insertion_point(ranked, priority) <= k < ranked.len() implies (
        #[trigger] ranked[k]).1 < priority by {
            if k < rest.len() {
                assert(rest[k] == ranked[k]);
            }
        }
        if insertion_point(ranked, priority) > 0 {
            assert(rest[insertion_point(ranked, priority) - 1] == ranked[insertion_point(
                ranked,
                priority,
            ) - 1]);
        }
    }
}

/// Ranking keeps every candidate, each as often as it was given.
pub proof fn lemma_rank_all_permutes<A>(candidates: Seq<(A, i64)>)
    ensures
        rank_all(candidates).to_multiset() == candidates.to_multiset(),
        rank_all(candidates).len() == candidates.len(),
    decreases candidates.len(),
{
    if candidates.len() > 0 {
        let rest = candidates.drop_last();
        let ranked = rank_all(rest);
        lemma_rank_all_permutes(rest);
        lemma_insertion_point(ranked, candidates.last().1);
        assert(rest.push(candidates.last()) =~= candidates);
        vstd::seq_lib::to_multiset_insert(
            ranked,
            insertion_point(ranked, candidates.last().1),
            candidates.last(),
        );
        vstd::seq_lib::to_multiset_build(rest, candidates.last());
        assert(rank_all(candidates).to_multiset() =~= candidates.to_multiset());
    } else {
        assert(candidates =~= Seq::<(A, i64)>::empty());
    }
}

/// Ranking orders the candidates by falling priority.
pub proof fn lemma_rank_all_falling<A>(candidates: Seq<(A, i64)>)
    ensures
        falling(rank_all(candidates)),
    decreases candidates.len(),
{
    if candidates.len() > 0 {
        let rest = candidates.drop_last();
        let ranked = rank_all(rest);
        let c = candidates.last();
        let p = insertion_point(ranked, c.1);
        lemma_rank_all_falling(rest);
        lemma_insertion_point(ranked, c.1);
        let out = ranked.insert(p, c);
        assert forall|i: int, j: int| 0 <= i < j < out.len() implies out[i].1 >= out[j].1 by {
            if p > 0 {
                assert(ranked[p - 1].1 >= c.1);
            }
            if i < p && j == p {
                assert(ranked[i].1 >= ranked[p - 1].1 || i == p - 1);
            } else if i < p && j > p {
                assert(out[j] == ranked[j - 1]);
            } else if i == p {
                assert(out[j] == ranked[j - 1]);
            } else if i > p {
                assert(out[i] == ranked[i - 1]);
                assert(out[j] == ranked[j - 1]);
            }
        }
    }
}

/// Ranking invents no candidate and loses none.
pub proof fn lemma_rank_all_contains<A>(candidates: Seq<(A, i64)>, c: (A, i64))
    ensures
        rank_all(candidates).contains(c) <==> candidates.contains(c),
{
    lemma_rank_all_permutes(candidates);
    vstd::seq_lib::to_multiset_contains(candidates, c);
    vstd::seq_lib::to_multiset_contains(rank_all(candidates), c);
}

/// Whether a square is one of the four central squares.
pub open spec fn in_center(sq: Square) -> bool {
    3 <= sq.0 <= 4 && 3 <= sq.1 <= 4
}

/// Priority of a move onto `to`: the value of what it captures, 50 more if
/// `to` is the target of one of the given threats, 10 more if `to` is one
/// of the four central squares.
pub open spec fn move_priority(pos: Position, threats: Seq<(Square, Square)>, to: Square) -> int {
    (match pos.at(to) {
        Some(piece) => piece_value(piece.piece_type),
        None => 0,
    }) + (if threats_onto(threats, to) > 0 {
        50int
    } else {
        0int
    }) + (if in_center(to) {
        10int
    } else {
        0int
    })
}

/// A move is legal for `color` when the board accepts it, it moves a piece
/// of `color`, and afterwards no piece can move onto the king of `color`.
pub open spec fn is_legal(pos: Position, color: Color, mv: (Square, Square)) -> bool {
    &&& pos.accepts(mv.0, mv.1)
    &&& holds_color(pos, color, mv.0)
    &&& !king_attacked(pos.after(mv.0, mv.1), color)
}

/// The test whether a move from `from` leaves the king of `color` safe.
pub open spec fn keeps_king_safe(pos: Position, color: Color, from: Square) -> spec_fn(
    Square,
) -> bool {
    |to: Square| !king_attacked(pos.after(from, to), color)
}

/// The candidate that a destination of the piece on `from` makes.
pub open spec fn with_priority(pos: Position, color: Color, from: Square) -> spec_fn(
    Square,
) -> Candidate {
    |to: Square| ((from, to), move_priority(pos, threats(pos, color), to) as i64)
}

/// The candidates among the first `n` destinations of the piece on `from`.
pub open spec fn candidates_from_among(pos: Position, color: Color, from: Square, n: int) -> Seq<
    Candidate,
> {
    reachable(pos, from).take(n).filter(keeps_king_safe(pos, color, from)).map_values(
        with_priority(pos, color, from),
    )
}

/// The candidates of the piece on `from`: its destinations that leave the
/// king of `color` safe, each with its priority. Empty unless `from` holds
/// a piece of `color`.
pub open spec fn candidates_from(pos: Position, color: Color, from: Square) -> Seq<Candidate> {
    if holds_color(pos, color, from) {
        candidates_from_among(pos, color, from, reachable(pos, from).len() as int)
    } else {
        Seq::empty()
    }
}

/// The candidates of the pieces on the first `n` squares.
pub open spec fn candidates_among(pos: Position, color: Color, n: int) -> Seq<Candidate>
    decreases n,
{
    if n <= 0 {
        Seq::empty()
    } else {
        candidates_among(pos, color, n - 1) + candidates_from(pos, color, square_at(n - 1))
    }
}

/// Every legal move of `color` with its priority, the squares taken in
/// reading order and each square's destinations in reading order.
pub open spec fn candidates(pos: Position, color: Color) -> Seq<Candidate> {
    candidates_among(pos, color, 64)
}

/// The move of a candidate.
pub open spec fn strip(c: Candidate) -> (Square, Square) {
    c.0
}

/// The legal moves of `color` by falling priority, at most 150 of them.
pub open spec fn ranked_moves(pos: Position, color: Color) -> Seq<(Square, Square)> {
    let ranked = rank_all(candidates(pos, color));
    let kept = if ranked.len() <= 150 {
        ranked
    } else {
        ranked.take(150)
    };
    kept.map_values(|c: Candidate| strip(c))
}

/// The candidates of one piece grow with its destinations one at a time.
proof fn lemma_candidates_from_step(pos: Position, color: Color, from: Square, n: int)
    requires
        0 <= n < reachable(pos, from).len(),
    ensures
        candidates_from_among(pos, color, from, n + 1) == (if !king_attacked(
            pos.after(from, reachable(pos, from)[n]),
            color,
        ) {
            candidates_from_among(pos, color, from, n).push(
                (
                    (from, reachable(pos, from)[n]),
                    move_priority(pos, threats(pos, color), reachable(pos, from)[n]) as i64,
                ),
            )
        } else {
            candidates_from_among(pos, color, from, n)
        }),
{
    let r = reachable(pos, from);
    let p = keeps_king_safe(pos, color, from);
    let f = with_priority(pos, color, from);
    lemma_filter_take_step(r, p, n);
    if p(r[n]) {
        assert(r.take(n).filter(p).push(r[n]).map_values(f) =~= r.take(n).filter(p).map_values(
            f,
        ).push(f(r[n])));
    }
}

/// Among no destinations there is no candidate.
proof fn lemma_candidates_from_none(pos: Position, color: Color, from: Square)
    ensures
        candidates_from_among(pos, color, from, 0) == Seq::<Candidate>::empty(),
{
    lemma_filter_take_none(reachable(pos, from), keeps_king_safe(pos, color, from));
    assert(candidates_from_among(pos, color, from, 0) =~= Seq::<Candidate>::empty());
}

/// Every candidate is a legal move.
pub proof fn lemma_candidates_among_legal(pos: Position, color: Color, n: int, i: int)
    requires
        0 <= n <= 64,
        0 <= i < candidates_among(pos, color, n).len(),
    ensures
        is_legal(pos, color, strip(candidates_among(pos, color, n)[i])),
    decreases n,
{
    let before = candidates_among(pos, color, n - 1);
    if i < before.len() {
        lemma_candidates_among_legal(pos, color, n - 1, i);
    } else {
        let from = square_at(n - 1);
        let r = reachable(pos, from);
        let p = keeps_king_safe(pos, color, from);
        let f = with_priority(pos, color, from);
        assert(r.take(r.len() as int) =~= r);
        let k = i - before.len();
        let to = r.filter(p)[k];
        r.lemma_filter_pred(p, k);
        assert(r.filter(p).contains(to));
        r.lemma_filter_contains_rev(p, to);
        lemma_reachable_contains(pos, from, to);
    }
}

/// No two entries hold the same move.
pub open spec fn distinct_moves(entries: Seq<Candidate>) -> bool {
    forall|i: int, j: int| 0 <= i < j < entries.len() ==> entries[i].0 != entries[j].0
}

/// A filter of a sequence without duplicates has no duplicates.
pub proof fn lemma_filter_no_duplicates<A>(s: Seq<A>, p: spec_fn(A) -> bool)
    requires
        s.no_duplicates(),
    ensures
        s.filter(p).no_duplicates(),
    decreases s.len(),
{
    reveal(Seq::filter);
    if s.len() > 0 {
        let rest = s.drop_last();
        lemma_filter_no_duplicates(rest, p);
        if p(s.last()) {
            let kept = rest.filter(p);
            assert forall|i: int| 0 <= i < kept.len() implies kept[i] != s.last() by {
                assert(kept.contains(kept[i]));
                rest.lemma_filter_contains_rev(p, kept[i]);
                let k = choose|k: int| 0 <= k < rest.len() && rest[k] == kept[i];
                assert(s[k] == kept[i]);
            }
        }
    }
}

/// No square occurs twice in a mobility list.
pub proof fn lemma_reachable_no_duplicates(pos: Position, from: Square)
    ensures
        reachable(pos, from).no_duplicates(),
{
    let all = crate::engine::analysis::all_squares();
    assert(all.take(64) =~= all);
    assert(all.no_duplicates()) by {
        assert forall|i: int, j: int| 0 <= i < all.len() && 0 <= j < all.len() && i != j implies all[i]
            != all[j] by {
            assert(all[i].0 * 8 + all[i].1 == i);
            assert(all[j].0 * 8 + all[j].1 == j);
        }
    }
    lemma_filter_no_duplicates(all, |to: Square| pos.accepts(from, to));
}

/// The candidates of one piece all start on its square and no two of them
/// hold the same move.
proof fn lemma_candidates_from_distinct(pos: Position, color: Color, from: Square)
    ensures
        distinct_moves(candidates_from(pos, color, from)),
        forall|i: int|
            0 <= i < candidates_from(pos, color, from).len() ==> (#[trigger] candidates_from(
                pos,
                color,
                from,
            )[i]).0.0 == from,
{
    if holds_color(pos, color, from) {
        let r = reachable(pos, from);
        lemma_reachable_no_duplicates(pos, from);
        assert(r.take(r.len() as int) =~= r);
        lemma_filter_no_duplicates(r, keeps_king_safe(pos, color, from));
    }
}

/// The candidates found on the first `n` squares start on those squares,
/// and no two of them hold the same move.
proof fn lemma_candidates_among_distinct(pos: Position, color: Color, n: int)
    requires
        0 <= n <= 64,
    ensures
        distinct_moves(candidates_among(pos, color, n)),
        forall|i: int|
            0 <= i < candidates_among(pos, color, n).len() ==> {
                let from = (#[trigger] candidates_among(pos, color, n)[i]).0.0;
                from.0 * 8 + from.1 < n
            },
    decreases n,
{
    if n > 0 {
        lemma_candidates_among_distinct(pos, color, n - 1);
        lemma_candidates_from_distinct(pos, color, square_at(n - 1));
        let before = candidates_among(pos, color, n - 1);
        let added = candidates_from(pos, color, square_at(n - 1));
        let all = candidates_among(pos, color, n);
        assert forall|i: int| 0 <= i < all.len() implies {
            let from = (#[trigger] all[i]).0.0;
            from.0 * 8 + from.1 < n
        } by {
            if i < before.len() {
                assert(all[i] == before[i]);
            } else {
                assert(all[i] == added[i - before.len()]);
            }
        }
        assert forall|i: int, j: int| 0 <= i < j < all.len() implies all[i].0 != all[j].0 by {
            if j < before.len() {
                assert(all[i] == before[i] && all[j] == before[j]);
            } else if i >= before.len() {
                assert(all[i] == added[i - before.len()]);
                assert(all[j] == added[j - before.len()]);
            } else {
                assert(all[i] == before[i]);
                assert(all[j] == added[j - before.len()]);
                let from = before[i].0.0;
                assert(from.0 * 8 + from.1 < n - 1);
            }
        }
    }
}

/// Ranking keeps the moves of the entries apart.
proof fn lemma_rank_all_distinct(entries: Seq<Candidate>)
    requires
        distinct_moves(entries),
    ensures
        distinct_moves(rank_all(entries)),
    decreases entries.len(),
{
    if entries.len() > 0 {
        let rest = entries.drop_last();
        let last = entries.last();
        let ranked = rank_all(rest);
        assert(distinct_moves(rest)) by {
            assert forall|i: int, j: int| 0 <= i < j < rest.len() implies rest[i].0 != rest[j].0 by {
                assert(rest[i] == entries[i] && rest[j] == entries[j]);
            }
        }
        lemma_rank_all_distinct(rest);
        lemma_insertion_point(ranked, last.1);
        let p = insertion_point(ranked, last.1);
        let out = ranked.insert(p, last);
        assert forall|k: int| 0 <= k < ranked.len() implies ranked[k].0 != last.0 by {
            assert(ranked.contains(ranked[k]));
            lemma_rank_all_contains(rest, ranked[k]);
            let m = choose|m: int| 0 <= m < rest.len() && rest[m] == ranked[k];
            assert(entries[m] == ranked[k]);
        }
        assert forall|i: int, j: int| 0 <= i < j < out.len() implies out[i].0 != out[j].0 by {
            let a = if i < p {
                i
            } else {
                i - 1
            };
            let b = if j < p {
                j
            } else {
                j - 1
            };
            if i != p && j != p {
                assert(out[i] == ranked[a] && out[j] == ranked[b]);
            } else if i == p {
                assert(out[j] == ranked[b]);
            } else {
                assert(out[i] == ranked[a]);
            }
        }
    }
}

/// No move is ranked twice.
pub proof fn lemma_ranked_moves_no_duplicates(pos: Position, color: Color)
    ensures
        ranked_moves(pos, color).no_duplicates(),
{
    let ranked = rank_all(candidates(pos, color));
    lemma_candidates_among_distinct(pos, color, 64);
    lemma_rank_all_distinct(candidates(pos, color));
    let moves = ranked_moves(pos, color);
    assert forall|i: int, j: int| 0 <= i < moves.len() && 0 <= j < moves.len() && i != j implies moves[i]
        != moves[j] by {
        assert(moves[i] == ranked[i].0);
        assert(moves[j] == ranked[j].0);
        if i < j {
            assert(ranked[i].0 != ranked[j].0);
        } else {
            assert(ranked[j].0 != ranked[i].0);
        }
    }
}

/// Every ranked move is a legal move.
pub proof fn lemma_ranked_moves_legal(pos: Position, color: Color, i: int)
    requires
        0 <= i < ranked_moves(pos, color).len(),
    ensures
        is_legal(pos, color, ranked_moves(pos, color)[i]),
{
    let found = candidates(pos, color);
    let ranked = rank_all(found);
    let c = ranked[i];
    assert(ranked.contains(c));
    lemma_rank_all_contains(found, c);
    let k = choose|k: int| 0 <= k < found.len() && found[k] == c;
    lemma_candidates_among_legal(pos, color, 64, k);
}

impl RLEngine {
    /// Priority of a move onto `to`, given the threats that an analysis has
    /// recorded.
    pub fn evaluate_move_priority(
        &self,
        board: &Board,
        to: (usize, usize),
        analysis: &BoardAnalysis,
    ) -> (priority: i32)
        requires
            on_board(to),
        ensures
            priority == move_priority(board@, analysis.threats@, to),
            0 <= priority <= 20060,
    {
        let mut priority: i32 = 0;
        if let Some(target) = board.get_piece(to) {
            priority += material_value(target.piece_type);
        }
        let mut threatened = false;
        let mut i: usize = 0;
        proof {
            lemma_filter_take_none(analysis.threats@, crate::engine::analysis::aims_at(to));
        }
        while i < analysis.threats.len()
            invariant
                i <= analysis.threats.len(),
                0 <= threats_onto_among(analysis.threats@, to, i as int),
                threatened == (threats_onto_among(analysis.threats@, to, i as int) > 0),
            decreases analysis.threats.len() - i,
        {
            proof {
                lemma_threats_onto_step(analysis.threats@, to, i as int);
            }
            let target = analysis.threats[i].1;
            if target.0 == to.0 && target.1 == to.1 {
                threatened = true;
            }
            i += 1;
        }
        if threatened {
            priority += 50;
        }
        if (to.0 >= 3 && to.0 <= 4) && (to.1 >= 3 && to.1 <= 4) {
            priority += 10;
        }
        priority
    }

    /// Orders candidates by falling priority, keeping the given order among
    /// candidates of equal priority.
    pub fn rank_candidates<A: Copy>(&self, candidates: &Vec<(A, i64)>) -> (ranked: Vec<(A, i64)>)
        ensures
            ranked@ == rank_all(candidates@),
    {
        let mut ranked: Vec<(A, i64)> = Vec::new();
        let mut i: usize = 0;
        assert(candidates@.take(0) =~= Seq::<(A, i64)>::empty());
        while i < candidates.len()
            invariant
                i <= candidates.len(),
                ranked@ == rank_all(candidates@.take(i as int)),
            decreases candidates.len() - i,
        {
            let c = candidates[i];
            let mut j: usize = ranked.len();
            assert(ranked@.take(j as int) =~= ranked@);
            while j > 0 && ranked[j - 1].1 < c.1
                invariant
                    j <= ranked.len(),
                    insertion_point(ranked@, c.1) == insertion_point(ranked@.take(j as int), c.1),
                decreases j,
            {
                assert(ranked@.take(j as int).drop_last() =~= ranked@.take(j - 1));
                j -= 1;
            }
            proof {
                if j > 0 {
                    assert(ranked@.take(j as int).last() == ranked@[j - 1]);
                }
                assert(candidates@.take(i + 1).drop_last() =~= candidates@.take(i as int));
            }
            ranked.insert(j, c);
            i += 1;
        }
        assert(candidates@.take(i as int) =~= candidates@);
        ranked
    }

    /// Appends the candidates of the piece on `from`, given its mobility
    /// list.
    fn collect_candidates(
        &self,
        board: &Board,
        color: Color,
        from: (usize, usize),
        possible_moves: &Vec<(usize, usize)>,
        analysis: &BoardAnalysis,
        found: &mut Vec<Candidate>,
    )
        requires
            on_board(from),
            possible_moves@ == reachable(board@, from),
            analysis.threats@ == threats(board@, color),
        ensures
            final(found)@ == old(found)@ + candidates_from_among(
                board@,
                color,
                from,
                possible_moves.len() as int,
            ),
    {
        let ghost pos = board@;
        let mut k: usize = 0;
        proof {
            lemma_candidates_from_none(pos, color, from);
            assert(found@ + Seq::<Candidate>::empty() =~= found@);
        }
        while k < possible_moves.len()
            invariant
                k <= possible_moves.len(),
                pos == board@,
                on_board(from),
                possible_moves@ == reachable(pos, from),
                analysis.threats@ == threats(pos, color),
                found@ == old(found)@ + candidates_from_among(pos, color, from, k as int),
            decreases possible_moves.len() - k,
        {
            let to = possible_moves[k];
            proof {
                lemma_candidates_from_step(pos, color, from, k as int);
                lemma_reachable_contains(pos, from, to);
                assert(reachable(pos, from).contains(to));
            }
            let mut board_copy = *board;
            if board_copy.move_piece(from, to) {
                if !self.is_king_threatened(&board_copy, color) {
                    let score = self.evaluate_move_priority(board, to, analysis);
                    found.push(((from, to), score as i64));
                    assert(found@ =~= old(found)@ + candidates_from_among(
                        pos,
                        color,
                        from,
                        k + 1,
                    ));
                }
            }
            k += 1;
        }
    }

    /// The legal moves of `color` by falling priority, at most 150 of them.
    pub fn generate_ranked_moves(&self, board: &Board, color: Color) -> (moves: Vec<
        ((usize, usize), (usize, usize)),
    >)
        ensures
            moves@ == ranked_moves(board@, color),
            moves.len() <= MAX_OPPONENT_MOVES,
            forall|i: int| 0 <= i < moves.len() ==> is_legal(board@, color, #[trigger] moves[i]),
    {
        let ghost pos = board@;
        let analysis = self.analyze_board(board, color);
        let mut found: Vec<Candidate> = Vec::new();
        let mut idx: usize = 0;
        while idx < 64
            invariant
                idx <= 64,
                pos == board@,
                analysis.wf(),
                analysis@ == analysis_of(pos, color),
                found@ == candidates_among(pos, color, idx as int),
            decreases 64 - idx,
        {
            let from = (idx / 8, idx % 8);
            let ghost before = found@;
            proof {
                lemma_square_at(from);
                assert(before + Seq::<Candidate>::empty() =~= before);
                assert(analysis@.mobility.contains_key(from) == analysis_of(
                    pos,
                    color,
                ).mobility.contains_key(from));
                if pos.pieces.contains_key(from) {
                    assert(analysis@.mobility[from] == analysis_of(pos, color).mobility[from]);
                }
            }
            if let Some(piece) = board.get_piece(from) {
                if piece.color == color {
                    if let Some(possible_moves) = &analysis.piece_mobility[idx] {
                        self.collect_candidates(
                            board,
                            color,
                            from,
                            possible_moves,
                            &analysis,
                            &mut found,
                        );
                    }
                }
            }
            idx += 1;
        }
        let mut ranked = self.rank_candidates(&found);
        ranked.truncate(MAX_OPPONENT_MOVES);
        let mut moves: Vec<((usize, usize), (usize, usize))> = Vec::new();
        let mut i: usize = 0;
        while i < ranked.len()
            invariant
                i <= ranked.len(),
                moves.len() == i,
                forall|j: int| 0 <= j < i ==> #[trigger] moves[j] == strip(ranked[j]),
            decreases ranked.len() - i,
        {
            let c = ranked[i];
            moves.push(c.0);
            i += 1;
        }
        proof {
            assert(moves@ =~= ranked_moves(pos, color));
            assert forall|i: int| 0 <= i < moves.len() implies is_legal(
                pos,
                color,
                #[trigger] moves[i],
            ) by {
                lemma_ranked_moves_legal(pos, color, i);
            }
        }
        moves
    }
}

} // verus!
