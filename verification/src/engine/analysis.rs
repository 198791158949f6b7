use crate::engine::rl::RLEngine;
use crate::game::board::{on_board, Board, Position, Square};
use crate::game::piece::{Color, Piece, PieceType};
use vstd::prelude::*;

verus! {

/// Material value of a piece type.
pub open spec fn piece_value(piece_type: PieceType) -> int {
    match piece_type {
        PieceType::Pawn => 100,
        PieceType::Knight => 320,
        PieceType::Bishop => 330,
        PieceType::Rook => 500,
        PieceType::Queen => 900,
        PieceType::King => 20000,
    }
}

/// The `i`-th square when the board is read rank by rank, each rank file by
/// file.
pub open spec fn square_at(i: int) -> Square {
    ((i / 8) as usize, (i % 8) as usize)
}

/// The 64 squares in reading order.
pub open spec fn all_squares() -> Seq<Square> {
    Seq::new(64, |i: int| square_at(i))
}

/// The destinations among the first `n` squares to which the board accepts
/// a move from `from`, in reading order.
pub open spec fn reachable_among(pos: Position, from: Square, n: int) -> Seq<Square> {
    all_squares().take(n).filter(|to: Square| pos.accepts(from, to))
}

/// Mobility of a square: every destination to which the board accepts a
/// move from it, in reading order. Empty for an empty square.
pub open spec fn reachable(pos: Position, from: Square) -> Seq<Square> {
    reachable_among(pos, from, 64)
}

/// The squares that some piece on the board can move to.
pub open spec fn controlled(pos: Position) -> Set<Square> {
    Set::new(|to: Square| exists|from: Square| pos.accepts(from, to))
}

/// Whether a square holds a piece of the given color.
pub open spec fn holds_color(pos: Position, color: Color, sq: Square) -> bool {
    pos.at(sq) is Some && pos.at(sq)->0.color == color
}

/// The threats that the piece on `from` makes against `color`: one pair
/// (`from`, target) for each of its destinations that holds a piece of
/// `color`. Empty unless `from` holds a piece of the other color.
pub open spec fn threats_from(pos: Position, color: Color, from: Square) -> Seq<(Square, Square)> {
    if holds_color(pos, color.opposite(), from) {
        reachable(pos, from).filter(|to: Square| holds_color(pos, color, to)).map_values(
            |to: Square| (from, to),
        )
    } else {
        Seq::empty()
    }
}

/// The threats against `color` made from the first `n` squares.
pub open spec fn threats_among(pos: Position, color: Color, n: int) -> Seq<(Square, Square)>
    decreases n,
{
    if n <= 0 {
        Seq::empty()
    } else {
        threats_among(pos, color, n - 1) + threats_from(pos, color, square_at(n - 1))
    }
}

/// Every (attacker square, target square) pair where a piece of the other
/// color can move onto a piece of `color`.
pub open spec fn threats(pos: Position, color: Color) -> Seq<(Square, Square)> {
    threats_among(pos, color, 64)
}

/// Value of what stands on a square, counted for `color`: positive for its
/// own piece, negative for the opponent's, zero for an empty square.
pub open spec fn signed_value(pos: Position, color: Color, sq: Square) -> int {
    match pos.at(sq) {
        Some(piece) => if piece.color == color {
            piece_value(piece.piece_type)
        } else {
            -piece_value(piece.piece_type)
        },
        None => 0,
    }
}

/// The signed values of what stands on the first `n` squares, summed.
pub open spec fn material_among(pos: Position, color: Color, n: int) -> int
    decreases n,
{
    if n <= 0 {
        0
    } else {
        material_among(pos, color, n - 1) + signed_value(pos, color, square_at(n - 1))
    }
}

/// Sum of the piece values on the board, those of `color` counted
/// positive and the opponent's negative.
pub open spec fn material_balance(pos: Position, color: Color) -> int {
    material_among(pos, color, 64)
}

/// The lengths of the mobility lists of the first `n` squares, summed.
pub open spec fn mobility_among(pos: Position, n: int) -> int
    decreases n,
{
    if n <= 0 {
        0
    } else {
        mobility_among(pos, n - 1) + reachable(pos, square_at(n - 1)).len()
    }
}

/// Sum of the lengths of all mobility lists.
pub open spec fn total_mobility(pos: Position) -> int {
    mobility_among(pos, 64)
}

/// Whether a square holds the king of `color`.
pub open spec fn is_king_of(pos: Position, color: Color, sq: Square) -> bool {
    pos.at(sq) == Some(Piece { piece_type: PieceType::King, color })
}

/// The squares among the first `n` that hold a king of `color`.
pub open spec fn kings_among(pos: Position, color: Color, n: int) -> Seq<Square> {
    all_squares().take(n).filter(|sq: Square| is_king_of(pos, color, sq))
}

/// The first square in reading order that holds a king of `color`.
pub open spec fn king_square(pos: Position, color: Color) -> Option<Square> {
    let kings = kings_among(pos, color, 64);
    if kings.len() > 0 {
        Some(kings[0])
    } else {
        None
    }
}

/// 1 if the square at the given offset from `king` lies on the board and
/// holds a piece of `color`, else 0.
pub open spec fn guard_at(pos: Position, color: Color, king: Square, dr: int, dc: int) -> int {
    let r = king.0 + dr;
    let c = king.1 + dc;
    if 0 <= r < 8 && 0 <= c < 8 && holds_color(pos, color, (r as usize, c as usize)) {
        1
    } else {
        0
    }
}

/// Number of the eight squares around `king` that hold a piece of `color`.
pub open spec fn shelter(pos: Position, color: Color, king: Square) -> int {
    guard_at(pos, color, king, -1, -1) + guard_at(pos, color, king, -1, 0) + guard_at(
        pos,
        color,
        king,
        -1,
        1,
    ) + guard_at(pos, color, king, 0, -1) + guard_at(pos, color, king, 0, 1) + guard_at(
        pos,
        color,
        king,
        1,
        -1,
    ) + guard_at(pos, color, king, 1, 0) + guard_at(pos, color, king, 1, 1)
}

/// The test whether a threat's target is `target`.
pub open spec fn aims_at(target: Square) -> spec_fn((Square, Square)) -> bool {
    |threat: (Square, Square)| threat.1 == target
}

/// Number of threats among the first `n` whose target is `target`.
pub open spec fn threats_onto_among(threats: Seq<(Square, Square)>, target: Square, n: int) -> int {
    threats.take(n).filter(aims_at(target)).len() as int
}

/// Number of threats whose target is `target`.
pub open spec fn threats_onto(threats: Seq<(Square, Square)>, target: Square) -> int {
    threats_onto_among(threats, target, threats.len() as int)
}

/// King safety once the king's square and the threats are known: one point
/// for each friendly neighbor, two points off for each threat onto the
/// king.
pub open spec fn king_safety_at(
    pos: Position,
    color: Color,
    king: Square,
    threats: Seq<(Square, Square)>,
) -> int {
    shelter(pos, color, king) - 2 * threats_onto(threats, king)
}

/// King safety of `color`: zero when it has no king on the board.
pub open spec fn king_safety(pos: Position, color: Color) -> int {
    match king_square(pos, color) {
        Some(king) => king_safety_at(pos, color, king, threats(pos, color)),
        None => 0,
    }
}

/// 1 for true, 0 for false.
pub open spec fn indicator(b: bool) -> int {
    if b {
        1
    } else {
        0
    }
}

/// How many of the four central squares lie in a set of squares.
pub open spec fn center_count(squares: Set<Square>) -> int {
    indicator(squares.contains((3, 3))) + indicator(squares.contains((3, 4))) + indicator(
        squares.contains((4, 3)),
    ) + indicator(squares.contains((4, 4)))
}

/// How many of the four central squares some piece can move to.
pub open spec fn center_control(pos: Position) -> int {
    center_count(controlled(pos))
}

/// The mathematical content of a board analysis.
pub struct AnalysisView {
    pub controlled: Set<Square>,
    pub mobility: Map<Square, Seq<Square>>,
    pub threats: Seq<(Square, Square)>,
    pub king_safety: int,
    pub material_balance: int,
    pub center_control: int,
}

/// The analysis of a position for a reference color.
pub open spec fn analysis_of(pos: Position, color: Color) -> AnalysisView {
    AnalysisView {
        controlled: controlled(pos),
        mobility: Map::new(|sq: Square| pos.pieces.contains_key(sq), |sq: Square| reachable(pos, sq)),
        threats: threats(pos, color),
        king_safety: king_safety(pos, color),
        material_balance: material_balance(pos, color),
        center_control: center_control(pos),
    }
}

/// Whether a piece on one of the first `n` squares can move to `to`.
pub open spec fn reached_among(pos: Position, to: Square, n: int) -> bool {
    exists|j: int| 0 <= j < n && #[trigger] pos.accepts(square_at(j), to)
}

/// Whether the king of `color` stands on a square that some piece can move
/// to. False when `color` has no king on the board.
pub open spec fn king_attacked(pos: Position, color: Color) -> bool {
    match king_square(pos, color) {
        Some(king) => controlled(pos).contains(king),
        None => false,
    }
}

/// A filter over a prefix grows with the prefix one element at a time.
pub proof fn lemma_filter_take_step<A>(s: Seq<A>, p: spec_fn(A) -> bool, n: int)
    requires
        0 <= n < s.len(),
    ensures
        s.take(n + 1).filter(p) == (if p(s[n]) {
            s.take(n).filter(p).push(s[n])
        } else {
            s.take(n).filter(p)
        }),
{
    reveal(Seq::filter);
    let t = s.take(n + 1);
    assert(t.drop_last() =~= s.take(n));
    assert(t.last() == s[n]);
}

/// A filter over the empty prefix is empty.
pub proof fn lemma_filter_take_none<A>(s: Seq<A>, p: spec_fn(A) -> bool)
    ensures
        s.take(0).filter(p) == Seq::<A>::empty(),
{
    reveal(Seq::filter);
    assert(s.take(0).filter(p) =~= Seq::<A>::empty());
}

/// A square of the board is the square at its index in reading order.
pub proof fn lemma_square_at(sq: Square)
    requires
        on_board(sq),
    ensures
        square_at(sq.0 * 8 + sq.1) == sq,
        all_squares()[sq.0 * 8 + sq.1] == sq,
{
}

/// A mobility list holds exactly the destinations that the board accepts.
pub proof fn lemma_reachable_contains(pos: Position, from: Square, to: Square)
    ensures
        reachable(pos, from).contains(to) <==> pos.accepts(from, to),
        reachable(pos, from).len() <= 64,
{
    let all = all_squares();
    let p = |t: Square| pos.accepts(from, t);
    assert(all.take(64) =~= all);
    all.lemma_filter_len(p);
    if pos.accepts(from, to) {
        lemma_square_at(to);
        all.lemma_filter_contains(p, to.0 * 8 + to.1);
    }
    if reachable(pos, from).contains(to) {
        let i = choose|i: int| 0 <= i < all.filter(p).len() && all.filter(p)[i] == to;
        all.lemma_filter_pred(p, i);
    }
}

/// A square is reached from the first `n + 1` squares when it is reached
/// from the first `n` or from the square after them; from no squares
/// nothing is reached.
pub proof fn lemma_reached_step(pos: Position, to: Square, n: int)
    requires
        0 <= n,
    ensures
        reached_among(pos, to, n + 1) == (reached_among(pos, to, n) || pos.accepts(
            square_at(n),
            to,
        )),
        !reached_among(pos, to, 0),
{
    if reached_among(pos, to, n + 1) {
        let j = choose|j: int| 0 <= j < n + 1 && #[trigger] pos.accepts(square_at(j), to);
        if j < n {
            assert(reached_among(pos, to, n));
        }
    }
    if reached_among(pos, to, n) {
        let j = choose|j: int| 0 <= j < n && #[trigger] pos.accepts(square_at(j), to);
        assert(0 <= j < n + 1 && pos.accepts(square_at(j), to));
    }
}

/// A square is controlled exactly when a piece on one of the 64 squares can
/// move to it.
pub proof fn lemma_reached_all(pos: Position, to: Square)
    ensures
        reached_among(pos, to, 64) == controlled(pos).contains(to),
{
    if controlled(pos).contains(to) {
        let from = choose|from: Square| pos.accepts(from, to);
        lemma_square_at(from);
        assert(pos.accepts(square_at(from.0 * 8 + from.1), to));
    }
}

/// Material value of a piece type.
pub fn material_value(piece_type: PieceType) -> (value: i32)
    ensures
        value == piece_value(piece_type),
{
    match piece_type {
        PieceType::Pawn => 100,
        PieceType::Knight => 320,
        PieceType::Bishop => 330,
        PieceType::Rook => 500,
        PieceType::Queen => 900,
        PieceType::King => 20000,
    }
}

impl RLEngine {
    /// Mobility of a square: every destination to which the board accepts
    /// a move from it, in reading order.
    pub fn get_piece_moves(&self, board: &Board, pos: (usize, usize)) -> (moves: Vec<
        (usize, usize),
    >)
        requires
            on_board(pos),
        ensures
            moves@ == reachable(board@, pos),
            moves.len() <= 64,
    {
        let mut moves: Vec<(usize, usize)> = Vec::new();
        let mut idx: usize = 0;
        proof {
            lemma_filter_take_none(all_squares(), |to: Square| board@.accepts(pos, to));
        }
        while idx < 64
            invariant
                idx <= 64,
                on_board(pos),
                moves@ == reachable_among(board@, pos, idx as int),
                moves.len() <= idx,
            decreases 64 - idx,
        {
            let to = (idx / 8, idx % 8);
            proof {
                lemma_filter_take_step(
                    all_squares(),
                    |to: Square| board@.accepts(pos, to),
                    idx as int,
                );
            }
            if board.can_move(pos, to) {
                moves.push(to);
            }
            idx += 1;
        }
        moves
    }

    /// The first square in reading order that holds the king of `color`.
    pub fn find_king(&self, board: &Board, color: Color) -> (king: Option<(usize, usize)>)
        ensures
            king == king_square(board@, color),
            king is Some ==> on_board(king->0),
    {
        let ghost all = all_squares();
        let ghost p = |sq: Square| is_king_of(board@, color, sq);
        let mut idx: usize = 0;
        proof {
            lemma_filter_take_none(all, p);
        }
        while idx < 64
            invariant
                idx <= 64,
                all == all_squares(),
                p == (|sq: Square| is_king_of(board@, color, sq)),
                kings_among(board@, color, idx as int).len() == 0,
            decreases 64 - idx,
        {
            let sq = (idx / 8, idx % 8);
            proof {
                lemma_filter_take_step(all, p, idx as int);
            }
            if let Some(piece) = board.get_piece(sq) {
                if piece.piece_type == PieceType::King && piece.color == color {
                    proof {
                        let head = all.take(idx + 1);
                        let tail = all.skip(idx + 1);
                        assert(all.take(64) =~= head + tail);
                        Seq::filter_distributes_over_add(head, tail, p);
                        assert(head.filter(p)[0] == sq);
                    }
                    return Some(sq);
                }
            }
            idx += 1;
        }
        None
    }
}

/// The squares that a grid of flags marks.
pub open spec fn grid_set(grid: [[bool; 8]; 8]) -> Set<Square> {
    Set::new(|sq: Square| on_board(sq) && grid[sq.0 as int][sq.1 as int])
}

/// A snapshot of what the pieces on a board can do, taken for one
/// reference color. `piece_mobility` has one entry for each square in
/// reading order: the mobility list of an occupied square, `None` for an
/// empty one.
pub struct BoardAnalysis {
    pub controlled_squares: [[bool; 8]; 8],
    pub piece_mobility: Vec<Option<Vec<(usize, usize)>>>,
    pub threats: Vec<((usize, usize), (usize, usize))>,
    pub king_safety: i32,
    pub material_balance: i32,
    pub center_control: i32,
}

impl BoardAnalysis {
    /// There is a mobility entry for each square, and no more threats than
    /// pairs of squares.
    pub open spec fn wf(&self) -> bool {
        &&& self.piece_mobility.len() == 64
        &&& self.threats.len() <= 4096
    }

    /// The mobility lists by the square that they belong to.
    pub open spec fn mobility_map(&self) -> Map<Square, Seq<Square>> {
        Map::new(
            |sq: Square| on_board(sq) && self.piece_mobility[sq.0 * 8 + sq.1] is Some,
            |sq: Square| self.piece_mobility[sq.0 * 8 + sq.1]->0@,
        )
    }
}

impl View for BoardAnalysis {
    type V = AnalysisView;

    open spec fn view(&self) -> AnalysisView {
        AnalysisView {
            controlled: grid_set(self.controlled_squares),
            mobility: self.mobility_map(),
            threats: self.threats@,
            king_safety: self.king_safety as int,
            material_balance: self.material_balance as int,
            center_control: self.center_control as int,
        }
    }
}

/// The threats that the first `n` destinations of the piece on `from` make
/// against `color`.
pub open spec fn hits_among(pos: Position, color: Color, from: Square, n: int) -> Seq<
    (Square, Square),
> {
    reachable(pos, from).take(n).filter(|to: Square| holds_color(pos, color, to)).map_values(
        |to: Square| (from, to),
    )
}

/// The threats of one piece grow with its destinations one at a time.
proof fn lemma_hits_step(pos: Position, color: Color, from: Square, n: int)
    requires
        0 <= n < reachable(pos, from).len(),
    ensures
        hits_among(pos, color, from, n + 1) == (if holds_color(pos, color, reachable(pos, from)[n]) {
            hits_among(pos, color, from, n).push((from, reachable(pos, from)[n]))
        } else {
            hits_among(pos, color, from, n)
        }),
        hits_among(pos, color, from, 0) == Seq::<(Square, Square)>::empty(),
        hits_among(pos, color, from, n).len() <= n,
{
    let r = reachable(pos, from);
    let p = |to: Square| holds_color(pos, color, to);
    let f = |to: Square| (from, to);
    lemma_filter_take_step(r, p, n);
    lemma_filter_take_none(r, p);
    r.take(n).lemma_filter_len(p);
    if holds_color(pos, color, r[n]) {
        assert(r.take(n).filter(p).push(r[n]).map_values(f) =~= r.take(n).filter(p).map_values(
            f,
        ).push((from, r[n])));
    }
    assert(hits_among(pos, color, from, 0) =~= Seq::<(Square, Square)>::empty());
}

/// The threats of a piece are the threats of all its destinations.
proof fn lemma_hits_all(pos: Position, color: Color, from: Square)
    ensures
        threats_from(pos, color, from) == (if holds_color(pos, color.opposite(), from) {
            hits_among(pos, color, from, reachable(pos, from).len() as int)
        } else {
            Seq::<(Square, Square)>::empty()
        }),
{
    let r = reachable(pos, from);
    assert(r.take(r.len() as int) =~= r);
}

/// The count of threats onto a square grows with the threats one at a
/// time.
pub proof fn lemma_threats_onto_step(threats: Seq<(Square, Square)>, target: Square, n: int)
    requires
        0 <= n < threats.len(),
    ensures
        threats_onto_among(threats, target, n + 1) == threats_onto_among(threats, target, n) + (
        if threats[n].1 == target {
            1int
        } else {
            0int
        }),
        threats_onto_among(threats, target, 0) == 0,
        threats_onto(threats, target) == threats_onto_among(threats, target, threats.len() as int),
{
    lemma_filter_take_step(threats, aims_at(target), n);
    lemma_filter_take_none(threats, aims_at(target));
}

/// No piece is worth more than a king.
proof fn lemma_signed_value_bound(pos: Position, color: Color, sq: Square)
    ensures
        -20000 <= signed_value(pos, color, sq) <= 20000,
{
}

impl RLEngine {
    /// 1 if the square at the given offset from `king` lies on the board
    /// and holds a piece of `color`, else 0.
    fn guard(&self, board: &Board, color: Color, king: (usize, usize), dr: i32, dc: i32) -> (count:
        i32)
        requires
            on_board(king),
            -1 <= dr <= 1,
            -1 <= dc <= 1,
        ensures
            count == guard_at(board@, color, king, dr as int, dc as int),
    {
        let rank = king.0 as i32 + dr;
        let file = king.1 as i32 + dc;
        if rank >= 0 && rank < 8 && file >= 0 && file < 8 {
            if let Some(piece) = board.get_piece((rank as usize, file as usize)) {
                if piece.color == color {
                    return 1;
                }
            }
        }
        0
    }

    /// King safety of `color` for a king on `king_pos`, given the threats
    /// that an analysis has recorded.
    pub fn evaluate_king_safety(
        &self,
        board: &Board,
        king_pos: (usize, usize),
        color: Color,
        analysis: &BoardAnalysis,
    ) -> (safety: i32)
        requires
            on_board(king_pos),
            analysis.threats.len() <= 4096,
        ensures
            safety == king_safety_at(board@, color, king_pos, analysis.threats@),
    {
        let mut safety: i32 = self.guard(board, color, king_pos, -1, -1) + self.guard(
            board,
            color,
            king_pos,
            -1,
            0,
        ) + self.guard(board, color, king_pos, -1, 1) + self.guard(board, color, king_pos, 0, -1)
            + self.guard(board, color, king_pos, 0, 1) + self.guard(board, color, king_pos, 1, -1)
            + self.guard(board, color, king_pos, 1, 0) + self.guard(board, color, king_pos, 1, 1);
        let ghost friends = safety as int;
        let mut i: usize = 0;
        proof {
            lemma_filter_take_none(analysis.threats@, aims_at(king_pos));
        }
        while i < analysis.threats.len()
            invariant
                i <= analysis.threats.len(),
                analysis.threats.len() <= 4096,
                0 <= friends <= 8,
                0 <= threats_onto_among(analysis.threats@, king_pos, i as int) <= i,
                safety == friends - 2 * threats_onto_among(analysis.threats@, king_pos, i as int),
            decreases analysis.threats.len() - i,
        {
            proof {
                lemma_threats_onto_step(analysis.threats@, king_pos, i as int);
            }
            let target = analysis.threats[i].1;
            if target.0 == king_pos.0 && target.1 == king_pos.1 {
                safety -= 2;
            }
            i += 1;
        }
        safety
    }

    /// How many of the four central squares a grid of flags marks.
    pub fn evaluate_center_control(&self, controlled_squares: &[[bool; 8]; 8]) -> (control: i32)
        ensures
            control == center_count(grid_set(*controlled_squares)),
    {
        let mut control: i32 = 0;
        if controlled_squares[3][3] {
            control += 1;
        }
        if controlled_squares[3][4] {
            control += 1;
        }
        if controlled_squares[4][3] {
            control += 1;
        }
        if controlled_squares[4][4] {
            control += 1;
        }
        control
    }

    /// Marks every square of `moves` in a grid of flags.
    fn mark_controlled(&self, controlled: &mut [[bool; 8]; 8], moves: &Vec<(usize, usize)>)
        requires
            forall|i: int| 0 <= i < moves.len() ==> on_board(#[trigger] moves[i]),
        ensures
            forall|to: Square|
                on_board(to) ==> #[trigger] final(controlled)[to.0 as int][to.1 as int] == (old(
                    controlled,
                )[to.0 as int][to.1 as int] || moves@.contains(to)),
    {
        let mut m: usize = 0;
        while m < moves.len()
            invariant
                m <= moves.len(),
                forall|i: int| 0 <= i < moves.len() ==> on_board(#[trigger] moves[i]),
                forall|to: Square|
                    on_board(to) ==> #[trigger] controlled[to.0 as int][to.1 as int] == (old(
                        controlled,
                    )[to.0 as int][to.1 as int] || moves@.take(m as int).contains(to)),
            decreases moves.len() - m,
        {
            let to = moves[m];
            let ghost before = *controlled;
            controlled[to.0][to.1] = true;
            proof {
                let grown = moves@.take(m + 1);
                assert(grown.drop_last() =~= moves@.take(m as int));
                assert(grown.last() == to);
                assert forall|sq: Square| on_board(sq) implies #[trigger] controlled[sq.0 as int][sq.1 as int]
                    == (old(controlled)[sq.0 as int][sq.1 as int] || grown.contains(sq)) by {
                    if grown.contains(sq) {
                        let i = choose|i: int| 0 <= i < grown.len() && grown[i] == sq;
                        if i < m {
                            assert(moves@.take(m as int)[i] == sq);
                        }
                    }
                    if moves@.take(m as int).contains(sq) {
                        let i = choose|i: int|
                            0 <= i < moves@.take(m as int).len() && moves@.take(m as int)[i] == sq;
                        assert(grown[i] == sq);
                    }
                    if sq == to {
                        assert(grown[m as int] == sq);
                    }
                }
            }
            m += 1;
        }
        assert(moves@.take(m as int) =~= moves@);
    }

    /// Appends the threats that the piece on `from` makes against `color`,
    /// given its mobility list.
    fn collect_threats(
        &self,
        board: &Board,
        color: Color,
        from: (usize, usize),
        moves: &Vec<(usize, usize)>,
        threats: &mut Vec<((usize, usize), (usize, usize))>,
    )
        requires
            moves@ == reachable(board@, from),
            moves.len() <= 64,
            old(threats).len() + 64 <= usize::MAX,
        ensures
            final(threats)@ == old(threats)@ + hits_among(
                board@,
                color,
                from,
                moves.len() as int,
            ),
            final(threats).len() <= old(threats).len() + 64,
    {
        let ghost pos = board@;
        let mut t: usize = 0;
        proof {
            if moves.len() > 0 {
                lemma_hits_step(pos, color, from, 0);
            } else {
                assert(hits_among(pos, color, from, 0) =~= Seq::<(Square, Square)>::empty());
            }
            assert(threats@ + Seq::<(Square, Square)>::empty() =~= threats@);
        }
        while t < moves.len()
            invariant
                t <= moves.len(),
                moves.len() <= 64,
                pos == board@,
                moves@ == reachable(pos, from),
                threats@ == old(threats)@ + hits_among(pos, color, from, t as int),
                hits_among(pos, color, from, t as int).len() <= t,
                old(threats).len() + 64 <= usize::MAX,
            decreases moves.len() - t,
        {
            let target = moves[t];
            proof {
                lemma_hits_step(pos, color, from, t as int);
                if t + 1 < moves.len() {
                    lemma_hits_step(pos, color, from, t + 1);
                } else {
                    reachable(pos, from).take(t + 1).lemma_filter_len(
                        |to: Square| holds_color(pos, color, to),
                    );
                }
                lemma_reachable_contains(pos, from, target);
                assert(reachable(pos, from).contains(target));
            }
            if let Some(piece) = board.get_piece(target) {
                if piece.color == color {
                    threats.push((from, target));
                    assert(threats@ =~= old(threats)@ + hits_among(pos, color, from, t + 1));
                }
            }
            t += 1;
        }
    }

    /// Analyzes a board for a reference color.
    pub fn analyze_board(&self, board: &Board, color: Color) -> (analysis: BoardAnalysis)
        ensures
            analysis.wf(),
            analysis@ == analysis_of(board@, color),
    {
        let ghost pos = board@;
        let mut grid = [[false; 8]; 8];
        let mut mobility: Vec<Option<Vec<(usize, usize)>>> = Vec::new();
        let mut threats: Vec<((usize, usize), (usize, usize))> = Vec::new();
        let mut material: i32 = 0;
        let king_pos = self.find_king(board, color);
        let mut idx: usize = 0;
        proof {
            assert forall|to: Square| !reached_among(pos, to, 0) by {
                lemma_reached_step(pos, to, 0);
            }
        }
        while idx < 64
            invariant
                idx <= 64,
                pos == board@,
                mobility.len() == idx,
                forall|j: int|
                    0 <= j < idx ==> (#[trigger] mobility[j] is Some) == pos.pieces.contains_key(
                        square_at(j),
                    ),
                forall|j: int|
                    0 <= j < idx && mobility[j] is Some ==> (#[trigger] mobility[j])->0@
                        == reachable(pos, square_at(j)),
                forall|to: Square|
                    on_board(to) ==> #[trigger] grid[to.0 as int][to.1 as int]
                        == reached_among(pos, to, idx as int),
                threats@ == threats_among(pos, color, idx as int),
                threats.len() <= 64 * idx,
                material == material_among(pos, color, idx as int),
                -20000 * idx <= material <= 20000 * idx,
            decreases 64 - idx,
        {
            let from = (idx / 8, idx % 8);
            proof {
                lemma_signed_value_bound(pos, color, from);
                lemma_hits_all(pos, color, from);
                assert forall|to: Square|
                    reached_among(pos, to, idx + 1) == (reached_among(pos, to, idx as int)
                        || reachable(pos, from).contains(to)) by {
                    lemma_reached_step(pos, to, idx as int);
                    lemma_reachable_contains(pos, from, to);
                }
            }
            match board.get_piece(from) {
                Some(piece) => {
                    let moves = self.get_piece_moves(board, from);
                    proof {
                        assert forall|i: int| 0 <= i < moves.len() implies on_board(
                            #[trigger] moves[i],
                        ) by {
                            lemma_reachable_contains(pos, from, moves[i]);
                            assert(moves@.contains(moves[i]));
                        }
                    }
                    self.mark_controlled(&mut grid, &moves);
                    let value = material_value(piece.piece_type);
                    if piece.color == color {
                        material += value;
                    } else {
                        material -= value;
                        self.collect_threats(board, color, from, &moves, &mut threats);
                    }
                    mobility.push(Some(moves));
                },
                None => {
                    proof {
                        assert(reachable(pos, from) =~= Seq::<Square>::empty()) by {
                            if reachable(pos, from).len() > 0 {
                                lemma_reachable_contains(pos, from, reachable(pos, from)[0]);
                                assert(reachable(pos, from).contains(reachable(pos, from)[0]));
                            }
                        }
                    }
                    mobility.push(None);
                },
            }
            proof {
                assert(threats@ =~= threats_among(pos, color, idx + 1));
            }
            idx += 1;
        }
        let mut analysis = BoardAnalysis {
            controlled_squares: grid,
            piece_mobility: mobility,
            threats,
            king_safety: 0,
            material_balance: material,
            center_control: 0,
        };
        if let Some(king_pos) = king_pos {
            analysis.king_safety = self.evaluate_king_safety(board, king_pos, color, &analysis);
        }
        analysis.center_control = self.evaluate_center_control(&analysis.controlled_squares);
        proof {
            assert forall|to: Square| grid_set(analysis.controlled_squares).contains(to)
                == controlled(pos).contains(to) by {
                lemma_reached_all(pos, to);
                if controlled(pos).contains(to) {
                    let from = choose|from: Square| pos.accepts(from, to);
                }
            }
            assert(analysis@.controlled =~= controlled(pos));
            assert forall|sq: Square| on_board(sq) implies square_at(sq.0 * 8 + sq.1) == sq by {
                lemma_square_at(sq);
            }
            assert(analysis@.mobility =~= analysis_of(pos, color).mobility);
        }
        analysis
    }

    /// Whether the king of `color` stands on a square that some piece can
    /// move to.
    pub fn is_king_threatened(&self, board: &Board, color: Color) -> (threatened: bool)
        ensures
            threatened == king_attacked(board@, color),
    {
        let king_pos = match self.find_king(board, color) {
            Some(king_pos) => king_pos,
            None => {
                return false;
            },
        };
        let ghost pos = board@;
        let mut idx: usize = 0;
        proof {
            lemma_reached_step(pos, king_pos, 0);
        }
        while idx < 64
            invariant
                idx <= 64,
                pos == board@,
                on_board(king_pos),
                king_square(pos, color) == Some(king_pos),
                !reached_among(pos, king_pos, idx as int),
            decreases 64 - idx,
        {
            proof {
                lemma_reached_step(pos, king_pos, idx as int);
            }
            if board.can_move((idx / 8, idx % 8), king_pos) {
                proof {
                    assert(pos.accepts(square_at(idx as int), king_pos));
                    lemma_reached_all(pos, king_pos);
                }
                return true;
            }
            idx += 1;
        }
        proof {
            lemma_reached_all(pos, king_pos);
        }
        false
    }

    /// Sum of the piece values on the board, those of `color` counted
    /// positive and the opponent's negative.
    pub fn get_material_balance(&self, board: &Board, color: Color) -> (balance: i32)
        ensures
            balance == material_balance(board@, color),
    {
        let ghost pos = board@;
        let mut balance: i32 = 0;
        let mut idx: usize = 0;
        while idx < 64
            invariant
                idx <= 64,
                pos == board@,
                balance == material_among(pos, color, idx as int),
                -20000 * idx <= balance <= 20000 * idx,
            decreases 64 - idx,
        {
            proof {
                lemma_signed_value_bound(pos, color, square_at(idx as int));
            }
            if let Some(piece) = board.get_piece((idx / 8, idx % 8)) {
                let value = material_value(piece.piece_type);
                if piece.color == color {
                    balance += value;
                } else {
                    balance -= value;
                }
            }
            idx += 1;
        }
        balance
    }

    /// King safety of `color`; zero when it has no king on the board.
    pub fn get_king_safety(&self, board: &Board, color: Color) -> (safety: i32)
        ensures
            safety == king_safety(board@, color),
    {
        if let Some(king_pos) = self.find_king(board, color) {
            let analysis = self.analyze_board(board, color);
            self.evaluate_king_safety(board, king_pos, color, &analysis)
        } else {
            0
        }
    }

    /// How many of the four central squares some piece can move to.
    pub fn get_center_control(&self, board: &Board, color: Color) -> (control: i32)
        ensures
            control == center_control(board@),
    {
        let analysis = self.analyze_board(board, color);
        self.evaluate_center_control(&analysis.controlled_squares)
    }
}

/// Analysis is a function of the position and the reference color: two
/// analyses of boards that hold the same position, for the same color, have
/// the same content.
pub proof fn lemma_analysis_is_repeatable(
    first: BoardAnalysis,
    second: BoardAnalysis,
    board: Board,
    again: Board,
    color: Color,
)
    requires
        board@ == again@,
        first@ == analysis_of(board@, color),
        second@ == analysis_of(again@, color),
    ensures
        first@ == second@,
{
}

} // verus!
