use crate::game::piece::{Color, Piece, PieceType};
use vstd::prelude::*;

verus! {

/// A square is a (rank, file) pair. Rank 0 is Black's back rank, rank 7 is
/// White's; file 0 is the a-file.
pub type Square = (usize, usize);

/// Whether rank and file lie in the 8x8 grid.
pub open spec fn on_board(sq: Square) -> bool {
    sq.0 < 8 && sq.1 < 8
}

/// The mathematical model of a board: the occupied squares with their
/// pieces, and the side whose turn it notionally is.
pub struct Position {
    pub pieces: Map<Square, Piece>,
    pub turn: Color,
}

/// Rank direction in which a pawn of the given color advances.
pub open spec fn forward(color: Color) -> int {
    match color {
        Color::White => -1,
        Color::Black => 1,
    }
}

/// Rank on which the pawns of the given color start.
pub open spec fn pawn_start_rank(color: Color) -> int {
    match color {
        Color::White => 6,
        Color::Black => 1,
    }
}

/// The distance between two coordinates.
pub open spec fn abs_diff(a: usize, b: usize) -> int {
    if a <= b {
        b - a
    } else {
        a - b
    }
}

/// `0 < e < d` or `d < e < 0`: the offset `e` lies strictly inside the
/// offset `d`, on the same side of zero.
pub open spec fn strictly_inside(e: int, d: int) -> bool {
    (0 < e && e < d) || (d < e && e < 0)
}

/// True when `from` and `to` share a rank, a file or a diagonal.
pub open spec fn aligned(from: Square, to: Square) -> bool {
    from.0 == to.0 || from.1 == to.1 || abs_diff(from.0, to.0) == abs_diff(from.1, to.1)
}

/// True when `s` lies strictly between `from` and `to` on the rank, file or
/// diagonal that they share.
pub open spec fn between(from: Square, to: Square, s: Square) -> bool {
    let dr = to.0 - from.0;
    let dc = to.1 - from.1;
    let er = s.0 - from.0;
    let ec = s.1 - from.1;
    if dr == 0 {
        er == 0 && strictly_inside(ec, dc)
    } else if dc == 0 {
        ec == 0 && strictly_inside(er, dr)
    } else if dr == dc {
        er == ec && strictly_inside(er, dr)
    } else if dr == -dc {
        er == -ec && strictly_inside(er, dr)
    } else {
        false
    }
}

/// Piece type that starts on the given file of a back rank.
pub open spec fn back_rank_piece(file: int) -> PieceType {
    if file == 0 || file == 7 {
        PieceType::Rook
    } else if file == 1 || file == 6 {
        PieceType::Knight
    } else if file == 2 || file == 5 {
        PieceType::Bishop
    } else if file == 3 {
        PieceType::Queen
    } else {
        PieceType::King
    }
}

/// What stands on a square at the start of a game.
pub open spec fn starting_piece(sq: Square) -> Option<Piece> {
    if !on_board(sq) {
        None
    } else if sq.0 == 0 {
        Some(Piece { piece_type: back_rank_piece(sq.1 as int), color: Color::Black })
    } else if sq.0 == 1 {
        Some(Piece { piece_type: PieceType::Pawn, color: Color::Black })
    } else if sq.0 == 6 {
        Some(Piece { piece_type: PieceType::Pawn, color: Color::White })
    } else if sq.0 == 7 {
        Some(Piece { piece_type: back_rank_piece(sq.1 as int), color: Color::White })
    } else {
        None
    }
}

impl Position {
    /// Only squares of the 8x8 grid are occupied.
    pub open spec fn wf(self) -> bool {
        forall|sq: Square| self.pieces.contains_key(sq) ==> on_board(sq)
    }

    /// The standard starting layout, White to move.
    pub open spec fn starting() -> Position {
        Position {
            pieces: Map::new(
                |sq: Square| starting_piece(sq) is Some,
                |sq: Square| starting_piece(sq)->0,
            ),
            turn: Color::White,
        }
    }

    /// What stands on a square.
    pub open spec fn at(self, sq: Square) -> Option<Piece> {
        if self.pieces.contains_key(sq) {
            Some(self.pieces[sq])
        } else {
            None
        }
    }

    /// Every square strictly between `from` and `to` is empty.
    pub open spec fn path_clear(self, from: Square, to: Square) -> bool {
        forall|s: Square| #[trigger] between(from, to, s) ==> !self.pieces.contains_key(s)
    }

    /// The pawn rule for a pawn of `color`: one step forward onto an empty
    /// square; two steps forward from the starting rank over an empty square
    /// onto an empty square; one step diagonally forward onto a square that
    /// an enemy piece occupies.
    pub open spec fn pawn_rule(self, from: Square, to: Square, color: Color) -> bool {
        let dir = forward(color);
        if to.1 == from.1 {
            ||| to.0 == from.0 + dir && self.at(to) is None
            ||| {
                &&& from.0 == pawn_start_rank(color)
                &&& to.0 == from.0 + 2 * dir
                &&& self.at(to) is None
                &&& self.at(((from.0 + dir) as usize, from.1)) is None
            }
        } else {
            &&& abs_diff(from.1, to.1) == 1
            &&& to.0 == from.0 + dir
            &&& self.at(to) is Some
            &&& self.at(to)->0.color != color
        }
    }

    /// The rook rule: along a rank or a file, over empty squares only.
    pub open spec fn rook_rule(self, from: Square, to: Square) -> bool {
        (from.0 == to.0 || from.1 == to.1) && self.path_clear(from, to)
    }

    /// The bishop rule: along a diagonal, over empty squares only.
    pub open spec fn bishop_rule(self, from: Square, to: Square) -> bool {
        abs_diff(from.0, to.0) == abs_diff(from.1, to.1) && self.path_clear(from, to)
    }

    /// The queen rule: as a rook or as a bishop.
    pub open spec fn queen_rule(self, from: Square, to: Square) -> bool {
        self.rook_rule(from, to) || self.bishop_rule(from, to)
    }

    /// The knight rule: two squares along one axis and one along the other.
    pub open spec fn knight_rule(from: Square, to: Square) -> bool {
        let dr = abs_diff(from.0, to.0);
        let dc = abs_diff(from.1, to.1);
        (dr == 2 && dc == 1) || (dr == 1 && dc == 2)
    }

    /// The king rule: at most one square along each axis.
    pub open spec fn king_rule(from: Square, to: Square) -> bool {
        abs_diff(from.0, to.0) <= 1 && abs_diff(from.1, to.1) <= 1
    }

    /// The movement rule of the given piece, by its type.
    pub open spec fn piece_rule(self, piece: Piece, from: Square, to: Square) -> bool {
        match piece.piece_type {
            PieceType::Pawn => self.pawn_rule(from, to, piece.color),
            PieceType::Rook => self.rook_rule(from, to),
            PieceType::Knight => Self::knight_rule(from, to),
            PieceType::Bishop => self.bishop_rule(from, to),
            PieceType::Queen => self.queen_rule(from, to),
            PieceType::King => Self::king_rule(from, to),
        }
    }

    /// The moves that the board accepts: between two different squares of
    /// the grid, of a piece that stands on `from`, not onto a piece of its
    /// own color, and obeying the rule of its type. Whether the mover's king
    /// is left attacked plays no part.
    pub open spec fn accepts(self, from: Square, to: Square) -> bool {
        &&& on_board(from)
        &&& on_board(to)
        &&& from != to
        &&& self.at(from) is Some
        &&& self.at(to) is Some ==> self.at(to)->0.color != self.at(from)->0.color
        &&& self.piece_rule(self.at(from)->0, from, to)
    }

    /// The position after the piece on `from` has been put on `to`,
    /// replacing whatever stood there.
    pub open spec fn after(self, from: Square, to: Square) -> Position {
        Position { pieces: self.pieces.remove(from).insert(to, self.pieces[from]), turn: self.turn }
    }

    /// The position that an attempt to move leaves: the position after the
    /// move if the board accepts it, the same position if not.
    pub open spec fn attempt(self, from: Square, to: Square) -> Position {
        if self.accepts(from, to) {
            self.after(from, to)
        } else {
            self
        }
    }
}

/// An accepted move changes the position, and nothing undoes it but a new
/// move: the attempt to move the piece back from `to` to `from` restores
/// the former position exactly when the rules accept that move on the new
/// position and the first move captured nothing.
pub proof fn lemma_no_implicit_undo(pos: Position, from: Square, to: Square)
    requires
        pos.accepts(from, to),
    ensures
        pos.after(from, to) != pos,
        pos.after(from, to).attempt(to, from) == pos <==> (pos.after(from, to).accepts(to, from)
            && pos.at(to) is None),
{
    let next = pos.after(from, to);
    assert(!next.pieces.contains_key(from));
    assert(pos.pieces.contains_key(from));
    if next.accepts(to, from) {
        let back = next.after(to, from);
        if pos.at(to) is None {
            assert(back.pieces =~= pos.pieces);
        } else {
            assert(!back.pieces.contains_key(to));
            assert(pos.pieces.contains_key(to));
        }
    }
}

/// A pawn never moves back: once the board has accepted a pawn's move, it
/// refuses the move from `to` to `from`.
pub proof fn lemma_pawn_moves_are_final(pos: Position, from: Square, to: Square)
    requires
        pos.accepts(from, to),
        pos.at(from)->0.piece_type == PieceType::Pawn,
    ensures
        !pos.after(from, to).accepts(to, from),
{
}

/// The 8x8 grid with at most one piece on each square, and the side whose
/// turn it notionally is. A board is copied whenever a move is to be tried
/// without touching the board itself.
#[derive(Clone, Copy)]
pub struct Board {
    squares: [[Option<Piece>; 8]; 8],
    current_turn: Color,
}

impl View for Board {
    type V = Position;

    open spec fn view(&self) -> Position {
        Position {
            pieces: Map::new(
                |sq: Square| on_board(sq) && self.cell(sq) is Some,
                |sq: Square| self.cell(sq)->0,
            ),
            turn: self.turn(),
        }
    }
}

/// The direction from one coordinate to another: 1, 0 or -1.
fn signum(from: usize, to: usize) -> (s: i32)
    ensures
        to > from ==> s == 1,
        to == from ==> s == 0,
        to < from ==> s == -1,
{
    if to > from {
        1
    } else if to < from {
        -1
    } else {
        0
    }
}

/// The coordinate `k` steps from `base` in the direction `step`.
fn shifted(base: usize, k: usize, step: i32) -> (moved: usize)
    requires
        step > 0 ==> base + k <= usize::MAX,
        step < 0 ==> k <= base,
    ensures
        step > 0 ==> moved == base + k,
        step == 0 ==> moved == base,
        step < 0 ==> moved == base - k,
{
    if step > 0 {
        base + k
    } else if step < 0 {
        base - k
    } else {
        base
    }
}

/// The distance between two coordinates.
fn distance(a: usize, b: usize) -> (d: usize)
    ensures
        d == abs_diff(a, b),
{
    if a <= b {
        b - a
    } else {
        a - b
    }
}

impl Board {
    /// What the grid holds at a square.
    pub closed spec fn cell(&self, sq: Square) -> Option<Piece> {
        self.squares[sq.0 as int][sq.1 as int]
    }

    /// The side whose turn it notionally is.
    pub closed spec fn turn(&self) -> Color {
        self.current_turn
    }

    /// A board in the standard starting layout, White to move.
    pub fn new() -> (board: Board)
        ensures
            board@ == Position::starting(),
    {
        let mut board = Board { squares: [[None; 8]; 8], current_turn: Color::White };
        board.initialize_pieces();
        assert(board@.pieces =~= Position::starting().pieces);
        board
    }

    /// A board without pieces, White to move.
    pub fn empty() -> (board: Board)
        ensures
            board@.pieces == Map::<Square, Piece>::empty(),
            board@.turn == Color::White,
    {
        let board = Board { squares: [[None; 8]; 8], current_turn: Color::White };
        assert(board@.pieces =~= Map::<Square, Piece>::empty());
        board
    }

    /// Overwrites one square of the grid.
    fn place(&mut self, sq: (usize, usize), content: Option<Piece>)
        requires
            on_board(sq),
        ensures
            final(self).turn() == old(self).turn(),
            final(self).cell(sq) == content,
            forall|other: Square|
                on_board(other) && other != sq ==> #[trigger] final(self).cell(other) == old(
                    self,
                ).cell(other),
    {
        self.squares[sq.0][sq.1] = content;
    }

    /// Puts a piece on a square, or clears the square, whatever stood
    /// there.
    pub fn set_piece(&mut self, pos: (usize, usize), piece: Option<Piece>)
        requires
            on_board(pos),
        ensures
            final(self)@.turn == old(self)@.turn,
            final(self)@.pieces == (match piece {
                Some(p) => old(self)@.pieces.insert(pos, p),
                None => old(self)@.pieces.remove(pos),
            }),
    {
        self.place(pos, piece);
        assert(self@.pieces =~= (match piece {
            Some(p) => old(self)@.pieces.insert(pos, p),
            None => old(self)@.pieces.remove(pos),
        }));
    }

    /// Sets up both armies on their two ranks each.
    fn initialize_pieces(&mut self)
        ensures
            final(self).turn() == old(self).turn(),
            forall|sq: Square|
                on_board(sq) ==> #[trigger] final(self).cell(sq) == (if 2 <= sq.0 < 6 {
                    old(self).cell(sq)
                } else {
                    starting_piece(sq)
                }),
    {
        let back_rank = [
            PieceType::Rook,
            PieceType::Knight,
            PieceType::Bishop,
            PieceType::Queen,
            PieceType::King,
            PieceType::Bishop,
            PieceType::Knight,
            PieceType::Rook,
        ];
        let mut i: usize = 0;
        while i < 8
            invariant
                i <= 8,
                self.turn() == old(self).turn(),
                forall|f: int| 0 <= f < 8 ==> back_rank[f] == back_rank_piece(f),
                forall|sq: Square|
                    on_board(sq) ==> #[trigger] self.cell(sq) == (if 2 <= sq.0 < 6 || sq.1 >= i {
                        old(self).cell(sq)
                    } else {
                        starting_piece(sq)
                    }),
            decreases 8 - i,
        {
            self.place((7, i), Some(Piece::new(back_rank[i], Color::White)));
            self.place((6, i), Some(Piece::new(PieceType::Pawn, Color::White)));
            self.place((0, i), Some(Piece::new(back_rank[i], Color::Black)));
            self.place((1, i), Some(Piece::new(PieceType::Pawn, Color::Black)));
            i += 1;
        }
    }

    /// The piece on a square, if any.
    pub fn get_piece(&self, pos: (usize, usize)) -> (piece: Option<&Piece>)
        requires
            on_board(pos),
        ensures
            match piece {
                Some(p) => self@.at(pos) == Some(*p),
                None => self@.at(pos) is None,
            },
    {
        self.squares[pos.0][pos.1].as_ref()
    }

    /// Whether a piece stands on a square.
    fn occupied(&self, sq: (usize, usize)) -> (full: bool)
        requires
            on_board(sq),
        ensures
            full == self@.pieces.contains_key(sq),
    {
        self.squares[sq.0][sq.1].is_some()
    }

    /// Whether every square strictly between two aligned squares is empty.
    fn path_is_clear(&self, from: (usize, usize), to: (usize, usize)) -> (clear: bool)
        requires
            on_board(from),
            on_board(to),
            aligned(from, to),
        ensures
            clear == self@.path_clear(from, to),
    {
        let rank_step = signum(from.0, to.0);
        let file_step = signum(from.1, to.1);
        let steps = if from.0 != to.0 {
            distance(from.0, to.0)
        } else {
            distance(from.1, to.1)
        };
        let mut k: usize = 1;
        while k < steps
            invariant
                on_board(from),
                on_board(to),
                aligned(from, to),
                1 <= k,
                steps <= 7,
                steps == (if from.0 != to.0 {
                    abs_diff(from.0, to.0)
                } else {
                    abs_diff(from.1, to.1)
                }),
                rank_step == (if to.0 > from.0 {
                    1int
                } else if to.0 < from.0 {
                    -1int
                } else {
                    0int
                }),
                file_step == (if to.1 > from.1 {
                    1int
                } else if to.1 < from.1 {
                    -1int
                } else {
                    0int
                }),
                forall|s: Square|
                    #[trigger] between(from, to, s) && abs_diff(from.0, s.0) < k && abs_diff(
                        from.1,
                        s.1,
                    ) < k ==> !self@.pieces.contains_key(s),
            decreases steps - k,
        {
            let rank = shifted(from.0, k, rank_step);
            let file = shifted(from.1, k, file_step);
            assert(between(from, to, (rank, file)));
            if self.occupied((rank, file)) {
                return false;
            }
            assert forall|s: Square|
                #[trigger] between(from, to, s) && abs_diff(from.0, s.0) < k + 1 && abs_diff(
                    from.1,
                    s.1,
                ) < k + 1 implies !self@.pieces.contains_key(s) by {
                if !(abs_diff(from.0, s.0) < k && abs_diff(from.1, s.1) < k) {
                    assert(s == (rank, file));
                }
            }
            k += 1;
        }
        true
    }

    /// The pawn rule for a pawn of `color`.
    fn validate_pawn_move(&self, from: (usize, usize), to: (usize, usize), color: Color) -> (valid:
        bool)
        requires
            on_board(from),
            on_board(to),
        ensures
            valid == self@.pawn_rule(from, to, color),
    {
        let direction: i32 = match color {
            Color::White => -1,
            Color::Black => 1,
        };
        let start_rank: usize = match color {
            Color::White => 6,
            Color::Black => 1,
        };
        let from_rank = from.0 as i32;
        let to_rank = to.0 as i32;
        if from.1 == to.1 {
            if to_rank == from_rank + direction && !self.occupied(to) {
                return true;
            }
            if from.0 == start_rank && to_rank == from_rank + 2 * direction && !self.occupied(to) {
                let middle = ((from_rank + direction) as usize, from.1);
                return !self.occupied(middle);
            }
            false
        } else if distance(from.1, to.1) == 1 && to_rank == from_rank + direction {
            match self.squares[to.0][to.1] {
                Some(target) => target.color != color,
                None => false,
            }
        } else {
            false
        }
    }

    /// The rook rule.
    fn validate_rook_move(&self, from: (usize, usize), to: (usize, usize)) -> (valid: bool)
        requires
            on_board(from),
            on_board(to),
        ensures
            valid == self@.rook_rule(from, to),
    {
        if from.0 != to.0 && from.1 != to.1 {
            return false;
        }
        self.path_is_clear(from, to)
    }

    /// The knight rule.
    fn validate_knight_move(&self, from: (usize, usize), to: (usize, usize)) -> (valid: bool)
        ensures
            valid == Position::knight_rule(from, to),
    {
        let rank_diff = distance(from.0, to.0);
        let file_diff = distance(from.1, to.1);
        (rank_diff == 2 && file_diff == 1) || (rank_diff == 1 && file_diff == 2)
    }

    /// The bishop rule.
    fn validate_bishop_move(&self, from: (usize, usize), to: (usize, usize)) -> (valid: bool)
        requires
            on_board(from),
            on_board(to),
        ensures
            valid == self@.bishop_rule(from, to),
    {
        if distance(from.0, to.0) != distance(from.1, to.1) {
            return false;
        }
        self.path_is_clear(from, to)
    }

    /// The queen rule.
    fn validate_queen_move(&self, from: (usize, usize), to: (usize, usize)) -> (valid: bool)
        requires
            on_board(from),
            on_board(to),
        ensures
            valid == self@.queen_rule(from, to),
    {
        self.validate_rook_move(from, to) || self.validate_bishop_move(from, to)
    }

    /// The king rule.
    fn validate_king_move(&self, from: (usize, usize), to: (usize, usize)) -> (valid: bool)
        ensures
            valid == Position::king_rule(from, to),
    {
        distance(from.0, to.0) <= 1 && distance(from.1, to.1) <= 1
    }

    /// Whether `move_piece` would carry out the move, without carrying it
    /// out.
    pub fn can_move(&self, from: (usize, usize), to: (usize, usize)) -> (ok: bool)
        requires
            on_board(from),
            on_board(to),
        ensures
            ok == self@.accepts(from, to),
    {
        if from.0 == to.0 && from.1 == to.1 {
            return false;
        }
        let piece = match self.squares[from.0][from.1] {
            Some(p) => p,
            None => {
                return false;
            },
        };
        if let Some(dest_piece) = self.squares[to.0][to.1] {
            if dest_piece.color == piece.color {
                return false;
            }
        }
        match piece.piece_type {
            PieceType::Pawn => self.validate_pawn_move(from, to, piece.color),
            PieceType::Rook => self.validate_rook_move(from, to),
            PieceType::Knight => self.validate_knight_move(from, to),
            PieceType::Bishop => self.validate_bishop_move(from, to),
            PieceType::Queen => self.validate_queen_move(from, to),
            PieceType::King => self.validate_king_move(from, to),
        }
    }

    /// Carries out a move that the rules accept, capturing what stood on
    /// `to`; leaves the board as it was and returns `false` otherwise.
    pub fn move_piece(&mut self, from: (usize, usize), to: (usize, usize)) -> (moved: bool)
        requires
            on_board(from),
            on_board(to),
        ensures
            moved == old(self)@.accepts(from, to),
            moved ==> final(self)@ == old(self)@.after(from, to),
            !moved ==> *final(self) == *old(self),
    {
        if !self.can_move(from, to) {
            return false;
        }
        let piece = self.squares[from.0][from.1];
        self.place(from, None);
        self.place(to, piece);
        assert(self@.pieces =~= old(self)@.after(from, to).pieces);
        true
    }
}

} // verus!
