use vstd::prelude::*;

verus! {

#[derive(Clone, Copy, PartialEq, Eq, Structural, Hash, Debug)]
pub enum PieceType {
    King,
    Queen,
    Rook,
    Bishop,
    Knight,
    Pawn,
}

#[derive(Clone, Copy, PartialEq, Eq, Structural, Debug)]
pub enum Color {
    White,
    Black,
}

impl Color {
    /// The other side.
    pub open spec fn spec_opposite(&self) -> Color {
        match self {
            Color::White => Color::Black,
            Color::Black => Color::White,
        }
    }

    #[verifier::when_used_as_spec(spec_opposite)]
    pub fn opposite(&self) -> (other: Color)
        ensures
            other == self.spec_opposite(),
    {
        match self {
            Color::White => Color::Black,
            Color::Black => Color::White,
        }
    }
}

#[derive(Clone, Copy, PartialEq, Eq, Structural, Debug)]
pub struct Piece {
    pub piece_type: PieceType,
    pub color: Color,
}

/// Position of a piece type within the block of six chess symbols of one
/// color, which Unicode orders king, queen, rook, bishop, knight, pawn.
pub open spec fn symbol_offset(piece_type: PieceType) -> int {
    match piece_type {
        PieceType::King => 0,
        PieceType::Queen => 1,
        PieceType::Rook => 2,
        PieceType::Bishop => 3,
        PieceType::Knight => 4,
        PieceType::Pawn => 5,
    }
}

/// Code point of the figurine that stands for a piece: the white pieces
/// start at U+2654, the black pieces six code points later.
pub open spec fn symbol_code(piece: Piece) -> int {
    0x2654 + symbol_offset(piece.piece_type) + if piece.color == Color::White {
        0int
    } else {
        6int
    }
}

impl Piece {
    /// The Unicode figurine of a piece.
    pub open spec fn symbol(self) -> char {
        match self.color {
            Color::White => match self.piece_type {
                PieceType::King => '\u{2654}',
                PieceType::Queen => '\u{2655}',
                PieceType::Rook => '\u{2656}',
                PieceType::Bishop => '\u{2657}',
                PieceType::Knight => '\u{2658}',
                PieceType::Pawn => '\u{2659}',
            },
            Color::Black => match self.piece_type {
                PieceType::King => '\u{265A}',
                PieceType::Queen => '\u{265B}',
                PieceType::Rook => '\u{265C}',
                PieceType::Bishop => '\u{265D}',
                PieceType::Knight => '\u{265E}',
                PieceType::Pawn => '\u{265F}',
            },
        }
    }

    pub fn new(piece_type: PieceType, color: Color) -> (piece: Piece)
        ensures
            piece.piece_type == piece_type,
            piece.color == color,
    {
        Piece { piece_type, color }
    }

    /// The Unicode figurine of this piece.
    pub fn to_char(&self) -> (symbol: char)
        ensures
            symbol == self.symbol(),
            symbol as int == symbol_code(*self),
    {
        match self.color {
            Color::White => match self.piece_type {
                PieceType::King => '\u{2654}',
                PieceType::Queen => '\u{2655}',
                PieceType::Rook => '\u{2656}',
                PieceType::Bishop => '\u{2657}',
                PieceType::Knight => '\u{2658}',
                PieceType::Pawn => '\u{2659}',
            },
            Color::Black => match self.piece_type {
                PieceType::King => '\u{265A}',
                PieceType::Queen => '\u{265B}',
                PieceType::Rook => '\u{265C}',
                PieceType::Bishop => '\u{265D}',
                PieceType::Knight => '\u{265E}',
                PieceType::Pawn => '\u{265F}',
            },
        }
    }
}

} // verus!
