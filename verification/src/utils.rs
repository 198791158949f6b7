use crate::game::board::{on_board, Square};
use vstd::prelude::*;
use vstd::string::*;

verus! {

/// The letter `a` to `h` of a file index.
pub open spec fn file_letter(file: usize) -> char
    recommends
        file < 8,
{
    ((97 + file) as u8) as char
}

/// The digit `8` down to `1` of a rank index: rank index 0 is the eighth
/// rank.
pub open spec fn rank_digit(rank: usize) -> char
    recommends
        rank < 8,
{
    ((56 - rank) as u8) as char
}

/// The two-character name of a square, such as `e2`.
pub open spec fn coordinate_text(sq: Square) -> Seq<char> {
    seq![file_letter(sq.1), rank_digit(sq.0)]
}

/// The file index that a letter names, in either case.
pub open spec fn file_index(letter: char) -> Option<usize> {
    if 'a' <= letter <= 'h' {
        Some((letter as u32 - 97) as usize)
    } else if 'A' <= letter <= 'H' {
        Some((letter as u32 - 65) as usize)
    } else {
        None
    }
}

/// The rank index that a digit names.
pub open spec fn rank_index(digit: char) -> Option<usize> {
    if '1' <= digit <= '8' {
        Some((56 - digit as u32) as usize)
    } else {
        None
    }
}

/// The square that a text names: exactly two characters, a file letter
/// `a`-`h` in either case and then a rank digit `1`-`8`.
pub open spec fn parsed_coordinate(text: Seq<char>) -> Option<Square> {
    if text.len() == 2 && file_index(text[0]) is Some && rank_index(text[1]) is Some {
        Some((rank_index(text[1])->0, file_index(text[0])->0))
    } else {
        None
    }
}

/// Names a square in coordinate notation.
pub fn coordinate_to_string(pos: (usize, usize)) -> (name: String)
    requires
        on_board(pos),
    ensures
        name@ == coordinate_text(pos),
{
    proof {
        reveal_strlit("abcdefgh");
        reveal_strlit("87654321");
    }
    let file = "abcdefgh".substring_char(pos.1, pos.1 + 1);
    let rank = "87654321".substring_char(pos.0, pos.0 + 1);
    let name = String::from_str(file).concat(rank);
    assert(name@ =~= coordinate_text(pos));
    name
}

/// The square that a file letter and a rank digit name, if they are such.
pub fn square_named(letter: char, digit: char) -> (parsed: Option<(usize, usize)>)
    ensures
        parsed == parsed_coordinate(seq![letter, digit]),
{
    let file = letter as u32;
    let rank = digit as u32;
    let file_idx = if 97 <= file && file <= 104 {
        file - 97
    } else if 65 <= file && file <= 72 {
        file - 65
    } else {
        return None;
    };
    if rank < 49 || rank > 56 {
        return None;
    }
    Some(((56 - rank) as usize, file_idx as usize))
}

/// Reads a square in coordinate notation; `None` for any other text.
pub fn parse_coordinate(coord: &str) -> (parsed: Option<(usize, usize)>)
    ensures
        parsed == parsed_coordinate(coord@),
{
    if coord.unicode_len() != 2 {
        return None;
    }
    square_named(coord.get_char(0), coord.get_char(1))
}

/// Every square's name reads back as that square.
pub proof fn lemma_coordinate_round_trip(sq: Square)
    requires
        on_board(sq),
    ensures
        parsed_coordinate(coordinate_text(sq)) == Some(sq),
{
}

/// Whatever `parse_coordinate` accepts is a square of the board.
pub proof fn lemma_parsed_coordinate_on_board(text: Seq<char>)
    ensures
        parsed_coordinate(text) is Some ==> on_board(parsed_coordinate(text)->0),
{
}

} // verus!
