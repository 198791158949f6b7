use vstd::prelude::*;

verus! {

/// An ordered pair of squares, each a (rank, file) pair. A move carries no
/// record of what it captured.
#[derive(Clone, Copy, Debug)]
pub struct Move {
    pub from: (usize, usize),
    pub to: (usize, usize),
}

impl Move {
    pub fn new(from: (usize, usize), to: (usize, usize)) -> (mv: Move)
        ensures
            mv.from == from,
            mv.to == to,
    {
        Move { from, to }
    }
}

} // verus!
