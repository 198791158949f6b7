//! The decision engine: board analysis, evaluation, move ranking and the
//! tree search built on them.

pub mod analysis;
pub mod clock;
pub mod escape;
pub mod evaluation;
pub mod ranking;
pub mod rl;
pub mod sampling;
