//! A chess position model with pseudo-legal move rules, a board analyzer, a
//! heuristic evaluator, a move ranker and a Monte-Carlo tree search engine.
//!
//! Every executable function carries a contract over a mathematical model of
//! its data: a board is viewed as a [`game::board::Position`], scores are
//! integers in thousandths of a point.

pub mod engine;
pub mod game;
pub mod ui;
pub mod utils;
