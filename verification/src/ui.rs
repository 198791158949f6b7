//! The state of the game's screens and what each key does to it. Drawing
//! and reading the keyboard are left to the program around the library.

pub mod app;
pub mod terminal;
pub mod text;
pub mod welcome;
