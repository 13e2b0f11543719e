//! Othello: the rules of the game, the search that recommends a move, a
//! compact text form of the board, and a recorded game played step by step.
//!
//! A board is an 8 by 8 array of piece values; the contracts speak of it through
//! its 64 cells in row-major order (`gameplay::game::cells`). The laws that
//! relate the functions to each other are proof functions, most of them in
//! `gameplay::laws`.

pub mod agent;
mod chance;
pub mod gameplay;
pub mod simulate;
