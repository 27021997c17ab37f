//! A tic-tac-toe engine: the board, win and draw detection, and a bot that
//! picks its moves by exhaustive minimax search.

pub mod board;
pub mod display;
pub mod error;
pub mod game;
pub mod geomath;
pub mod input;
pub mod session;
