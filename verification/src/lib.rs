//! A verified tic-tac-toe engine: a 3x3 board with win/draw detection,
//! eight-fold symmetry canonicalization, and strategy selection up to
//! an exhaustive minimax search memoized on canonical board states.

pub mod board;
pub mod game;
pub mod model;
pub mod search;
pub mod sym;
