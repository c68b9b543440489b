//! A full-rules chess core: board geometry, move generation, the move
//! application state machine with termination detection, and FEN/SAN notation.
pub mod board;
pub mod coord;
pub mod fen;
pub mod game;
pub mod lemmas;
pub mod move_gen;
pub mod mv;
pub mod piece;
pub mod player;
pub mod san;
