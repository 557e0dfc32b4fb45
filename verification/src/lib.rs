use vstd::prelude::*;

pub mod bitboard;
pub mod bits;
pub mod board;
pub mod coords;
pub mod eval;
pub mod game;
pub mod gen;
pub mod goal;
pub mod info;
pub mod laws;
pub mod movement;
pub mod moves;
pub mod notation;
pub mod partial_game;
pub mod piece;
pub mod strategy;
pub mod tile;
pub mod traversal;
pub mod time;
pub mod wdl;

verus! {

/// The timeline coordinate of a board.
pub type Layer = isize;

/// The time coordinate of a board.
pub type Time = isize;

/// A coordinate within a board.
pub type Physical = i8;

} // verus!
