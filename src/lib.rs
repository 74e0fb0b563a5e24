//! A falling-block puzzle engine: a board of locked cells, square pieces
//! that move, turn and fall, and the rules that lock them and place the
//! next one.
use vstd::prelude::*;

pub mod piece;
pub mod board;
pub mod game;

verus! {

} // verus!
