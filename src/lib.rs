//! Conway's Game of Life on a fixed 50 x 25 board that does not wrap.
use vstd::prelude::*;

pub mod cell;
pub mod board;
pub mod laws;

verus! {

} // verus!
