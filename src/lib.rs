//! A four-dimensional twisty puzzle: the facelets on the boundary of a hypercube, the
//! quarter turns of its layers, a queue of moves animated one after another, and a
//! perspective projection of the facelets into a depth-sorted drawing list.
use vstd::prelude::*;

pub mod geometry;
pub mod action;
pub mod puzzle;
pub mod projection;
pub mod display;

pub use puzzle::Tesseract;

verus! {

} // verus!
