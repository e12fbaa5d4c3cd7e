//! A dice-scoring game engine: five dice rolled up to three times per turn,
//! thirteen scoring categories each used once, and an upper-section bonus.
use vstd::prelude::*;

pub mod hand;
pub mod roll;
pub mod score;
pub mod game;
pub mod view;

verus! {

} // verus!
