//! The simulation core of a small arcade game: a swimmer in a sea current,
//! rocks, sea birds that attack, and a health bar that decides the outcome.

pub mod fixed;
pub mod curves;
pub mod vector;
pub mod settings;
pub mod stream;
pub mod blood_bar;
pub mod rocks;
pub mod palm_trees;
pub mod player;
pub mod game;
pub mod blood;
pub mod behavior;
pub mod sea_birds;
pub mod world;

use vstd::prelude::*;

verus! {

/// The directory under which the game's assets lie.
pub fn root() -> (r: &'static str)
    ensures
        r@ == "./"@,
{
    "./"
}

} // verus!
