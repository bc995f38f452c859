//! The constants of the game, in fixed-point raw units unless a comment says
//! otherwise, and the loaders that turn level data into game objects.

use vstd::prelude::*;

pub mod blood;
pub mod blood_bar;
pub mod palm_trees;
pub mod player;
pub mod rocks;
pub mod sea_birds;
pub mod stream;
pub mod text;

verus! {

/// Left edge of the box around the beach ellipse.
pub const BEACH_X: i64 = 500_000_000;

/// Top edge of the box around the beach ellipse.
pub const BEACH_Y: i64 = -500_000_000;

/// Width of the box around the beach ellipse.
pub const BEACH_WIDTH: i64 = 1_000_000_000;

/// Height of the box around the beach ellipse.
pub const BEACH_HEIGHT: i64 = 1_500_000_000;

/// How strongly the water slows a swimmer: 0.0004.
pub const WATER_FRICTION: i64 = 400;

/// Whether the level editor is switched on.
pub const EDIT: bool = false;

/// Why level data was refused.
#[derive(Clone, Copy, PartialEq, Eq, Debug, Structural)]
pub enum LoadError {
    /// The numbers do not come in whole tuples: the last tuple is cut short.
    Incomplete,
    /// A piece of the text does not spell a number.
    Malformed,
}

} // verus!
