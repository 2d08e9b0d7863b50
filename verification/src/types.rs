//! Geometry types: a step direction, a 2D coordinate, and a sparse grid map.

use vstd::prelude::*;

pub mod coord_2d;

pub use coord_2d::Coord2d;
pub use coord_2d::Coord2dMap;

verus! {

/// One of the four axis-aligned step directions on the grid.
#[derive(Debug, Clone, Copy, PartialEq, Eq, Structural, Hash)]
pub enum Direction {
    UP,
    RIGHT,
    DOWN,
    LEFT,
}

} // verus!
