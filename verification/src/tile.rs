//! Per-cell terrain state.

use vstd::prelude::*;

verus! {

/// One map cell. `blocked` stops movement, `block_sight` stops vision; the
/// two are independent so that door-like terrain stays representable.
/// `explored` is set once the player has seen the cell and is only ever
/// raised, never cleared.
#[derive(Clone, Copy, Debug, PartialEq, Eq, Structural)]
pub struct Tile {
    pub blocked: bool,
    pub block_sight: bool,
    pub explored: bool,
}

impl Tile {
    /// A walkable, see-through, unexplored cell.
    pub fn empty() -> (t: Tile)
        ensures
            t == (Tile { blocked: false, block_sight: false, explored: false }),
    {
        Tile { blocked: false, block_sight: false, explored: false }
    }

    /// A solid wall cell.
    pub fn wall() -> (t: Tile)
        ensures
            t == (Tile { blocked: true, block_sight: true, explored: false }),
    {
        Tile { blocked: true, block_sight: true, explored: false }
    }
}

} // verus!
