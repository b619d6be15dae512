//! Named colors used by entities and log messages.
//!
//! The engine only records which color a glyph or message carries; turning a
//! name into an RGB triple is the renderer's business.

use vstd::prelude::*;

verus! {

/// A named color, as attached to entity glyphs and log messages.
#[derive(Clone, Copy, Debug, PartialEq, Eq, Structural)]
pub enum Color {
    White,
    Black,
    Red,
    DarkRed,
    LightRed,
    Orange,
    Yellow,
    Green,
    DesaturatedGreen,
    DarkerGreen,
    Violet,
    LightViolet,
    LightGrey,
}

} // verus!
