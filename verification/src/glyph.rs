//! The glyphs that things are drawn with.
use vstd::prelude::*;
use crate::color::RGB;

verus! {

#[derive(Debug, Copy, Clone, PartialEq, Eq, Structural, Hash)]
pub enum Glyph {
    Player,
    Putit,
    Prinny,
    Floor,
    Wall,
    DebugDraw,
    Item,
    Nothing,
}

/// How a glyph shows on a text display.
#[derive(Debug, Copy, Clone, PartialEq, Eq, Structural)]
pub struct RenderGlyph {
    pub ch: char,
    pub color_fg: RGB,
    pub color_bg: RGB,
}

} // verus!
