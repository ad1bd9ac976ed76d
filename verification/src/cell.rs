//! Map cells of the first map format: a fixed kind, a glyph and a feature.
use vstd::prelude::*;
use crate::glyph::Glyph;

verus! {

#[derive(Debug, Copy, Clone, PartialEq, Eq, Structural)]
pub enum CellType {
    Wall,
    Floor,
    Air,
    Water,
    Lava,
}

#[derive(Debug, Copy, Clone, PartialEq, Eq, Structural)]
pub enum CellFeature {
    Door(bool),
    StairsUp,
    StairsDown,
}

#[derive(Debug, Copy, Clone, PartialEq, Eq, Structural)]
pub struct Cell {
    pub type_: CellType,
    pub glyph: Glyph,
    pub feature: Option<CellFeature>,
}

impl Cell {
    /// Walls and air hide what is behind them.
    pub fn can_see_through(&self) -> (b: bool)
        ensures
            b == !(self.type_ == CellType::Wall || self.type_ == CellType::Air),
    {
        match self.type_ {
            CellType::Wall | CellType::Air => false,
            _ => true,
        }
    }

    /// Only walls stop movement.
    pub fn can_pass_through(&self) -> (b: bool)
        ensures
            b == (self.type_ != CellType::Wall),
    {
        match self.type_ {
            CellType::Wall => false,
            _ => true,
        }
    }
}

pub fn wall() -> (c: Cell)
    ensures
        c == (Cell { type_: CellType::Wall, glyph: Glyph::Wall, feature: None }),
{
    Cell { type_: CellType::Wall, glyph: Glyph::Wall, feature: None }
}

pub fn floor() -> (c: Cell)
    ensures
        c == (Cell { type_: CellType::Floor, glyph: Glyph::Floor, feature: None }),
{
    Cell { type_: CellType::Floor, glyph: Glyph::Floor, feature: None }
}

pub fn air() -> (c: Cell)
    ensures
        c == (Cell { type_: CellType::Air, glyph: Glyph::Nothing, feature: None }),
{
    Cell { type_: CellType::Air, glyph: Glyph::Nothing, feature: None }
}

} // verus!
