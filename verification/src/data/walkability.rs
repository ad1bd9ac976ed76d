//! Whether monsters block a position for movement.
use vstd::prelude::*;
use crate::ai::Entity;

verus! {

#[derive(Debug, Eq, PartialEq, Copy, Clone, Structural)]
pub enum Walkability {
    MonstersWalkable,
    MonstersBlocking,
}

impl Walkability {
    /// Whether a position can be walked onto, given the monster standing
    /// there, if any.
    pub fn can_walk(&self, mob_at_pos: Option<Entity>) -> (b: bool)
        ensures
            b == (*self == Walkability::MonstersWalkable || mob_at_pos is None),
    {
        match *self {
            Walkability::MonstersWalkable => { true },
            Walkability::MonstersBlocking => { mob_at_pos.is_none() },
        }
    }
}

} // verus!
