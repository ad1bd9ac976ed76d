//! Actors of the first world format.
use vstd::prelude::*;

verus! {

/// Whether an actor is on the player's side.
#[derive(Debug, Copy, Clone, PartialEq, Eq, Structural)]
pub enum Disposition {
    Friendly,
    Enemy,
}

} // verus!
