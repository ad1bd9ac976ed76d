//! Game rules that act on the world.
pub mod quest;
