//! What the map's cells are made of and how they are drawn.
pub mod cell;
