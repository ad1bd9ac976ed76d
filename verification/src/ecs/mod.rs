//! Components of game entities.
pub mod components;
pub mod globals;
pub mod party;
pub mod world;
