//! Game-logic library of a small roguelike: colors, keys, dungeon layout,
//! turn scheduling, message log and entity components, with their contracts.
pub mod color;
pub mod data;
pub mod keys;
pub mod engine;
pub mod ai;
pub mod point;
pub mod drawcalls;
pub mod util;
pub mod ecs;
pub mod ids;
pub mod random;
pub mod graphics;
pub mod chunk;
pub mod command;
pub mod cell;
pub mod glyph;
pub mod logic;
pub mod gen;
pub mod item;
pub mod actor;
