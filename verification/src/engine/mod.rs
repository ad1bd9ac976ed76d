//! Display backends: what of them is logic rather than terminal I/O.
pub mod canvas;
pub mod rustbox;
pub mod tcod;
pub mod glium;
pub mod tui;
