//! Captures ANSI-colored text into a character grid and animates it as falling sand.
pub mod color;
pub mod grid;
pub mod sim;
pub mod interp;
pub mod render;
