//! The terminal emulator: colours, the semantic screen model, its parser and its
//! presentation.

pub mod action;
pub mod ansi;
pub mod canvas;
pub mod color;
pub mod display;
pub mod glyph;
pub mod laws;
pub mod model;
pub mod place;
pub mod status;
pub mod token;
