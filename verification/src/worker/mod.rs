//! What the terminal emulator does with input and output.

pub mod canonical;
pub mod cursor;
pub mod echo;
pub mod input;
pub mod key;
