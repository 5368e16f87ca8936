//! The shell's view of the line being edited.

pub mod line_context;
