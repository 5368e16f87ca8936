//! Terminal sessions: their names, their control records, their screens and
//! their manager.

pub mod control;
pub mod endpoints;
pub mod env;
pub mod manager;
pub mod mux;
pub mod path;
pub mod replay;
pub mod screen;
pub mod state;
