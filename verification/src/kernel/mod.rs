//! Kernel services: the table of open objects and the list of processes.

pub mod open_objects;
pub mod process_manager;
