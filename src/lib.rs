pub mod classify;
pub mod file_manager;
pub mod grouping;
pub mod laws;
pub mod models;
pub mod names;
pub mod order;
