pub mod catalog;
pub mod incremental;
pub mod laws;
pub mod quantity;
pub mod rules;
pub mod timer;
pub mod types;
