//! Spreadsheet search and report assembly.

pub mod clock;
pub mod excel;
pub mod grid;
pub mod knubs;
pub mod laws;
pub mod models;
pub mod query;
pub mod report;
pub mod search;
pub mod text;
pub mod threads;
pub mod xlsx;

pub use vstd::hash_map::StringHashMap;
