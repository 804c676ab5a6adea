//! Queries that walk the widget tree.
pub mod branch;
pub mod drop;
