//! A document's markup: where it is, what it is, and how edits are undone.
pub mod annotation;
pub mod geometry;
pub mod history;
pub mod laws;
pub mod store;
