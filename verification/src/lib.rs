//! A task collection shown as an editable tree of part-of relationships.
//!
//! The crate keeps three things in step: a cache of task records keyed by
//! identifier, a display tree of rows, and an index from identifiers to the
//! handles of their rows. Talking to the task store and to the widgets is left
//! to the caller, who hands over what the store replied.

pub mod task;
pub mod text;
pub mod cache;
pub mod store;
pub mod row;
pub mod forest;
pub mod tree;
pub mod laws;
