//! A small todo-list library: two ordered lists of single-line text items
//! (pending and done), with the operations a command-line manager needs.
//!
//! The lists live in two line-delimited text files; this crate holds the
//! record management itself (splitting and joining lines, blank-line
//! filtering, and the add / done / undone / remove operations), each with a
//! contract over sequences of characters.

pub mod laws;
pub mod lines;
pub mod store;
