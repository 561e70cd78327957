//! The content types: what a stretch of a document can hold.

pub mod content;
pub mod flow;
