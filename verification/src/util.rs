//! Helpers that the constructs share.

pub mod span;
