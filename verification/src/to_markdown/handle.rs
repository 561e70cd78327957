//! The handlers: one for each kind of node.

pub mod definition;
