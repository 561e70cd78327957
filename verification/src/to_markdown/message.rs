//! What a serializer hands back when it cannot write a node.

use vstd::prelude::*;
use crate::to_markdown::construct_name::ConstructName;

verus! {

/// Why a node could not be written.
#[derive(Debug)]
pub struct Message {
    /// The construct that could not be written.
    pub construct: ConstructName,
    /// The reason, for a reader.
    pub reason: String,
    /// The category of the message.
    pub rule_id: String,
    /// The namespace of the message.
    pub source: String,
}

} // verus!
