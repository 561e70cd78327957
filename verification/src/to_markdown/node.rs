//! The nodes of the syntax tree that this library can write.

use vstd::prelude::*;

verus! {

/// A definition: what a reference with the same identifier points to.
///
/// ```markdown
/// [a]: b "c"
/// ```
#[derive(Debug)]
pub struct Definition {
    /// Where the definition points to.
    pub url: String,
    /// What a reader is told of where it points to.
    pub title: Option<String>,
    /// What references are matched with: a value of the source, with its
    /// character escapes and character references as they were written.
    pub identifier: String,
    /// The identifier as a reader sees it: with its character escapes and
    /// character references read.
    pub label: Option<String>,
}

} // verus!
