//! A flow-level tokenizer for CommonMark documents, together with the
//! escaping helpers that a Markdown serializer needs.
//!
//! Input is turned into a sequence of character codes, the flow state machine
//! turns the codes into a log of enter/exit events, and chunks of content are
//! tokenized a second time once the outer structure is known.
//! The events are then resolved: what is known only by what stands in
//! front of it, such as the underline of a heading, is made of the events
//! that are there.

pub mod code;
pub mod construct;
pub mod content;
pub mod event;
pub mod machine;
pub mod matching;
pub mod resolve;
pub mod state;
pub mod subtokenize;
pub mod to_markdown;
pub mod tokenizer;
pub mod util;

