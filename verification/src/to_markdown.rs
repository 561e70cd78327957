//! What a serializer that writes a syntax tree back to Markdown needs of
//! this library: the stack of constructs that it is in, and the escaping
//! that keeps text from being read as syntax.

pub mod association;
pub mod construct_name;
pub mod handle;
pub mod message;
pub mod node;
pub mod read_back;
pub mod state;
pub mod text;
pub mod util;
