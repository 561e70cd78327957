//! Helpers of the handlers.

pub mod check_quote;
pub mod decode;
pub mod safe;
