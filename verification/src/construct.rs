//! The constructs of flow, one state machine each.

pub mod blank_line;
pub mod code_fenced;
pub mod code_indented;
pub mod definition;
pub mod heading_atx;
pub mod heading_setext;
pub mod html_flow;
pub mod paragraph;
pub mod partial_whitespace;
pub mod thematic_break;
