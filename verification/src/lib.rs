//! Incremental splitter that turns one pretty-printed JSON array document into
//! JSON Lines output: one normalized line of text per top-level array element.
//!
//! The splitting engine tracks nested bracket depth (and, in byte mode, string
//! quoting) well enough to decide when a top-level element has just closed; it
//! never builds a JSON value tree. File reading, argument handling and the
//! output sink live outside this library and hand it plain characters, lines
//! and strings.

pub mod brackets;
pub mod errors;
pub mod json_object;
pub mod line_processor;
pub mod processor;
pub mod reader;
pub mod text;
