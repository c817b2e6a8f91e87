//! Verified parsing engine for a lightweight mathematical markup language.
//!
//! Source text is addressed by (line, column) positions.  A `BlockRange` is
//! the queue of not-yet-consumed line spans; every parsing function takes the
//! remaining range by value and hands back the rest, so a failed speculative
//! alternative can promise that it left the input untouched.

pub mod document;
pub mod scan;
pub mod strutil;
pub mod parse;
pub mod inline;
pub mod model;
pub mod block;
pub mod compile;
