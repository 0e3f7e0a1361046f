//! Byte-stream rendering in the manner of `cat`: line numbering, blank-run
//! squeezing, line-end markers, and visible tabs and control bytes.
pub mod laws;
pub mod number;
pub mod options;
pub mod splitter;
pub mod transform;
