//! Joining a fixed collection of string fragments with a separator into a
//! caller-supplied byte buffer, in two passes: an exact size computation,
//! then a write-once fill of a buffer of exactly that size.

pub mod fill;
pub mod laws;
pub mod model;
pub mod size;

pub use fill::{copy_bytes, join_strings, joined_array};
pub use size::concated_size;
