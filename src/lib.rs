//! Definition-level inspection of columnar table files.
//!
//! The library decides which files are accepted, turns the hybrid
//! run-length / bit-packed level streams of data pages into levels, and
//! renders the byte-exact text that is printed for each column.

pub mod error;
pub mod render;
pub mod levels;
pub mod hybrid;
pub mod page;
pub mod stream;

