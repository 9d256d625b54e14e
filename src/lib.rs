//! Sorting a sequence of `u32` in place and counting its runs against a
//! zero sentinel, with both steps proved against their specifications.

pub mod sorting;
pub mod run_length;
