//! Logic of a course-selection assistant: merging settings into a
//! configuration, reading course rows, and deciding what happens after each
//! outside step of a session.
use vstd::prelude::*;

pub mod config;
pub mod course;
pub mod flow;
pub mod text;

verus! {
} // verus!
