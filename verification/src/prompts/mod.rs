//! Prompt framing: the fixed catalog and the bounded, untrusted context a
//! prompt carries.

pub mod catalog;
pub mod context;
