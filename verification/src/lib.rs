//! Verified core of the KokoroKoe meeting assistant: the rules, formats and
//! state machines behind its local persistence, prompt framing and security
//! checks.

pub mod codes;
pub mod errors;
pub mod outside;
pub mod persistence;
pub mod prompts;
pub mod security;
pub mod text;
