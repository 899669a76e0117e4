//! Command authorization, workspace path rules and redaction of technical
//! detail before it can leave the process.

pub mod authorization;
pub mod redaction;
pub mod workspace;
pub mod credentials;
