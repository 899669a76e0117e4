//! Markdown-first persistence: document formats, identity and revision rules,
//! discovery bookkeeping, journal replay and page cursors.

pub mod front_matter;
pub mod lines;
pub mod project_document;
pub mod project_index;
pub mod project_store;
pub mod session_journal;
pub mod session_store;
pub mod session_document;
pub mod summary_store;
pub mod transcript_store;
pub mod transcript_service;
pub mod transcript_index;
pub mod session_index;
pub mod session_writer;
pub mod session_lifecycle;
pub mod derived_index;
pub mod discovery_order;
pub mod layout;
pub mod settings;
