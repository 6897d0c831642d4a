//! Decision records: locating records by number, rewriting the status section of a
//! record, cross-linking records, and creating new ones.

pub mod append_laws;
pub mod config;
pub mod creator;
pub mod record_link;
pub mod records;
pub mod relations;
pub mod setup;
pub mod status_block;
pub mod text;
pub mod translation;
