//! The resolved configuration that the record operations consume.
use vstd::prelude::*;
use crate::translation::TranslationTable;

verus! {

/// Where the records live, how new ones are written, and how phrases are translated.
pub struct Config {
    /// The record directory.
    pub record_path: String,
    /// The template directory.
    pub template_path: String,
    pub template_language: String,
    pub template_file: String,
    /// The document format of new records: `md` or `rst`.
    pub template_format: String,
    /// The template of new records.
    pub template_string: String,
    /// Translations of the canonical English phrases.
    pub template_references: TranslationTable,
    /// The status of a new record when none is asked for.
    pub default_status: String,
}

} // verus!
