//! A verified parser and validator for blank-line-delimited key:value records.
//!
//! The input is a stream of characters holding `key:value` fields separated by
//! spaces or newlines, with blank lines separating records. The library
//! tokenizes the characters, assembles records, and counts how many records
//! hold the required field set and how many additionally pass the per-field
//! validation rules.

pub mod token;
pub mod record;
pub mod validate;
pub mod pipeline;
