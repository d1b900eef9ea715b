//! A configuration-driven tokenizer.
//!
//! A scan turns a sequence of characters into records, each record holding
//! fields, each field holding classified values: digit runs, identifier-like
//! runs, quoted text, preserved whitespace characters, and single punctuation
//! characters.  Which characters close a field, how records end, and whether
//! quoting and spacing are recognized is decided by an immutable [`data::Options`]
//! value supplied by the caller.

pub mod chars;
pub mod data;
pub mod model;
pub mod parsing;
pub mod laws;
