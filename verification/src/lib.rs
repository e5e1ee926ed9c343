//! Parsing and canonical rendering of Library-of-Congress call numbers.
//!
//! A call number such as `"HD 1695 .55. K55. V5 2010"` is recovered into a
//! structured [`LC`] record (subject prefix, class number, one or two cutter
//! codes, optional year and note) and rendered back in a single normalized
//! form, `"HD 1695.55 .K55 .V5 2010"`, so that differently spaced and
//! punctuated variants of the same number can be compared.

pub mod assemble;
pub mod decimal;
pub mod fields;
pub mod laws;
pub mod parse;
pub mod record;
pub mod text;

pub use parse::{Cause, Error, Kind};
pub use record::{Genre, Note, Second, Third, Year, LC};
