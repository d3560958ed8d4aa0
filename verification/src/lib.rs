//! Field extraction from the HTTP log lines that HAProxy writes.
//!
//! A line is taken apart by a cursor that hands out slices of it
//! ([`slicer`]), following the grammar of the log format ([`grammar`]), into
//! an entry of named fields ([`entry`]). Fields are selected by name
//! ([`field`]), and what they select from an entry is joined into a line of
//! output ([`cut`]). What a number written as text denotes is said in
//! [`number`], and [`substr`] cuts the text of names into its parts.

pub mod cut;
pub mod entry;
pub mod field;
pub mod grammar;
pub mod number;
pub mod slicer;
pub mod substr;

pub use entry::LogEntry;
