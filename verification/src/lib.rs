//! Infers the dialect of a delimited text file (delimiter, quoting, escaping,
//! comments, preamble, header row, fixed or flexible width) and a type for
//! each column, from a bounded sample of the file's bytes.
//!
//! Every stage is a function from plain values to plain values with a
//! contract over a mathematical model of the sample: a sequence of lines,
//! each a sequence of bytes.

pub mod ascii;
pub mod comment;
pub mod delimiter;
pub mod error;
pub mod field_type;
pub mod fields;
pub mod header;
pub mod laws;
pub mod metadata;
pub mod model;
pub mod quoting;
pub mod reader;
pub mod report;
pub mod sample;
pub mod shape;
pub mod snip;
pub mod sniffer;
pub mod tally;

pub use error::SniffError;
pub use field_type::Type;
pub use metadata::{Comment, Dialect, Escape, Header, Metadata, Quote, Terminator};
pub use sniffer::Sniffer;
