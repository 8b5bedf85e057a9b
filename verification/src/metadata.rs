//! What sniffing finds out about a file: its dialect and the types of its columns.

use vstd::prelude::*;
use vstd::std_specs::convert::FromSpecImpl;

use crate::field_type::Type;

verus! {

/// Whether a file has a header row, and how many rows precede it.
#[derive(Clone, Copy, Debug, PartialEq, Eq, Structural)]
pub struct Header {
    /// Whether the file has a row of column labels.
    pub has_header_row: bool,
    /// The number of rows before the header row if there is one, else
    /// before the first data row.
    pub num_preamble_rows: usize,
}

/// The quoting style of a file.
#[derive(Clone, Copy, Debug, PartialEq, Eq, Structural)]
pub enum Quote {
    /// Fields may be enclosed in the given byte.
    Enabled(u8),
    /// Fields are not quoted.
    Disabled,
}

/// The byte that escapes a quote inside a quoted field, if there is one.
#[derive(Clone, Copy, Debug, PartialEq, Eq, Structural)]
pub enum Escape {
    /// The given byte makes the byte after it literal.
    Enabled(u8),
    /// No escape byte; a quote inside a quoted field is written twice.
    Disabled,
}

/// The byte that starts a comment line, if there is one.
#[derive(Clone, Copy, Debug, PartialEq, Eq, Structural)]
pub enum Comment {
    /// Lines that start with the given byte are comments.
    Enabled(u8),
    /// The file has no comment lines.
    Disabled,
}

/// How records end.
#[derive(Clone, Copy, Debug, PartialEq, Eq, Structural)]
pub enum Terminator {
    /// `\r`, `\n` or `\r\n` ends a record.
    CRLF,
    /// The given byte ends a record.
    Any(u8),
}

impl Quote {
    /// The quote byte, if fields are quoted.
    pub open spec fn byte(self) -> Option<u8> {
        match self {
            Quote::Enabled(q) => Some(q),
            Quote::Disabled => None,
        }
    }

    /// Whether `b` is the quote byte.
    pub fn is(&self, b: u8) -> (r: bool)
        ensures
            r == (self.byte() == Some(b)),
    {
        match self {
            Quote::Enabled(q) => *q == b,
            Quote::Disabled => false,
        }
    }
}

impl Escape {
    /// The escape byte, if there is one.
    pub open spec fn byte(self) -> Option<u8> {
        match self {
            Escape::Enabled(e) => Some(e),
            Escape::Disabled => None,
        }
    }

    /// Whether `b` is the escape byte.
    pub fn is(&self, b: u8) -> (r: bool)
        ensures
            r == (self.byte() == Some(b)),
    {
        match self {
            Escape::Enabled(e) => *e == b,
            Escape::Disabled => false,
        }
    }
}

impl Comment {
    /// The comment byte, if there is one.
    pub open spec fn byte(self) -> Option<u8> {
        match self {
            Comment::Enabled(c) => Some(c),
            Comment::Disabled => None,
        }
    }
}

impl From<Escape> for Option<u8> {
    fn from(escape: Escape) -> (r: Option<u8>) {
        match escape {
            Escape::Enabled(chr) => Some(chr),
            Escape::Disabled => None,
        }
    }
}

impl FromSpecImpl<Escape> for Option<u8> {
    open spec fn obeys_from_spec() -> bool {
        true
    }

    open spec fn from_spec(escape: Escape) -> Option<u8> {
        escape.byte()
    }
}

impl From<Comment> for Option<u8> {
    fn from(comment: Comment) -> (r: Option<u8>) {
        match comment {
            Comment::Enabled(chr) => Some(chr),
            Comment::Disabled => None,
        }
    }
}

impl FromSpecImpl<Comment> for Option<u8> {
    open spec fn obeys_from_spec() -> bool {
        true
    }

    open spec fn from_spec(comment: Comment) -> Option<u8> {
        comment.byte()
    }
}

/// The syntactic conventions of a delimited text file.
#[derive(Clone, Copy, Debug, PartialEq, Eq, Structural)]
pub struct Dialect {
    /// The byte that separates fields.
    pub delimiter: u8,
    /// Header row and preamble.
    pub header: Header,
    /// How records end.
    pub terminator: Terminator,
    /// The quoting style.
    pub quote: Quote,
    /// Whether a doubled quote inside a quoted field stands for one quote.
    pub doublequote_escapes: bool,
    /// The escape byte, if any.
    pub escape: Escape,
    /// The comment byte, if any.
    pub comment: Comment,
    /// Whether records may differ in their number of fields.
    pub flexible: bool,
}

impl Dialect {
    /// The delimiter, the quote, the escape and the comment byte are four
    /// different bytes, as far as they are set, and the two ways of escaping
    /// a quote are not both in use.
    pub open spec fn well_formed(self) -> bool {
        &&& self.quote.byte() != Some(self.delimiter)
        &&& self.escape.byte() != Some(self.delimiter)
        &&& self.comment.byte() != Some(self.delimiter)
        &&& self.quote.byte() is Some ==> self.quote.byte() != self.escape.byte()
        &&& self.quote.byte() is Some ==> self.quote.byte() != self.comment.byte()
        &&& self.escape.byte() is Some ==> self.escape.byte() != self.comment.byte()
        &&& !(self.doublequote_escapes && self.escape.byte() is Some)
    }
}


/// What sniffing found: the dialect, the number of fields of a record and
/// the type of each column.
#[derive(Clone, Debug, PartialEq, Eq)]
pub struct Metadata {
    /// The dialect.
    pub dialect: Dialect,
    /// The number of fields of a record.
    pub num_fields: usize,
    /// The type of each column; as many as `num_fields`.
    pub types: Vec<Type>,
}

/// The model of a [`Metadata`]: every finding as a plain value.
pub struct MetadataView {
    pub delimiter: u8,
    pub has_header_row: bool,
    pub num_preamble_rows: nat,
    pub terminator: Terminator,
    pub quote: Quote,
    pub doublequote_escapes: bool,
    pub escape: Escape,
    pub comment: Comment,
    pub flexible: bool,
    pub num_fields: nat,
    pub types: Seq<Type>,
}

impl View for Metadata {
    type V = MetadataView;

    open spec fn view(&self) -> MetadataView {
        MetadataView {
            delimiter: self.dialect.delimiter,
            has_header_row: self.dialect.header.has_header_row,
            num_preamble_rows: self.dialect.header.num_preamble_rows as nat,
            terminator: self.dialect.terminator,
            quote: self.dialect.quote,
            doublequote_escapes: self.dialect.doublequote_escapes,
            escape: self.dialect.escape,
            comment: self.dialect.comment,
            flexible: self.dialect.flexible,
            num_fields: self.num_fields as nat,
            types: self.types@,
        }
    }
}

impl Metadata {
    /// There is one type for each field, and the dialect is well-formed.
    pub open spec fn well_formed(&self) -> bool {
        self.types@.len() == self.num_fields && self.dialect.well_formed()
    }
}

} // verus!
