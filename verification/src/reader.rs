//! From a dialect to a configured `csv::ReaderBuilder`.
//!
//! The builder is a value of the `csv` crate that Verus cannot look into.
//! Its configuration is modelled by [`builder_settings`], and the contract
//! of each call into the crate says what the call does to that model. These
//! contracts are taken from the crate's source and are believed, not proved.

use vstd::prelude::*;
use vstd::std_specs::convert::FromSpecImpl;

use crate::ascii::{COMMA, DOUBLE_QUOTE};
use crate::metadata::{Dialect, Quote, Terminator};

verus! {

/// The `csv` crate's builder of readers.
#[verifier::external_type_specification]
#[verifier::external_body]
pub struct ExReaderBuilder(csv::ReaderBuilder);

/// What a reader of delimited text is told about the dialect.
#[derive(Clone, Copy, Debug, PartialEq, Eq, Structural)]
pub struct ReaderSettings {
    /// The byte that separates fields.
    pub delimiter: u8,
    /// Whether the first record is a header row.
    pub has_headers: bool,
    /// How records end.
    pub terminator: Terminator,
    /// The escape byte, if any.
    pub escape: Option<u8>,
    /// Whether a doubled quote inside a quoted field stands for one quote.
    pub double_quote: bool,
    /// The comment byte, if any.
    pub comment: Option<u8>,
    /// Whether records may differ in their number of fields.
    pub flexible: bool,
    /// Whether quotes are given any meaning.
    pub quoting: bool,
    /// The quote byte; without meaning when `quoting` is off.
    pub quote: u8,
}

/// The settings that a `csv::ReaderBuilder` holds: those of its fields, and
/// of the fields of the `csv_core` builder inside it, that [`ReaderSettings`] names.
pub uninterp spec fn builder_settings(builder: csv::ReaderBuilder) -> ReaderSettings;

/// The settings of a builder that nothing has been set on.
pub open spec fn default_settings() -> ReaderSettings {
    ReaderSettings {
        delimiter: COMMA,
        has_headers: true,
        terminator: Terminator::CRLF,
        escape: None,
        double_quote: true,
        comment: None,
        flexible: false,
        quoting: true,
        quote: DOUBLE_QUOTE,
    }
}

impl Dialect {
    /// What a reader is told about this dialect. Without a quote byte
    /// quoting is off and the quote setting keeps its default.
    pub open spec fn reader_settings_spec(&self) -> ReaderSettings {
        ReaderSettings {
            delimiter: self.delimiter,
            has_headers: self.header.has_header_row,
            terminator: self.terminator,
            escape: self.escape.byte(),
            double_quote: self.doublequote_escapes,
            comment: self.comment.byte(),
            flexible: self.flexible,
            quoting: self.quote.byte() is Some,
            quote: match self.quote {
                Quote::Enabled(q) => q,
                Quote::Disabled => DOUBLE_QUOTE,
            },
        }
    }

    /// What a reader is told about this dialect.
    #[verifier::when_used_as_spec(reader_settings_spec)]
    pub fn reader_settings(&self) -> (settings: ReaderSettings)
        ensures
            settings == self.reader_settings_spec(),
    {
        let (quoting, quote): (bool, u8) = match self.quote {
            Quote::Enabled(q) => (true, q),
            Quote::Disabled => (false, DOUBLE_QUOTE),
        };
        ReaderSettings {
            delimiter: self.delimiter,
            has_headers: self.header.has_header_row,
            terminator: self.terminator,
            escape: Option::<u8>::from(self.escape),
            double_quote: self.doublequote_escapes,
            comment: Option::<u8>::from(self.comment),
            flexible: self.flexible,
            quoting,
            quote,
        }
    }

    /// A `csv::ReaderBuilder` that reads this dialect.
    ///
    /// The builder does not skip the preamble: the reader that it makes
    /// must be given the input from the end of the preamble on.
    pub fn reader_builder(&self) -> (builder: csv::ReaderBuilder)
        ensures
            builder_settings(builder) == self.reader_settings_spec(),
    {
        let mut builder = new_builder();
        set_delimiter(&mut builder, self.delimiter);
        set_has_headers(&mut builder, self.header.has_header_row);
        set_terminator(&mut builder, self.terminator);
        set_escape(&mut builder, Option::<u8>::from(self.escape));
        set_double_quote(&mut builder, self.doublequote_escapes);
        set_comment(&mut builder, Option::<u8>::from(self.comment));
        set_flexible(&mut builder, self.flexible);
        match self.quote {
            Quote::Enabled(character) => {
                set_quoting(&mut builder, true);
                set_quote(&mut builder, character);
            },
            Quote::Disabled => {
                set_quoting(&mut builder, false);
            },
        }
        builder
    }
}

impl From<Dialect> for csv::ReaderBuilder {
    /// A builder that reads the dialect; see [`Dialect::reader_builder`].
    fn from(dialect: Dialect) -> (builder: csv::ReaderBuilder)
        ensures
            builder_settings(builder) == dialect.reader_settings_spec(),
    {
        dialect.reader_builder()
    }
}

impl FromSpecImpl<Dialect> for csv::ReaderBuilder {
    /// A builder is no mathematical value: the conversion is specified by
    /// the settings of its result, not by the result itself.
    open spec fn obeys_from_spec() -> bool {
        false
    }

    open spec fn from_spec(dialect: Dialect) -> csv::ReaderBuilder {
        arbitrary()
    }
}

/// `csv::ReaderBuilder::new`: a builder with the crate's defaults, which
/// are a comma, a header row, the lenient terminator, no escape byte,
/// doubled quotes, no comments, fixed width, and quoting with `"`.
#[verifier::external_body]
fn new_builder() -> (builder: csv::ReaderBuilder)
    ensures
        builder_settings(builder) == default_settings(),
{
    csv::ReaderBuilder::new()
}

/// `csv::ReaderBuilder::delimiter`: sets the delimiter and nothing else.
#[verifier::external_body]
fn set_delimiter(builder: &mut csv::ReaderBuilder, delimiter: u8)
    ensures
        builder_settings(*final(builder)) == (ReaderSettings {
            delimiter,
            ..builder_settings(*old(builder))
        }),
{
    builder.delimiter(delimiter);
}

/// `csv::ReaderBuilder::has_headers`: sets whether the first record is a
/// header row and nothing else.
#[verifier::external_body]
fn set_has_headers(builder: &mut csv::ReaderBuilder, yes: bool)
    ensures
        builder_settings(*final(builder)) == (ReaderSettings {
            has_headers: yes,
            ..builder_settings(*old(builder))
        }),
{
    builder.has_headers(yes);
}

/// `csv::ReaderBuilder::terminator`: sets the record terminator and nothing else.
#[verifier::external_body]
fn set_terminator(builder: &mut csv::ReaderBuilder, terminator: Terminator)
    ensures
        builder_settings(*final(builder)) == (ReaderSettings {
            terminator,
            ..builder_settings(*old(builder))
        }),
{
    builder.terminator(
        match terminator {
            Terminator::CRLF => csv::Terminator::CRLF,
            Terminator::Any(b) => csv::Terminator::Any(b),
        },
    );
}

/// `csv::ReaderBuilder::escape`: sets the escape byte and nothing else.
#[verifier::external_body]
fn set_escape(builder: &mut csv::ReaderBuilder, escape: Option<u8>)
    ensures
        builder_settings(*final(builder)) == (ReaderSettings {
            escape,
            ..builder_settings(*old(builder))
        }),
{
    builder.escape(escape);
}

/// `csv::ReaderBuilder::double_quote`: sets whether doubled quotes are
/// escapes and nothing else.
#[verifier::external_body]
fn set_double_quote(builder: &mut csv::ReaderBuilder, yes: bool)
    ensures
        builder_settings(*final(builder)) == (ReaderSettings {
            double_quote: yes,
            ..builder_settings(*old(builder))
        }),
{
    builder.double_quote(yes);
}

/// `csv::ReaderBuilder::comment`: sets the comment byte and nothing else.
#[verifier::external_body]
fn set_comment(builder: &mut csv::ReaderBuilder, comment: Option<u8>)
    ensures
        builder_settings(*final(builder)) == (ReaderSettings {
            comment,
            ..builder_settings(*old(builder))
        }),
{
    builder.comment(comment);
}

/// `csv::ReaderBuilder::flexible`: sets whether records may differ in
/// width and nothing else.
#[verifier::external_body]
fn set_flexible(builder: &mut csv::ReaderBuilder, yes: bool)
    ensures
        builder_settings(*final(builder)) == (ReaderSettings {
            flexible: yes,
            ..builder_settings(*old(builder))
        }),
{
    builder.flexible(yes);
}

/// `csv::ReaderBuilder::quoting`: switches quoting on or off and nothing else.
#[verifier::external_body]
fn set_quoting(builder: &mut csv::ReaderBuilder, yes: bool)
    ensures
        builder_settings(*final(builder)) == (ReaderSettings {
            quoting: yes,
            ..builder_settings(*old(builder))
        }),
{
    builder.quoting(yes);
}

/// `csv::ReaderBuilder::quote`: sets the quote byte and nothing else.
#[verifier::external_body]
fn set_quote(builder: &mut csv::ReaderBuilder, quote: u8)
    ensures
        builder_settings(*final(builder)) == (ReaderSettings {
            quote,
            ..builder_settings(*old(builder))
        }),
{
    builder.quote(quote);
}

} // verus!
