//! The sniffer: the stages in their order, from the bytes of a file to its metadata.
//!
//! The stages run strictly one after the other: sample, delimiter, quoting,
//! comment marker, shape, header, types. Each one only reads what the
//! stages before it have settled, and a failure at any stage ends the run.

use vstd::prelude::*;

use crate::comment::{
    comment_of, detect_comment, kept_lines, row_widths, split_all, split_kept, widths_of,
};
use crate::delimiter::{candidates, chosen_delimiter, detect_delimiter};
use crate::error::{SniffError, SniffErrorView};
use crate::field_type::{column_types, infer_types};
use crate::fields::{count_fields, field_counts, SplitRules};
use crate::header::{detect_header, header_present};
use crate::metadata::{Dialect, Header, Metadata, MetadataView, Terminator};
use crate::model::{byte_seqs, records};
use crate::quoting::{detect_quoting, quoting_of, rules_of};
use crate::sample::{sample_of, take_sample};
use crate::shape::{analyze_shape, shape_of};

verus! {

/// The number of lines that a sniffer samples unless told otherwise.
pub const DEFAULT_MAX_LINES: usize = 100;

/// The number of bytes that a sniffer samples unless told otherwise.
pub const DEFAULT_MAX_BYTES: usize = 16384;

/// What the sampled `lines` say about the file, given how its records end.
pub open spec fn analysis(lines: Seq<Seq<u8>>, terminator: Terminator) -> Result<
    MetadataView,
    SniffErrorView,
> {
    match chosen_delimiter(lines) {
        None => Err(SniffErrorView::NoDelimiterFound { attempted: candidates() }),
        Some(delimiter) => {
            let quoting = quoting_of(lines, delimiter);
            let rules = rules_of(delimiter, quoting);
            let comment = comment_of(lines, field_counts(rules, lines));
            let rows = split_all(rules, kept_lines(lines, comment));
            let shape = shape_of(widths_of(rows));
            let body = rows.skip(shape.num_preamble_rows as int);
            let has_header_row = header_present(body, shape.num_fields);
            let data_rows = if has_header_row {
                body.skip(1)
            } else {
                body
            };
            Ok(
                MetadataView {
                    delimiter,
                    has_header_row,
                    num_preamble_rows: shape.num_preamble_rows,
                    terminator,
                    quote: quoting.quote,
                    doublequote_escapes: quoting.doublequote_escapes,
                    escape: quoting.escape,
                    comment,
                    flexible: shape.flexible,
                    num_fields: shape.num_fields,
                    types: column_types(data_rows, shape.num_fields),
                },
            )
        },
    }
}

/// What a file with the bytes `data` is found to be, when at most
/// `max_lines` lines from at most `max_bytes` bytes are sampled.
pub open spec fn sniffed(data: Seq<u8>, max_lines: nat, max_bytes: nat) -> Result<
    MetadataView,
    SniffErrorView,
> {
    match sample_of(data, max_lines, max_bytes) {
        Err(e) => Err(e),
        Ok(sample) => analysis(sample.lines, sample.terminator),
    }
}

/// Finds the dialect and the column types from sampled lines.
///
/// Fails with `NoDelimiterFound` when no candidate delimiter fits the
/// lines; there is no other failure.
pub fn sniff_lines(lines: &Vec<Vec<u8>>, terminator: Terminator) -> (r: Result<
    Metadata,
    SniffError,
>)
    ensures
        match r {
            Ok(m) => analysis(byte_seqs(lines@), terminator) == Ok::<MetadataView, SniffErrorView>(
                m@,
            ) && m.well_formed(),
            Err(e) => analysis(byte_seqs(lines@), terminator) == Err::<
                MetadataView,
                SniffErrorView,
            >(e@),
        },
{
    let ghost sample = byte_seqs(lines@);
    let fit = match detect_delimiter(lines) {
        Ok(fit) => fit,
        Err(e) => {
            return Err(e);
        },
    };
    let quoting = detect_quoting(lines, fit.delimiter);
    let rules = SplitRules {
        delimiter: fit.delimiter,
        quote: quoting.quote,
        doublequote_escapes: quoting.doublequote_escapes,
        escape: quoting.escape,
    };
    let counts = count_fields(&rules, lines);
    let comment = detect_comment(lines, &counts);
    let rows = split_kept(&rules, lines, &comment);
    let widths = row_widths(&rows);
    let shape = analyze_shape(&widths);
    let preamble: usize = shape.num_preamble_rows;
    let has_header_row = detect_header(&rows, preamble, shape.num_fields);
    let total: usize = rows.len();
    proof {
        if has_header_row {
            assert(records(rows@).skip(preamble as int).len() >= 2);
            assert(preamble + 2 <= total);
        }
    }
    let first_data: usize = if has_header_row {
        preamble + 1
    } else {
        preamble
    };
    proof {
        let body = records(rows@).skip(preamble as int);
        if has_header_row {
            assert(body.len() >= 2);
            assert(body.skip(1) =~= records(rows@).skip(preamble + 1));
        }
    }
    let types = infer_types(&rows, first_data, shape.num_fields);
    let dialect = Dialect {
        delimiter: fit.delimiter,
        header: Header { has_header_row, num_preamble_rows: preamble },
        terminator,
        quote: quoting.quote,
        doublequote_escapes: quoting.doublequote_escapes,
        escape: quoting.escape,
        comment,
        flexible: shape.flexible,
    };
    proof {
        let d = fit.delimiter;
        let i = choose|i: int| 0 <= i < candidates().len() && candidates()[i] == d;
        assert(candidates()[i] == d);
        assert(dialect.well_formed());
    }
    Ok(Metadata { dialect, num_fields: shape.num_fields, types })
}

/// Sniffs the dialect and the column types of delimited text from a
/// bounded sample of it.
#[derive(Clone, Copy, Debug, PartialEq, Eq, Structural)]
pub struct Sniffer {
    /// The greatest number of lines that are sampled.
    pub max_lines: usize,
    /// The greatest number of bytes that are sampled.
    pub max_bytes: usize,
}

impl Sniffer {
    /// A sniffer with the default limits.
    pub fn new() -> (sniffer: Sniffer)
        ensures
            sniffer.max_lines == DEFAULT_MAX_LINES,
            sniffer.max_bytes == DEFAULT_MAX_BYTES,
    {
        Sniffer { max_lines: DEFAULT_MAX_LINES, max_bytes: DEFAULT_MAX_BYTES }
    }

    /// A sniffer that samples at most `max_lines` lines from at most `max_bytes` bytes.
    pub fn with_limits(max_lines: usize, max_bytes: usize) -> (sniffer: Sniffer)
        ensures
            sniffer.max_lines == max_lines,
            sniffer.max_bytes == max_bytes,
    {
        Sniffer { max_lines, max_bytes }
    }

    /// Finds the dialect and the column types of a file from its first bytes.
    ///
    /// `data` holds the file from its start: all of it, or at least one
    /// byte more than `max_bytes`, so that a line which the limit cuts
    /// short can be told from the last line of the file.
    ///
    /// Fails with `EmptyInput` when the sample holds no line, with
    /// `DecodeError` when a sampled line is not valid UTF-8, and with
    /// `NoDelimiterFound` when no candidate delimiter fits the sample.
    pub fn sniff_bytes(&self, data: &[u8]) -> (r: Result<Metadata, SniffError>)
        ensures
            match r {
                Ok(m) => sniffed(data@, self.max_lines as nat, self.max_bytes as nat) == Ok::<
                    MetadataView,
                    SniffErrorView,
                >(m@) && m.well_formed(),
                Err(e) => sniffed(data@, self.max_lines as nat, self.max_bytes as nat) == Err::<
                    MetadataView,
                    SniffErrorView,
                >(e@),
            },
    {
        match take_sample(data, self.max_lines, self.max_bytes) {
            Ok(sample) => sniff_lines(&sample.lines, sample.terminator),
            Err(e) => Err(e),
        }
    }
}

} // verus!
