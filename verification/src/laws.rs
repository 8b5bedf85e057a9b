//! What holds of sniffing for whole families of samples.

use vstd::prelude::*;

use crate::ascii::{DOUBLE_QUOTE, LINE_FEED, SINGLE_QUOTE};
use crate::comment::{
    comment_of, is_comment_line, kept_lines, lemma_kept_frequency, lemma_kept_prefix,
    lemma_kept_without_comments, split_all, widths_of,
};
use crate::delimiter::{
    accepted, candidates, chosen_delimiter, delimits, is_best, lemma_best_unique, support, width,
};
use crate::error::SniffErrorView;
use crate::fields::{
    field_counts, lemma_doubling_is_idle_without_quotes, lemma_unquoted_field_places,
    lemma_unquoted_split_counts_delimiters, naive_rules, split, SplitRules,
};
use crate::header::header_present;
use crate::metadata::{Comment, MetadataView, Quote, Terminator};
use crate::quoting::{lemma_unquoted_sample, quoting_of, rules_of};
use crate::shape::{
    is_preamble_len, is_ragged, lemma_preamble_ends, lemma_preamble_len_is, preamble_len, shape_of,
};
use crate::sample::{found_lines, raw_sample, sample_of, segments, window};
use crate::sniffer::{analysis, sniffed};
use crate::snip::preamble_end;
use crate::tally::{
    count_byte, frequency, is_mode, lemma_constant_counts, lemma_count_byte_zero,
    lemma_frequency_after, lemma_frequency_at_most_one, lemma_majority_is_mode,
    lemma_mode_exists, lemma_mode_is, lemma_offset_in_prefix, mode,
};

verus! {

/// The byte `b` stands in no line.
pub open spec fn byte_absent(lines: Seq<Seq<u8>>, b: u8) -> bool {
    forall|i: int, k: int|
        0 <= i < lines.len() && 0 <= k < lines[i].len() ==> (#[trigger] lines[i][k]) != b
}

/// Every line has `fields` fields when it is cut at the byte `d`.
pub open spec fn uniform(lines: Seq<Seq<u8>>, d: u8, fields: nat) -> bool {
    forall|i: int| 0 <= i < lines.len() ==> count_byte(#[trigger] lines[i], d) + 1 == fields
}

/// The byte `d` stands in one line at most.
pub open spec fn stray(lines: Seq<Seq<u8>>, d: u8) -> bool {
    forall|a: int, b: int|
        0 <= a < b < lines.len() ==> count_byte(lines[a], d) == 0 || count_byte(lines[b], d) == 0
}

/// A delimiter that stands in no line yields one field on every line.
proof fn lemma_absent_delimiter(lines: Seq<Seq<u8>>, d: u8)
    requires
        lines.len() > 0,
        byte_absent(lines, d),
    ensures
        width(lines, d) == 1,
        !delimits(lines, d),
{
    let counts = field_counts(naive_rules(d), lines);
    assert forall|i: int| 0 <= i < counts.len() implies counts[i] == 1 by {
        lemma_unquoted_split_counts_delimiters(naive_rules(d), lines[i]);
        lemma_count_byte_zero(lines[i], d);
    }
    lemma_constant_counts(counts, 1);
}

/// From index `p` on, every line has `fields` fields when it is cut at the
/// byte `d`, and no line before has.
pub open spec fn uniform_after(lines: Seq<Seq<u8>>, d: u8, fields: nat, p: int) -> bool {
    &&& forall|i: int| 0 <= i < p ==> count_byte(#[trigger] lines[i], d) + 1 != fields
    &&& forall|i: int| p <= i < lines.len() ==> count_byte(#[trigger] lines[i], d) + 1 == fields
}

/// A table under a preamble is detected: where the first `p` lines, a tenth
/// of the sample at most, have another number of fields than all the lines
/// after them, which one candidate delimiter cuts into the same number of
/// fields, two or more, and neither another candidate nor a candidate quote
/// stands in any line, that candidate is chosen, all the lines after the
/// first `p` are its support, and the dialect has `p` preamble rows, that
/// number of fields, no quoting, no comments, and is not flexible. The
/// first row after the preamble is a header exactly when the types of its
/// fields differ from those of the columns below it.
pub proof fn lemma_table_under_preamble_is_detected(
    lines: Seq<Seq<u8>>,
    c: int,
    fields: nat,
    p: int,
    terminator: Terminator,
)
    requires
        0 <= p < lines.len(),
        10 * p <= lines.len(),
        0 <= c < candidates().len(),
        fields >= 2,
        uniform_after(lines, candidates()[c], fields, p),
        forall|j: int| 0 <= j < candidates().len() && j != c ==> byte_absent(lines, candidates()[j]),
        byte_absent(lines, DOUBLE_QUOTE),
        byte_absent(lines, SINGLE_QUOTE),
    ensures
        chosen_delimiter(lines) == Some(candidates()[c]),
        support(lines, candidates()[c]) == lines.len() - p,
        analysis(lines, terminator) is Ok,
        ({
            let m = analysis(lines, terminator)->Ok_0;
            &&& m.delimiter == candidates()[c]
            &&& m.num_fields == fields
            &&& m.num_preamble_rows == p
            &&& !m.flexible
            &&& m.quote == Quote::Disabled
            &&& m.comment == Comment::Disabled
            &&& m.terminator == terminator
            &&& m.types.len() == fields
            &&& m.has_header_row == header_present(
                split_all(naive_rules(candidates()[c]), lines).skip(p),
                fields,
            )
        }),
{
    let d = candidates()[c];
    let naive = field_counts(naive_rules(d), lines);
    assert forall|i: int| 0 <= i < naive.len() implies naive[i] == count_byte(lines[i], d) + 1 by {
        lemma_unquoted_split_counts_delimiters(naive_rules(d), lines[i]);
    }
    lemma_frequency_after(naive, fields, p);
    lemma_majority_is_mode(naive, fields);
    assert forall|j: int|
        0 <= j < candidates().len() && j != c implies !delimits(lines, #[trigger] candidates()[j]) by {
        lemma_absent_delimiter(lines, candidates()[j]);
    }
    assert(is_best(lines, c));
    lemma_best_unique(lines, c, choose|i: int| is_best(lines, i));
    assert(accepted(support(lines, d), lines.len()));
    assert(chosen_delimiter(lines) == Some(d));

    lemma_unquoted_sample(lines, d);
    let quoting = quoting_of(lines, d);
    let rules = rules_of(d, quoting);
    assert(rules == SplitRules { doublequote_escapes: true, ..naive_rules(d) });
    let counts = field_counts(rules, lines);
    assert forall|i: int| 0 <= i < counts.len() implies counts[i] == count_byte(lines[i], d)
        + 1 by {
        lemma_unquoted_split_counts_delimiters(rules, lines[i]);
    }
    lemma_frequency_after(counts, fields, p);
    lemma_majority_is_mode(counts, fields);
    assert(is_preamble_len(counts, fields, p));
    lemma_preamble_len_is(counts, fields, p);
    assert(comment_of(lines, counts) == Comment::Disabled);
    lemma_kept_without_comments(lines);
    let rows = split_all(rules, lines);
    let widths = widths_of(rows);
    assert(widths =~= counts);
    assert(!is_ragged(widths, fields, p));
    assert(rows =~= split_all(naive_rules(d), lines)) by {
        assert forall|i: int| 0 <= i < lines.len() implies split(rules, lines[i]) == split(
            naive_rules(d),
            lines[i],
        ) by {
            lemma_doubling_is_idle_without_quotes(naive_rules(d), lines[i]);
        }
    }
}

/// A well-formed sample is detected in full: where one candidate delimiter
/// cuts every line into the same number of fields, two or more, and
/// neither another candidate nor a candidate quote stands in any line,
/// that candidate is chosen with every line in its support, and the
/// dialect has that number of fields, no quoting, no comments, no
/// preamble, and is not flexible.
pub proof fn lemma_uniform_sample_is_detected(
    lines: Seq<Seq<u8>>,
    c: int,
    fields: nat,
    terminator: Terminator,
)
    requires
        lines.len() > 0,
        0 <= c < candidates().len(),
        fields >= 2,
        uniform(lines, candidates()[c], fields),
        forall|j: int| 0 <= j < candidates().len() && j != c ==> byte_absent(lines, candidates()[j]),
        byte_absent(lines, DOUBLE_QUOTE),
        byte_absent(lines, SINGLE_QUOTE),
    ensures
        chosen_delimiter(lines) == Some(candidates()[c]),
        support(lines, candidates()[c]) == lines.len(),
        analysis(lines, terminator) is Ok,
        ({
            let m = analysis(lines, terminator)->Ok_0;
            &&& m.delimiter == candidates()[c]
            &&& m.num_fields == fields
            &&& m.num_preamble_rows == 0
            &&& !m.flexible
            &&& m.quote == Quote::Disabled
            &&& m.comment == Comment::Disabled
            &&& m.terminator == terminator
            &&& m.types.len() == fields
        }),
{
    lemma_table_under_preamble_is_detected(lines, c, fields, 0, terminator);
}

/// Stray delimiters are no dialect: where the sample has two lines or more
/// and each candidate delimiter stands in one of them at most, no
/// delimiter is found.
pub proof fn lemma_stray_delimiters_are_rejected(lines: Seq<Seq<u8>>, terminator: Terminator)
    requires
        lines.len() >= 2,
        forall|j: int| 0 <= j < candidates().len() ==> stray(lines, #[trigger] candidates()[j]),
    ensures
        chosen_delimiter(lines) is None,
        analysis(lines, terminator) == Err::<MetadataView, SniffErrorView>(
            SniffErrorView::NoDelimiterFound { attempted: candidates() },
        ),
{
    if exists|i: int| is_best(lines, i) {
        let i = choose|i: int| is_best(lines, i);
        let d = candidates()[i];
        let counts = field_counts(naive_rules(d), lines);
        let m = mode(counts);
        lemma_mode_exists(counts);
        assert(stray(lines, d));
        assert(m > 1);
        assert forall|a: int, b: int| 0 <= a < b < counts.len() implies counts[a] != m
            || counts[b] != m by {
            lemma_unquoted_split_counts_delimiters(naive_rules(d), lines[a]);
            lemma_unquoted_split_counts_delimiters(naive_rules(d), lines[b]);
        }
        lemma_frequency_at_most_one(counts, m);
        assert(!accepted(support(lines, d), lines.len()));
    }
}

/// Text without delimiters is no dialect: where no candidate delimiter
/// stands in any line, no delimiter is found.
pub proof fn lemma_plain_text_is_rejected(lines: Seq<Seq<u8>>, terminator: Terminator)
    requires
        forall|j: int| 0 <= j < candidates().len() ==> byte_absent(lines, #[trigger] candidates()[j]),
    ensures
        chosen_delimiter(lines) is None,
        analysis(lines, terminator) is Err,
{
    if lines.len() > 0 {
        assert forall|i: int| !is_best(lines, i) by {
            if 0 <= i < candidates().len() {
                lemma_absent_delimiter(lines, candidates()[i]);
            }
        }
    }
}


/// The preamble is counted in lines of the file: setting the comment lines
/// aside changes neither the number of fields nor the number of preamble
/// rows, and the lines up to and with the first row after the preamble are
/// the same lines with the comment lines and without them. So a reader that
/// skips `num_preamble_rows` lines of the file starts at that row.
pub proof fn lemma_preamble_counts_lines_of_the_file(rules: SplitRules, lines: Seq<Seq<u8>>)
    requires
        lines.len() > 0,
    ensures
        ({
            let all = field_counts(rules, lines);
            let kept = kept_lines(lines, comment_of(lines, all));
            let shape = shape_of(widths_of(split_all(rules, kept)));
            let p = preamble_len(all, mode(all));
            &&& shape.num_fields == mode(all)
            &&& shape.num_preamble_rows == p
            &&& 0 <= p < kept.len() <= lines.len()
            &&& kept.take(p + 1) == lines.take(p + 1)
            &&& split(rules, lines[p]).len() == shape.num_fields
        }),
{
    let all = field_counts(rules, lines);
    let comment = comment_of(lines, all);
    let kept = kept_lines(lines, comment);
    let widths = widths_of(split_all(rules, kept));
    let m = mode(all);
    let p = preamble_len(all, m);
    lemma_mode_exists(all);
    lemma_preamble_ends(all);
    assert(widths =~= field_counts(rules, kept));
    assert forall|i: int| 0 <= i < p + 1 implies !is_comment_line(#[trigger] lines[i], comment) by {}
    lemma_kept_prefix(lines, comment, p + 1);
    assert forall|i: int| 0 <= i <= p implies widths[i] == all[i] by {
        assert(kept[i] == kept.take(p + 1)[i]);
        assert(lines[i] == lines.take(p + 1)[i]);
    }
    lemma_kept_frequency(rules, lines, comment, m);
    assert forall|k: nat|
        #![trigger frequency(widths, k)]
        frequency(widths, k) < frequency(widths, m) || (frequency(widths, k) == frequency(
            widths,
            m,
        ) && k <= m) by {
        lemma_kept_frequency(rules, lines, comment, k);
        assert(frequency(all, k) < frequency(all, m) || (frequency(all, k) == frequency(all, m)
            && k <= m));
    }
    assert(is_mode(widths, m));
    lemma_mode_is(widths, m);
    assert(is_preamble_len(widths, m, p));
    lemma_preamble_len_is(widths, m, p);
}


/// Reading starts at the first row: where sniffing succeeds, the file holds
/// the sampled row that follows the preamble at the very offset at which
/// its first `num_preamble_rows` lines end, and that row has `num_fields`
/// fields under the dialect that was found.
pub proof fn lemma_first_row_follows_the_preamble(data: Seq<u8>, max_lines: nat, max_bytes: nat)
    requires
        sniffed(data, max_lines, max_bytes) is Ok,
    ensures
        ({
            let m = sniffed(data, max_lines, max_bytes)->Ok_0;
            let lines = sample_of(data, max_lines, max_bytes)->Ok_0.lines;
            let start = preamble_end(data, m.num_preamble_rows);
            let rules = SplitRules {
                delimiter: m.delimiter,
                quote: m.quote,
                doublequote_escapes: m.doublequote_escapes,
                escape: m.escape,
            };
            &&& m.num_preamble_rows < lines.len()
            &&& 0 <= start
            &&& start + lines[m.num_preamble_rows as int].len() <= data.len()
            &&& data.subrange(start, start + lines[m.num_preamble_rows as int].len())
                == lines[m.num_preamble_rows as int]
            &&& split(rules, lines[m.num_preamble_rows as int]).len() == m.num_fields
        }),
{
    let sample = sample_of(data, max_lines, max_bytes)->Ok_0;
    let lines = sample.lines;
    let m = sniffed(data, max_lines, max_bytes)->Ok_0;
    let raw = raw_sample(data, max_lines, max_bytes);
    assert(lines.len() == raw.len());
    let d = chosen_delimiter(lines)->Some_0;
    let rules = rules_of(d, quoting_of(lines, d));
    lemma_preamble_counts_lines_of_the_file(rules, lines);
    let p = m.num_preamble_rows as int;
    let text = window(data, max_bytes);
    let segs = segments(text);
    let found = found_lines(data, max_bytes);
    assert(raw[p] == found[p]);
    assert(found[p] == segs[p]);
    lemma_unquoted_split_counts_delimiters(naive_rules(LINE_FEED), text);
    lemma_unquoted_field_places(naive_rules(LINE_FEED), text, p);
    let w = text.len() as int;
    assert(data.take(w) =~= text);
    lemma_offset_in_prefix(data, w, LINE_FEED, p as nat);
    let start = preamble_end(data, p as nat);
    let row = lines[p];
    assert(row =~= raw[p].subrange(0, row.len() as int));
    assert(data.subrange(start, start + row.len()) =~= row);
}

} // verus!
