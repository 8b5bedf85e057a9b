//! Taking the sample: a bounded prefix of the input, cut into lines.
//!
//! The prefix holds at most `max_bytes` bytes. It is cut at every line
//! feed. What follows the last line feed is a line of its own only when it
//! is not empty and the prefix is the whole input: a line that the byte
//! limit has cut short is left out. Of the lines so found the first
//! `max_lines` are kept.
//!
//! Where every kept line that a line feed ends has a carriage return
//! before it, records end with `\r\n` and the carriage returns are taken
//! off. Where no kept line is ended by a line feed, nothing can be told
//! and the lenient convention stands, under which `\r`, `\n` and `\r\n`
//! all end a record.

use vstd::prelude::*;
use vstd::slice::slice_subrange;
use vstd::utf8::valid_utf8;

use crate::ascii::{CARRIAGE_RETURN, LINE_FEED};
use crate::error::{SniffError, SniffErrorView};
use crate::fields::{
    delimiter_free, joined, lemma_unquoted_split_joins, naive_rules, split, split_line, SplitRules,
};
use crate::metadata::{Escape, Quote, Terminator};
use crate::model::{byte_seqs, copy_bytes};

verus! {

/// The model of a [`Sample`].
pub struct SampleView {
    pub lines: Seq<Seq<u8>>,
    pub terminator: Terminator,
}

/// The prefix of `data` that is looked at.
pub open spec fn window(data: Seq<u8>, max_bytes: nat) -> Seq<u8> {
    if data.len() <= max_bytes {
        data
    } else {
        data.take(max_bytes as int)
    }
}

/// `text` cut at every line feed. The last segment is what follows the
/// last line feed; every segment before it is a line that a line feed ends.
pub open spec fn segments(text: Seq<u8>) -> Seq<Seq<u8>> {
    split(naive_rules(LINE_FEED), text)
}

/// The number of lines in the looked-at prefix that a line feed ends.
pub open spec fn ended_lines(data: Seq<u8>, max_bytes: nat) -> nat {
    (segments(window(data, max_bytes)).len() - 1) as nat
}

/// The lines of the looked-at prefix, before the limit on their number.
pub open spec fn found_lines(data: Seq<u8>, max_bytes: nat) -> Seq<Seq<u8>> {
    let segs = segments(window(data, max_bytes));
    if segs.last().len() > 0 && data.len() <= max_bytes {
        segs
    } else {
        segs.drop_last()
    }
}

/// The first `max_lines` of the lines found.
pub open spec fn raw_sample(data: Seq<u8>, max_lines: nat, max_bytes: nat) -> Seq<Seq<u8>> {
    let found = found_lines(data, max_bytes);
    if found.len() <= max_lines {
        found
    } else {
        found.take(max_lines as int)
    }
}

/// `line` ends with a carriage return.
pub open spec fn ends_with_cr(line: Seq<u8>) -> bool {
    line.len() > 0 && line.last() == CARRIAGE_RETURN
}

/// The first `ended` lines are all there are to judge by, and each ends
/// with a carriage return.
pub open spec fn uses_crlf(lines: Seq<Seq<u8>>, ended: nat) -> bool {
    ended > 0 && forall|i: int| 0 <= i < ended && i < lines.len() ==> ends_with_cr(#[trigger] lines[i])
}

/// `lines` with the last byte taken off each of the first `ended`.
pub open spec fn without_cr(lines: Seq<Seq<u8>>, ended: nat) -> Seq<Seq<u8>> {
    Seq::new(
        lines.len(),
        |i: int|
            if i < ended {
                lines[i].drop_last()
            } else {
                lines[i]
            },
    )
}

/// Every line is valid UTF-8.
pub open spec fn all_text(lines: Seq<Seq<u8>>) -> bool {
    forall|i: int| 0 <= i < lines.len() ==> valid_utf8(#[trigger] lines[i])
}

/// The sample of `data` under the two limits, or why there is none.
pub open spec fn sample_of(data: Seq<u8>, max_lines: nat, max_bytes: nat) -> Result<
    SampleView,
    SniffErrorView,
> {
    let raw = raw_sample(data, max_lines, max_bytes);
    let ended = if ended_lines(data, max_bytes) <= raw.len() {
        ended_lines(data, max_bytes)
    } else {
        raw.len()
    };
    if raw.len() == 0 {
        Err(SniffErrorView::EmptyInput)
    } else if !all_text(raw) {
        Err(SniffErrorView::DecodeError)
    } else if uses_crlf(raw, ended) {
        Ok(SampleView { lines: without_cr(raw, ended), terminator: Terminator::CRLF })
    } else if ended == 0 {
        Ok(SampleView { lines: raw, terminator: Terminator::CRLF })
    } else {
        Ok(SampleView { lines: raw, terminator: Terminator::Any(LINE_FEED) })
    }
}

/// The segments of a text are the pieces between its line feeds: joined by
/// line feeds they are the text, and no line feed stands in any of them.
pub proof fn lemma_segments_join(text: Seq<u8>)
    ensures
        joined(segments(text), LINE_FEED) == text,
        delimiter_free(segments(text), LINE_FEED),
{
    lemma_unquoted_split_joins(naive_rules(LINE_FEED), text);
}

/// The lines of a sample and the way its records end.
#[derive(Clone, Debug)]
pub struct Sample {
    /// The sampled lines, without their terminators. Never empty.
    pub lines: Vec<Vec<u8>>,
    /// How records end.
    pub terminator: Terminator,
}

impl View for Sample {
    type V = SampleView;

    open spec fn view(&self) -> SampleView {
        SampleView { lines: byte_seqs(self.lines@), terminator: self.terminator }
    }
}

/// Whether `bytes` is valid UTF-8, as `core::str::from_utf8` decides it:
/// that function accepts a slice exactly when it is well-formed UTF-8.
#[verifier::external_body]
fn is_utf8(bytes: &[u8]) -> (r: bool)
    ensures
        r == valid_utf8(bytes@),
{
    core::str::from_utf8(bytes).is_ok()
}

fn line_feed_rules() -> (rules: SplitRules)
    ensures
        rules == naive_rules(LINE_FEED),
{
    SplitRules {
        delimiter: LINE_FEED,
        quote: Quote::Disabled,
        doublequote_escapes: false,
        escape: Escape::Disabled,
    }
}

fn all_utf8(lines: &Vec<Vec<u8>>) -> (r: bool)
    ensures
        r == all_text(byte_seqs(lines@)),
{
    let mut i: usize = 0;
    while i < lines.len()
        invariant
            i <= lines@.len(),
            forall|k: int| 0 <= k < i ==> valid_utf8(#[trigger] byte_seqs(lines@)[k]),
        decreases lines@.len() - i,
    {
        if !is_utf8(lines[i].as_slice()) {
            assert(!valid_utf8(byte_seqs(lines@)[i as int]));
            return false;
        }
        i += 1;
    }
    true
}

fn all_end_with_cr(lines: &Vec<Vec<u8>>, ended: usize) -> (r: bool)
    requires
        ended <= lines@.len(),
    ensures
        r == uses_crlf(byte_seqs(lines@), ended as nat),
{
    if ended == 0 {
        return false;
    }
    let mut i: usize = 0;
    while i < ended
        invariant
            i <= ended <= lines@.len(),
            forall|k: int| 0 <= k < i ==> ends_with_cr(#[trigger] byte_seqs(lines@)[k]),
        decreases ended - i,
    {
        let line = &lines[i];
        if line.len() == 0 || line[line.len() - 1] != CARRIAGE_RETURN {
            assert(!ends_with_cr(byte_seqs(lines@)[i as int]));
            return false;
        }
        i += 1;
    }
    true
}

fn strip_cr(lines: &Vec<Vec<u8>>, ended: usize) -> (stripped: Vec<Vec<u8>>)
    requires
        ended <= lines@.len(),
        uses_crlf(byte_seqs(lines@), ended as nat),
    ensures
        byte_seqs(stripped@) == without_cr(byte_seqs(lines@), ended as nat),
{
    let mut stripped: Vec<Vec<u8>> = Vec::new();
    let mut i: usize = 0;
    while i < lines.len()
        invariant
            i <= lines@.len(),
            ended <= lines@.len(),
            uses_crlf(byte_seqs(lines@), ended as nat),
            stripped@.len() == i,
            forall|k: int|
                0 <= k < i ==> (#[trigger] stripped@[k])@ == without_cr(
                    byte_seqs(lines@),
                    ended as nat,
                )[k],
        decreases lines@.len() - i,
    {
        let line = &lines[i];
        let keep: usize = if i < ended {
            assert(ends_with_cr(byte_seqs(lines@)[i as int]));
            line.len() - 1
        } else {
            line.len()
        };
        let copy = copy_bytes(line.as_slice(), 0, keep);
        assert(copy@ =~= without_cr(byte_seqs(lines@), ended as nat)[i as int]);
        stripped.push(copy);
        i += 1;
    }
    assert(byte_seqs(stripped@) =~= without_cr(byte_seqs(lines@), ended as nat));
    stripped
}

/// Takes the sample of `data`: at most `max_lines` lines from at most
/// `max_bytes` bytes.
///
/// Fails with `EmptyInput` when no line is found, and with `DecodeError`
/// when a sampled line is not valid UTF-8.
pub fn take_sample(data: &[u8], max_lines: usize, max_bytes: usize) -> (r: Result<
    Sample,
    SniffError,
>)
    ensures
        match r {
            Ok(sample) => sample_of(data@, max_lines as nat, max_bytes as nat) == Ok::<
                SampleView,
                SniffErrorView,
            >(sample@) && sample.lines@.len() > 0,
            Err(e) => sample_of(data@, max_lines as nat, max_bytes as nat) == Err::<
                SampleView,
                SniffErrorView,
            >(e@),
        },
{
    let whole: bool = data.len() <= max_bytes;
    let text: &[u8] = if whole {
        assert(data@.subrange(0, data@.len() as int) =~= data@);
        slice_subrange(data, 0, data.len())
    } else {
        slice_subrange(data, 0, max_bytes)
    };
    assert(text@ == window(data@, max_bytes as nat));
    let mut lines: Vec<Vec<u8>> = split_line(&line_feed_rules(), text);
    let ghost segs = byte_seqs(lines@);
    assert(segs.len() == lines@.len());
    let ended_total: usize = lines.len() - 1;
    let tail = &lines[ended_total];
    assert(segs.last() == tail@);
    if !(tail.len() > 0 && whole) {
        lines.pop();
        assert(byte_seqs(lines@) =~= segs.drop_last());
    }
    assert(byte_seqs(lines@) == found_lines(data@, max_bytes as nat));
    if lines.len() > max_lines {
        let ghost found = byte_seqs(lines@);
        lines.truncate(max_lines);
        assert(byte_seqs(lines@) =~= found.take(max_lines as int));
    }
    assert(byte_seqs(lines@) == raw_sample(data@, max_lines as nat, max_bytes as nat));
    if lines.len() == 0 {
        return Err(SniffError::EmptyInput);
    }
    if !all_utf8(&lines) {
        return Err(SniffError::DecodeError);
    }
    let ended: usize = if ended_total <= lines.len() {
        ended_total
    } else {
        lines.len()
    };
    if all_end_with_cr(&lines, ended) {
        let stripped = strip_cr(&lines, ended);
        assert(byte_seqs(stripped@).len() == stripped@.len());
        Ok(Sample { lines: stripped, terminator: Terminator::CRLF })
    } else if ended == 0 {
        Ok(Sample { lines, terminator: Terminator::CRLF })
    } else {
        Ok(Sample { lines, terminator: Terminator::Any(LINE_FEED) })
    }
}

} // verus!
