//! Finding the comment marker, and setting comment lines aside.
//!
//! The one candidate marks comments when it starts lines, when every line
//! that it starts has another number of fields than records have, and when
//! all of those lines stand after the first row that has the number of
//! fields of a record. Lines before that row are preamble, whatever byte
//! they start with, so the number of preamble rows is the same with the
//! comment lines and without them.

use vstd::prelude::*;

use crate::ascii::HASH;
use crate::fields::{field_counts, split, split_line, SplitRules};
use crate::metadata::Comment;
use crate::model::{byte_seqs, records};
use crate::shape::{leading_run, preamble_len};
use crate::tally::{frequency, mode, mode_of, nats};

verus! {

/// The one candidate comment byte.
pub open spec fn comment_candidate() -> u8 {
    HASH
}

/// `line` is not empty and its first byte is `b`.
pub open spec fn starts_with(line: Seq<u8>, b: u8) -> bool {
    line.len() > 0 && line[0] == b
}

/// `c` marks comments in `lines`, whose numbers of fields are `widths`.
pub open spec fn comment_confirmed(lines: Seq<Seq<u8>>, widths: Seq<nat>, c: u8) -> bool {
    let m = mode(widths);
    let p = preamble_len(widths, m);
    &&& lines.len() == widths.len()
    &&& exists|i: int| 0 <= i < lines.len() && starts_with(#[trigger] lines[i], c)
    &&& forall|i: int|
        0 <= i < lines.len() && starts_with(#[trigger] lines[i], c) ==> widths[i] != m && i > p
}

/// The comment marker of the sample.
pub open spec fn comment_of(lines: Seq<Seq<u8>>, widths: Seq<nat>) -> Comment {
    if comment_confirmed(lines, widths, comment_candidate()) {
        Comment::Enabled(comment_candidate())
    } else {
        Comment::Disabled
    }
}

/// `line` is a comment line under `comment`.
pub open spec fn is_comment_line(line: Seq<u8>, comment: Comment) -> bool {
    match comment {
        Comment::Enabled(c) => starts_with(line, c),
        Comment::Disabled => false,
    }
}

/// The lines that are no comment lines, in their order.
pub open spec fn kept_lines(lines: Seq<Seq<u8>>, comment: Comment) -> Seq<Seq<u8>>
    decreases lines.len(),
{
    if lines.len() == 0 {
        Seq::empty()
    } else {
        let before = kept_lines(lines.drop_last(), comment);
        if is_comment_line(lines.last(), comment) {
            before
        } else {
            before.push(lines.last())
        }
    }
}

/// Every line cut into its fields.
pub open spec fn split_all(rules: SplitRules, lines: Seq<Seq<u8>>) -> Seq<Seq<Seq<u8>>> {
    Seq::new(lines.len(), |i: int| split(rules, lines[i]))
}

/// The number of fields of each row.
pub open spec fn widths_of(rows: Seq<Seq<Seq<u8>>>) -> Seq<nat> {
    Seq::new(rows.len(), |i: int| rows[i].len())
}

/// Without a comment marker every line is kept.
pub proof fn lemma_kept_without_comments(lines: Seq<Seq<u8>>)
    ensures
        kept_lines(lines, Comment::Disabled) == lines,
    decreases lines.len(),
{
    if lines.len() > 0 {
        lemma_kept_without_comments(lines.drop_last());
        assert(lines.drop_last().push(lines.last()) =~= lines);
    } else {
        assert(lines =~= Seq::<Seq<u8>>::empty());
    }
}

/// Where the first `k` lines hold no comment line, they are the first `k`
/// lines that are kept. No more lines are kept than there are.
pub proof fn lemma_kept_prefix(lines: Seq<Seq<u8>>, comment: Comment, k: int)
    requires
        0 <= k <= lines.len(),
        forall|i: int| 0 <= i < k ==> !is_comment_line(#[trigger] lines[i], comment),
    ensures
        k <= kept_lines(lines, comment).len() <= lines.len(),
        kept_lines(lines, comment).take(k) == lines.take(k),
    decreases lines.len(),
{
    if lines.len() > 0 {
        let front = lines.drop_last();
        let shorter = if k == lines.len() {
            k - 1
        } else {
            k
        };
        assert forall|i: int| 0 <= i < shorter implies !is_comment_line(
            #[trigger] front[i],
            comment,
        ) by {
            assert(front[i] == lines[i]);
        }
        lemma_kept_prefix(front, comment, shorter);
        let kept_front = kept_lines(front, comment);
        assert(kept_front.take(shorter) == front.take(shorter));
        if k == lines.len() {
            assert(!is_comment_line(lines[k - 1], comment));
            assert(kept_front.take(shorter) =~= kept_front);
            assert(front.take(shorter) =~= front);
            assert(kept_front.push(lines.last()).take(k) =~= lines.take(k));
        } else {
            assert(kept_lines(lines, comment).take(k) =~= kept_front.take(k));
            assert(front.take(k) =~= lines.take(k));
        }
    } else {
        assert(kept_lines(lines, comment).take(k) =~= lines.take(k));
    }
}

/// Setting comment lines aside makes no number of fields more frequent,
/// and leaves as frequent those that no comment line has.
pub proof fn lemma_kept_frequency(
    rules: SplitRules,
    lines: Seq<Seq<u8>>,
    comment: Comment,
    v: nat,
)
    ensures
        frequency(field_counts(rules, kept_lines(lines, comment)), v) <= frequency(
            field_counts(rules, lines),
            v,
        ),
        (forall|i: int|
            0 <= i < lines.len() && is_comment_line(#[trigger] lines[i], comment) ==> split(
                rules,
                lines[i],
            ).len() != v) ==> frequency(field_counts(rules, kept_lines(lines, comment)), v)
            == frequency(field_counts(rules, lines), v),
    decreases lines.len(),
{
    if lines.len() > 0 {
        let front = lines.drop_last();
        let last = lines.last();
        lemma_kept_frequency(rules, front, comment, v);
        assert(field_counts(rules, lines).drop_last() =~= field_counts(rules, front));
        assert(field_counts(rules, lines).last() == split(rules, last).len());
        let kept_front = kept_lines(front, comment);
        if !is_comment_line(last, comment) {
            let kept = kept_front.push(last);
            assert(field_counts(rules, kept).drop_last() =~= field_counts(rules, kept_front));
            assert(field_counts(rules, kept).last() == split(rules, last).len());
        }
        if forall|i: int|
            0 <= i < lines.len() && is_comment_line(#[trigger] lines[i], comment) ==> split(
                rules,
                lines[i],
            ).len() != v {
            assert forall|i: int|
                0 <= i < front.len() && is_comment_line(#[trigger] front[i], comment) implies split(
                rules,
                front[i],
            ).len() != v by {
                assert(front[i] == lines[i]);
            }
            assert(is_comment_line(lines[lines.len() - 1], comment) ==> split(rules, last).len()
                != v);
        }
    }
}

fn begins_with(line: &[u8], b: u8) -> (r: bool)
    ensures
        r == starts_with(line@, b),
{
    line.len() > 0 && line[0] == b
}

fn is_comment(line: &[u8], comment: &Comment) -> (r: bool)
    ensures
        r == is_comment_line(line@, *comment),
{
    match comment {
        Comment::Enabled(c) => begins_with(line, *c),
        Comment::Disabled => false,
    }
}

/// Decides whether the candidate marks comments in `lines`, whose numbers
/// of fields are `widths`.
pub fn detect_comment(lines: &Vec<Vec<u8>>, widths: &Vec<usize>) -> (comment: Comment)
    ensures
        comment == comment_of(byte_seqs(lines@), nats(widths@)),
{
    let ghost sample = byte_seqs(lines@);
    let ghost ws = nats(widths@);
    if lines.len() != widths.len() || lines.len() == 0 {
        return Comment::Disabled;
    }
    let (m, _) = mode_of(widths);
    let p = leading_run(widths, m);
    let mut found: bool = false;
    let mut i: usize = 0;
    while i < lines.len()
        invariant
            i <= lines@.len(),
            lines@.len() == widths@.len(),
            sample == byte_seqs(lines@),
            ws == nats(widths@),
            m == mode(ws),
            p == preamble_len(ws, m as nat),
            found == exists|k: int| 0 <= k < i && starts_with(#[trigger] sample[k], HASH),
            forall|k: int|
                0 <= k < i && starts_with(#[trigger] sample[k], HASH) ==> ws[k] != m as nat && k
                    > p,
        decreases lines@.len() - i,
    {
        if begins_with(lines[i].as_slice(), HASH) {
            assert(starts_with(sample[i as int], HASH));
            if widths[i] == m || i <= p {
                assert(!(ws[i as int] != m as nat && i > p));
                return Comment::Disabled;
            }
            found = true;
        }
        i += 1;
    }
    if found {
        Comment::Enabled(HASH)
    } else {
        Comment::Disabled
    }
}

/// Cuts every line that is no comment line into its fields.
pub fn split_kept(rules: &SplitRules, lines: &Vec<Vec<u8>>, comment: &Comment) -> (rows: Vec<
    Vec<Vec<u8>>,
>)
    ensures
        records(rows@) == split_all(*rules, kept_lines(byte_seqs(lines@), *comment)),
{
    let ghost sample = byte_seqs(lines@);
    let mut rows: Vec<Vec<Vec<u8>>> = Vec::new();
    let mut i: usize = 0;
    assert(records(rows@) =~= split_all(*rules, kept_lines(sample.take(0), *comment)));
    while i < lines.len()
        invariant
            i <= lines@.len(),
            sample == byte_seqs(lines@),
            records(rows@) == split_all(*rules, kept_lines(sample.take(i as int), *comment)),
        decreases lines@.len() - i,
    {
        proof {
            assert(sample.take(i + 1).drop_last() =~= sample.take(i as int));
            assert(sample.take(i + 1).last() == lines@[i as int]@);
        }
        if !is_comment(lines[i].as_slice(), comment) {
            let fields = split_line(rules, lines[i].as_slice());
            let ghost before = rows@;
            rows.push(fields);
            assert(records(rows@) =~= split_all(
                *rules,
                kept_lines(sample.take(i + 1), *comment),
            )) by {
                let kept = kept_lines(sample.take(i as int), *comment);
                assert(records(before).len() == kept.len());
                assert forall|k: int| 0 <= k < rows@.len() implies records(rows@)[k] == split_all(
                    *rules,
                    kept.push(lines@[i as int]@),
                )[k] by {
                    if k < before.len() {
                        assert(records(rows@)[k] == records(before)[k]);
                    }
                }
            }
        }
        i += 1;
    }
    assert(sample.take(i as int) =~= sample);
    rows
}

/// The number of fields of each row.
pub fn row_widths(rows: &Vec<Vec<Vec<u8>>>) -> (widths: Vec<usize>)
    ensures
        nats(widths@) == widths_of(records(rows@)),
        widths@.len() == rows@.len(),
{
    let mut widths: Vec<usize> = Vec::new();
    let mut i: usize = 0;
    while i < rows.len()
        invariant
            i <= rows@.len(),
            widths@.len() == i,
            forall|k: int| 0 <= k < i ==> widths@[k] == (#[trigger] rows@[k])@.len(),
        decreases rows@.len() - i,
    {
        widths.push(rows[i].len());
        i += 1;
    }
    assert(nats(widths@) =~= widths_of(records(rows@)));
    widths
}

} // verus!
