//! Choosing the delimiter.
//!
//! Each candidate splits every sampled line naively, without regard to
//! quoting. A candidate is judged by the most frequent number of fields
//! that it yields and by the share of lines that have that number.

use vstd::prelude::*;

use crate::ascii::{COLON, COMMA, PIPE, SEMICOLON, TAB};
use crate::error::{SniffError, SniffErrorView};
use crate::fields::{count_fields, field_counts, naive_rules, SplitRules};
use crate::metadata::{Escape, Quote};
use crate::model::byte_seqs;
use crate::tally::{frequency, mode, mode_of};

verus! {

/// The candidate delimiters, in their order of priority.
pub open spec fn candidates() -> Seq<u8> {
    seq![COMMA, TAB, SEMICOLON, PIPE, COLON]
}

/// The most frequent number of fields that `delimiter` yields on `lines`.
pub open spec fn width(lines: Seq<Seq<u8>>, delimiter: u8) -> nat {
    mode(field_counts(naive_rules(delimiter), lines))
}

/// The number of lines that `delimiter` splits into `width` fields.
pub open spec fn support(lines: Seq<Seq<u8>>, delimiter: u8) -> nat {
    frequency(field_counts(naive_rules(delimiter), lines), width(lines, delimiter))
}

/// A delimiter that mostly yields one field does not delimit anything.
pub open spec fn delimits(lines: Seq<Seq<u8>>, delimiter: u8) -> bool {
    width(lines, delimiter) > 1
}

/// The share `support / total` reaches the acceptance threshold of nine tenths.
pub open spec fn accepted(support: nat, total: nat) -> bool {
    10 * support >= 9 * total
}

/// Candidate `a` scores above candidate `b`: it has more support, or as
/// much and more fields, or as much of both and comes first in priority.
pub open spec fn outranks(lines: Seq<Seq<u8>>, a: int, b: int) -> bool {
    let da = candidates()[a];
    let db = candidates()[b];
    ||| support(lines, da) > support(lines, db)
    ||| support(lines, da) == support(lines, db) && width(lines, da) > width(lines, db)
    ||| support(lines, da) == support(lines, db) && width(lines, da) == width(lines, db) && a < b
}

/// Candidate `i` delimits, and scores above every other candidate that does.
pub open spec fn is_best(lines: Seq<Seq<u8>>, i: int) -> bool {
    &&& 0 <= i < candidates().len()
    &&& delimits(lines, candidates()[i])
    &&& forall|j: int|
        0 <= j < candidates().len() && j != i && delimits(lines, #[trigger] candidates()[j])
            ==> outranks(lines, i, j)
}

/// The delimiter of the sample: the best candidate, if its support reaches
/// the acceptance threshold. An empty sample has none.
pub open spec fn chosen_delimiter(lines: Seq<Seq<u8>>) -> Option<u8> {
    if lines.len() > 0 && exists|i: int| is_best(lines, i) {
        let d = candidates()[choose|i: int| is_best(lines, i)];
        if accepted(support(lines, d), lines.len()) {
            Some(d)
        } else {
            None
        }
    } else {
        None
    }
}

/// At most one candidate is the best.
pub proof fn lemma_best_unique(lines: Seq<Seq<u8>>, i: int, k: int)
    requires
        is_best(lines, i),
        is_best(lines, k),
    ensures
        i == k,
{
    if i != k {
        assert(delimits(lines, candidates()[i]));
        assert(delimits(lines, candidates()[k]));
        assert(outranks(lines, i, k));
        assert(outranks(lines, k, i));
    }
}

/// The delimiter that was chosen, and how well it fits the sample.
#[derive(Clone, Copy, Debug, PartialEq, Eq, Structural)]
pub struct DelimiterFit {
    /// The delimiter.
    pub delimiter: u8,
    /// The most frequent number of fields of a naive split.
    pub num_fields: usize,
    /// The number of sampled lines with that number of fields.
    pub support: usize,
    /// The number of sampled lines.
    pub total: usize,
}

impl DelimiterFit {
    /// The fit says of its delimiter what the sample shows.
    pub open spec fn describes(self, lines: Seq<Seq<u8>>) -> bool {
        &&& self.num_fields == width(lines, self.delimiter)
        &&& self.support == support(lines, self.delimiter)
        &&& self.total == lines.len()
    }

    /// Whether every sampled line has the most frequent number of fields.
    pub fn covers_all(&self) -> (r: bool)
        ensures
            r == (self.support == self.total),
    {
        self.support == self.total
    }
}

/// The candidate delimiters, in their order of priority.
pub fn candidate_delimiters() -> (v: Vec<u8>)
    ensures
        v@ == candidates(),
{
    let mut v: Vec<u8> = Vec::new();
    v.push(COMMA);
    v.push(TAB);
    v.push(SEMICOLON);
    v.push(PIPE);
    v.push(COLON);
    assert(v@ =~= candidates());
    v
}

fn naive(delimiter: u8) -> (rules: SplitRules)
    ensures
        rules == naive_rules(delimiter),
{
    SplitRules {
        delimiter,
        quote: Quote::Disabled,
        doublequote_escapes: false,
        escape: Escape::Disabled,
    }
}

fn reaches_threshold(support: usize, total: usize) -> (r: bool)
    ensures
        r == accepted(support as nat, total as nat),
{
    (support as u128) * 10 >= (total as u128) * 9
}

/// Chooses the delimiter of the sampled lines.
///
/// Fails when no candidate delimits, or when the best one leaves more than
/// a tenth of the lines with another number of fields.
pub fn detect_delimiter(lines: &Vec<Vec<u8>>) -> (r: Result<DelimiterFit, SniffError>)
    ensures
        match r {
            Ok(fit) => chosen_delimiter(byte_seqs(lines@)) == Some(fit.delimiter) && fit.describes(
                byte_seqs(lines@),
            ) && candidates().contains(fit.delimiter),
            Err(e) => chosen_delimiter(byte_seqs(lines@)) is None && e@
                == (SniffErrorView::NoDelimiterFound { attempted: candidates() }),
        },
{
    let ghost sample = byte_seqs(lines@);
    let tried = candidate_delimiters();
    if lines.len() == 0 {
        return Err(SniffError::NoDelimiterFound { attempted: tried });
    }
    let mut best: Option<(usize, usize, usize)> = None;
    let mut c: usize = 0;
    while c < tried.len()
        invariant
            c <= tried@.len(),
            tried@ == candidates(),
            sample == byte_seqs(lines@),
            lines@.len() > 0,
            match best {
                Some((i, w, s)) => {
                    &&& i < c
                    &&& delimits(sample, candidates()[i as int])
                    &&& w == width(sample, candidates()[i as int])
                    &&& s == support(sample, candidates()[i as int])
                    &&& 0 < s <= sample.len()
                    &&& forall|j: int|
                        0 <= j < c && j != i && delimits(sample, #[trigger] candidates()[j])
                            ==> outranks(sample, i as int, j)
                },
                None => forall|j: int| 0 <= j < c ==> !delimits(sample, #[trigger] candidates()[j]),
            },
        decreases tried@.len() - c,
    {
        let rules = naive(tried[c]);
        let counts = count_fields(&rules, lines);
        let (w, s) = mode_of(&counts);
        if w > 1 {
            let better: bool = match best {
                Some((_, bw, bs)) => s > bs || (s == bs && w > bw),
                None => true,
            };
            if better {
                best = Some((c, w, s));
            }
        }
        c += 1;
    }
    match best {
        Some((i, w, s)) => {
            proof {
                assert(is_best(sample, i as int));
                assert forall|k: int| is_best(sample, k) implies k == i by {
                    lemma_best_unique(sample, i as int, k);
                }
            }
            if reaches_threshold(s, lines.len()) {
                Ok(DelimiterFit { delimiter: tried[i], num_fields: w, support: s, total: lines.len() })
            } else {
                Err(SniffError::NoDelimiterFound { attempted: tried })
            }
        },
        None => {
            assert forall|k: int| !is_best(sample, k) by {}
            Err(SniffError::NoDelimiterFound { attempted: tried })
        },
    }
}

} // verus!
