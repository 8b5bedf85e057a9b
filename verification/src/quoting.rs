//! Finding the quote byte and the way a quote is escaped inside a quoted field.
//!
//! Each candidate quote is tried by reading every sampled line leniently:
//! with the candidate as the quote, with doubled quotes and with the escape
//! byte both understood. What the reading sees decides.

use vstd::prelude::*;

use crate::ascii::{BACKSLASH, DOUBLE_QUOTE, SINGLE_QUOTE};
use crate::fields::{
    lemma_absent_quote_opens_nothing, lemma_closed_at_most_opened, scan, scan_line, SplitRules,
};
use crate::metadata::{Escape, Quote};
use crate::model::byte_seqs;

verus! {

/// The one candidate escape byte.
pub open spec fn escape_candidate() -> u8 {
    BACKSLASH
}

/// The lenient conventions under which a candidate quote is tried.
pub open spec fn lenient_rules(delimiter: u8, quote: u8) -> SplitRules {
    SplitRules {
        delimiter,
        quote: Quote::Enabled(quote),
        doublequote_escapes: true,
        escape: Escape::Enabled(escape_candidate()),
    }
}

/// What a reading of all lines has seen of quoting.
pub struct QuoteTally {
    /// How many fields opened with the quote.
    pub opened: nat,
    /// How many of them were closed by a quote that the delimiter or the
    /// end of the line followed.
    pub closed: nat,
    /// How many doubled quotes stood inside quoted fields.
    pub doubled: nat,
    /// How many quotes inside quoted fields stood after the escape byte.
    pub escaped: nat,
}

/// What a reading of `lines` under `rules` sees of quoting, line by line.
pub open spec fn quote_tally(rules: SplitRules, lines: Seq<Seq<u8>>) -> QuoteTally
    decreases lines.len(),
{
    if lines.len() == 0 {
        QuoteTally { opened: 0, closed: 0, doubled: 0, escaped: 0 }
    } else {
        let before = quote_tally(rules, lines.drop_last());
        let line = scan(rules, lines.last());
        QuoteTally {
            opened: before.opened + line.opened,
            closed: before.closed + line.closed,
            doubled: before.doubled + line.doubled,
            escaped: before.escaped + line.escaped,
        }
    }
}

/// A byte is the quote when fields open with it, and more than half of the
/// fields that do are closed by it right before a delimiter or the end of
/// the line.
pub open spec fn supported(t: QuoteTally) -> bool {
    t.opened > 0 && 2 * t.closed > t.opened
}

/// The quoting style of the sample: the first supported one of the two
/// candidates, the double quote before the single quote.
pub open spec fn quote_of(lines: Seq<Seq<u8>>, delimiter: u8) -> Quote {
    if supported(quote_tally(lenient_rules(delimiter, DOUBLE_QUOTE), lines)) {
        Quote::Enabled(DOUBLE_QUOTE)
    } else if supported(quote_tally(lenient_rules(delimiter, SINGLE_QUOTE), lines)) {
        Quote::Enabled(SINGLE_QUOTE)
    } else {
        Quote::Disabled
    }
}

/// How a quote is written inside a quoted field.
#[derive(Clone, Copy, Debug, PartialEq, Eq, Structural)]
pub struct Quoting {
    /// The quoting style.
    pub quote: Quote,
    /// Whether a doubled quote inside a quoted field stands for one quote.
    pub doublequote_escapes: bool,
    /// The escape byte, if any.
    pub escape: Escape,
}

/// The quoting of the sample.
///
/// Where doubled quotes occur inside quoted fields, quotes are escaped by
/// doubling. Where none occurs but quotes stand after the escape byte,
/// that byte escapes them. The two never hold together. Where neither is
/// seen, or nothing is quoted, doubling is the convention.
pub open spec fn quoting_of(lines: Seq<Seq<u8>>, delimiter: u8) -> Quoting {
    let quote = quote_of(lines, delimiter);
    match quote {
        Quote::Disabled => Quoting { quote, doublequote_escapes: true, escape: Escape::Disabled },
        Quote::Enabled(q) => {
            let t = quote_tally(lenient_rules(delimiter, q), lines);
            if t.doubled == 0 && t.escaped > 0 {
                Quoting {
                    quote,
                    doublequote_escapes: false,
                    escape: Escape::Enabled(escape_candidate()),
                }
            } else {
                Quoting { quote, doublequote_escapes: true, escape: Escape::Disabled }
            }
        },
    }
}

/// The conventions that a delimiter and a quoting give.
pub open spec fn rules_of(delimiter: u8, quoting: Quoting) -> SplitRules {
    SplitRules {
        delimiter,
        quote: quoting.quote,
        doublequote_escapes: quoting.doublequote_escapes,
        escape: quoting.escape,
    }
}

struct Seen {
    opened: u128,
    closed: u128,
    doubled: u128,
    escaped: u128,
}

impl View for Seen {
    type V = QuoteTally;

    closed spec fn view(&self) -> QuoteTally {
        QuoteTally {
            opened: self.opened as nat,
            closed: self.closed as nat,
            doubled: self.doubled as nat,
            escaped: self.escaped as nat,
        }
    }
}

fn lenient(delimiter: u8, quote: u8) -> (rules: SplitRules)
    ensures
        rules == lenient_rules(delimiter, quote),
{
    SplitRules {
        delimiter,
        quote: Quote::Enabled(quote),
        doublequote_escapes: true,
        escape: Escape::Enabled(BACKSLASH),
    }
}

/// Reads all lines under `rules` and adds up what each shows of quoting.
fn tally(rules: &SplitRules, lines: &Vec<Vec<u8>>) -> (seen: Seen)
    ensures
        seen@ == quote_tally(*rules, byte_seqs(lines@)),
        seen.closed <= seen.opened,
{
    let ghost sample = byte_seqs(lines@);
    let mut seen = Seen { opened: 0, closed: 0, doubled: 0, escaped: 0 };
    let mut i: usize = 0;
    while i < lines.len()
        invariant
            i <= lines@.len(),
            sample == byte_seqs(lines@),
            seen@ == quote_tally(*rules, sample.take(i as int)),
            seen.closed <= seen.opened,
            seen.opened <= i * 0xffff_ffff_ffff_ffff,
            seen.doubled <= i * 0xffff_ffff_ffff_ffff,
            seen.escaped <= i * 0xffff_ffff_ffff_ffff,
        decreases lines@.len() - i,
    {
        let line = scan_line(rules, lines[i].as_slice());
        proof {
            assert(sample.take(i + 1).drop_last() =~= sample.take(i as int));
            assert(sample.take(i + 1).last() == lines@[i as int]@);
            lemma_closed_at_most_opened(*rules, lines@[i as int]@);
        }
        seen = Seen {
            opened: seen.opened + line.opened as u128,
            closed: seen.closed + line.closed as u128,
            doubled: seen.doubled + line.doubled as u128,
            escaped: seen.escaped + line.escaped as u128,
        };
        i += 1;
    }
    assert(sample.take(i as int) =~= sample);
    seen
}

fn is_supported(seen: &Seen) -> (r: bool)
    requires
        seen.closed <= seen.opened,
    ensures
        r == supported(seen@),
{
    seen.opened > 0 && seen.closed > seen.opened - seen.closed
}

fn escaping(quote: u8, seen: &Seen) -> (quoting: Quoting)
    ensures
        quoting.quote == Quote::Enabled(quote),
        quoting.doublequote_escapes == !(seen@.doubled == 0 && seen@.escaped > 0),
        quoting.escape == if seen@.doubled == 0 && seen@.escaped > 0 {
            Escape::Enabled(escape_candidate())
        } else {
            Escape::Disabled
        },
{
    if seen.doubled == 0 && seen.escaped > 0 {
        Quoting {
            quote: Quote::Enabled(quote),
            doublequote_escapes: false,
            escape: Escape::Enabled(BACKSLASH),
        }
    } else {
        Quoting { quote: Quote::Enabled(quote), doublequote_escapes: true, escape: Escape::Disabled }
    }
}

/// Finds the quote byte of the sampled lines and the way quotes are
/// escaped inside quoted fields.
pub fn detect_quoting(lines: &Vec<Vec<u8>>, delimiter: u8) -> (quoting: Quoting)
    ensures
        quoting == quoting_of(byte_seqs(lines@), delimiter),
{
    let double = tally(&lenient(delimiter, DOUBLE_QUOTE), lines);
    if is_supported(&double) {
        return escaping(DOUBLE_QUOTE, &double);
    }
    let single = tally(&lenient(delimiter, SINGLE_QUOTE), lines);
    if is_supported(&single) {
        return escaping(SINGLE_QUOTE, &single);
    }
    Quoting { quote: Quote::Disabled, doublequote_escapes: true, escape: Escape::Disabled }
}


/// Where the quote byte stands in no line, a reading sees nothing of quoting.
pub proof fn lemma_absent_quote_tally(rules: SplitRules, lines: Seq<Seq<u8>>)
    requires
        forall|i: int, k: int|
            0 <= i < lines.len() && 0 <= k < lines[i].len() ==> rules.quote.byte() != Some(
                #[trigger] lines[i][k],
            ),
    ensures
        quote_tally(rules, lines) == (QuoteTally { opened: 0, closed: 0, doubled: 0, escaped: 0 }),
    decreases lines.len(),
{
    if lines.len() > 0 {
        let front = lines.drop_last();
        assert forall|i: int, k: int| 0 <= i < front.len() && 0 <= k < front[i].len() implies rules.quote.byte()
            != Some(#[trigger] front[i][k]) by {
            assert(front[i] == lines[i]);
        }
        lemma_absent_quote_tally(rules, front);
        let last = lines.last();
        assert forall|k: int| 0 <= k < last.len() implies rules.quote.byte() != Some(last[k]) by {
            assert(last[k] == lines[lines.len() - 1][k]);
        }
        lemma_absent_quote_opens_nothing(rules, last);
    }
}

/// A sample in which neither candidate quote stands is not quoted, and
/// doubling is its convention.
pub proof fn lemma_unquoted_sample(lines: Seq<Seq<u8>>, delimiter: u8)
    requires
        forall|i: int, k: int|
            0 <= i < lines.len() && 0 <= k < lines[i].len() ==> (#[trigger] lines[i][k])
                != DOUBLE_QUOTE && lines[i][k] != SINGLE_QUOTE,
    ensures
        quoting_of(lines, delimiter) == (Quoting {
            quote: Quote::Disabled,
            doublequote_escapes: true,
            escape: Escape::Disabled,
        }),
{
    lemma_absent_quote_tally(lenient_rules(delimiter, DOUBLE_QUOTE), lines);
    lemma_absent_quote_tally(lenient_rules(delimiter, SINGLE_QUOTE), lines);
}

} // verus!
