//! Cutting one line into fields, with and without quoting.
//!
//! A line is read byte by byte by a machine with five states. The machine
//! follows the conventions of strict readers of delimited text: a quote
//! opens a quoted field only at the start of a field; inside a quoted field
//! the delimiter is an ordinary byte; a doubled quote, or a quote after the
//! escape byte, stands for one quote; the quote that closes a field is
//! followed by the delimiter or by the end of the line.

use vstd::prelude::*;

use crate::metadata::{Dialect, Escape, Quote};
use crate::model::byte_seqs;
use crate::tally::{
    count_byte, lemma_count_take_step, lemma_offset_at_start, nats, offset_after,
};

verus! {

/// The conventions by which a line is cut into fields.
#[derive(Clone, Copy, Debug, PartialEq, Eq, Structural)]
pub struct SplitRules {
    /// The byte that separates fields.
    pub delimiter: u8,
    /// The quoting style.
    pub quote: Quote,
    /// Whether a doubled quote inside a quoted field stands for one quote.
    pub doublequote_escapes: bool,
    /// The escape byte, if any.
    pub escape: Escape,
}

/// Where the machine stands between two bytes of a line.
#[derive(Clone, Copy, Debug, PartialEq, Eq, Structural)]
pub enum ScanState {
    /// At the start of a field: nothing of it has been read.
    FieldStart,
    /// Inside a field that is not, or no longer, enclosed in quotes.
    Unquoted,
    /// Inside a quoted field.
    Quoted,
    /// Inside a quoted field, right after the escape byte.
    Escaped,
    /// Inside a quoted field, right after a quote: the field has ended,
    /// unless the quote is the first of a doubled pair.
    QuoteSeen,
}

/// What the machine has gathered from a prefix of a line.
pub struct Scan {
    /// Where the machine stands.
    pub state: ScanState,
    /// The fields that have ended.
    pub done: Seq<Seq<u8>>,
    /// The content read so far of the field that has not ended.
    pub field: Seq<u8>,
    /// How many fields opened with a quote.
    pub opened: nat,
    /// How many of them were closed by a quote that the delimiter followed.
    pub closed: nat,
    /// How many doubled quotes stood inside quoted fields.
    pub doubled: nat,
    /// How many quotes inside quoted fields stood after the escape byte.
    pub escaped: nat,
}

/// What a whole line holds.
pub struct LineView {
    /// The content of the fields, without enclosing quotes and with escapes undone.
    pub fields: Seq<Seq<u8>>,
    /// How many fields opened with a quote.
    pub opened: nat,
    /// How many of them were closed by a quote that the delimiter or the
    /// end of the line followed.
    pub closed: nat,
    /// How many doubled quotes stood inside quoted fields.
    pub doubled: nat,
    /// How many quotes inside quoted fields stood after the escape byte.
    pub escaped: nat,
}

/// The machine before the first byte.
pub open spec fn scan_start() -> Scan {
    Scan {
        state: ScanState::FieldStart,
        done: Seq::empty(),
        field: Seq::empty(),
        opened: 0,
        closed: 0,
        doubled: 0,
        escaped: 0,
    }
}

/// The machine after it has ended the current field.
pub open spec fn end_field(s: Scan) -> Scan {
    Scan { state: ScanState::FieldStart, done: s.done.push(s.field), field: Seq::empty(), ..s }
}

/// The machine after it has added `b` to the current field and moved to `state`.
pub open spec fn keep_byte(s: Scan, b: u8, state: ScanState) -> Scan {
    Scan { state, field: s.field.push(b), ..s }
}

/// The machine after the byte `b`.
pub open spec fn scan_step(rules: SplitRules, s: Scan, b: u8) -> Scan {
    let quote = rules.quote.byte() == Some(b);
    let delimiter = b == rules.delimiter;
    match s.state {
        ScanState::FieldStart => {
            if quote {
                Scan { state: ScanState::Quoted, opened: s.opened + 1, ..s }
            } else if delimiter {
                end_field(s)
            } else {
                keep_byte(s, b, ScanState::Unquoted)
            }
        },
        ScanState::Unquoted => {
            if delimiter {
                end_field(s)
            } else {
                keep_byte(s, b, ScanState::Unquoted)
            }
        },
        ScanState::Quoted => {
            if quote {
                Scan { state: ScanState::QuoteSeen, ..s }
            } else if rules.escape.byte() == Some(b) {
                Scan { state: ScanState::Escaped, ..s }
            } else {
                keep_byte(s, b, ScanState::Quoted)
            }
        },
        ScanState::Escaped => {
            let kept = keep_byte(s, b, ScanState::Quoted);
            if quote {
                Scan { escaped: s.escaped + 1, ..kept }
            } else {
                kept
            }
        },
        ScanState::QuoteSeen => {
            if quote && rules.doublequote_escapes {
                Scan { doubled: s.doubled + 1, ..keep_byte(s, b, ScanState::Quoted) }
            } else if delimiter {
                Scan { closed: s.closed + 1, ..end_field(s) }
            } else {
                keep_byte(s, b, ScanState::Unquoted)
            }
        },
    }
}

/// The machine after the first `n` bytes of `line`.
pub open spec fn scan_prefix(rules: SplitRules, line: Seq<u8>, n: nat) -> Scan
    decreases n,
{
    if n == 0 {
        scan_start()
    } else {
        scan_step(rules, scan_prefix(rules, line, (n - 1) as nat), line[n - 1])
    }
}

/// What the machine has gathered when the line ends after `s`: the field in
/// progress ends too, and a quote that was just seen has closed it.
pub open spec fn scan_end(s: Scan) -> LineView {
    LineView {
        fields: s.done.push(s.field),
        opened: s.opened,
        closed: if s.state == ScanState::QuoteSeen {
            s.closed + 1
        } else {
            s.closed
        },
        doubled: s.doubled,
        escaped: s.escaped,
    }
}

/// What `line` holds under `rules`.
pub open spec fn scan(rules: SplitRules, line: Seq<u8>) -> LineView {
    scan_end(scan_prefix(rules, line, line.len()))
}

/// The fields of `line` under `rules`. A line has at least one field.
pub open spec fn split(rules: SplitRules, line: Seq<u8>) -> Seq<Seq<u8>> {
    scan(rules, line).fields
}

/// The number of fields of each line.
pub open spec fn field_counts(rules: SplitRules, lines: Seq<Seq<u8>>) -> Seq<nat> {
    Seq::new(lines.len(), |i: int| split(rules, lines[i]).len())
}

impl Dialect {
    /// The conventions by which this dialect cuts a line into fields.
    pub open spec fn split_rules_spec(&self) -> SplitRules {
        SplitRules {
            delimiter: self.delimiter,
            quote: self.quote,
            doublequote_escapes: self.doublequote_escapes,
            escape: self.escape,
        }
    }

    /// The conventions by which this dialect cuts a line into fields.
    #[verifier::when_used_as_spec(split_rules_spec)]
    pub fn split_rules(&self) -> (rules: SplitRules)
        ensures
            rules == self.split_rules_spec(),
    {
        SplitRules {
            delimiter: self.delimiter,
            quote: self.quote,
            doublequote_escapes: self.doublequote_escapes,
            escape: self.escape,
        }
    }
}

/// What a line holds: its fields and what was seen of quoting.
#[derive(Clone, Debug)]
pub struct LineScan {
    /// The content of the fields, without enclosing quotes and with escapes undone.
    pub fields: Vec<Vec<u8>>,
    /// How many fields opened with a quote.
    pub opened: usize,
    /// How many of them were closed by a quote that the delimiter or the
    /// end of the line followed.
    pub closed: usize,
    /// How many doubled quotes stood inside quoted fields.
    pub doubled: usize,
    /// How many quotes inside quoted fields stood after the escape byte.
    pub escaped: usize,
}

impl View for LineScan {
    type V = LineView;

    open spec fn view(&self) -> LineView {
        LineView {
            fields: byte_seqs(self.fields@),
            opened: self.opened as nat,
            closed: self.closed as nat,
            doubled: self.doubled as nat,
            escaped: self.escaped as nat,
        }
    }
}

/// No count is greater than the number of bytes read, and a quoted field
/// that is still open has not been counted as closed.
pub open spec fn scan_counts_bounded(s: Scan, n: nat) -> bool {
    &&& s.opened <= n
    &&& s.doubled <= n
    &&& s.escaped <= n
    &&& s.closed <= s.opened
    &&& s.state == ScanState::Quoted || s.state == ScanState::Escaped || s.state
        == ScanState::QuoteSeen ==> s.closed < s.opened
}

/// The machine counts at most one event for each byte.
pub proof fn lemma_scan_counts_bounded(rules: SplitRules, line: Seq<u8>, n: nat)
    ensures
        scan_counts_bounded(scan_prefix(rules, line, n), n),
    decreases n,
{
    if n > 0 {
        lemma_scan_counts_bounded(rules, line, (n - 1) as nat);
    }
}

/// Reads `line` under `rules`.
pub fn scan_line(rules: &SplitRules, line: &[u8]) -> (r: LineScan)
    ensures
        r@ == scan(*rules, line@),
{
    let mut state: ScanState = ScanState::FieldStart;
    let mut fields: Vec<Vec<u8>> = Vec::new();
    let mut field: Vec<u8> = Vec::new();
    let mut opened: usize = 0;
    let mut closed: usize = 0;
    let mut doubled: usize = 0;
    let mut escaped: usize = 0;
    let mut i: usize = 0;
    assert(byte_seqs(fields@) =~= Seq::<Seq<u8>>::empty());
    while i < line.len()
        invariant
            i <= line@.len(),
            ({
                let s = scan_prefix(*rules, line@, i as nat);
                &&& s.state == state
                &&& s.done == byte_seqs(fields@)
                &&& s.field == field@
                &&& s.opened == opened
                &&& s.closed == closed
                &&& s.doubled == doubled
                &&& s.escaped == escaped
            }),
        decreases line@.len() - i,
    {
        let b: u8 = line[i];
        let quote: bool = rules.quote.is(b);
        let delimiter: bool = b == rules.delimiter;
        proof {
            lemma_scan_counts_bounded(*rules, line@, i as nat);
            assert(byte_seqs(fields@.push(field)) =~= byte_seqs(fields@).push(field@));
        }
        match state {
            ScanState::FieldStart => {
                if quote {
                    state = ScanState::Quoted;
                    opened += 1;
                } else if delimiter {
                    fields.push(field);
                    field = Vec::new();
                } else {
                    field.push(b);
                    state = ScanState::Unquoted;
                }
            },
            ScanState::Unquoted => {
                if delimiter {
                    fields.push(field);
                    field = Vec::new();
                    state = ScanState::FieldStart;
                } else {
                    field.push(b);
                }
            },
            ScanState::Quoted => {
                if quote {
                    state = ScanState::QuoteSeen;
                } else if rules.escape.is(b) {
                    state = ScanState::Escaped;
                } else {
                    field.push(b);
                }
            },
            ScanState::Escaped => {
                field.push(b);
                state = ScanState::Quoted;
                if quote {
                    escaped += 1;
                }
            },
            ScanState::QuoteSeen => {
                if quote && rules.doublequote_escapes {
                    field.push(b);
                    state = ScanState::Quoted;
                    doubled += 1;
                } else if delimiter {
                    fields.push(field);
                    field = Vec::new();
                    state = ScanState::FieldStart;
                    closed += 1;
                } else {
                    field.push(b);
                    state = ScanState::Unquoted;
                }
            },
        }
        i += 1;
    }
    proof {
        lemma_scan_counts_bounded(*rules, line@, i as nat);
        assert(byte_seqs(fields@.push(field)) =~= byte_seqs(fields@).push(field@));
    }
    fields.push(field);
    if state == ScanState::QuoteSeen {
        closed += 1;
    }
    LineScan { fields, opened, closed, doubled, escaped }
}

/// The fields of `line` under `rules`: their content, without enclosing
/// quotes and with escapes undone.
pub fn split_line(rules: &SplitRules, line: &[u8]) -> (fields: Vec<Vec<u8>>)
    ensures
        byte_seqs(fields@) == split(*rules, line@),
        fields@.len() >= 1,
{
    let r = scan_line(rules, line);
    assert(byte_seqs(r.fields@).len() == r.fields@.len());
    r.fields
}


/// The number of fields of each line under `rules`.
pub fn count_fields(rules: &SplitRules, lines: &Vec<Vec<u8>>) -> (counts: Vec<usize>)
    ensures
        nats(counts@) == field_counts(*rules, byte_seqs(lines@)),
        counts@.len() == lines@.len(),
        forall|i: int| 0 <= i < counts@.len() ==> counts@[i] >= 1,
{
    let mut counts: Vec<usize> = Vec::new();
    let mut i: usize = 0;
    while i < lines.len()
        invariant
            i <= lines@.len(),
            counts@.len() == i,
            forall|k: int|
                0 <= k < i ==> counts@[k] as nat == split(*rules, #[trigger] lines@[k]@).len(),
            forall|k: int| 0 <= k < i ==> counts@[k] >= 1,
        decreases lines@.len() - i,
    {
        let fields = split_line(rules, lines[i].as_slice());
        assert(byte_seqs(fields@).len() == fields@.len());
        counts.push(fields.len());
        i += 1;
    }
    assert(nats(counts@) =~= field_counts(*rules, byte_seqs(lines@)));
    counts
}

/// The conventions of a naive split: every delimiter separates two fields,
/// and no byte is a quote or an escape.
pub open spec fn naive_rules(delimiter: u8) -> SplitRules {
    SplitRules {
        delimiter,
        quote: Quote::Disabled,
        doublequote_escapes: false,
        escape: Escape::Disabled,
    }
}

/// Without quoting the machine only ever stands at the start of a field or
/// inside an unquoted one, and it has ended one field for each delimiter.
proof fn lemma_unquoted_prefix(rules: SplitRules, line: Seq<u8>, n: nat)
    requires
        rules.quote == Quote::Disabled,
        n <= line.len(),
    ensures
        ({
            let s = scan_prefix(rules, line, n);
            &&& s.state == ScanState::FieldStart || s.state == ScanState::Unquoted
            &&& s.done.len() == count_byte(line.take(n as int), rules.delimiter)
            &&& s.opened == 0
            &&& s.closed == 0
            &&& s.doubled == 0
            &&& s.escaped == 0
        }),
    decreases n,
{
    if n > 0 {
        lemma_unquoted_prefix(rules, line, (n - 1) as nat);
        assert(line.take(n as int).drop_last() =~= line.take(n - 1));
    }
}

/// Without quoting a line has one field more than it has delimiters, and
/// no field opens with a quote.
pub proof fn lemma_unquoted_split_counts_delimiters(rules: SplitRules, line: Seq<u8>)
    requires
        rules.quote == Quote::Disabled,
    ensures
        split(rules, line).len() == count_byte(line, rules.delimiter) + 1,
        scan(rules, line).opened == 0,
        scan(rules, line).closed == 0,
        scan(rules, line).doubled == 0,
        scan(rules, line).escaped == 0,
{
    lemma_unquoted_prefix(rules, line, line.len());
    assert(line.take(line.len() as int) =~= line);
}


/// No more quoted fields are closed in a line than were opened.
pub proof fn lemma_closed_at_most_opened(rules: SplitRules, line: Seq<u8>)
    ensures
        scan(rules, line).closed <= scan(rules, line).opened,
{
    lemma_scan_counts_bounded(rules, line, line.len());
}


/// A prefix of a line in which the quote byte does not stand opens no quoted field.
proof fn lemma_absent_quote_prefix(rules: SplitRules, line: Seq<u8>, n: nat)
    requires
        n <= line.len(),
        forall|i: int| 0 <= i < line.len() ==> rules.quote.byte() != Some(line[i]),
    ensures
        ({
            let s = scan_prefix(rules, line, n);
            &&& s.state == ScanState::FieldStart || s.state == ScanState::Unquoted
            &&& s.opened == 0
            &&& s.closed == 0
            &&& s.doubled == 0
            &&& s.escaped == 0
        }),
    decreases n,
{
    if n > 0 {
        lemma_absent_quote_prefix(rules, line, (n - 1) as nat);
    }
}

/// In a line in which the quote byte does not stand, no field opens with a quote.
pub proof fn lemma_absent_quote_opens_nothing(rules: SplitRules, line: Seq<u8>)
    requires
        forall|i: int| 0 <= i < line.len() ==> rules.quote.byte() != Some(line[i]),
    ensures
        scan(rules, line).opened == 0,
        scan(rules, line).closed == 0,
        scan(rules, line).doubled == 0,
        scan(rules, line).escaped == 0,
{
    lemma_absent_quote_prefix(rules, line, line.len());
}


/// The fields, with the delimiter between each two of them.
pub open spec fn joined(fields: Seq<Seq<u8>>, delimiter: u8) -> Seq<u8>
    decreases fields.len(),
{
    if fields.len() == 0 {
        Seq::empty()
    } else if fields.len() == 1 {
        fields[0]
    } else {
        joined(fields.drop_last(), delimiter).push(delimiter) + fields.last()
    }
}

/// The delimiter stands in none of the fields.
pub open spec fn delimiter_free(fields: Seq<Seq<u8>>, delimiter: u8) -> bool {
    forall|k: int, i: int|
        0 <= k < fields.len() && 0 <= i < fields[k].len() ==> (#[trigger] fields[k][i])
            != delimiter
}

/// Without quoting, what the machine has read is what it has gathered: the
/// fields that have ended and the field in progress, joined by the delimiter.
proof fn lemma_unquoted_prefix_joins(rules: SplitRules, line: Seq<u8>, n: nat)
    requires
        rules.quote == Quote::Disabled,
        n <= line.len(),
    ensures
        ({
            let s = scan_prefix(rules, line, n);
            &&& s.state == ScanState::FieldStart || s.state == ScanState::Unquoted
            &&& s.state == ScanState::FieldStart ==> s.field.len() == 0
            &&& joined(s.done.push(s.field), rules.delimiter) == line.take(n as int)
            &&& delimiter_free(s.done.push(s.field), rules.delimiter)
        }),
    decreases n,
{
    let d = rules.delimiter;
    if n == 0 {
        assert(scan_start().done.push(scan_start().field)[0] =~= line.take(0));
    } else {
        lemma_unquoted_prefix_joins(rules, line, (n - 1) as nat);
        let before = scan_prefix(rules, line, (n - 1) as nat);
        let after = scan_prefix(rules, line, n);
        let b = line[n - 1];
        let had = before.done.push(before.field);
        let has = after.done.push(after.field);
        assert(line.take(n as int) =~= line.take(n - 1).push(b));
        assert(had.drop_last() =~= before.done);
        if b == d {
            assert(after.done == had);
            assert(has.drop_last() =~= had);
            assert(joined(has, d) =~= joined(had, d).push(d));
            assert forall|k: int, i: int| 0 <= k < has.len() && 0 <= i < has[k].len() implies (
            #[trigger] has[k][i]) != d by {
                if k < had.len() {
                    assert(has[k] == had[k]);
                }
            }
        } else {
            assert(after.done == before.done);
            assert(has.drop_last() =~= before.done);
            assert(has.last() == before.field.push(b));
            if before.done.len() == 0 {
                assert(had[0] == before.field);
                assert(joined(has, d) =~= joined(had, d).push(b));
            } else {
                assert(joined(has, d) =~= joined(had, d).push(b));
            }
            assert forall|k: int, i: int| 0 <= k < has.len() && 0 <= i < has[k].len() implies (
            #[trigger] has[k][i]) != d by {
                if k < before.done.len() {
                    assert(has[k] == had[k]);
                } else if i < before.field.len() {
                    assert(has[k][i] == had[k][i]);
                }
            }
        }
    }
}

/// Without quoting, the fields of a line are the pieces between its
/// delimiters: joined by the delimiter they are the line, and the
/// delimiter stands in none of them.
pub proof fn lemma_unquoted_split_joins(rules: SplitRules, line: Seq<u8>)
    requires
        rules.quote == Quote::Disabled,
    ensures
        joined(split(rules, line), rules.delimiter) == line,
        delimiter_free(split(rules, line), rules.delimiter),
{
    lemma_unquoted_prefix_joins(rules, line, line.len());
    assert(line.take(line.len() as int) =~= line);
}


/// Without quoting, the convention on doubled quotes changes nothing.
proof fn lemma_doubling_is_idle_prefix(rules: SplitRules, line: Seq<u8>, n: nat)
    requires
        rules.quote == Quote::Disabled,
        n <= line.len(),
    ensures
        scan_prefix(SplitRules { doublequote_escapes: !rules.doublequote_escapes, ..rules }, line, n)
            == scan_prefix(rules, line, n),
        scan_prefix(rules, line, n).state == ScanState::FieldStart || scan_prefix(
            rules,
            line,
            n,
        ).state == ScanState::Unquoted,
    decreases n,
{
    if n > 0 {
        lemma_doubling_is_idle_prefix(rules, line, (n - 1) as nat);
    }
}

/// Without quoting, a line is cut in the same way whether doubled quotes
/// count as escapes or not.
pub proof fn lemma_doubling_is_idle_without_quotes(rules: SplitRules, line: Seq<u8>)
    requires
        rules.quote == Quote::Disabled,
    ensures
        split(SplitRules { doublequote_escapes: !rules.doublequote_escapes, ..rules }, line)
            == split(rules, line),
{
    lemma_doubling_is_idle_prefix(rules, line, line.len());
}


/// Without quoting, the machine knows where it is: the field in progress
/// is the line from the offset after the last delimiter on, and each field
/// that has ended runs from the offset after one delimiter up to the next
/// delimiter.
proof fn lemma_unquoted_prefix_places(rules: SplitRules, line: Seq<u8>, n: nat)
    requires
        rules.quote == Quote::Disabled,
        n <= line.len(),
    ensures
        ({
            let s = scan_prefix(rules, line, n);
            let d = rules.delimiter;
            let start = n - s.field.len();
            &&& s.state == ScanState::FieldStart || s.state == ScanState::Unquoted
            &&& 0 <= start
            &&& s.field == line.subrange(start, n as int)
            &&& start == 0 || line[start - 1] == d
            &&& count_byte(line.take(start), d) == s.done.len()
            &&& forall|k: int|
                0 <= k < s.done.len() ==> #[trigger] s.done[k] == line.subrange(
                    offset_after(line, d, k as nat),
                    offset_after(line, d, (k + 1) as nat) - 1,
                ) && 0 <= offset_after(line, d, k as nat) < offset_after(line, d, (k + 1) as nat)
                    <= n
        }),
    decreases n,
{
    let d = rules.delimiter;
    if n == 0 {
        assert(line.subrange(0, 0) =~= Seq::<u8>::empty());
        assert(line.take(0) =~= Seq::<u8>::empty());
    } else {
        lemma_unquoted_prefix_places(rules, line, (n - 1) as nat);
        let before = scan_prefix(rules, line, (n - 1) as nat);
        let after = scan_prefix(rules, line, n);
        let b = line[n - 1];
        let start = n - 1 - before.field.len();
        if b == d {
            lemma_offset_at_start(line, d, start);
            lemma_offset_at_start(line, d, n as int);
            lemma_count_take_step(line, d, n - 1);
            assert(line.subrange(n as int, n as int) =~= Seq::<u8>::empty());
            lemma_unquoted_prefix(rules, line, (n - 1) as nat);
        } else {
            assert(after.field =~= line.subrange(start, n as int));
        }
    }
}

/// Without quoting, field `k` of a line is the stretch of the line that
/// starts at the offset after the `k`-th delimiter.
pub proof fn lemma_unquoted_field_places(rules: SplitRules, line: Seq<u8>, k: int)
    requires
        rules.quote == Quote::Disabled,
        0 <= k < split(rules, line).len(),
    ensures
        ({
            let start = offset_after(line, rules.delimiter, k as nat);
            let field = split(rules, line)[k];
            &&& 0 <= start
            &&& start + field.len() <= line.len()
            &&& field == line.subrange(start, start + field.len())
        }),
{
    let d = rules.delimiter;
    let n = line.len();
    lemma_unquoted_prefix_places(rules, line, n);
    let s = scan_prefix(rules, line, n);
    if k < s.done.len() {
        assert(split(rules, line)[k] == s.done[k]);
    } else {
        lemma_offset_at_start(line, d, n - s.field.len());
    }
}

} // verus!
