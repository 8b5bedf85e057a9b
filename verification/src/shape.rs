//! The shape of a sample: how many fields a record has, how many leading
//! rows do not have that many, and whether any later row departs from it.

use vstd::prelude::*;

use crate::tally::{is_mode, lemma_frequency_bounds, mode, mode_of, nats};

verus! {

/// `p` is the length of the longest leading run of widths that differ from `m`.
pub open spec fn is_preamble_len(widths: Seq<nat>, m: nat, p: int) -> bool {
    &&& 0 <= p <= widths.len()
    &&& forall|i: int| 0 <= i < p ==> widths[i] != m
    &&& p < widths.len() ==> widths[p] == m
}

/// The number of leading rows whose width differs from `m`.
pub open spec fn preamble_len(widths: Seq<nat>, m: nat) -> int {
    choose|p: int| is_preamble_len(widths, m, p)
}

/// Some row from index `p` on has a width other than `m`.
pub open spec fn is_ragged(widths: Seq<nat>, m: nat, p: int) -> bool {
    exists|i: int| p <= i < widths.len() && widths[i] != m
}

/// The model of a [`Shape`].
pub struct ShapeView {
    pub num_fields: nat,
    pub num_preamble_rows: nat,
    pub flexible: bool,
}

/// The shape of rows with the given widths: the number of fields is the
/// mode of the widths, the preamble is the longest leading run of rows
/// with another width, and the shape is flexible when a row after the
/// preamble has another width. Without rows, all three are zero or false.
pub open spec fn shape_of(widths: Seq<nat>) -> ShapeView {
    if widths.len() == 0 {
        ShapeView { num_fields: 0, num_preamble_rows: 0, flexible: false }
    } else {
        let m = mode(widths);
        let p = preamble_len(widths, m);
        ShapeView { num_fields: m, num_preamble_rows: p as nat, flexible: is_ragged(widths, m, p) }
    }
}

/// The leading run of rows with another width has one length only.
pub proof fn lemma_preamble_len_unique(widths: Seq<nat>, m: nat, p: int, q: int)
    requires
        is_preamble_len(widths, m, p),
        is_preamble_len(widths, m, q),
    ensures
        p == q,
{
}

/// A length that fits is the length of the preamble.
pub proof fn lemma_preamble_len_is(widths: Seq<nat>, m: nat, p: int)
    requires
        is_preamble_len(widths, m, p),
    ensures
        preamble_len(widths, m) == p,
{
    lemma_preamble_len_unique(widths, m, preamble_len(widths, m), p);
}

/// The preamble ends before the rows do: the row after it has the most
/// frequent width.
pub proof fn lemma_preamble_ends(widths: Seq<nat>)
    requires
        widths.len() > 0,
        exists|m: nat| is_mode(widths, m),
    ensures
        0 <= preamble_len(widths, mode(widths)) < widths.len(),
        widths[preamble_len(widths, mode(widths))] == mode(widths),
        is_preamble_len(widths, mode(widths), preamble_len(widths, mode(widths))),
{
    let m = mode(widths);
    lemma_frequency_bounds(widths, m);
    let k = choose|k: int| 0 <= k < widths.len() && widths[k] == m;
    lemma_first_width(widths, m, k);
}

/// Where a width stands in the list, there is a first place where it stands.
proof fn lemma_first_width(widths: Seq<nat>, m: nat, k: int)
    requires
        0 <= k < widths.len(),
        widths[k] == m,
    ensures
        exists|p: int| is_preamble_len(widths, m, p) && p <= k,
    decreases k,
{
    if exists|i: int| 0 <= i < k && widths[i] == m {
        let i = choose|i: int| 0 <= i < k && widths[i] == m;
        lemma_first_width(widths, m, i);
    } else {
        assert(is_preamble_len(widths, m, k));
    }
}

/// The shape of a sample.
#[derive(Clone, Copy, Debug, PartialEq, Eq, Structural)]
pub struct Shape {
    /// The number of fields of a record.
    pub num_fields: usize,
    /// The number of leading rows that do not have that many fields.
    pub num_preamble_rows: usize,
    /// Whether a row after the preamble has another number of fields.
    pub flexible: bool,
}

impl View for Shape {
    type V = ShapeView;

    open spec fn view(&self) -> ShapeView {
        ShapeView {
            num_fields: self.num_fields as nat,
            num_preamble_rows: self.num_preamble_rows as nat,
            flexible: self.flexible,
        }
    }
}

/// The number of leading rows whose width is not `m`.
pub fn leading_run(widths: &Vec<usize>, m: usize) -> (p: usize)
    ensures
        is_preamble_len(nats(widths@), m as nat, p as int),
        p == preamble_len(nats(widths@), m as nat),
{
    let mut p: usize = 0;
    while p < widths.len() && widths[p] != m
        invariant
            p <= widths@.len(),
            forall|i: int| 0 <= i < p ==> nats(widths@)[i] != m as nat,
        decreases widths@.len() - p,
    {
        p += 1;
    }
    proof {
        lemma_preamble_len_is(nats(widths@), m as nat, p as int);
    }
    p
}

/// Whether a row from index `p` on has a width other than `m`.
pub fn ragged_from(widths: &Vec<usize>, m: usize, p: usize) -> (r: bool)
    ensures
        r == is_ragged(nats(widths@), m as nat, p as int),
{
    let mut i: usize = p;
    while i < widths.len()
        invariant
            p <= i,
            forall|k: int| p <= k < i && k < widths@.len() ==> nats(widths@)[k] == m as nat,
        decreases widths@.len() - i,
    {
        if widths[i] != m {
            assert(nats(widths@)[i as int] != m as nat);
            return true;
        }
        i += 1;
    }
    false
}

/// The shape of rows with the given widths.
pub fn analyze_shape(widths: &Vec<usize>) -> (shape: Shape)
    ensures
        shape@ == shape_of(nats(widths@)),
        shape.num_preamble_rows <= widths@.len(),
        widths@.len() > 0 ==> shape.num_preamble_rows < widths@.len() && widths@[shape.num_preamble_rows as int]
            == shape.num_fields,
{
    if widths.len() == 0 {
        return Shape { num_fields: 0, num_preamble_rows: 0, flexible: false };
    }
    let (m, _) = mode_of(widths);
    let p = leading_run(widths, m);
    proof {
        lemma_preamble_ends(nats(widths@));
        assert(nats(widths@)[p as int] == widths@[p as int] as nat);
    }
    let flexible = ragged_from(widths, m, p);
    Shape { num_fields: m, num_preamble_rows: p, flexible }
}

} // verus!
