//! Where the preamble of a file ends, in bytes.

use vstd::prelude::*;
use vstd::slice::slice_subrange;

use crate::ascii::LINE_FEED;
use crate::metadata::Dialect;
use crate::tally::{count_byte, is_offset_after, lemma_offset_after_is, offset_after};

verus! {

/// `p` is where the first `rows` lines of `data` end: the least offset
/// with `rows` line feeds before it, or the end of `data` when it holds
/// fewer line feeds than that.
pub open spec fn is_preamble_end(data: Seq<u8>, rows: nat, p: int) -> bool {
    is_offset_after(data, LINE_FEED, rows, p)
}

/// The offset at which the first `rows` lines of `data` end.
pub open spec fn preamble_end(data: Seq<u8>, rows: nat) -> int {
    offset_after(data, LINE_FEED, rows)
}

/// The offset at which the first `rows` lines of `data` end: the number of
/// bytes to skip so that reading starts after the preamble.
pub fn preamble_offset(data: &[u8], rows: usize) -> (p: usize)
    ensures
        is_preamble_end(data@, rows as nat, p as int),
        p == preamble_end(data@, rows as nat),
{
    let mut i: usize = 0;
    let mut seen: usize = 0;
    assert(data@.take(0) =~= Seq::<u8>::empty());
    while i < data.len() && seen < rows
        invariant
            i <= data@.len(),
            seen <= rows,
            seen == count_byte(data@.take(i as int), LINE_FEED),
            forall|q: int| 0 <= q < i ==> count_byte(#[trigger] data@.take(q), LINE_FEED) < rows,
        decreases data@.len() - i,
    {
        proof {
            assert(data@.take(i + 1).drop_last() =~= data@.take(i as int));
        }
        if data[i] == LINE_FEED {
            seen += 1;
        }
        i += 1;
    }
    proof {
        assert(data@.take(data@.len() as int) =~= data@);
        lemma_offset_after_is(data@, LINE_FEED, rows as nat, i as int);
    }
    i
}

impl Dialect {
    /// What is left of `data` after the preamble rows of this dialect.
    pub fn skip_preamble<'a>(&self, data: &'a [u8]) -> (rest: &'a [u8])
        ensures
            rest@ == data@.skip(preamble_end(data@, self.header.num_preamble_rows as nat)),
    {
        let p = preamble_offset(data, self.header.num_preamble_rows);
        assert(data@.subrange(p as int, data@.len() as int) =~= data@.skip(p as int));
        slice_subrange(data, p, data.len())
    }
}

} // verus!
