//! The mathematical model of a sample: lines and fields are sequences of
//! bytes, a record is a sequence of fields.

use vstd::prelude::*;

verus! {

/// The byte sequences that a vector of byte vectors holds: the lines of a
/// sample, or the fields of one record.
pub open spec fn byte_seqs(v: Seq<Vec<u8>>) -> Seq<Seq<u8>> {
    Seq::new(v.len(), |i: int| v[i]@)
}

/// The records that a vector of split lines holds.
pub open spec fn records(v: Seq<Vec<Vec<u8>>>) -> Seq<Seq<Seq<u8>>> {
    Seq::new(v.len(), |i: int| byte_seqs(v[i]@))
}

/// The rows from index `from` on; none when there are fewer rows than that.
pub open spec fn rows_from(rows: Seq<Seq<Seq<u8>>>, from: nat) -> Seq<Seq<Seq<u8>>> {
    if from <= rows.len() {
        rows.skip(from as int)
    } else {
        Seq::empty()
    }
}

/// Copies the bytes of `source` from index `from` up to index `to`.
pub(crate) fn copy_bytes(source: &[u8], from: usize, to: usize) -> (copy: Vec<u8>)
    requires
        from <= to <= source@.len(),
    ensures
        copy@ == source@.subrange(from as int, to as int),
{
    let mut copy: Vec<u8> = Vec::new();
    let mut i: usize = from;
    while i < to
        invariant
            from <= i <= to <= source@.len(),
            copy@ == source@.subrange(from as int, i as int),
        decreases to - i,
    {
        copy.push(source[i]);
        i += 1;
    }
    copy
}

} // verus!
