//! Deciding whether the first row after the preamble holds column labels.

use vstd::prelude::*;

use crate::field_type::{column_type, column_values, infer_column_of, infer_value};
use crate::model::{byte_seqs, records, rows_from};

verus! {

/// In column `j` the first row has another type than the rows after it have together.
pub open spec fn label_differs(rows: Seq<Seq<Seq<u8>>>, j: int) -> bool {
    column_type(seq![rows[0][j]]) != column_type(column_values(rows.skip(1), j))
}

/// Whether the first of `rows` is a header row: there are at least two
/// rows, and in one of the first `num_fields` columns the type of the
/// first row's field, taken alone, differs from the type of the column
/// over all later rows.
///
/// With fewer than two rows there is nothing to compare, and the answer is
/// `false` for want of evidence.
pub open spec fn header_present(rows: Seq<Seq<Seq<u8>>>, num_fields: nat) -> bool {
    rows.len() >= 2 && exists|j: int|
        0 <= j < num_fields && j < rows[0].len() && #[trigger] label_differs(rows, j)
}

/// Decides whether the row at index `from` is a header row for the rows after it.
pub fn detect_header(rows: &Vec<Vec<Vec<u8>>>, from: usize, num_fields: usize) -> (r: bool)
    ensures
        r == header_present(rows_from(records(rows@), from as nat), num_fields as nat),
{
    let ghost tail = records(rows@).skip(from as int);
    if from > rows.len() || rows.len() - from < 2 {
        return false;
    }
    let first = &rows[from];
    let next: usize = from + 1;
    assert(tail[0] == byte_seqs(first@));
    assert(tail.skip(1) =~= records(rows@).skip(from + 1));
    let mut j: usize = 0;
    while j < num_fields && j < first.len()
        invariant
            next == from + 1,
            rows@.len() - from >= 2,
            next <= rows@.len(),
            tail == records(rows@).skip(from as int),
            tail[0] == byte_seqs(first@),
            tail.skip(1) == records(rows@).skip(from + 1),
            forall|k: int| 0 <= k < j ==> !label_differs(tail, k),
        decreases num_fields - j,
    {
        let label = infer_value(first[j].as_slice());
        let below = infer_column_of(rows, next, j);
        assert(tail[0][j as int] == first@[j as int]@);
        if label != below {
            assert(label_differs(tail, j as int));
            assert(tail.len() >= 2);
            assert(tail[0].len() == first@.len());
            return true;
        }
        j += 1;
    }
    false
}

} // verus!
