//! The lattice of column types and the grammar that sorts a field value into it.

use vstd::prelude::*;

use crate::model::{byte_seqs, records, rows_from};
use crate::ascii::{
    DIGIT_0, DIGIT_1, DIGIT_9, LOWER_A, LOWER_E, LOWER_F, LOWER_L, LOWER_N, LOWER_O, LOWER_R,
    LOWER_S, LOWER_T, LOWER_U, LOWER_Y, MINUS, PLUS, POINT, UPPER_A, UPPER_E, UPPER_Z,
};

verus! {

/// The type of a field or of a column.
///
/// The variants are totally ordered by generality,
/// `Boolean < Integer < Float < Text`: every value that reads as one type
/// also fits every type above it, and `Text` fits everything.
#[derive(Clone, Copy, Debug, PartialEq, Eq, Structural, PartialOrd, Ord, Hash)]
pub enum Type {
    /// One of the tokens `true`, `false`, `yes`, `no`, `1`, `0`, in any letter case.
    Boolean,
    /// An optional sign followed by decimal digits.
    Integer,
    /// A decimal number with a fractional part, an exponent, or both.
    Float,
    /// Anything else.
    Text,
}

impl Type {
    /// The position of the type in the order of generality, from 0 for
    /// `Boolean` to 3 for `Text`.
    pub open spec fn rank(self) -> nat {
        match self {
            Type::Boolean => 0,
            Type::Integer => 1,
            Type::Float => 2,
            Type::Text => 3,
        }
    }

    /// `self` is at most as general as `other`.
    pub open spec fn fits(self, other: Type) -> bool {
        self.rank() <= other.rank()
    }

    /// The least type that is at least as general as both `self` and `other`.
    pub open spec fn join_spec(self, other: Type) -> Type {
        if self.rank() >= other.rank() {
            self
        } else {
            other
        }
    }

    /// Executable form of [`Type::rank`].
    pub fn generality(self) -> (r: u8)
        ensures
            r == self.rank(),
    {
        match self {
            Type::Boolean => 0,
            Type::Integer => 1,
            Type::Float => 2,
            Type::Text => 3,
        }
    }

    /// The least common supertype of `self` and `other`.
    #[verifier::when_used_as_spec(join_spec)]
    pub fn join(self, other: Type) -> (r: Type)
        ensures
            r == self.join_spec(other),
    {
        if self.generality() >= other.generality() {
            self
        } else {
            other
        }
    }
}

/// The join is the least upper bound of its arguments in the order of generality.
pub proof fn lemma_join_is_least_upper_bound(a: Type, b: Type, c: Type)
    ensures
        a.fits(a.join(b)),
        b.fits(a.join(b)),
        a.fits(c) && b.fits(c) ==> a.join(b).fits(c),
{
}

/// Joining a type with itself changes nothing.
pub proof fn lemma_join_idempotent(a: Type)
    ensures
        a.join(a) == a,
{
}

/// The join does not depend on the order of its arguments.
pub proof fn lemma_join_commutative(a: Type, b: Type)
    ensures
        a.join(b) == b.join(a),
{
}

/// The join does not depend on how its arguments are grouped.
pub proof fn lemma_join_associative(a: Type, b: Type, c: Type)
    ensures
        a.join(b).join(c) == a.join(b.join(c)),
{
}

/// `Text` absorbs every type and `Boolean` is neutral.
pub proof fn lemma_join_bounds(a: Type)
    ensures
        a.join(Type::Text) == Type::Text,
        Type::Text.join(a) == Type::Text,
        a.join(Type::Boolean) == a,
        Type::Boolean.join(a) == a,
{
}


/// `b` is an ASCII decimal digit.
pub open spec fn is_digit(b: u8) -> bool {
    DIGIT_0 <= b && b <= DIGIT_9
}

/// `b` is `+` or `-`.
pub open spec fn is_sign(b: u8) -> bool {
    b == PLUS || b == MINUS
}

/// The ASCII lower-case form of `b`.
pub open spec fn lower(b: u8) -> u8 {
    if UPPER_A <= b && b <= UPPER_Z {
        (b + 32) as u8
    } else {
        b
    }
}

/// `value` with every ASCII upper-case letter replaced by its lower-case form.
pub open spec fn lowercase(value: Seq<u8>) -> Seq<u8> {
    Seq::new(value.len(), |i: int| lower(value[i]))
}

/// Every byte of `s` is a decimal digit (true of the empty sequence).
pub open spec fn all_digits(s: Seq<u8>) -> bool {
    forall|i: int| 0 <= i < s.len() ==> is_digit(#[trigger] s[i])
}

/// The number of bytes, 0 or 1, that a leading sign takes in `s`.
pub open spec fn sign_len(s: Seq<u8>) -> int {
    if s.len() > 0 && is_sign(s[0]) {
        1
    } else {
        0
    }
}

/// `value`, case-normalised, is one of `true`, `false`, `yes`, `no`, `1`, `0`.
pub open spec fn is_boolean(value: Seq<u8>) -> bool {
    let low = lowercase(value);
    ||| low == seq![LOWER_T, LOWER_R, LOWER_U, LOWER_E]
    ||| low == seq![LOWER_F, LOWER_A, LOWER_L, LOWER_S, LOWER_E]
    ||| low == seq![LOWER_Y, LOWER_E, LOWER_S]
    ||| low == seq![LOWER_N, LOWER_O]
    ||| low == seq![DIGIT_1]
    ||| low == seq![DIGIT_0]
}

/// `value` is an optional sign followed by one or more decimal digits.
pub open spec fn is_integer(value: Seq<u8>) -> bool {
    let body = value.skip(sign_len(value));
    body.len() > 0 && all_digits(body)
}

/// `s` is a fractional part: a point followed by one or more decimal digits.
pub open spec fn is_fraction(s: Seq<u8>) -> bool {
    s.len() >= 2 && s[0] == POINT && all_digits(s.skip(1))
}

/// `s` is an exponent: `e` or `E` followed by an integer.
pub open spec fn is_exponent(s: Seq<u8>) -> bool {
    s.len() >= 1 && (s[0] == LOWER_E || s[0] == UPPER_E) && is_integer(s.skip(1))
}

/// `body` splits at `i` and `j` into one or more digits, an optional
/// fractional part and an optional exponent.
pub open spec fn splits_as_decimal(body: Seq<u8>, i: int, j: int) -> bool {
    &&& 0 < i <= j <= body.len()
    &&& all_digits(body.subrange(0, i))
    &&& (i == j || is_fraction(body.subrange(i, j)))
    &&& (j == body.len() || is_exponent(body.subrange(j, body.len() as int)))
}

/// `value` is a decimal number: an optional sign, one or more digits, an
/// optional fractional part and an optional exponent. Every integer is one.
pub open spec fn is_decimal(value: Seq<u8>) -> bool {
    let body = value.skip(sign_len(value));
    exists|i: int, j: int| splits_as_decimal(body, i, j)
}

/// The type of one field value: the least general type whose grammar the
/// whole value matches.
pub open spec fn classify_spec(value: Seq<u8>) -> Type {
    if is_boolean(value) {
        Type::Boolean
    } else if is_integer(value) {
        Type::Integer
    } else if is_decimal(value) {
        Type::Float
    } else {
        Type::Text
    }
}


fn to_lower(b: u8) -> (r: u8)
    ensures
        r == lower(b),
{
    if UPPER_A <= b && b <= UPPER_Z {
        b + 32
    } else {
        b
    }
}

fn digit(b: u8) -> (r: bool)
    ensures
        r == is_digit(b),
{
    DIGIT_0 <= b && b <= DIGIT_9
}

/// The end of the longest run of digits that starts at `from`.
fn digits_end(value: &[u8], from: usize) -> (end: usize)
    requires
        from <= value@.len(),
    ensures
        from <= end <= value@.len(),
        all_digits(value@.subrange(from as int, end as int)),
        end == value@.len() || !is_digit(value@[end as int]),
{
    let mut end: usize = from;
    while end < value.len() && digit(value[end])
        invariant
            from <= end <= value@.len(),
            all_digits(value@.subrange(from as int, end as int)),
        decreases value@.len() - end,
    {
        proof {
            let before = value@.subrange(from as int, end as int);
            let after = value@.subrange(from as int, end + 1);
            assert forall|i: int| 0 <= i < after.len() implies is_digit(#[trigger] after[i]) by {
                if i < before.len() {
                    assert(after[i] == before[i]);
                }
            }
        }
        end += 1;
    }
    end
}

/// A run of digits that starts at `from` ends where the first byte that is
/// no digit stands, and nowhere else.
proof fn lemma_digit_run_unique(s: Seq<u8>, from: int, p: int, q: int)
    requires
        0 <= from <= p <= s.len(),
        from <= q <= s.len(),
        all_digits(s.subrange(from, p)),
        all_digits(s.subrange(from, q)),
        p == s.len() || !is_digit(s[p]),
        q == s.len() || !is_digit(s[q]),
    ensures
        p == q,
{
    if p < q {
        assert(s.subrange(from, q)[p - from] == s[p]);
    } else if q < p {
        assert(s.subrange(from, p)[q - from] == s[q]);
    }
}

/// What `is_boolean` says, byte by byte.
proof fn lemma_boolean_by_bytes(value: Seq<u8>)
    ensures
        is_boolean(value) <==> {
            let n = value.len();
            ||| n == 1 && (value[0] == DIGIT_1 || value[0] == DIGIT_0)
            ||| n == 2 && lower(value[0]) == LOWER_N && lower(value[1]) == LOWER_O
            ||| n == 3 && lower(value[0]) == LOWER_Y && lower(value[1]) == LOWER_E && lower(
                value[2],
            ) == LOWER_S
            ||| n == 4 && lower(value[0]) == LOWER_T && lower(value[1]) == LOWER_R && lower(
                value[2],
            ) == LOWER_U && lower(value[3]) == LOWER_E
            ||| n == 5 && lower(value[0]) == LOWER_F && lower(value[1]) == LOWER_A && lower(
                value[2],
            ) == LOWER_L && lower(value[3]) == LOWER_S && lower(value[4]) == LOWER_E
        },
{
    let low = lowercase(value);
    let t4 = seq![LOWER_T, LOWER_R, LOWER_U, LOWER_E];
    let t5 = seq![LOWER_F, LOWER_A, LOWER_L, LOWER_S, LOWER_E];
    let t3 = seq![LOWER_Y, LOWER_E, LOWER_S];
    let t2 = seq![LOWER_N, LOWER_O];
    let one = seq![DIGIT_1];
    let zero = seq![DIGIT_0];
    assert(t4.len() == 4 && t4[0] == LOWER_T && t4[1] == LOWER_R && t4[2] == LOWER_U && t4[3]
        == LOWER_E);
    assert(t5.len() == 5 && t5[0] == LOWER_F && t5[1] == LOWER_A && t5[2] == LOWER_L && t5[3]
        == LOWER_S && t5[4] == LOWER_E);
    assert(t3.len() == 3 && t3[0] == LOWER_Y && t3[1] == LOWER_E && t3[2] == LOWER_S);
    assert(t2.len() == 2 && t2[0] == LOWER_N && t2[1] == LOWER_O);
    assert(one.len() == 1 && one[0] == DIGIT_1);
    assert(zero.len() == 1 && zero[0] == DIGIT_0);
    assert(low.len() == value.len());
    if value.len() == 1 {
        assert(low[0] == lower(value[0]));
        assert(low == one <==> low =~= one);
        assert(low == zero <==> low =~= zero);
    } else if value.len() == 2 {
        assert(low[0] == lower(value[0]) && low[1] == lower(value[1]));
        assert(low == t2 <==> low =~= t2);
    } else if value.len() == 3 {
        assert(low[0] == lower(value[0]) && low[1] == lower(value[1]) && low[2] == lower(
            value[2],
        ));
        assert(low == t3 <==> low =~= t3);
    } else if value.len() == 4 {
        assert(low[0] == lower(value[0]) && low[1] == lower(value[1]) && low[2] == lower(
            value[2],
        ) && low[3] == lower(value[3]));
        assert(low == t4 <==> low =~= t4);
    } else if value.len() == 5 {
        assert(low[0] == lower(value[0]) && low[1] == lower(value[1]) && low[2] == lower(
            value[2],
        ) && low[3] == lower(value[3]) && low[4] == lower(value[4]));
        assert(low == t5 <==> low =~= t5);
    }
}

fn boolean_token(value: &[u8]) -> (r: bool)
    ensures
        r == is_boolean(value@),
{
    proof {
        lemma_boolean_by_bytes(value@);
    }
    let n: usize = value.len();
    if n == 1 {
        value[0] == DIGIT_1 || value[0] == DIGIT_0
    } else if n == 2 {
        to_lower(value[0]) == LOWER_N && to_lower(value[1]) == LOWER_O
    } else if n == 3 {
        to_lower(value[0]) == LOWER_Y && to_lower(value[1]) == LOWER_E && to_lower(value[2])
            == LOWER_S
    } else if n == 4 {
        to_lower(value[0]) == LOWER_T && to_lower(value[1]) == LOWER_R && to_lower(value[2])
            == LOWER_U && to_lower(value[3]) == LOWER_E
    } else if n == 5 {
        to_lower(value[0]) == LOWER_F && to_lower(value[1]) == LOWER_A && to_lower(value[2])
            == LOWER_L && to_lower(value[3]) == LOWER_S && to_lower(value[4]) == LOWER_E
    } else {
        false
    }
}

/// Whether an integer spans `value` from `from` to its end.
fn integer_from(value: &[u8], from: usize) -> (r: bool)
    requires
        from <= value@.len(),
    ensures
        r == is_integer(value@.skip(from as int)),
{
    let n: usize = value.len();
    let ghost tail = value@.skip(from as int);
    let start: usize = if from < n && (value[from] == PLUS || value[from] == MINUS) {
        from + 1
    } else {
        from
    };
    assert(start - from == sign_len(tail));
    let end: usize = digits_end(value, start);
    proof {
        let body = tail.skip(sign_len(tail));
        assert(body =~= value@.skip(start as int));
        if end == n {
            assert(value@.subrange(start as int, end as int) =~= body);
        } else {
            assert(body[end - start] == value@[end as int]);
        }
    }
    end == n && end > start
}


/// Where the digits of a decimal number end, its parts are determined: the
/// integer part is the longest run of digits, and a fractional part is there
/// exactly when a point follows that run.
proof fn lemma_decimal_split_determined(body: Seq<u8>, p: int, i: int, j: int)
    requires
        splits_as_decimal(body, i, j),
        0 <= p <= body.len(),
        all_digits(body.subrange(0, p)),
        p == body.len() || !is_digit(body[p]),
    ensures
        i == p,
        p < body.len() && body[p] == POINT ==> j > p + 1 && all_digits(body.subrange(p + 1, j))
            && (j == body.len() || !is_digit(body[j])),
        !(p < body.len() && body[p] == POINT) ==> j == p,
{
    let n = body.len() as int;
    if i < j {
        assert(body.subrange(i, j)[0] == body[i]);
        assert(body.subrange(i, j).skip(1) =~= body.subrange(i + 1, j));
    }
    if j < n {
        assert(body.subrange(j, n)[0] == body[j]);
    }
    lemma_digit_run_unique(body, 0, p, i);
}

/// Whether `value` is a decimal number.
fn decimal_literal(value: &[u8]) -> (r: bool)
    ensures
        r == is_decimal(value@),
{
    let n: usize = value.len();
    let start: usize = if n > 0 && (value[0] == PLUS || value[0] == MINUS) {
        1
    } else {
        0
    };
    let ghost body = value@.skip(start as int);
    assert(start as int == sign_len(value@));
    let int_end: usize = digits_end(value, start);
    let ghost p = int_end - start;
    assert(body.subrange(0, p) =~= value@.subrange(start as int, int_end as int));
    assert(int_end < n ==> body[p] == value@[int_end as int]);
    if int_end == start {
        assert forall|i: int, j: int| !splits_as_decimal(body, i, j) by {
            if splits_as_decimal(body, i, j) {
                lemma_decimal_split_determined(body, p, i, j);
            }
        }
        return false;
    }
    if int_end == n {
        assert(splits_as_decimal(body, p, p));
        return true;
    }
    let mut frac_end: usize = int_end;
    if value[int_end] == POINT {
        frac_end = digits_end(value, int_end + 1);
        assert(body.subrange(p + 1, frac_end - start) =~= value@.subrange(
            int_end + 1,
            frac_end as int,
        ));
        assert(frac_end < n ==> body[frac_end - start] == value@[frac_end as int]);
        if frac_end == int_end + 1 {
            assert forall|i: int, j: int| !splits_as_decimal(body, i, j) by {
                if splits_as_decimal(body, i, j) {
                    lemma_decimal_split_determined(body, p, i, j);
                    lemma_digit_run_unique(body, p + 1, j, p + 1);
                }
            }
            return false;
        }
        assert(is_fraction(body.subrange(p, frac_end - start))) by {
            assert(body.subrange(p, frac_end - start)[0] == body[p]);
            assert(body.subrange(p, frac_end - start).skip(1) =~= body.subrange(
                p + 1,
                frac_end - start,
            ));
        }
    }
    let ghost q = frac_end - start;
    assert forall|i: int, j: int| splits_as_decimal(body, i, j) implies i == p && j == q by {
        lemma_decimal_split_determined(body, p, i, j);
        if body[p] == POINT {
            lemma_digit_run_unique(body, p + 1, j, q);
        }
    }
    if frac_end == n {
        assert(splits_as_decimal(body, p, q));
        return true;
    }
    let letter: bool = value[frac_end] == LOWER_E || value[frac_end] == UPPER_E;
    let r: bool = letter && integer_from(value, frac_end + 1);
    proof {
        let rest = body.subrange(q, body.len() as int);
        assert(rest[0] == value@[frac_end as int]);
        assert(rest.skip(1) =~= value@.skip(frac_end + 1));
        assert(r == is_exponent(rest));
        assert(r == splits_as_decimal(body, p, q));
    }
    r
}

/// Sorts one field value into the type lattice: the first of `Boolean`,
/// `Integer`, `Float` whose grammar the whole value matches, else `Text`.
/// The empty value is `Text`.
pub fn classify(value: &[u8]) -> (t: Type)
    ensures
        t == classify_spec(value@),
{
    if boolean_token(value) {
        Type::Boolean
    } else if integer_from(value, 0) {
        assert(value@.skip(0) =~= value@);
        Type::Integer
    } else if decimal_literal(value) {
        assert(value@.skip(0) =~= value@);
        Type::Float
    } else {
        assert(value@.skip(0) =~= value@);
        Type::Text
    }
}


/// What one value says about the type of its column: nothing when it is
/// empty, else its own type.
pub open spec fn observe(value: Seq<u8>) -> Option<Type> {
    if value.len() == 0 {
        None
    } else {
        Some(classify_spec(value))
    }
}

/// Combines two pieces of evidence: the join of the types, where "no
/// evidence" is neutral.
pub open spec fn merge(a: Option<Type>, b: Option<Type>) -> Option<Type> {
    match (a, b) {
        (Some(x), Some(y)) => Some(x.join_spec(y)),
        (Some(x), None) => Some(x),
        (None, y) => y,
    }
}

/// The evidence that a sequence of values gives: the join of the types of
/// its non-empty values, or `None` when all are empty.
pub open spec fn evidence(values: Seq<Seq<u8>>) -> Option<Type>
    decreases values.len(),
{
    if values.len() == 0 {
        None
    } else {
        merge(evidence(values.drop_last()), observe(values.last()))
    }
}

/// The type of a column with the given values: the join of the types of the
/// non-empty values, and `Text` when there is none.
pub open spec fn column_type(values: Seq<Seq<u8>>) -> Type {
    match evidence(values) {
        Some(t) => t,
        None => Type::Text,
    }
}

/// The values of column `j` in `rows`, in order. A row with `j` fields or
/// fewer contributes nothing.
pub open spec fn column_values(rows: Seq<Seq<Seq<u8>>>, j: int) -> Seq<Seq<u8>>
    decreases rows.len(),
{
    if rows.len() == 0 {
        Seq::empty()
    } else {
        let before = column_values(rows.drop_last(), j);
        let row = rows.last();
        if 0 <= j < row.len() {
            before.push(row[j])
        } else {
            before
        }
    }
}

/// The types of the first `num_fields` columns of `rows`.
pub open spec fn column_types(rows: Seq<Seq<Seq<u8>>>, num_fields: nat) -> Seq<Type> {
    Seq::new(num_fields, |j: int| column_type(column_values(rows, j)))
}

fn merge_evidence(a: Option<Type>, b: Option<Type>) -> (r: Option<Type>)
    ensures
        r == merge(a, b),
{
    match a {
        Some(x) => match b {
            Some(y) => Some(x.join(y)),
            None => Some(x),
        },
        None => b,
    }
}

fn observe_value(value: &[u8]) -> (r: Option<Type>)
    ensures
        r == observe(value@),
{
    if value.len() == 0 {
        None
    } else {
        Some(classify(value))
    }
}

fn settle(e: Option<Type>) -> (t: Type)
    ensures
        t == match e {
            Some(t) => t,
            None => Type::Text,
        },
{
    match e {
        Some(t) => t,
        None => Type::Text,
    }
}

/// The type of one column, given all of its values.
pub fn infer_column(values: &Vec<Vec<u8>>) -> (t: Type)
    ensures
        t == column_type(byte_seqs(values@)),
{
    let ghost all = byte_seqs(values@);
    let mut seen: Option<Type> = None;
    let mut i: usize = 0;
    while i < values.len()
        invariant
            i <= values@.len(),
            all == byte_seqs(values@),
            seen == evidence(all.take(i as int)),
        decreases values@.len() - i,
    {
        let found = observe_value(values[i].as_slice());
        proof {
            assert(all.take(i + 1).drop_last() =~= all.take(i as int));
            assert(all.take(i + 1).last() == values@[i as int]@);
        }
        seen = merge_evidence(seen, found);
        i += 1;
    }
    assert(all.take(i as int) =~= all);
    settle(seen)
}

/// The type of a column that holds one value only.
pub fn infer_value(value: &[u8]) -> (t: Type)
    ensures
        t == column_type(seq![value@]),
{
    proof {
        let one = seq![value@];
        assert(one.drop_last() =~= Seq::<Seq<u8>>::empty());
        assert(one.last() == value@);
        assert(evidence(one.drop_last()) is None);
    }
    settle(observe_value(value))
}

/// The type of column `j` over the rows from index `from` on.
pub fn infer_column_of(rows: &Vec<Vec<Vec<u8>>>, from: usize, j: usize) -> (t: Type)
    ensures
        t == column_type(column_values(rows_from(records(rows@), from as nat), j as int)),
{
    if from > rows.len() {
        return Type::Text;
    }
    let ghost all = records(rows@).skip(from as int);
    let mut seen: Option<Type> = None;
    let mut i: usize = from;
    while i < rows.len()
        invariant
            from <= i <= rows@.len(),
            all == records(rows@).skip(from as int),
            seen == evidence(column_values(all.take(i - from), j as int)),
        decreases rows@.len() - i,
    {
        proof {
            let grown = all.take(i - from + 1);
            let before = column_values(all.take(i - from), j as int);
            assert(grown.drop_last() =~= all.take(i - from));
            assert(grown.last() == byte_seqs(rows@[i as int]@));
            if j < rows@[i as int]@.len() {
                let value = rows@[i as int]@[j as int]@;
                assert(column_values(grown, j as int) == before.push(value));
                assert(before.push(value).drop_last() =~= before);
            } else {
                assert(column_values(grown, j as int) == before);
            }
        }
        if j < rows[i].len() {
            let found = observe_value(rows[i][j].as_slice());
            seen = merge_evidence(seen, found);
        }
        i += 1;
    }
    assert(all.take(i - from) =~= all);
    settle(seen)
}

/// The types of the first `num_fields` columns over the rows from index
/// `from` on. Empty values and missing trailing fields constrain nothing; a
/// column without any non-empty value is `Text`.
pub fn infer_types(rows: &Vec<Vec<Vec<u8>>>, from: usize, num_fields: usize) -> (types: Vec<Type>)
    ensures
        types@ == column_types(rows_from(records(rows@), from as nat), num_fields as nat),
{
    let mut types: Vec<Type> = Vec::new();
    let mut j: usize = 0;
    while j < num_fields
        invariant
            j <= num_fields,
            types@ == column_types(rows_from(records(rows@), from as nat), j as nat),
        decreases num_fields - j,
    {
        let t = infer_column_of(rows, from, j);
        types.push(t);
        assert(types@ =~= column_types(rows_from(records(rows@), from as nat), (j + 1) as nat));
        j += 1;
    }
    types
}


/// Merging evidence is idempotent, commutative and associative, and "no
/// evidence" is neutral.
pub proof fn lemma_merge_laws(a: Option<Type>, b: Option<Type>, c: Option<Type>)
    ensures
        merge(a, a) == a,
        merge(a, b) == merge(b, a),
        merge(merge(a, b), c) == merge(a, merge(b, c)),
        merge(a, None) == a,
        merge(None, a) == a,
{
}

/// The evidence of two runs of values, one after the other, is the merge of
/// the evidence of each.
pub proof fn lemma_evidence_concat(a: Seq<Seq<u8>>, b: Seq<Seq<u8>>)
    ensures
        evidence(a + b) == merge(evidence(a), evidence(b)),
    decreases b.len(),
{
    if b.len() == 0 {
        assert(a + b =~= a);
    } else {
        lemma_evidence_concat(a, b.drop_last());
        assert((a + b).drop_last() =~= a + b.drop_last());
        assert((a + b).last() == b.last());
        lemma_merge_laws(evidence(a), evidence(b.drop_last()), observe(b.last()));
    }
}

/// One more value changes the type of a column as a join does: an empty
/// value changes nothing, the first non-empty value sets the type, and every
/// later one is joined to it.
pub proof fn lemma_column_type_push(values: Seq<Seq<u8>>, value: Seq<u8>)
    ensures
        value.len() == 0 ==> column_type(values.push(value)) == column_type(values),
        value.len() > 0 && evidence(values) is None ==> column_type(values.push(value))
            == classify_spec(value),
        value.len() > 0 && evidence(values) is Some ==> column_type(values.push(value))
            == column_type(values).join_spec(classify_spec(value)),
{
    assert(values.push(value).drop_last() =~= values);
}

/// The type of a column does not depend on the order in which two runs of
/// its values are read.
pub proof fn lemma_column_type_order_free(a: Seq<Seq<u8>>, b: Seq<Seq<u8>>)
    ensures
        column_type(a + b) == column_type(b + a),
{
    lemma_evidence_concat(a, b);
    lemma_evidence_concat(b, a);
    lemma_merge_laws(evidence(a), evidence(b), None);
}

/// Reading the values of a column a second time does not change its type.
pub proof fn lemma_column_type_repeat(a: Seq<Seq<u8>>)
    ensures
        column_type(a + a) == column_type(a),
{
    lemma_evidence_concat(a, a);
    lemma_merge_laws(evidence(a), None, None);
}

/// A column whose values are all empty is `Text`.
pub proof fn lemma_empty_column_is_text(values: Seq<Seq<u8>>)
    requires
        forall|i: int| 0 <= i < values.len() ==> (#[trigger] values[i]).len() == 0,
    ensures
        evidence(values) is None,
        column_type(values) == Type::Text,
    decreases values.len(),
{
    if values.len() > 0 {
        let front = values.drop_last();
        assert forall|i: int| 0 <= i < front.len() implies (#[trigger] front[i]).len() == 0 by {
            assert(front[i] == values[i]);
        }
        lemma_empty_column_is_text(front);
    }
}

/// Empty values are neutral: a run of them, put anywhere among the values
/// of a column, does not change the column's type.
pub proof fn lemma_empty_values_are_neutral(
    a: Seq<Seq<u8>>,
    blanks: Seq<Seq<u8>>,
    b: Seq<Seq<u8>>,
)
    requires
        forall|i: int| 0 <= i < blanks.len() ==> (#[trigger] blanks[i]).len() == 0,
    ensures
        column_type(a + blanks + b) == column_type(a + b),
{
    lemma_empty_column_is_text(blanks);
    lemma_evidence_concat(a, blanks);
    lemma_evidence_concat(a + blanks, b);
    lemma_evidence_concat(a, b);
}

/// The type of a column is the least upper bound of the types of its
/// non-empty values: each of them fits it, and one of them has it.
pub proof fn lemma_column_type_is_least_upper_bound(values: Seq<Seq<u8>>)
    ensures
        forall|i: int|
            0 <= i < values.len() && (#[trigger] values[i]).len() > 0 ==> classify_spec(
                values[i],
            ).fits(column_type(values)),
        evidence(values) is Some ==> exists|i: int|
            0 <= i < values.len() && (#[trigger] values[i]).len() > 0 && classify_spec(values[i])
                == column_type(values),
        evidence(values) is None ==> forall|i: int|
            0 <= i < values.len() ==> (#[trigger] values[i]).len() == 0,
    decreases values.len(),
{
    if values.len() > 0 {
        let front = values.drop_last();
        let last = values.last();
        lemma_column_type_is_least_upper_bound(front);
        assert forall|i: int| 0 <= i < front.len() implies #[trigger] front[i] == values[i] by {}
        assert forall|i: int| 0 <= i < values.len() && (#[trigger] values[i]).len() > 0 implies classify_spec(
            values[i],
        ).fits(column_type(values)) by {
            if i < front.len() {
                assert(front[i] == values[i]);
            }
        }
        if evidence(values) is Some {
            if last.len() > 0 && classify_spec(last) == column_type(values) {
                assert(values[values.len() - 1] == last);
            } else {
                let i = choose|i: int|
                    0 <= i < front.len() && (#[trigger] front[i]).len() > 0 && classify_spec(
                        front[i],
                    ) == column_type(front);
                assert(values[i] == front[i]);
            }
        } else {
            assert forall|i: int| 0 <= i < values.len() implies (#[trigger] values[i]).len()
                == 0 by {
                if i < front.len() {
                    assert(front[i] == values[i]);
                }
            }
        }
    }
}

} // verus!
