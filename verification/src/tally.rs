//! Counting: how often a byte stands in a line, how often a number stands
//! in a list, and which number is the most frequent.

use vstd::prelude::*;

verus! {

/// How often `b` stands in `line`.
pub open spec fn count_byte(line: Seq<u8>, b: u8) -> nat
    decreases line.len(),
{
    if line.len() == 0 {
        0
    } else {
        count_byte(line.drop_last(), b) + if line.last() == b {
            1nat
        } else {
            0nat
        }
    }
}

/// How often `k` stands in `counts`.
pub open spec fn frequency(counts: Seq<nat>, k: nat) -> nat
    decreases counts.len(),
{
    if counts.len() == 0 {
        0
    } else {
        frequency(counts.drop_last(), k) + if counts.last() == k {
            1nat
        } else {
            0nat
        }
    }
}

/// `m` is the mode of `counts`: it stands in `counts`, no number stands
/// there more often, and of the numbers that stand there as often it is the
/// greatest.
pub open spec fn is_mode(counts: Seq<nat>, m: nat) -> bool {
    &&& frequency(counts, m) > 0
    &&& forall|k: nat|
        #![trigger frequency(counts, k)]
        frequency(counts, k) < frequency(counts, m) || (frequency(counts, k) == frequency(
            counts,
            m,
        ) && k <= m)
}

/// The mode of `counts`; meaningful when `counts` is not empty.
pub open spec fn mode(counts: Seq<nat>) -> nat {
    choose|m: nat| is_mode(counts, m)
}

/// The numbers that a vector of machine integers holds.
pub open spec fn nats(v: Seq<usize>) -> Seq<nat> {
    Seq::new(v.len(), |i: int| v[i] as nat)
}

/// A byte stands in a line at most once for each position.
pub proof fn lemma_count_byte_bounded(line: Seq<u8>, b: u8)
    ensures
        count_byte(line, b) <= line.len(),
    decreases line.len(),
{
    if line.len() > 0 {
        lemma_count_byte_bounded(line.drop_last(), b);
    }
}

/// A byte that stands nowhere in a line is counted zero times, and only such a byte.
pub proof fn lemma_count_byte_zero(line: Seq<u8>, b: u8)
    ensures
        count_byte(line, b) == 0 <==> forall|i: int| 0 <= i < line.len() ==> line[i] != b,
    decreases line.len(),
{
    if line.len() > 0 {
        let front = line.drop_last();
        lemma_count_byte_zero(front, b);
        if count_byte(line, b) == 0 {
            assert forall|i: int| 0 <= i < line.len() implies line[i] != b by {
                if i < front.len() {
                    assert(front[i] == line[i]);
                }
            }
        } else if line.last() != b {
            let i = choose|i: int| 0 <= i < front.len() && front[i] == b;
            assert(line[i] == b);
        }
    }
}

/// A number has a frequency above zero exactly when it stands in the list,
/// and no frequency is greater than the length of the list.
pub proof fn lemma_frequency_bounds(counts: Seq<nat>, k: nat)
    ensures
        frequency(counts, k) <= counts.len(),
        frequency(counts, k) > 0 <==> exists|i: int| 0 <= i < counts.len() && counts[i] == k,
        frequency(counts, k) == counts.len() <==> forall|i: int|
            0 <= i < counts.len() ==> counts[i] == k,
    decreases counts.len(),
{
    if counts.len() > 0 {
        let front = counts.drop_last();
        lemma_frequency_bounds(front, k);
        if frequency(counts, k) > 0 {
            if counts.last() == k {
                assert(counts[counts.len() - 1] == k);
            } else {
                let i = choose|i: int| 0 <= i < front.len() && front[i] == k;
                assert(counts[i] == k);
            }
        } else {
            assert forall|i: int| 0 <= i < counts.len() implies counts[i] != k by {
                if i < front.len() {
                    assert(front[i] == counts[i]);
                }
            }
        }
        if frequency(counts, k) == counts.len() {
            assert forall|i: int| 0 <= i < counts.len() implies counts[i] == k by {
                if i < front.len() {
                    assert(front[i] == counts[i]);
                }
            }
        } else if counts.last() == k {
            let i = choose|i: int| 0 <= i < front.len() && front[i] != k;
            assert(counts[i] != k);
        } else {
            assert(counts[counts.len() - 1] != k);
        }
    }
}

/// A list has at most one mode.
pub proof fn lemma_mode_unique(counts: Seq<nat>, a: nat, b: nat)
    requires
        is_mode(counts, a),
        is_mode(counts, b),
    ensures
        a == b,
{
    let fa = frequency(counts, a);
    let fb = frequency(counts, b);
    assert(fa < fb || (fa == fb && a <= b));
    assert(fb < fa || (fa == fb && b <= a));
}

/// A number that is the mode of a list is the list's mode.
pub proof fn lemma_mode_is(counts: Seq<nat>, m: nat)
    requires
        is_mode(counts, m),
    ensures
        mode(counts) == m,
{
    lemma_mode_unique(counts, mode(counts), m);
}

/// How often `b` stands in `line`.
pub fn count_occurrences(line: &[u8], b: u8) -> (n: usize)
    ensures
        n == count_byte(line@, b),
        n <= line@.len(),
{
    let mut n: usize = 0;
    let mut i: usize = 0;
    while i < line.len()
        invariant
            i <= line@.len(),
            n <= i,
            n == count_byte(line@.take(i as int), b),
        decreases line@.len() - i,
    {
        proof {
            assert(line@.take(i + 1).drop_last() =~= line@.take(i as int));
        }
        if line[i] == b {
            n += 1;
        }
        i += 1;
    }
    assert(line@.take(i as int) =~= line@);
    n
}

/// How often `k` stands in `counts`.
pub fn frequency_of(counts: &Vec<usize>, k: usize) -> (n: usize)
    ensures
        n == frequency(nats(counts@), k as nat),
        n <= counts@.len(),
{
    let ghost all = nats(counts@);
    let mut n: usize = 0;
    let mut i: usize = 0;
    while i < counts.len()
        invariant
            i <= counts@.len(),
            all == nats(counts@),
            n <= i,
            n == frequency(all.take(i as int), k as nat),
        decreases counts@.len() - i,
    {
        proof {
            assert(all.take(i + 1).drop_last() =~= all.take(i as int));
            assert(all.take(i + 1).last() == counts@[i as int] as nat);
        }
        if counts[i] == k {
            n += 1;
        }
        i += 1;
    }
    assert(all.take(i as int) =~= all);
    n
}

/// The mode of a list and how often it stands there; `(0, 0)` for the
/// empty list, which has no mode.
pub fn mode_of(counts: &Vec<usize>) -> (r: (usize, usize))
    ensures
        counts@.len() == 0 ==> r == (0usize, 0usize),
        counts@.len() > 0 ==> is_mode(nats(counts@), r.0 as nat) && r.0 == mode(nats(counts@)),
        r.1 == frequency(nats(counts@), r.0 as nat),
        counts@.len() > 0 ==> 0 < r.1 <= counts@.len(),
{
    let ghost all = nats(counts@);
    if counts.len() == 0 {
        return (0, 0);
    }
    let mut best: usize = counts[0];
    let mut best_freq: usize = frequency_of(counts, best);
    proof {
        assert(all[0] == best as nat);
        lemma_frequency_bounds(all, best as nat);
    }
    let mut i: usize = 1;
    while i < counts.len()
        invariant
            1 <= i <= counts@.len(),
            all == nats(counts@),
            best_freq == frequency(all, best as nat),
            0 < best_freq <= counts@.len(),
            forall|j: int|
                0 <= j < i ==> frequency(all, #[trigger] all[j]) < best_freq || (frequency(
                    all,
                    all[j],
                ) == best_freq && all[j] <= best),
        decreases counts@.len() - i,
    {
        let k: usize = counts[i];
        let f: usize = frequency_of(counts, k);
        assert(all[i as int] == k as nat);
        if f > best_freq || (f == best_freq && k > best) {
            best = k;
            best_freq = f;
        }
        i += 1;
    }
    proof {
        assert forall|k: nat|
            #![trigger frequency(all, k)]
            frequency(all, k) < best_freq || (frequency(all, k) == best_freq && k <= best) by {
            lemma_frequency_bounds(all, k);
            if frequency(all, k) > 0 {
                let j = choose|j: int| 0 <= j < all.len() && all[j] == k;
                assert(frequency(all, all[j]) < best_freq || (frequency(all, all[j]) == best_freq
                    && all[j] <= best));
            }
        }
        lemma_mode_is(all, best as nat);
    }
    (best, best_freq)
}


/// `k` stands in `counts` less often than `w`, or as often without being greater.
pub open spec fn yields_to(counts: Seq<nat>, k: nat, w: nat) -> bool {
    frequency(counts, k) < frequency(counts, w) || (frequency(counts, k) == frequency(counts, w)
        && k <= w)
}

/// Among the first `i` numbers of a list there is one to which all of them yield.
proof fn lemma_best_among(counts: Seq<nat>, i: int) -> (w: nat)
    requires
        0 < i <= counts.len(),
    ensures
        frequency(counts, w) > 0,
        forall|j: int| 0 <= j < i ==> yields_to(counts, #[trigger] counts[j], w),
    decreases i,
{
    if i == 1 {
        lemma_frequency_bounds(counts, counts[0]);
        counts[0]
    } else {
        let before = lemma_best_among(counts, i - 1);
        let k = counts[i - 1];
        lemma_frequency_bounds(counts, k);
        if yields_to(counts, k, before) {
            before
        } else {
            k
        }
    }
}

/// Every list that is not empty has a mode.
pub proof fn lemma_mode_exists(counts: Seq<nat>)
    requires
        counts.len() > 0,
    ensures
        is_mode(counts, mode(counts)),
{
    let w = lemma_best_among(counts, counts.len() as int);
    assert forall|k: nat| #![trigger frequency(counts, k)] yields_to(counts, k, w) by {
        lemma_frequency_bounds(counts, k);
        if frequency(counts, k) > 0 {
            let j = choose|j: int| 0 <= j < counts.len() && counts[j] == k;
            assert(yields_to(counts, counts[j], w));
        }
    }
    assert(is_mode(counts, w));
}

/// The mode of a list that holds one number only is that number, and it
/// stands there as often as the list is long.
pub proof fn lemma_constant_counts(counts: Seq<nat>, v: nat)
    requires
        counts.len() > 0,
        forall|i: int| 0 <= i < counts.len() ==> counts[i] == v,
    ensures
        mode(counts) == v,
        frequency(counts, v) == counts.len(),
{
    lemma_frequency_bounds(counts, v);
    assert forall|k: nat|
        #![trigger frequency(counts, k)]
        yields_to(counts, k, v) by {
        lemma_frequency_bounds(counts, k);
        if frequency(counts, k) > 0 {
            let j = choose|j: int| 0 <= j < counts.len() && counts[j] == k;
            assert(k == v);
        }
    }
    lemma_mode_is(counts, v);
}

/// A number that stands at no two places of a list has a frequency of at most one.
pub proof fn lemma_frequency_at_most_one(counts: Seq<nat>, k: nat)
    requires
        forall|a: int, b: int|
            0 <= a < b < counts.len() ==> counts[a] != k || counts[b] != k,
    ensures
        frequency(counts, k) <= 1,
    decreases counts.len(),
{
    if counts.len() > 0 {
        let front = counts.drop_last();
        assert forall|a: int, b: int| 0 <= a < b < front.len() implies front[a] != k || front[b]
            != k by {
            assert(front[a] == counts[a] && front[b] == counts[b]);
        }
        lemma_frequency_at_most_one(front, k);
        if counts.last() == k {
            lemma_frequency_bounds(front, k);
            if frequency(front, k) > 0 {
                let j = choose|j: int| 0 <= j < front.len() && front[j] == k;
                assert(counts[j] == k && counts[counts.len() - 1] == k);
            }
        }
    }
}


/// The frequency of a number in two lists, one after the other, is the sum
/// of its frequencies in each.
pub proof fn lemma_frequency_concat(a: Seq<nat>, b: Seq<nat>, k: nat)
    ensures
        frequency(a + b, k) == frequency(a, k) + frequency(b, k),
    decreases b.len(),
{
    if b.len() == 0 {
        assert(a + b =~= a);
    } else {
        lemma_frequency_concat(a, b.drop_last(), k);
        assert((a + b).drop_last() =~= a + b.drop_last());
    }
}

/// Two different numbers share the places of a list between them.
pub proof fn lemma_frequencies_share(counts: Seq<nat>, a: nat, b: nat)
    requires
        a != b,
    ensures
        frequency(counts, a) + frequency(counts, b) <= counts.len(),
    decreases counts.len(),
{
    if counts.len() > 0 {
        lemma_frequencies_share(counts.drop_last(), a, b);
    }
}

/// A number that stands at more than half of the places of a list is its mode.
pub proof fn lemma_majority_is_mode(counts: Seq<nat>, v: nat)
    requires
        2 * frequency(counts, v) > counts.len(),
    ensures
        mode(counts) == v,
{
    assert forall|k: nat| #![trigger frequency(counts, k)] yields_to(counts, k, v) by {
        if k != v {
            lemma_frequencies_share(counts, k, v);
        }
    }
    lemma_mode_is(counts, v);
}

/// Where the first `p` numbers of a list all differ from `v` and all later
/// ones are `v`, the frequency of `v` is the number of the later ones.
pub proof fn lemma_frequency_after(counts: Seq<nat>, v: nat, p: int)
    requires
        0 <= p <= counts.len(),
        forall|i: int| 0 <= i < p ==> counts[i] != v,
        forall|i: int| p <= i < counts.len() ==> counts[i] == v,
    ensures
        frequency(counts, v) == counts.len() - p,
{
    let head = counts.take(p);
    let tail = counts.skip(p);
    assert(head + tail =~= counts);
    lemma_frequency_concat(head, tail, v);
    lemma_frequency_bounds(head, v);
    lemma_frequency_bounds(tail, v);
}


/// `p` is the offset after the `k`-th occurrence of `b` in `line`: the
/// least offset with `k` occurrences before it, or the end of `line` when
/// `b` stands there less often than that.
pub open spec fn is_offset_after(line: Seq<u8>, b: u8, k: nat, p: int) -> bool {
    &&& 0 <= p <= line.len()
    &&& count_byte(line.take(p), b) == k || (p == line.len() && count_byte(line, b) < k)
    &&& forall|q: int| 0 <= q < p ==> count_byte(#[trigger] line.take(q), b) < k
}

/// The offset after the `k`-th occurrence of `b` in `line`.
pub open spec fn offset_after(line: Seq<u8>, b: u8, k: nat) -> int {
    choose|p: int| is_offset_after(line, b, k, p)
}

/// There is one offset after the `k`-th occurrence only.
pub proof fn lemma_offset_after_is(line: Seq<u8>, b: u8, k: nat, p: int)
    requires
        is_offset_after(line, b, k, p),
    ensures
        offset_after(line, b, k) == p,
{
    let q = offset_after(line, b, k);
    assert(line.take(line.len() as int) =~= line);
    if p < q {
        assert(count_byte(line.take(p), b) < k);
    } else if q < p {
        assert(count_byte(line.take(q), b) < k);
    }
}

/// One byte more in a prefix is one occurrence more when it is `b`, and none otherwise.
pub proof fn lemma_count_take_step(line: Seq<u8>, b: u8, i: int)
    requires
        0 <= i < line.len(),
    ensures
        count_byte(line.take(i + 1), b) == count_byte(line.take(i), b) + if line[i] == b {
            1nat
        } else {
            0nat
        },
{
    assert(line.take(i + 1).drop_last() =~= line.take(i));
}

/// A longer prefix holds no fewer occurrences.
pub proof fn lemma_count_take_monotone(line: Seq<u8>, b: u8, q: int, p: int)
    requires
        0 <= q <= p <= line.len(),
    ensures
        count_byte(line.take(q), b) <= count_byte(line.take(p), b),
    decreases p - q,
{
    if q < p {
        lemma_count_take_step(line, b, p - 1);
        lemma_count_take_monotone(line, b, q, p - 1);
    }
}

/// The start of the line, and every offset right after a `b`, is the
/// offset after as many occurrences of `b` as stand before it.
pub proof fn lemma_offset_at_start(line: Seq<u8>, b: u8, q: int)
    requires
        0 <= q <= line.len(),
        q == 0 || line[q - 1] == b,
    ensures
        offset_after(line, b, count_byte(line.take(q), b)) == q,
{
    let k = count_byte(line.take(q), b);
    assert forall|r: int| 0 <= r < q implies count_byte(#[trigger] line.take(r), b) < k by {
        lemma_count_take_step(line, b, q - 1);
        lemma_count_take_monotone(line, b, r, q - 1);
    }
    lemma_offset_after_is(line, b, k, q);
}


/// From offset `i` on, at which fewer than `k` occurrences of `b` have been
/// passed, there is an offset after the `k`-th.
proof fn lemma_offset_exists_from(line: Seq<u8>, b: u8, k: nat, i: int)
    requires
        0 <= i <= line.len(),
        count_byte(line.take(i), b) <= k,
        forall|q: int| 0 <= q < i ==> count_byte(#[trigger] line.take(q), b) < k,
    ensures
        exists|p: int| is_offset_after(line, b, k, p),
    decreases line.len() - i,
{
    if count_byte(line.take(i), b) == k {
        assert(is_offset_after(line, b, k, i));
    } else if i == line.len() {
        assert(line.take(i) =~= line);
        assert(is_offset_after(line, b, k, i));
    } else {
        lemma_count_take_step(line, b, i);
        lemma_offset_exists_from(line, b, k, i + 1);
    }
}

/// Every line has an offset after the `k`-th occurrence of `b`.
pub proof fn lemma_offset_after_exists(line: Seq<u8>, b: u8, k: nat)
    ensures
        is_offset_after(line, b, k, offset_after(line, b, k)),
{
    assert(line.take(0) =~= Seq::<u8>::empty());
    lemma_offset_exists_from(line, b, k, 0);
}

/// The offset after the `k`-th occurrence is the same in a line and in
/// every prefix of it that holds `k` occurrences.
pub proof fn lemma_offset_in_prefix(line: Seq<u8>, w: int, b: u8, k: nat)
    requires
        0 <= w <= line.len(),
        count_byte(line.take(w), b) >= k,
    ensures
        offset_after(line.take(w), b, k) == offset_after(line, b, k),
        0 <= offset_after(line, b, k) <= w,
{
    let prefix = line.take(w);
    let o = offset_after(prefix, b, k);
    lemma_offset_after_exists(prefix, b, k);
    assert(prefix.take(o) =~= line.take(o));
    assert forall|q: int| 0 <= q < o implies count_byte(#[trigger] line.take(q), b) < k by {
        assert(prefix.take(q) =~= line.take(q));
    }
    lemma_offset_after_is(line, b, k, o);
}

} // verus!
