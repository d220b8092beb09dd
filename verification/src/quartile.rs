//! The quartiles of a histogram, found by selection.

use vstd::prelude::*;
use vstd::multiset::group_multiset_axioms;
use vstd::relations::total_ordering;
use vstd::seq_lib::{
    group_to_multiset_ensures, lemma_multiset_commutative, lemma_sorted_unique,
};

verus! {

/// The order of the counters.
pub open spec fn counter_leq() -> spec_fn(u32, u32) -> bool {
    |a: u32, b: u32| a <= b
}

/// The counters of `s` in ascending order.
pub open spec fn sorted_copy(s: Seq<u32>) -> Seq<u32> {
    s.sort_by(counter_leq())
}

/// The three quartiles of the first `4 * (bucket_count / 4)` counters: the
/// values at the ranks `n - 1`, `2 * n - 1` and `3 * n - 1` of their sorted
/// copy, where `n` is `bucket_count / 4`.
pub open spec fn spec_find_quartiles(buckets: Seq<u32>, bucket_count: int) -> (u32, u32, u32) {
    let quartile = bucket_count / 4;
    let sorted = sorted_copy(buckets.take(4 * quartile));
    (sorted[quartile - 1], sorted[2 * quartile - 1], sorted[3 * quartile - 1])
}

/// No counter before position `at` is above a counter from `at` on.
pub open spec fn cut(s: Seq<u32>, at: int) -> bool {
    forall|i: int, j: int| 0 <= i < at <= j < s.len() ==> s[i] <= s[j]
}

/// `after` is `before` with the counters at the positions from `low` to
/// `high` put in another order, and nothing else changed.
pub open spec fn rearranged(before: Seq<u32>, after: Seq<u32>, low: int, high: int) -> bool {
    &&& after.len() == before.len()
    &&& forall|i: int| 0 <= i < before.len() && (i < low || i > high) ==> after[i] == before[i]
    &&& after.subrange(low, high + 1).to_multiset() == before.subrange(low, high + 1).to_multiset()
}

/// `s` with the counters at `i` and `j` exchanged.
pub open spec fn swapped(s: Seq<u32>, i: int, j: int) -> Seq<u32> {
    s.update(i, s[j]).update(j, s[i])
}

/// The order of the counters is total.
pub proof fn lemma_counter_leq_total()
    ensures
        total_ordering(counter_leq()),
{
    let leq = counter_leq();
    assert forall|x: u32, y: u32| #[trigger] leq(x, y) && #[trigger] leq(y, x) implies x == y by {}
    assert forall|x: u32, y: u32, z: u32| #[trigger] leq(x, y) && #[trigger] leq(y, z) implies leq(
        x,
        z,
    ) by {}
}

/// The sorted copy has the counters of the sequence, in ascending order.
pub proof fn lemma_sorted_copy(s: Seq<u32>)
    ensures
        sorted_copy(s).len() == s.len(),
        sorted_copy(s).to_multiset() == s.to_multiset(),
        forall|i: int, j: int| 0 <= i <= j < s.len() ==> sorted_copy(s)[i] <= sorted_copy(s)[j],
        forall|i: int| 0 <= i < s.len() ==> s.contains(#[trigger] sorted_copy(s)[i]),
{
    broadcast use group_to_multiset_ensures;

    lemma_counter_leq_total();
    s.lemma_sort_by_ensures(counter_leq());
    let t = sorted_copy(s);
    assert(t.len() == t.to_multiset().len());
    assert(s.len() == s.to_multiset().len());
    assert forall|i: int, j: int| 0 <= i <= j < s.len() implies t[i] <= t[j] by {
        if i < j {
            assert(counter_leq()(t[i], t[j]));
        }
    }
    assert forall|i: int| 0 <= i < s.len() implies s.contains(#[trigger] t[i]) by {
        assert(t.contains(t[i]));
    }
}

/// Two sequences with the same counters have the same sorted copy.
pub proof fn lemma_sorted_copy_of_permutation(s: Seq<u32>, t: Seq<u32>)
    requires
        s.to_multiset() == t.to_multiset(),
    ensures
        sorted_copy(s) == sorted_copy(t),
{
    lemma_counter_leq_total();
    s.lemma_sort_by_ensures(counter_leq());
    t.lemma_sort_by_ensures(counter_leq());
    lemma_sorted_unique(sorted_copy(s), sorted_copy(t), counter_leq());
}

/// A counter that has nothing larger before it and nothing smaller behind
/// it stands where it stands in the sorted copy.
pub proof fn lemma_rank_of_barrier(s: Seq<u32>, k: int)
    requires
        0 <= k < s.len(),
        cut(s, k),
        cut(s, k + 1),
    ensures
        sorted_copy(s)[k] == s[k],
{
    broadcast use group_to_multiset_ensures;

    let left = s.subrange(0, k);
    let right = s.subrange(k + 1, s.len() as int);
    let mid = seq![s[k]];
    lemma_sorted_copy(left);
    lemma_sorted_copy(right);
    let joined = sorted_copy(left) + mid + sorted_copy(right);
    assert(s =~= left + mid + right);
    assert(joined.to_multiset() == s.to_multiset()) by {
        lemma_multiset_commutative(sorted_copy(left) + mid, sorted_copy(right));
        lemma_multiset_commutative(sorted_copy(left), mid);
        lemma_multiset_commutative(left + mid, right);
        lemma_multiset_commutative(left, mid);
    }
    assert forall|i: int, j: int| 0 <= i < j < joined.len() implies #[trigger] counter_leq()(
        joined[i],
        joined[j],
    ) by {
        if i < k {
            assert(left.contains(sorted_copy(left)[i]));
            let a = choose|a: int| 0 <= a < left.len() && left[a] == sorted_copy(left)[i];
            assert(joined[i] == s[a]);
        }
        if j > k {
            assert(right.contains(sorted_copy(right)[j - k - 1]));
            let b = choose|b: int| 0 <= b < right.len() && right[b] == sorted_copy(right)[j - k - 1];
            assert(joined[j] == s[b + k + 1]);
        }
    }
    lemma_counter_leq_total();
    s.lemma_sort_by_ensures(counter_leq());
    lemma_sorted_unique(joined, sorted_copy(s), counter_leq());
    assert(joined[k] == s[k]);
}

/// Putting the counters of a range in another order leaves the counters of
/// the whole sequence as they are.
pub proof fn lemma_rearranged_multiset(before: Seq<u32>, after: Seq<u32>, low: int, high: int)
    requires
        0 <= low <= high < before.len(),
        rearranged(before, after, low, high),
    ensures
        after.to_multiset() == before.to_multiset(),
{
    let n = before.len() as int;
    let b0 = before.subrange(0, low);
    let b1 = before.subrange(low, high + 1);
    let b2 = before.subrange(high + 1, n);
    let a0 = after.subrange(0, low);
    let a1 = after.subrange(low, high + 1);
    let a2 = after.subrange(high + 1, n);
    assert(a0 =~= b0);
    assert(a2 =~= b2);
    assert(before =~= b0 + b1 + b2);
    assert(after =~= a0 + a1 + a2);
    lemma_multiset_commutative(b0 + b1, b2);
    lemma_multiset_commutative(b0, b1);
    lemma_multiset_commutative(a0 + a1, a2);
    lemma_multiset_commutative(a0, a1);
}

/// Each counter of a range that was put in another order stood somewhere in
/// the range before.
pub proof fn lemma_rearranged_source(
    before: Seq<u32>,
    after: Seq<u32>,
    low: int,
    high: int,
    i: int,
) -> (source: int)
    requires
        0 <= low <= high < before.len(),
        rearranged(before, after, low, high),
        low <= i <= high,
    ensures
        low <= source <= high,
        before[source] == after[i],
{
    broadcast use group_to_multiset_ensures;

    let b1 = before.subrange(low, high + 1);
    let a1 = after.subrange(low, high + 1);
    assert(a1[i - low] == after[i]);
    assert(a1.contains(after[i]));
    assert(a1.to_multiset().count(after[i]) > 0);
    assert(b1.contains(after[i]));
    let k = choose|k: int| 0 <= k < b1.len() && b1[k] == after[i];
    k + low
}

/// A cut that does not fall inside a range stays a cut when the counters of
/// the range are put in another order.
pub proof fn lemma_rearranged_cut(before: Seq<u32>, after: Seq<u32>, low: int, high: int, at: int)
    requires
        0 <= low <= high < before.len(),
        rearranged(before, after, low, high),
        at <= low || at > high,
        cut(before, at),
    ensures
        cut(after, at),
{
    assert forall|i: int, j: int| 0 <= i < at <= j < after.len() implies after[i] <= after[j] by {
        let si = if low <= i <= high {
            lemma_rearranged_source(before, after, low, high, i)
        } else {
            i
        };
        let sj = if low <= j <= high {
            lemma_rearranged_source(before, after, low, high, j)
        } else {
            j
        };
        assert(before[si] <= before[sj]);
    }
}

/// Putting the counters of a range in another order, and then those of a
/// range inside it, puts the counters of the outer range in another order.
pub proof fn lemma_rearranged_twice(
    first: Seq<u32>,
    second: Seq<u32>,
    third: Seq<u32>,
    low: int,
    high: int,
    inner_low: int,
    inner_high: int,
)
    requires
        0 <= low <= inner_low <= inner_high <= high < first.len(),
        rearranged(first, second, low, high),
        rearranged(second, third, inner_low, inner_high),
    ensures
        rearranged(first, third, low, high),
{
    let s = second.subrange(low, high + 1);
    let t = third.subrange(low, high + 1);
    assert(s.subrange(inner_low - low, inner_high - low + 1) =~= second.subrange(
        inner_low,
        inner_high + 1,
    ));
    assert(t.subrange(inner_low - low, inner_high - low + 1) =~= third.subrange(
        inner_low,
        inner_high + 1,
    ));
    assert(rearranged(s, t, inner_low - low, inner_high - low));
    lemma_rearranged_multiset(s, t, inner_low - low, inner_high - low);
}

/// Exchanging two counters of a range puts the counters of the range in
/// another order.
pub proof fn lemma_swapped_rearranged(s: Seq<u32>, i: int, j: int, low: int, high: int)
    requires
        0 <= low <= i <= high < s.len(),
        low <= j <= high,
    ensures
        rearranged(s, swapped(s, i, j), low, high),
{
    broadcast use group_to_multiset_ensures, group_multiset_axioms;

    let r = s.subrange(low, high + 1);
    let t = swapped(s, i, j).subrange(low, high + 1);
    let half = r.update(i - low, r[j - low]);
    assert(t =~= half.update(j - low, r[i - low]));
    assert(half.to_multiset() =~= r.to_multiset().insert(r[j - low]).remove(r[i - low]));
    assert(t.to_multiset() =~= half.to_multiset().insert(r[i - low]).remove(half[j - low]));
    assert(t.to_multiset() =~= r.to_multiset());
}

/// A pivot of a range that holds the counters of its ranks is a barrier of
/// the whole sequence.
pub proof fn lemma_barrier_cuts(s: Seq<u32>, low: int, high: int, pivot: int)
    requires
        0 <= low <= pivot <= high < s.len(),
        cut(s, low),
        cut(s, high + 1),
        forall|i: int| low <= i < pivot ==> s[i] <= s[pivot],
        forall|i: int| pivot < i <= high ==> s[pivot] <= s[i],
    ensures
        cut(s, pivot),
        cut(s, pivot + 1),
{
    assert forall|i: int, j: int| 0 <= i < pivot <= j < s.len() implies s[i] <= s[j] by {
        assert(s[i] <= s[pivot]);
        assert(s[pivot] <= s[j]);
    }
    assert forall|i: int, j: int| 0 <= i < pivot + 1 <= j < s.len() implies s[i] <= s[j] by {
        assert(s[i] <= s[pivot]);
        assert(s[pivot] <= s[j]);
    }
}

/// How many of the counters of `s` are zero.
pub open spec fn zeros(s: Seq<u32>) -> nat {
    s.to_multiset().count(0u32)
}

/// Where no counter from position `from` on is zero, there are at most
/// `from` zeros.
pub proof fn lemma_zeros_before(s: Seq<u32>, from: int)
    requires
        0 <= from,
        forall|i: int| from <= i < s.len() ==> s[i] != 0,
    ensures
        zeros(s) <= from,
    decreases s.len(),
{
    broadcast use group_to_multiset_ensures, group_multiset_axioms;

    if s.len() <= from {
        assert(s.to_multiset().len() == s.len());
    } else {
        let front = s.drop_last();
        lemma_zeros_before(front, from);
        assert(s =~= front.push(s.last()));
        assert(s.to_multiset() =~= front.to_multiset().insert(s.last()));
    }
}

/// Where every counter is zero, there are as many zeros as counters.
pub proof fn lemma_zeros_of_zeros(s: Seq<u32>)
    requires
        forall|i: int| 0 <= i < s.len() ==> s[i] == 0,
    ensures
        zeros(s) == s.len(),
    decreases s.len(),
{
    broadcast use group_to_multiset_ensures, group_multiset_axioms;

    if s.len() > 0 {
        let front = s.drop_last();
        lemma_zeros_of_zeros(front);
        assert(s =~= front.push(s.last()));
        assert(s.to_multiset() =~= front.to_multiset().insert(s.last()));
    } else {
        assert(s.to_multiset().len() == 0);
    }
}

/// Where every counter that is not zero stands at one of the positions
/// `marks`, all but as many counters as there are marks are zero.
pub proof fn lemma_zeros_outside_marks(s: Seq<u32>, marks: Seq<int>)
    requires
        forall|i: int| 0 <= i < s.len() && s[i] != 0 ==> marks.contains(i),
    ensures
        zeros(s) + marks.len() >= s.len(),
    decreases marks.len(),
{
    broadcast use group_to_multiset_ensures, group_multiset_axioms;

    if marks.len() == 0 {
        assert forall|i: int| 0 <= i < s.len() implies s[i] == 0 by {
            if s[i] != 0 {
                assert(marks.contains(i));
            }
        }
        lemma_zeros_of_zeros(s);
    } else {
        let mark = marks.last();
        let fewer = marks.drop_last();
        let cleared = if 0 <= mark < s.len() {
            s.update(mark, 0u32)
        } else {
            s
        };
        assert forall|i: int| 0 <= i < cleared.len() && cleared[i] != 0 implies fewer.contains(
            i,
        ) by {
            assert(marks.contains(i));
            let at = choose|at: int| 0 <= at < marks.len() && marks[at] == i;
            assert(fewer[at] == i);
        }
        lemma_zeros_outside_marks(cleared, fewer);
        if 0 <= mark < s.len() {
            assert(cleared.to_multiset() =~= s.to_multiset().insert(0u32).remove(s[mark]));
        }
    }
}

/// Where every counter that is not zero stands at one of the positions
/// `marks`, the sorted copy starts with zeros: all but as many counters as
/// there are marks.
pub proof fn lemma_rank_is_zero(s: Seq<u32>, marks: Seq<int>, rank: int)
    requires
        forall|i: int| 0 <= i < s.len() && s[i] != 0 ==> marks.contains(i),
        0 <= rank < s.len() - marks.len(),
    ensures
        sorted_copy(s)[rank] == 0,
{
    let sorted = sorted_copy(s);
    lemma_sorted_copy(s);
    lemma_zeros_outside_marks(s, marks);
    if sorted[rank] != 0 {
        assert forall|i: int| rank <= i < sorted.len() implies sorted[i] != 0 by {
            assert(sorted[rank] <= sorted[i]);
        }
        lemma_zeros_before(sorted, rank);
    }
}

/// Exchanges the counters at `i` and `j`.
fn swap(buckets: &mut Vec<u32>, i: usize, j: usize)
    requires
        i < old(buckets)@.len(),
        j < old(buckets)@.len(),
    ensures
        final(buckets)@ == swapped(old(buckets)@, i as int, j as int),
{
    let at_i: u32 = buckets[i];
    let at_j: u32 = buckets[j];
    buckets.set(i, at_j);
    buckets.set(j, at_i);
}

/// Puts the counters at the positions from `low` to `high` in an order in
/// which one of them, the pivot, has no larger counter of the range before
/// it and no smaller one behind it. Returns the position of the pivot.
///
/// In a range of three counters or more the pivot is the counter that stood
/// in the middle of the range, and the counters before it are smaller. A
/// range of two counters is put in ascending order, with the first as pivot.
pub fn partition(buckets: &mut Vec<u32>, low: usize, high: usize) -> (pivot: usize)
    requires
        low <= high < old(buckets)@.len(),
    ensures
        rearranged(old(buckets)@, final(buckets)@, low as int, high as int),
        low <= pivot <= high,
        forall|i: int| low <= i < pivot ==> final(buckets)@[i] <= final(buckets)@[pivot as int],
        forall|i: int| pivot < i <= high ==> final(buckets)@[pivot as int] <= final(buckets)@[i],
        high - low <= 1 ==> pivot == low,
        high - low >= 2 ==> final(buckets)@[pivot as int] == old(buckets)@[low + (high - low) / 2],
        high - low >= 2 ==> forall|i: int|
            low <= i < pivot ==> final(buckets)@[i] < final(buckets)@[pivot as int],
{
    let ghost before = buckets@;
    if low == high {
        return low;
    }
    if low + 1 == high {
        if buckets[low] > buckets[high] {
            swap(buckets, low, high);
            proof {
                lemma_swapped_rearranged(before, low as int, high as int, low as int, high as int);
            }
        }
        return low;
    }
    let mut result: usize = low;
    let pivot: usize = low + (high - low) / 2;
    let val: u32 = buckets[pivot];
    swap(buckets, pivot, high);
    proof {
        lemma_swapped_rearranged(before, pivot as int, high as int, low as int, high as int);
    }
    let mut ii: usize = low;
    while ii < high
        invariant
            low <= result <= ii <= high < before.len(),
            rearranged(before, buckets@, low as int, high as int),
            buckets@[high as int] == val,
            forall|i: int| low <= i < result ==> buckets@[i] < val,
            forall|i: int| result <= i < ii ==> buckets@[i] >= val,
        decreases high - ii,
    {
        if buckets[ii] < val {
            let ghost current = buckets@;
            swap(buckets, ii, result);
            proof {
                lemma_swapped_rearranged(current, ii as int, result as int, low as int, high as int);
                lemma_rearranged_twice(
                    before,
                    current,
                    buckets@,
                    low as int,
                    high as int,
                    low as int,
                    high as int,
                );
            }
            result += 1;
        }
        ii += 1;
    }
    let ghost current = buckets@;
    let at_result: u32 = buckets[result];
    buckets.set(high, at_result);
    buckets.set(result, val);
    proof {
        assert(buckets@ =~= swapped(current, result as int, high as int));
        lemma_swapped_rearranged(current, result as int, high as int, low as int, high as int);
        lemma_rearranged_twice(
            before,
            current,
            buckets@,
            low as int,
            high as int,
            low as int,
            high as int,
        );
    }
    result
}

/// Finds the counter of rank `k` among those at the positions from `low` to
/// `high`, which hold the counters of these ranks, and puts it at `k`.
fn select(buckets: &mut Vec<u32>, low: usize, high: usize, k: usize) -> (value: u32)
    requires
        low <= k <= high < old(buckets)@.len(),
        cut(old(buckets)@, low as int),
        cut(old(buckets)@, high + 1),
    ensures
        rearranged(old(buckets)@, final(buckets)@, low as int, high as int),
        value == final(buckets)@[k as int],
        cut(final(buckets)@, k as int),
        cut(final(buckets)@, k + 1),
{
    let ghost before = buckets@;
    let mut low_now: usize = low;
    let mut high_now: usize = high;
    loop
        invariant
            before == old(buckets)@,
            low <= low_now <= k <= high_now <= high < before.len(),
            rearranged(before, buckets@, low as int, high as int),
            cut(buckets@, low_now as int),
            cut(buckets@, high_now + 1),
        decreases high_now - low_now,
    {
        let ghost current = buckets@;
        let pivot = partition(buckets, low_now, high_now);
        proof {
            lemma_rearranged_twice(
                before,
                current,
                buckets@,
                low as int,
                high as int,
                low_now as int,
                high_now as int,
            );
            lemma_rearranged_cut(current, buckets@, low_now as int, high_now as int, low_now as int);
            lemma_rearranged_cut(
                current,
                buckets@,
                low_now as int,
                high_now as int,
                high_now + 1,
            );
            lemma_barrier_cuts(buckets@, low_now as int, high_now as int, pivot as int);
        }
        if pivot > k {
            high_now = pivot - 1;
        } else if pivot < k {
            low_now = pivot + 1;
        } else {
            return buckets[k];
        }
    }
}

/// The first `count` entries of `marks` are positions of barriers of `s`:
/// of counters that have nothing larger before them and nothing smaller
/// behind them.
pub open spec fn barriers(s: Seq<u32>, marks: Seq<usize>, count: int) -> bool {
    forall|t: int|
        0 <= t < count ==> cut(s, (#[trigger] marks[t]) as int) && cut(s, marks[t] + 1)
}

/// Barriers outside a range stay barriers when the counters of the range
/// are put in another order.
proof fn lemma_barriers_kept(
    before: Seq<u32>,
    after: Seq<u32>,
    low: int,
    high: int,
    marks: Seq<usize>,
    count: int,
)
    requires
        0 <= low <= high < before.len(),
        rearranged(before, after, low, high),
        barriers(before, marks, count),
        forall|t: int| 0 <= t < count ==> (#[trigger] marks[t]) < low || marks[t] > high,
    ensures
        barriers(after, marks, count),
{
    assert forall|t: int| 0 <= t < count implies cut(after, (#[trigger] marks[t]) as int) && cut(
        after,
        marks[t] + 1,
    ) by {
        lemma_rearranged_cut(before, after, low, high, marks[t] as int);
        lemma_rearranged_cut(before, after, low, high, marks[t] + 1);
    }
}

/// Finds the three quartiles of the first `4 * (bucket_count / 4)` counters
/// by selection on a copy. The search for the second quartile notes the
/// barriers that it comes by, and the searches for the first and the third
/// start from the narrowest range between two of them.
///
/// There have to be eight buckets at least: with fewer, the ranks of two
/// quartiles are neighbours, and no range lies between them.
#[verifier::rlimit(40)]
pub fn find_quartiles(buckets: &[u32], bucket_count: usize) -> (quartiles: (u32, u32, u32))
    requires
        8 <= bucket_count <= buckets@.len(),
    ensures
        quartiles == spec_find_quartiles(buckets@, bucket_count as int),
        quartiles.0 <= quartiles.1 <= quartiles.2,
{
    let quartile: usize = bucket_count / 4;
    let rank1: usize = quartile - 1;
    let rank2: usize = rank1 + quartile;
    let rank3: usize = rank2 + quartile;
    let end: usize = rank3 + quartile;
    let ghost source = buckets@.take(4 * quartile);

    let mut buckets_copy: Vec<u32> = Vec::new();
    let mut ii: usize = 0;
    while ii <= end
        invariant
            ii <= end + 1 <= buckets@.len(),
            buckets_copy@ == buckets@.take(ii as int),
        decreases end + 1 - ii,
    {
        buckets_copy.push(buckets[ii]);
        ii += 1;
        assert(buckets@.take(ii as int) =~= buckets@.take(ii - 1).push(buckets@[ii - 1]));
    }
    let mut shortcut_low: Vec<usize> = vec![0; bucket_count];
    let mut shortcut_high: Vec<usize> = vec![0; bucket_count];
    let mut spl: usize = 0;
    let mut sph: usize = 0;

    let mut low: usize = 0;
    let mut high: usize = end;
    let mut q2: u32 = 0;
    loop
        invariant
            8 <= bucket_count,
            quartile == bucket_count / 4,
            rank1 == quartile - 1,
            rank2 == rank1 + quartile,
            end == rank2 + 2 * quartile,
            buckets_copy@.len() == end + 1,
            buckets_copy@.to_multiset() == source.to_multiset(),
            shortcut_low@.len() == bucket_count,
            shortcut_high@.len() == bucket_count,
            low <= rank2 <= high <= end,
            cut(buckets_copy@, low as int),
            cut(buckets_copy@, high + 1),
            spl <= low,
            sph <= end - high,
            forall|t: int| 0 <= t < spl ==> (#[trigger] shortcut_low@[t]) < low,
            forall|t: int| 0 <= t < sph ==> high < (#[trigger] shortcut_high@[t]) <= end,
            barriers(buckets_copy@, shortcut_low@, spl as int),
            barriers(buckets_copy@, shortcut_high@, sph as int),
        ensures
            q2 == buckets_copy@[rank2 as int],
            cut(buckets_copy@, rank2 as int),
            cut(buckets_copy@, rank2 + 1),
        decreases high - low,
    {
        let ghost current = buckets_copy@;
        let pivot = partition(&mut buckets_copy, low, high);
        proof {
            lemma_rearranged_multiset(current, buckets_copy@, low as int, high as int);
            lemma_rearranged_cut(current, buckets_copy@, low as int, high as int, low as int);
            lemma_rearranged_cut(current, buckets_copy@, low as int, high as int, high + 1);
            lemma_barrier_cuts(buckets_copy@, low as int, high as int, pivot as int);
            lemma_barriers_kept(
                current,
                buckets_copy@,
                low as int,
                high as int,
                shortcut_low@,
                spl as int,
            );
            lemma_barriers_kept(
                current,
                buckets_copy@,
                low as int,
                high as int,
                shortcut_high@,
                sph as int,
            );
        }
        if pivot > rank2 {
            high = pivot - 1;
            shortcut_high.set(sph, pivot);
            sph += 1;
        } else if pivot < rank2 {
            low = pivot + 1;
            shortcut_low.set(spl, pivot);
            spl += 1;
        } else {
            q2 = buckets_copy[rank2];
            break;
        }
    }
    proof {
        lemma_rank_of_barrier(buckets_copy@, rank2 as int);
        lemma_sorted_copy_of_permutation(buckets_copy@, source);
    }
    shortcut_low.set(spl, rank2 - 1);
    shortcut_high.set(sph, rank2 + 1);

    let mut tt: usize = 0;
    low = 0;
    while shortcut_low[tt] < rank1
        invariant
            tt <= spl < shortcut_low@.len(),
            shortcut_low@[spl as int] == rank2 - 1,
            rank1 < rank2 - 1,
            low <= rank1,
            cut(buckets_copy@, low as int),
            barriers(buckets_copy@, shortcut_low@, spl as int),
        decreases spl - tt,
    {
        low = shortcut_low[tt];
        tt += 1;
    }
    high = shortcut_low[tt];
    let q1: u32 = if high == rank1 {
        proof {
            lemma_rank_of_barrier(buckets_copy@, rank1 as int);
        }
        buckets_copy[rank1]
    } else {
        let ghost current = buckets_copy@;
        let value = select(&mut buckets_copy, low, high, rank1);
        proof {
            lemma_rearranged_multiset(current, buckets_copy@, low as int, high as int);
            lemma_rearranged_cut(current, buckets_copy@, low as int, high as int, rank2 + 1);
            lemma_barriers_kept(
                current,
                buckets_copy@,
                low as int,
                high as int,
                shortcut_high@,
                sph as int,
            );
            lemma_rank_of_barrier(buckets_copy@, rank1 as int);
        }
        value
    };
    proof {
        lemma_sorted_copy_of_permutation(buckets_copy@, source);
    }

    tt = 0;
    high = end;
    while shortcut_high[tt] > rank3
        invariant
            tt <= sph < shortcut_high@.len(),
            shortcut_high@[sph as int] == rank2 + 1,
            rank2 + 1 < rank3,
            rank3 <= high <= end,
            end + 1 == buckets_copy@.len(),
            cut(buckets_copy@, high + 1),
            barriers(buckets_copy@, shortcut_high@, sph as int),
            forall|t: int| 0 <= t < sph ==> (#[trigger] shortcut_high@[t]) <= end,
        decreases sph - tt,
    {
        high = shortcut_high[tt];
        tt += 1;
    }
    low = shortcut_high[tt];
    let q3: u32 = if low == rank3 {
        proof {
            lemma_rank_of_barrier(buckets_copy@, rank3 as int);
        }
        buckets_copy[rank3]
    } else {
        let ghost current = buckets_copy@;
        let value = select(&mut buckets_copy, low, high, rank3);
        proof {
            lemma_rearranged_multiset(current, buckets_copy@, low as int, high as int);
            lemma_rank_of_barrier(buckets_copy@, rank3 as int);
        }
        value
    };
    proof {
        lemma_sorted_copy_of_permutation(buckets_copy@, source);
        lemma_sorted_copy(source);
    }
    (q1, q2, q3)
}

} // verus!
