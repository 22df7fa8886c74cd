//! Sorting, searching and summing over slices of integers.
use vstd::prelude::*;

verus! {

broadcast use {vstd::seq_lib::group_to_multiset_ensures, vstd::multiset::group_multiset_axioms};

/// Every element is at most each one after it.
pub open spec fn sorted(s: Seq<i32>) -> bool {
    forall|i: int, j: int| 0 <= i < j < s.len() ==> s[i] <= s[j]
}

/// `a` holds the same elements as `b`, each as many times.
pub open spec fn permutes(a: Seq<i32>, b: Seq<i32>) -> bool {
    a.to_multiset() == b.to_multiset()
}

/// Exchanges the elements at `i` and `j`.
fn swap(arr: &mut [i32], i: usize, j: usize)
    requires
        i < old(arr)@.len(),
        j < old(arr)@.len(),
    ensures
        final(arr)@ == old(arr)@.update(i as int, old(arr)@[j as int]).update(j as int, old(arr)@[i as int]),
        permutes(final(arr)@, old(arr)@),
{
    let a = arr[i];
    let b = arr[j];
    arr[i] = b;
    arr[j] = a;
    proof {
        let s = old(arr)@;
        let t = s.update(i as int, s[j as int]);
        assert(t.to_multiset() == s.to_multiset().insert(s[j as int]).remove(s[i as int]));
        assert(t.update(j as int, s[i as int]).to_multiset() == t.to_multiset().insert(s[i as int]).remove(t[j as int]));
        assert(t.update(j as int, s[i as int]).to_multiset() =~= s.to_multiset());
    }
}

/// With `arr[..i]` sorted, moves `arr[i]` down by exchanges with its left
/// neighbour until `arr[..=i]` is sorted; nothing else moves.
fn insert_into_sorted_prefix(arr: &mut [i32], i: usize)
    requires
        i < old(arr)@.len(),
        sorted(old(arr)@.subrange(0, i as int)),
    ensures
        final(arr)@.len() == old(arr)@.len(),
        sorted(final(arr)@.subrange(0, i + 1)),
        permutes(final(arr)@.subrange(0, i + 1), old(arr)@.subrange(0, i + 1)),
        final(arr)@.subrange(i + 1, final(arr)@.len() as int) == old(arr)@.subrange(i + 1, old(arr)@.len() as int),
{
    let mut j: usize = i;
    proof {
        let s = arr@.subrange(0, i as int);
        assert forall|a: int, b: int| 0 <= a < b <= i && a != j && b != j implies arr@[a] <= arr@[b] by {
            assert(s[a] <= s[b]);
        }
    }
    while j > 0 && arr[j - 1] > arr[j]
        invariant
            0 <= j <= i < arr@.len(),
            arr@.len() == old(arr)@.len(),
            forall|a: int, b: int| 0 <= a < b <= i && a != j && b != j ==> arr@[a] <= arr@[b],
            forall|b: int| j < b <= i ==> arr@[j as int] < arr@[b],
            permutes(arr@.subrange(0, i + 1), old(arr)@.subrange(0, i + 1)),
            arr@.subrange(i + 1, arr@.len() as int) == old(arr)@.subrange(i + 1, old(arr)@.len() as int),
        decreases j,
    {
        let ghost before = arr@;
        swap(arr, j - 1, j);
        proof {
            assert(arr@.subrange(0, i + 1) == before.subrange(0, i + 1).update(j - 1, before[j as int]).update(
                j as int,
                before[j - 1],
            ));
            let p = before.subrange(0, i + 1);
            let q = p.update(j - 1, p[j as int]);
            assert(q.to_multiset() == p.to_multiset().insert(p[j as int]).remove(p[j - 1]));
            assert(q.update(j as int, p[j - 1]).to_multiset() == q.to_multiset().insert(p[j - 1]).remove(q[j as int]));
            assert(q.update(j as int, p[j - 1]).to_multiset() =~= p.to_multiset());
            assert(arr@.subrange(i + 1, arr@.len() as int) =~= before.subrange(i + 1, before.len() as int));
        }
        j -= 1;
    }
    proof {
        let s = arr@.subrange(0, i + 1);
        assert(sorted(s)) by {
            assert forall|a: int, b: int| 0 <= a < b < i + 1 implies #[trigger] s[a] <= #[trigger] s[b] by {
                if b == j && a < j {
                    assert(arr@[a] <= arr@[j - 1]);
                }
            }
        }
    }
}

/// Sorts `arr` in place by insertion.
pub fn insertion_sort(arr: &mut [i32])
    ensures
        sorted(final(arr)@),
        permutes(final(arr)@, old(arr)@),
{
    let n = arr.len();
    if n == 0 {
        return;
    }
    let mut i: usize = 1;
    while i < n
        invariant
            1 <= i <= n,
            n == arr@.len(),
            sorted(arr@.subrange(0, i as int)),
            permutes(arr@, old(arr)@),
        decreases n - i,
    {
        let ghost before = arr@;
        insert_into_sorted_prefix(arr, i);
        proof {
            lemma_permutes_prefix(before, arr@, i + 1);
        }
        i += 1;
    }
    proof {
        assert(arr@.subrange(0, n as int) =~= arr@);
    }
}

/// Two sequences that agree past `k` and permute each other before it permute each other.
proof fn lemma_permutes_prefix(a: Seq<i32>, b: Seq<i32>, k: int)
    requires
        0 <= k <= a.len(),
        a.len() == b.len(),
        permutes(b.subrange(0, k), a.subrange(0, k)),
        b.subrange(k, b.len() as int) == a.subrange(k, a.len() as int),
    ensures
        permutes(b, a),
{
    vstd::seq_lib::lemma_multiset_commutative(a.subrange(0, k), a.subrange(k, a.len() as int));
    vstd::seq_lib::lemma_multiset_commutative(b.subrange(0, k), b.subrange(k, b.len() as int));
    assert(a.subrange(0, k) + a.subrange(k, a.len() as int) =~= a);
    assert(b.subrange(0, k) + b.subrange(k, b.len() as int) =~= b);
}

/// Sorts `arr` in place by insertion, the prefix before the last element first.
pub fn recursive_insertion_sort(arr: &mut [i32])
    ensures
        sorted(final(arr)@),
        permutes(final(arr)@, old(arr)@),
{
    let n = arr.len();
    recursive_insertion_sort_helper(arr, n);
    proof {
        assert(arr@.subrange(0, n as int) =~= arr@);
    }
}

/// Sorts `arr[..n]` in place and leaves the rest alone.
fn recursive_insertion_sort_helper(arr: &mut [i32], n: usize)
    requires
        n <= old(arr)@.len(),
    ensures
        final(arr)@.len() == old(arr)@.len(),
        sorted(final(arr)@.subrange(0, n as int)),
        permutes(final(arr)@, old(arr)@),
        final(arr)@.subrange(n as int, final(arr)@.len() as int) == old(arr)@.subrange(n as int, old(arr)@.len() as int),
    decreases n,
{
    if n <= 1 {
        proof {
            assert(arr@.subrange(n as int, arr@.len() as int) == old(arr)@.subrange(n as int, old(arr)@.len() as int));
        }
        return;
    }
    recursive_insertion_sort_helper(arr, n - 1);
    let ghost before = arr@;
    insert_into_sorted_prefix(arr, n - 1);
    proof {
        lemma_permutes_prefix(before, arr@, n as int);
        assert(arr@.subrange(n as int, arr@.len() as int) =~= old(arr)@.subrange(n as int, old(arr)@.len() as int)) by {
            assert forall|k: int| n <= k < arr@.len() implies arr@[k] == old(arr)@[k] by {
                assert(arr@[k] == arr@.subrange(n as int, arr@.len() as int)[k - n]);
                assert(arr@[k] == before.subrange(n - 1, before.len() as int)[k - n + 1]);
            }
        }
    }
}

/// Sum of `s`, added up from the front.
pub open spec fn seq_sum(s: Seq<i32>) -> int
    decreases s.len(),
{
    if s.len() == 0 {
        0
    } else {
        seq_sum(s.drop_last()) + s.last()
    }
}

/// `start` plus each prefix sum of `s` fits in an `i32`.
pub open spec fn running_sums_fit(s: Seq<i32>, start: int) -> bool {
    forall|k: int| 0 <= k <= s.len() ==> i32::MIN <= #[trigger] (start + seq_sum(s.subrange(0, k))) <= i32::MAX
}

/// Sum of the elements of `arr`, starting from zero.
pub fn sum_array(arr: &[i32]) -> (r: i32)
    requires
        running_sums_fit(arr@, 0),
    ensures
        r == seq_sum(arr@),
{
    sum_array_with_initial_value(arr, 0)
}

/// `initial_value` plus the sum of the elements of `arr`.
pub fn sum_array_with_initial_value(arr: &[i32], initial_value: i32) -> (r: i32)
    requires
        running_sums_fit(arr@, initial_value as int),
    ensures
        r == initial_value + seq_sum(arr@),
{
    let mut acc: i32 = initial_value;
    let mut i: usize = 0;
    while i < arr.len()
        invariant
            0 <= i <= arr@.len(),
            running_sums_fit(arr@, initial_value as int),
            acc == initial_value + seq_sum(arr@.subrange(0, i as int)),
        decreases arr@.len() - i,
    {
        proof {
            assert(arr@.subrange(0, i + 1).drop_last() =~= arr@.subrange(0, i as int));
            assert(i32::MIN <= initial_value + seq_sum(arr@.subrange(0, i + 1)) <= i32::MAX);
        }
        acc = acc + arr[i];
        i += 1;
    }
    proof {
        assert(arr@.subrange(0, arr@.len() as int) =~= arr@);
    }
    acc
}

/// Index of the first element of `arr` equal to `target`, or `None` if there is none.
pub fn linear_search(arr: &[i32], target: &i32) -> (r: Option<usize>)
    ensures
        match r {
            Some(i) => i < arr@.len() && arr@[i as int] == *target && forall|k: int|
                0 <= k < i ==> arr@[k] != *target,
            None => forall|k: int| 0 <= k < arr@.len() ==> arr@[k] != *target,
        },
{
    let mut i: usize = 0;
    while i < arr.len()
        invariant
            0 <= i <= arr@.len(),
            forall|k: int| 0 <= k < i ==> arr@[k] != *target,
        decreases arr@.len() - i,
    {
        if arr[i] == *target {
            return Some(i);
        }
        i += 1;
    }
    None
}

/// Sorts `arr` in place by selecting, for each position from the front, the
/// least of the elements from there on.
pub fn selection_sort(arr: &mut [i32])
    ensures
        sorted(final(arr)@),
        permutes(final(arr)@, old(arr)@),
{
    let n = arr.len();
    let mut i: usize = 0;
    while i + 1 < n
        invariant
            0 <= i <= n,
            n == arr@.len(),
            n > 0 ==> i < n,
            forall|a: int, b: int| 0 <= a < b < n && a < i ==> arr@[a] <= arr@[b],
            permutes(arr@, old(arr)@),
        decreases n - i,
    {
        let mut min_index: usize = i;
        let mut j: usize = i;
        while j < n
            invariant
                i <= min_index < n,
                i <= j <= n,
                n == arr@.len(),
                forall|k: int| i <= k < j ==> arr@[min_index as int] <= arr@[k],
            decreases n - j,
        {
            if arr[j] < arr[min_index] {
                min_index = j;
            }
            j += 1;
        }
        swap(arr, i, min_index);
        i += 1;
    }
}

/// Sorts `arr` in place: each pass carries the least of the unsorted
/// elements down to the front of them by exchanges of neighbours.
pub fn bubble_sort(arr: &mut [i32])
    ensures
        sorted(final(arr)@),
        permutes(final(arr)@, old(arr)@),
{
    let n = arr.len();
    let mut i: usize = 0;
    while i + 1 < n
        invariant
            0 <= i <= n,
            n == arr@.len(),
            n > 0 ==> i < n,
            forall|a: int, b: int| 0 <= a < b < n && a < i ==> arr@[a] <= arr@[b],
            permutes(arr@, old(arr)@),
        decreases n - i,
    {
        let mut j: usize = n - 1;
        while j > i
            invariant
                i <= j < n,
                n == arr@.len(),
                forall|a: int, b: int| 0 <= a < b < n && a < i ==> arr@[a] <= arr@[b],
                forall|k: int| j <= k < n ==> arr@[j as int] <= arr@[k],
                permutes(arr@, old(arr)@),
            decreases j,
        {
            if arr[j] < arr[j - 1] {
                swap(arr, j, j - 1);
            }
            j -= 1;
        }
        i += 1;
    }
}

/// `s[lo..hi]` is sorted.
pub open spec fn sorted_between(s: Seq<i32>, lo: int, hi: int) -> bool {
    forall|i: int, j: int| lo <= i < j < hi ==> s[i] <= s[j]
}

/// Two sequences that agree outside `[p, r)` and permute each other inside it
/// permute each other.
proof fn lemma_permutes_segment(a: Seq<i32>, b: Seq<i32>, p: int, r: int)
    requires
        0 <= p <= r <= a.len(),
        a.len() == b.len(),
        permutes(b.subrange(p, r), a.subrange(p, r)),
        forall|k: int| 0 <= k < p || r <= k < a.len() ==> b[k] == a[k],
    ensures
        permutes(b, a),
{
    let n = a.len() as int;
    vstd::seq_lib::lemma_multiset_commutative(a.subrange(0, p), a.subrange(p, r));
    vstd::seq_lib::lemma_multiset_commutative(a.subrange(0, r), a.subrange(r, n));
    vstd::seq_lib::lemma_multiset_commutative(b.subrange(0, p), b.subrange(p, r));
    vstd::seq_lib::lemma_multiset_commutative(b.subrange(0, r), b.subrange(r, n));
    assert(a.subrange(0, p) + a.subrange(p, r) =~= a.subrange(0, r));
    assert(b.subrange(0, p) + b.subrange(p, r) =~= b.subrange(0, r));
    assert(a.subrange(0, r) + a.subrange(r, n) =~= a);
    assert(b.subrange(0, r) + b.subrange(r, n) =~= b);
    assert(a.subrange(0, p) =~= b.subrange(0, p));
    assert(a.subrange(r, n) =~= b.subrange(r, n));
}

/// Merges the sorted runs `arr[p..q]` and `arr[q..r]` into one sorted run
/// `arr[p..r]`; on equal elements the one from the left run comes first.
fn merge(arr: &mut [i32], p: usize, q: usize, r: usize)
    requires
        p <= q <= r <= old(arr)@.len(),
        sorted_between(old(arr)@, p as int, q as int),
        sorted_between(old(arr)@, q as int, r as int),
    ensures
        final(arr)@.len() == old(arr)@.len(),
        sorted_between(final(arr)@, p as int, r as int),
        permutes(final(arr)@, old(arr)@),
        forall|k: int| 0 <= k < p || r <= k < old(arr)@.len() ==> final(arr)@[k] == old(arr)@[k],
{
    let ghost orig = arr@;
    let left_length = q - p;
    let right_length = r - q;
    let mut left_arr: Vec<i32> = Vec::with_capacity(left_length);
    let mut t: usize = p;
    while t < q
        invariant
            p <= t <= q,
            q <= r <= orig.len(),
            left_arr@ == orig.subrange(p as int, t as int),
            arr@ == orig,
        decreases q - t,
    {
        left_arr.push(arr[t]);
        t += 1;
    }
    let mut right_arr: Vec<i32> = Vec::with_capacity(right_length);
    t = q;
    while t < r
        invariant
            q <= t <= r,
            r <= orig.len(),
            right_arr@ == orig.subrange(q as int, t as int),
            arr@ == orig,
        decreases r - t,
    {
        right_arr.push(arr[t]);
        t += 1;
    }
    let mut i: usize = 0;
    let mut j: usize = 0;
    let mut k: usize = p;
    while k < r
        invariant
            left_arr@ == orig.subrange(p as int, q as int),
            right_arr@ == orig.subrange(q as int, r as int),
            left_length == left_arr@.len(),
            right_length == right_arr@.len(),
            p <= q <= r <= orig.len(),
            sorted_between(orig, p as int, q as int),
            sorted_between(orig, q as int, r as int),
            i <= left_length,
            j <= right_length,
            k == p + i + j,
            arr@.len() == orig.len(),
            forall|m: int| 0 <= m < p || r <= m < orig.len() ==> arr@[m] == orig[m],
            sorted_between(arr@, p as int, k as int),
            forall|m: int| p <= m < k && i < left_length ==> arr@[m] <= left_arr@[i as int],
            forall|m: int| p <= m < k && j < right_length ==> arr@[m] <= right_arr@[j as int],
            arr@.subrange(p as int, k as int).to_multiset() == left_arr@.subrange(0, i as int).to_multiset().add(
                right_arr@.subrange(0, j as int).to_multiset(),
            ),
        decreases r - k,
    {
        let ghost before = arr@;
        let x: i32;
        if j >= right_length || (i < left_length && left_arr[i] <= right_arr[j]) {
            x = left_arr[i];
            arr[k] = x;
            proof {
                assert(left_arr@.subrange(0, i + 1) =~= left_arr@.subrange(0, i as int).push(x));
                assert(i + 1 < left_length ==> x <= left_arr@[i + 1]);
            }
            i += 1;
        } else {
            x = right_arr[j];
            arr[k] = x;
            proof {
                assert(right_arr@.subrange(0, j + 1) =~= right_arr@.subrange(0, j as int).push(x));
                assert(j + 1 < right_length ==> x <= right_arr@[j + 1]);
            }
            j += 1;
        }
        proof {
            assert(arr@.subrange(p as int, k + 1) =~= before.subrange(p as int, k as int).push(x));
            assert(arr@.subrange(p as int, k + 1).to_multiset() =~= left_arr@.subrange(0, i as int).to_multiset().add(
                right_arr@.subrange(0, j as int).to_multiset(),
            ));
        }
        k += 1;
    }
    proof {
        assert(left_arr@.subrange(0, i as int) =~= orig.subrange(p as int, q as int));
        assert(right_arr@.subrange(0, j as int) =~= orig.subrange(q as int, r as int));
        vstd::seq_lib::lemma_multiset_commutative(orig.subrange(p as int, q as int), orig.subrange(q as int, r as int));
        assert(orig.subrange(p as int, q as int) + orig.subrange(q as int, r as int) =~= orig.subrange(p as int, r as int));
        lemma_permutes_segment(orig, arr@, p as int, r as int);
    }
}

/// Sorts `arr` in place by merging sorted halves.
pub fn merge_sort(arr: &mut [i32])
    ensures
        sorted(final(arr)@),
        permutes(final(arr)@, old(arr)@),
{
    let n = arr.len();
    merge_sort_helper(arr, 0, n);
}

/// Sorts `arr[p..r]` in place and leaves the rest alone.
fn merge_sort_helper(arr: &mut [i32], p: usize, r: usize)
    requires
        p <= r <= old(arr)@.len(),
    ensures
        final(arr)@.len() == old(arr)@.len(),
        sorted_between(final(arr)@, p as int, r as int),
        permutes(final(arr)@, old(arr)@),
        forall|k: int| 0 <= k < p || r <= k < old(arr)@.len() ==> final(arr)@[k] == old(arr)@[k],
    decreases r - p,
{
    if r - p <= 1 {
        return;
    }
    let q = p + (r - p) / 2;
    merge_sort_helper(arr, p, q);
    let ghost mid = arr@;
    merge_sort_helper(arr, q, r);
    assert(sorted_between(arr@, p as int, q as int)) by {
        assert forall|a: int, b: int| p <= a < b < q implies arr@[a] <= arr@[b] by {
            assert(mid[a] <= mid[b]);
        }
    }
    merge(arr, p, q, r);
}

} // verus!
