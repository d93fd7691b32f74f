//! Sorting `i32` slices: what sorted means, and a median-of-three quicksort
//! with an insertion sort for short ranges. Any two sorts of one input give
//! the same sequence.

use vstd::prelude::*;
use vstd::multiset::Multiset;

verus! {

broadcast use vstd::seq_lib::group_to_multiset_ensures;

/// Size of the range at or below which quicksort hands over to insertion sort.
pub const INSERTION_CUTOFF: usize = 32;

/// `s[a..b]` is in non-decreasing order.
pub open spec fn sorted_range(s: Seq<i32>, a: int, b: int) -> bool {
    forall|i: int, j: int| a <= i <= j < b ==> s[i] <= s[j]
}

/// The whole sequence is in non-decreasing order.
pub open spec fn is_sorted(s: Seq<i32>) -> bool {
    sorted_range(s, 0, s.len() as int)
}

/// `t` holds the same values as `s`, each as often.
pub open spec fn is_permutation(s: Seq<i32>, t: Seq<i32>) -> bool {
    s.to_multiset() =~= t.to_multiset()
}

/// `t` agrees with `s` outside the index range `[a, b)`.
pub open spec fn same_outside(s: Seq<i32>, t: Seq<i32>, a: int, b: int) -> bool {
    &&& s.len() == t.len()
    &&& forall|k: int| 0 <= k < s.len() && !(a <= k < b) ==> #[trigger] t[k] == s[k]
}

/// Swapping two positions keeps the multiset of values.
pub proof fn lemma_swap_multiset<T>(s: Seq<T>, i: int, j: int)
    requires
        0 <= i < s.len(),
        0 <= j < s.len(),
    ensures
        s.update(i, s[j]).update(j, s[i]).to_multiset() =~= s.to_multiset(),
{
    broadcast use vstd::seq_lib::to_multiset_update;
    broadcast use vstd::multiset::group_multiset_axioms;
    let s1 = s.update(i, s[j]);
    assert(s1.to_multiset() == s.to_multiset().insert(s[j]).remove(s[i]));
    assert(s1[j] == s[j]);
    assert(s1.update(j, s[i]).to_multiset() == s1.to_multiset().insert(s[i]).remove(s1[j]));
    assert(s.to_multiset().count(s[i]) > 0);
    assert(s.to_multiset().count(s[j]) > 0);
    assert(s1.update(j, s[i]).to_multiset() =~= s.to_multiset());
}

/// A permutation of a sub-range with the rest unchanged keeps the values of
/// the sub-range: each value there now was somewhere in the range before.
proof fn lemma_range_values_from(s: Seq<i32>, t: Seq<i32>, a: int, b: int, k: int)
    requires
        0 <= a <= k < b <= s.len(),
        same_outside(s, t, a, b),
        is_permutation(s, t),
    ensures
        exists|k2: int| a <= k2 < b && t[k] == #[trigger] s[k2],
{
    broadcast use vstd::seq_lib::lemma_multiset_commutative;
    let sa = s.subrange(0, a);
    let sm = s.subrange(a, b);
    let sb = s.subrange(b, s.len() as int);
    let tm = t.subrange(a, b);
    assert(s =~= sa + sm + sb);
    assert(t =~= sa + tm + sb);
    assert((sa + sm + sb).to_multiset() =~= sa.to_multiset().add(sm.to_multiset()).add(sb.to_multiset()));
    assert((sa + tm + sb).to_multiset() =~= sa.to_multiset().add(tm.to_multiset()).add(sb.to_multiset()));
    broadcast use vstd::multiset::group_multiset_axioms;
    assert forall|v: i32| tm.to_multiset().count(v) == sm.to_multiset().count(v) by {
        assert(s.to_multiset().count(v) == t.to_multiset().count(v));
    }
    assert(tm.to_multiset() =~= sm.to_multiset());
    assert(tm[k - a] == t[k]);
    assert(tm.contains(t[k]));
    assert(tm.to_multiset().count(t[k]) > 0);
    assert(sm.to_multiset().count(t[k]) > 0);
    assert(sm.contains(t[k]));
    let k3 = choose|k3: int| 0 <= k3 < sm.len() && sm[k3] == t[k];
    assert(s[a + k3] == t[k]);
}

/// Exchanges two elements of the slice.
fn swap_at(arr: &mut [i32], i: usize, j: usize)
    requires
        i < old(arr)@.len(),
        j < old(arr)@.len(),
    ensures
        final(arr)@ == old(arr)@.update(i as int, old(arr)@[j as int]).update(j as int, old(arr)@[i as int]),
{
    let t = arr[i];
    let u = arr[j];
    arr[i] = u;
    arr[j] = t;
}

/// Sorts `arr[lo..=hi]` in place by insertion.
fn insertion_sort_range(arr: &mut [i32], lo: usize, hi: usize)
    requires
        lo <= hi < old(arr)@.len(),
    ensures
        same_outside(old(arr)@, final(arr)@, lo as int, hi + 1),
        is_permutation(old(arr)@, final(arr)@),
        sorted_range(final(arr)@, lo as int, hi + 1),
{
    let ghost s0 = arr@;
    assert(hi < arr.len());
    let mut i: usize = lo + 1;
    while i <= hi
        invariant
            lo < i <= hi + 1,
            hi < arr@.len(),
            same_outside(s0, arr@, lo as int, hi + 1),
            is_permutation(s0, arr@),
            sorted_range(arr@, lo as int, i as int),
        decreases hi + 1 - i,
    {
        let key = arr[i];
        let mut j: usize = i;
        let ghost si = arr@;
        while j > lo && arr[j - 1] > key
            invariant
                lo <= j <= i,
                i <= hi,
                hi < arr@.len(),
                si[i as int] == key,
                same_outside(si, arr@, lo as int, i + 1),
                arr@.update(j as int, key).to_multiset() =~= si.to_multiset(),
                sorted_range(arr@, lo as int, j as int),
                sorted_range(arr@, j + 1, i + 1),
                forall|k: int| j < k <= i ==> key < #[trigger] arr@[k],
                j < i ==> forall|a: int, b: int| lo <= a < j && j < b <= i ==> arr@[a] <= arr@[b],
                j == i ==> arr@ == si,
            decreases j,
        {
            let prev = arr[j - 1];
            proof {
                let cur = arr@.update(j as int, key);
                lemma_swap_multiset(cur, j - 1, j as int);
                assert(cur.update(j - 1, cur[j as int]).update(j as int, cur[j - 1]) =~= arr@.update(
                    j as int,
                    prev,
                ).update(j - 1, key));
            }
            arr[j] = prev;
            j = j - 1;
        }
        arr[j] = key;
        proof {
            assert(sorted_range(arr@, lo as int, i + 1));
        }
        i = i + 1;
    }
}


/// Median-of-three partition of `arr[lo..=hi]`: returns the final position of
/// the pivot, with nothing larger before it and nothing smaller after it.
fn partition_range(arr: &mut [i32], lo: usize, hi: usize) -> (p: usize)
    requires
        lo + INSERTION_CUTOFF < hi < old(arr)@.len(),
    ensures
        same_outside(old(arr)@, final(arr)@, lo as int, hi + 1),
        is_permutation(old(arr)@, final(arr)@),
        lo < p <= hi,
        forall|k: int| lo <= k < p ==> #[trigger] final(arr)@[k] <= final(arr)@[p as int],
        forall|k: int| p < k <= hi ==> final(arr)@[p as int] <= #[trigger] final(arr)@[k],
{
    let ghost s0 = arr@;
    let mid = lo + (hi - lo) / 2;
    if arr[lo] > arr[mid] {
        proof { lemma_swap_multiset(arr@, lo as int, mid as int); }
        swap_at(arr, lo, mid);
    }
    if arr[lo] > arr[hi] {
        proof { lemma_swap_multiset(arr@, lo as int, hi as int); }
        swap_at(arr, lo, hi);
    }
    if arr[mid] > arr[hi] {
        proof { lemma_swap_multiset(arr@, mid as int, hi as int); }
        swap_at(arr, mid, hi);
    }
    proof { lemma_swap_multiset(arr@, mid as int, hi as int); }
    swap_at(arr, mid, hi);
    let pivot = arr[hi];
    let mut i: usize = lo;
    let mut j: usize = lo;
    while j < hi
        invariant
            lo <= i <= j <= hi,
            lo + INSERTION_CUTOFF < hi < arr@.len(),
            arr@[hi as int] == pivot,
            same_outside(s0, arr@, lo as int, hi + 1),
            is_permutation(s0, arr@),
            forall|k: int| lo <= k < i ==> #[trigger] arr@[k] <= pivot,
            forall|k: int| i <= k < j ==> #[trigger] arr@[k] > pivot,
            j == lo ==> arr@[lo as int] <= pivot,
            j > lo ==> i > lo,
        decreases hi - j,
    {
        if arr[j] <= pivot {
            proof { lemma_swap_multiset(arr@, i as int, j as int); }
            swap_at(arr, i, j);
            i = i + 1;
        }
        j = j + 1;
    }
    proof { lemma_swap_multiset(arr@, i as int, hi as int); }
    swap_at(arr, i, hi);
    i
}

/// Sorts `arr[lo..=hi]` in place: quicksort with a median-of-three pivot,
/// recursing on the smaller side and looping on the larger one, and insertion
/// sort once a range holds at most `INSERTION_CUTOFF + 1` elements. When the
/// pivot ends at the top of the range, only the part below it is left to
/// sort.
pub fn quicksort_inner(arr: &mut [i32], lo: usize, hi: usize)
    requires
        lo <= hi < old(arr)@.len(),
    ensures
        same_outside(old(arr)@, final(arr)@, lo as int, hi + 1),
        is_permutation(old(arr)@, final(arr)@),
        sorted_range(final(arr)@, lo as int, hi + 1),
    decreases hi - lo,
{
    let ghost s0 = arr@;
    let ghost l0 = lo as int;
    let ghost h0 = hi as int;
    let mut l = lo;
    let mut h = hi;
    while h - l > INSERTION_CUTOFF
        invariant
            l0 == lo,
            h0 == hi,
            lo <= l <= h <= hi < arr@.len(),
            same_outside(s0, arr@, l0, h0 + 1),
            is_permutation(s0, arr@),
            sorted_range(arr@, l0, l as int),
            sorted_range(arr@, h + 1, h0 + 1),
            forall|a: int, b: int| l0 <= a < l && l <= b <= h0 ==> arr@[a] <= arr@[b],
            forall|a: int, b: int| l0 <= a <= h && h < b <= h0 ==> arr@[a] <= arr@[b],
        decreases h - l,
    {
        let ghost before = arr@;
        let i = partition_range(arr, l, h);
        let ghost parted = arr@;
        proof {
            assert forall|a: int, b: int| l0 <= a < l && l <= b <= h0 implies parted[a] <= parted[b] by {
                if b <= h {
                    lemma_range_values_from(before, parted, l as int, h + 1, b);
                    let k2 = choose|k2: int| l <= k2 < h + 1 && parted[b] == before[k2];
                    assert(before[a] <= before[k2]);
                }
            }
            assert forall|a: int, b: int| l0 <= a <= h && h < b <= h0 implies parted[a] <= parted[b] by {
                if a >= l {
                    lemma_range_values_from(before, parted, l as int, h + 1, a);
                    let k2 = choose|k2: int| l <= k2 < h + 1 && parted[a] == before[k2];
                    assert(before[k2] <= before[b]);
                }
            }
        }
        if i == 0 {
            l = i + 1;
        } else if i - l < h - i {
            quicksort_inner(arr, l, i - 1);
            proof {
                let cur = arr@;
                assert forall|a: int| l <= a < i implies cur[a] <= parted[i as int] && (l0 < l ==> parted[l - 1] <= cur[a]) by {
                    lemma_range_values_from(parted, cur, l as int, i as int, a);
                    let k2 = choose|k2: int| l <= k2 < i && cur[a] == parted[k2];
                    if l0 < l {
                        assert(parted[l - 1] <= parted[k2]);
                    }
                }
                assert forall|a: int, b: int| l0 <= a <= b < i + 1 implies cur[a] <= cur[b] by {
                    if a < l && l <= b < i {
                        assert(parted[a] <= parted[l - 1]);
                    }
                    if a < l && b == i {
                        assert(parted[a] <= parted[b]);
                    }
                }
                assert forall|a: int, b: int| l0 <= a < i + 1 && i + 1 <= b <= h0 implies cur[a] <= cur[b] by {
                    if l <= a < i {
                        if b <= h {
                            assert(parted[i as int] <= parted[b]);
                        } else {
                            assert(parted[i as int] <= parted[b]);
                        }
                    }
                }
            }
            l = i + 1;
        } else {
            if i < h {
                quicksort_inner(arr, i + 1, h);
            }
            proof {
                let cur = arr@;
                if i < h {
                    assert forall|a: int| i < a <= h implies parted[i as int] <= cur[a] && (h < h0 ==> cur[a] <= parted[h + 1]) by {
                        lemma_range_values_from(parted, cur, i + 1, h + 1, a);
                        let k2 = choose|k2: int| i + 1 <= k2 < h + 1 && cur[a] == parted[k2];
                        if h < h0 {
                            assert(parted[k2] <= parted[h + 1]);
                        }
                    }
                    assert forall|a: int, b: int| i <= a <= b <= h0 implies cur[a] <= cur[b] by {
                        if i < a <= h && h < b {
                            assert(parted[h + 1] <= parted[b]);
                        }
                    }
                    assert forall|a: int, b: int| l0 <= a < i && i <= b <= h0 implies cur[a] <= cur[b] by {
                        if a < l {
                            if b <= h {
                                assert(parted[a] <= parted[i as int]);
                            }
                        } else {
                            if b <= h {
                                assert(parted[a] <= parted[i as int]);
                            } else {
                                assert(parted[a] <= parted[b]);
                            }
                        }
                    }
                }
            }
            h = i - 1;
        }
    }
    let ghost before_ins = arr@;
    insertion_sort_range(arr, l, h);
    proof {
        let cur = arr@;
        assert forall|a: int, b: int| l0 <= a <= b < h0 + 1 implies cur[a] <= cur[b] by {
            if l <= a <= h {
                lemma_range_values_from(before_ins, cur, l as int, h + 1, a);
                let ka = choose|k2: int| l <= k2 < h + 1 && cur[a] == before_ins[k2];
                if h < b {
                    assert(before_ins[ka] <= before_ins[b]);
                }
            }
            if l <= b <= h {
                lemma_range_values_from(before_ins, cur, l as int, h + 1, b);
                let kb = choose|k2: int| l <= k2 < h + 1 && cur[b] == before_ins[k2];
                if a < l {
                    assert(before_ins[a] <= before_ins[kb]);
                }
            }
        }
    }
}


/// Sorts `arr` in ascending order with `quicksort_inner`.
pub fn quicksort_opt(arr: &mut [i32])
    ensures
        is_permutation(old(arr)@, final(arr)@),
        is_sorted(final(arr)@),
{
    let len = arr.len();
    if len <= 1 {
        return;
    }
    quicksort_inner(arr, 0, len - 1);
}

/// The largest value of a sorted sequence sits at its end.
proof fn lemma_sorted_last_is_max(s: Seq<i32>, x: i32)
    requires
        is_sorted(s),
        s.len() > 0,
        s.to_multiset().count(x) > 0,
    ensures
        x <= s.last(),
{
    assert(s.contains(x));
    let k = choose|k: int| 0 <= k < s.len() && s[k] == x;
    assert(s[k] <= s[s.len() - 1]);
}

/// A sorted arrangement of a multiset of values is unique.
proof fn lemma_sorted_permutation_unique(a: Seq<i32>, b: Seq<i32>)
    requires
        is_sorted(a),
        is_sorted(b),
        is_permutation(a, b),
    ensures
        a == b,
    decreases a.len(),
{
    assert(a.len() == a.to_multiset().len());
    assert(b.len() == b.to_multiset().len());
    if a.len() > 0 {
        let n = a.len() as int;
        assert(a.to_multiset().count(a.last()) > 0) by {
            assert(a[n - 1] == a.last());
        }
        assert(b.to_multiset().count(b.last()) > 0) by {
            assert(b[n - 1] == b.last());
        }
        lemma_sorted_last_is_max(a, b.last());
        lemma_sorted_last_is_max(b, a.last());
        let a2 = a.drop_last();
        let b2 = b.drop_last();
        assert(a.remove(n - 1) =~= a2);
        assert(b.remove(n - 1) =~= b2);
        assert(a2.to_multiset() =~= a.to_multiset().remove(a[n - 1]));
        assert(b2.to_multiset() =~= b.to_multiset().remove(b[n - 1]));
        lemma_sorted_permutation_unique(a2, b2);
        assert(a =~= a2.push(a.last()));
        assert(b =~= b2.push(b.last()));
    } else {
        assert(a =~= b);
    }
}

/// Any two sorts of the same input agree: an output of `quicksort_opt` and an
/// output of `radix_sort` (or of `quicksort_inner` over the whole slice) for
/// one input are the same sequence.
pub proof fn sort_results_agree(input: Seq<i32>, first: Seq<i32>, second: Seq<i32>)
    requires
        is_permutation(input, first),
        is_sorted(first),
        is_permutation(input, second),
        is_sorted(second),
    ensures
        first == second,
{
    lemma_sorted_permutation_unique(first, second);
}

} // verus!
