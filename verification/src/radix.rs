//! Least-significant-digit radix sort for `i32`: four stable counting-sort
//! passes over the bytes of the sign-flipped value.

use vstd::prelude::*;
use vstd::multiset::Multiset;
use crate::sorting::{is_permutation, is_sorted};

verus! {

/// The unsigned key whose order is the signed order of `v`: the sign bit flipped.
pub open spec fn order_key(v: i32) -> u32 {
    (v as u32) ^ 0x8000_0000u32
}

/// Byte `pass` (0 = least significant) of the order key of `v`.
pub open spec fn digit(v: i32, pass: int) -> u8 {
    if pass == 0 {
        (order_key(v) & 0xffu32) as u8
    } else if pass == 1 {
        ((order_key(v) >> 8u32) & 0xffu32) as u8
    } else if pass == 2 {
        ((order_key(v) >> 16u32) & 0xffu32) as u8
    } else {
        ((order_key(v) >> 24u32) & 0xffu32) as u8
    }
}

/// The low `passes` bytes of the order key of `v`.
pub open spec fn key_prefix(v: i32, passes: int) -> u32 {
    if passes <= 0 {
        0u32
    } else if passes == 1 {
        order_key(v) & 0xffu32
    } else if passes == 2 {
        order_key(v) & 0xffffu32
    } else if passes == 3 {
        order_key(v) & 0xff_ffffu32
    } else {
        order_key(v)
    }
}

proof fn lemma_order_key_monotone(a: i32, b: i32)
    ensures
        a <= b <==> order_key(a) <= order_key(b),
{
    assert(a <= b <==> ((a as u32) ^ 0x8000_0000u32) <= ((b as u32) ^ 0x8000_0000u32)) by (bit_vector);
}

proof fn lemma_key_split(a: i32, b: i32, pass: int)
    requires
        0 <= pass < 4,
    ensures
        key_prefix(a, pass + 1) <= key_prefix(b, pass + 1) <==> (digit(a, pass) < digit(b, pass) || (
        digit(a, pass) == digit(b, pass) && key_prefix(a, pass) <= key_prefix(b, pass))),
{
    let x = order_key(a);
    let y = order_key(b);
    if pass == 0 {
        assert((x & 0xffu32) <= (y & 0xffu32) <==> ((x & 0xffu32) as u8) < ((y & 0xffu32) as u8) || (
        ((x & 0xffu32) as u8) == ((y & 0xffu32) as u8) && 0u32 <= 0u32)) by (bit_vector);
    } else if pass == 1 {
        assert((x & 0xffffu32) <= (y & 0xffffu32) <==> (((x >> 8u32) & 0xffu32) as u8) < (((y >> 8u32)
            & 0xffu32) as u8) || ((((x >> 8u32) & 0xffu32) as u8) == (((y >> 8u32) & 0xffu32) as u8)
            && (x & 0xffu32) <= (y & 0xffu32))) by (bit_vector);
    } else if pass == 2 {
        assert((x & 0xff_ffffu32) <= (y & 0xff_ffffu32) <==> (((x >> 16u32) & 0xffu32) as u8) < (((y
            >> 16u32) & 0xffu32) as u8) || ((((x >> 16u32) & 0xffu32) as u8) == (((y >> 16u32)
            & 0xffu32) as u8) && (x & 0xffffu32) <= (y & 0xffffu32))) by (bit_vector);
    } else {
        assert(x <= y <==> (((x >> 24u32) & 0xffu32) as u8) < (((y >> 24u32) & 0xffu32) as u8) || ((((x
            >> 24u32) & 0xffu32) as u8) == (((y >> 24u32) & 0xffu32) as u8) && (x & 0xff_ffffu32) <= (y
            & 0xff_ffffu32))) by (bit_vector);
    }
}

/// The byte the sort buckets `val` by in the pass that shifts by `shift`.
fn pass_key(val: i32, shift: u32) -> (key: u8)
    requires
        shift == 0 || shift == 8 || shift == 16 || shift == 24,
    ensures
        key == digit(val, (shift / 8) as int),
{
    if shift == 24 {
        let k = ((val >> 24u32) as u8) ^ 0x80u8;
        assert(((val >> 24u32) as u8) ^ 0x80u8 == ((((val as u32) ^ 0x8000_0000u32) >> 24u32) & 0xffu32) as u8) by (bit_vector);
        k
    } else {
        let k = ((val as u32) >> shift) as u8;
        assert(shift == 0 ==> ((val as u32) >> shift) as u8 == (((val as u32) ^ 0x8000_0000u32) & 0xffu32) as u8) by (bit_vector);
        assert(shift == 8 ==> ((val as u32) >> shift) as u8 == ((((val as u32) ^ 0x8000_0000u32) >> 8u32) & 0xffu32) as u8) by (bit_vector);
        assert(shift == 16 ==> ((val as u32) >> shift) as u8 == ((((val as u32) ^ 0x8000_0000u32) >> 16u32) & 0xffu32) as u8) by (bit_vector);
        k
    }
}


/// `s` is ordered by the low `passes` bytes of the order key.
pub open spec fn sorted_by_prefix(s: Seq<i32>, passes: int) -> bool {
    forall|i: int, j: int|
        0 <= i <= j < s.len() ==> key_prefix(#[trigger] s[i], passes) <= key_prefix(#[trigger] s[j], passes)
}

/// Holds of the values whose byte `pass` is `k`.
pub open spec fn digit_is(pass: int, k: int) -> spec_fn(i32) -> bool {
    |v: i32| digit(v, pass) as int == k
}

/// Holds of the values whose byte `pass` is below `d`.
pub open spec fn digit_below(pass: int, d: int) -> spec_fn(i32) -> bool {
    |v: i32| (digit(v, pass) as int) < d
}

/// The values of `s` whose byte `pass` is `k`, in their order in `s`.
pub open spec fn bucket(s: Seq<i32>, pass: int, k: int) -> Seq<i32> {
    s.filter(digit_is(pass, k))
}

/// Buckets `0 .. d` of `s` one after another: what a stable counting sort
/// on byte `pass` puts in front of bucket `d`.
pub open spec fn buckets_before(s: Seq<i32>, pass: int, d: int) -> Seq<i32>
    decreases d,
{
    if d <= 0 {
        Seq::empty()
    } else {
        buckets_before(s, pass, d - 1) + bucket(s, pass, d - 1)
    }
}

/// A subsequence taken by a filter keeps the order of the sequence.
proof fn lemma_filter_sorted(s: Seq<i32>, pred: spec_fn(i32) -> bool, passes: int)
    requires
        sorted_by_prefix(s, passes),
    ensures
        sorted_by_prefix(s.filter(pred), passes),
    decreases s.len(),
{
    reveal(Seq::filter);
    if s.len() > 0 {
        let r = s.drop_last();
        assert(sorted_by_prefix(r, passes)) by {
            assert forall|i: int, j: int| 0 <= i <= j < r.len() implies key_prefix(r[i], passes)
                <= key_prefix(r[j], passes) by {
                assert(r[i] == s[i] && r[j] == s[j]);
            }
        }
        lemma_filter_sorted(r, pred, passes);
        let f = r.filter(pred);
        if pred(s.last()) {
            assert forall|i: int| 0 <= i < f.len() implies key_prefix(f[i], passes) <= key_prefix(
                s.last(),
                passes,
            ) by {
                assert(f.contains(f[i]));
                r.lemma_filter_contains_rev(pred, f[i]);
                let j = choose|j: int| 0 <= j < r.len() && r[j] == f[i];
                assert(s[j] == r[j]);
                assert(s[s.len() - 1] == s.last());
            }
            let g = f.push(s.last());
            assert forall|i: int, j: int| 0 <= i <= j < g.len() implies key_prefix(g[i], passes)
                <= key_prefix(g[j], passes) by {
                if j == g.len() - 1 {
                    if i < j {
                        assert(g[i] == f[i]);
                    }
                } else {
                    assert(g[i] == f[i] && g[j] == f[j]);
                }
            }
        }
    }
}

/// Splitting off bucket `d` from the values below `d + 1`.
proof fn lemma_filter_below_split(s: Seq<i32>, pass: int, d: int)
    ensures
        s.filter(digit_below(pass, d + 1)).to_multiset() =~= s.filter(digit_below(pass, d)).to_multiset().add(
            s.filter(digit_is(pass, d)).to_multiset(),
        ),
    decreases s.len(),
{
    broadcast use vstd::multiset::group_multiset_axioms;
    broadcast use vstd::seq_lib::group_to_multiset_ensures;
    if s.len() == 0 {
        reveal(Seq::filter);
        assert(s.filter(digit_below(pass, d + 1)) =~= Seq::<i32>::empty());
        assert(s.filter(digit_below(pass, d)) =~= Seq::<i32>::empty());
        assert(s.filter(digit_is(pass, d)) =~= Seq::<i32>::empty());
    } else {
        let r = s.drop_last();
        let x = s.last();
        assert(s =~= r.push(x));
        lemma_filter_below_split(r, pass, d);
        r.lemma_filter_push(x, digit_below(pass, d + 1));
        r.lemma_filter_push(x, digit_below(pass, d));
        r.lemma_filter_push(x, digit_is(pass, d));
        let fa = r.filter(digit_below(pass, d + 1));
        let fb = r.filter(digit_below(pass, d));
        let fc = r.filter(digit_is(pass, d));
        if (digit(x, pass) as int) < d {
            assert(fa.push(x).to_multiset() =~= fa.to_multiset().insert(x));
            assert(fb.push(x).to_multiset() =~= fb.to_multiset().insert(x));
        } else if digit(x, pass) as int == d {
            assert(fa.push(x).to_multiset() =~= fa.to_multiset().insert(x));
            assert(fc.push(x).to_multiset() =~= fc.to_multiset().insert(x));
        }
    }
}

/// Keeping the values whose byte is below 256 keeps everything.
proof fn lemma_filter_below_all(s: Seq<i32>, pass: int)
    ensures
        s.filter(digit_below(pass, 256)) =~= s,
    decreases s.len(),
{
    reveal(Seq::filter);
    if s.len() > 0 {
        lemma_filter_below_all(s.drop_last(), pass);
        assert(s.drop_last().push(s.last()) =~= s);
    }
}

/// What the first `d` buckets hold, and in which order.
proof fn lemma_buckets_before(s: Seq<i32>, pass: int, d: int)
    requires
        0 <= pass < 4,
        0 <= d <= 256,
    ensures
        forall|i: int|
            0 <= i < buckets_before(s, pass, d).len() ==> (digit(
                #[trigger] buckets_before(s, pass, d)[i],
                pass,
            ) as int) < d,
        buckets_before(s, pass, d).to_multiset() =~= s.filter(digit_below(pass, d)).to_multiset(),
        buckets_before(s, pass, d).len() == s.filter(digit_below(pass, d)).len(),
        sorted_by_prefix(s, pass) ==> sorted_by_prefix(buckets_before(s, pass, d), pass + 1),
    decreases d,
{
    broadcast use vstd::seq_lib::group_to_multiset_ensures;
    if d == 0 {
        lemma_filter_none(s, pass);
        assert(s.filter(digit_below(pass, 0)).to_multiset() =~= Multiset::empty());
    } else {
        lemma_buckets_before(s, pass, d - 1);
        let left = buckets_before(s, pass, d - 1);
        let b = bucket(s, pass, d - 1);
        let all = buckets_before(s, pass, d);
        assert(all == left + b);
        assert forall|i: int| 0 <= i < all.len() implies (digit(#[trigger] all[i], pass) as int) < d by {
            if i >= left.len() {
                s.lemma_filter_pred(digit_is(pass, d - 1), i - left.len());
                assert(all[i] == b[i - left.len()]);
            } else {
                assert(all[i] == left[i]);
            }
        }
        vstd::seq_lib::lemma_multiset_commutative(left, b);
        lemma_filter_below_split(s, pass, d - 1);
        assert(all.to_multiset() =~= s.filter(digit_below(pass, d)).to_multiset());
        assert(all.len() == all.to_multiset().len());
        assert(s.filter(digit_below(pass, d)).len() == s.filter(digit_below(pass, d)).to_multiset().len());
        if sorted_by_prefix(s, pass) {
            lemma_filter_sorted(s, digit_is(pass, d - 1), pass);
            assert forall|i: int, j: int| 0 <= i <= j < all.len() implies key_prefix(
                all[i],
                pass + 1,
            ) <= key_prefix(all[j], pass + 1) by {
                lemma_key_split(all[i], all[j], pass);
                if j < left.len() {
                    assert(all[i] == left[i] && all[j] == left[j]);
                } else if i >= left.len() {
                    assert(all[i] == b[i - left.len()] && all[j] == b[j - left.len()]);
                    s.lemma_filter_pred(digit_is(pass, d - 1), i - left.len());
                    s.lemma_filter_pred(digit_is(pass, d - 1), j - left.len());
                } else {
                    assert(all[i] == left[i] && all[j] == b[j - left.len()]);
                    s.lemma_filter_pred(digit_is(pass, d - 1), j - left.len());
                }
            }
        }
    }
}

/// Nothing has a byte below 0.
proof fn lemma_filter_none(s: Seq<i32>, pass: int)
    ensures
        s.filter(digit_below(pass, 0)) =~= Seq::<i32>::empty(),
    decreases s.len(),
{
    reveal(Seq::filter);
    if s.len() > 0 {
        lemma_filter_none(s.drop_last(), pass);
    }
}

/// Earlier buckets end no later than later ones start.
proof fn lemma_buckets_before_len_mono(s: Seq<i32>, pass: int, d1: int, d2: int)
    requires
        0 <= d1 <= d2,
    ensures
        buckets_before(s, pass, d1).len() <= buckets_before(s, pass, d2).len(),
    decreases d2,
{
    if d1 < d2 {
        lemma_buckets_before_len_mono(s, pass, d1, d2 - 1);
    }
}


/// A sequence laid out bucket after bucket, each at its offset, is the
/// concatenation of the buckets.
proof fn lemma_layout(dst: Seq<i32>, s: Seq<i32>, pass: int, d: int)
    requires
        0 <= pass < 4,
        0 <= d <= 256,
        buckets_before(s, pass, d).len() <= dst.len(),
        forall|k: int, t: int|
            0 <= k < 256 && 0 <= t < bucket(s, pass, k).len() ==> dst[buckets_before(s, pass, k).len() + t]
                == #[trigger] bucket(s, pass, k)[t],
    ensures
        dst.subrange(0, buckets_before(s, pass, d).len() as int) =~= buckets_before(s, pass, d),
    decreases d,
{
    if d > 0 {
        lemma_buckets_before_len_mono(s, pass, d - 1, d);
        lemma_layout(dst, s, pass, d - 1);
        let l = buckets_before(s, pass, d - 1);
        let b = bucket(s, pass, d - 1);
        assert forall|i: int| 0 <= i < l.len() + b.len() implies dst.subrange(
            0,
            buckets_before(s, pass, d).len() as int,
        )[i] == (l + b)[i] by {
            if i >= l.len() {
                assert(b[i - l.len()] == dst[l.len() + (i - l.len())]);
            } else {
                assert(dst.subrange(0, l.len() as int)[i] == l[i]);
            }
        }
    }
}

/// One stable counting-sort pass: distributes `src` into `dst` by the byte
/// that `shift` selects.
fn counting_pass(src: &[i32], dst: &mut [i32], shift: u32)
    requires
        old(dst)@.len() == src@.len(),
        shift == 0 || shift == 8 || shift == 16 || shift == 24,
    ensures
        final(dst)@ == buckets_before(src@, (shift / 8) as int, 256),
{
    let ghost pass = (shift / 8) as int;
    let ghost s = src@;
    let n = src.len();
    proof {
        lemma_buckets_before(s, pass, 256);
        lemma_filter_below_all(s, pass);
    }
    let mut count: Vec<usize> = Vec::new();
    let mut k: usize = 0;
    while k < 256
        invariant
            count@.len() == k,
            k <= 256,
            forall|q: int| 0 <= q < k ==> count@[q] == 0,
        decreases 256 - k,
    {
        count.push(0);
        k = k + 1;
    }
    proof {
        assert forall|q: int| 0 <= q < 256 implies count@[q] == bucket(s.take(0), pass, q).len() by {
            reveal(Seq::filter);
            assert(s.take(0).len() == 0);
        }
    }
    let mut m: usize = 0;
    while m < n
        invariant
            m <= n,
            n == s.len(),
            s == src@,
            pass == (shift / 8) as int,
            shift == 0 || shift == 8 || shift == 16 || shift == 24,
            count@.len() == 256,
            forall|q: int| 0 <= q < 256 ==> count@[q] == bucket(s.take(m as int), pass, q).len(),
        decreases n - m,
    {
        let key = pass_key(src[m], shift);
        proof {
            assert(s.take(m + 1) =~= s.take(m as int).push(s[m as int]));
            assert forall|q: int| 0 <= q < 256 implies bucket(s.take(m + 1), pass, q).len() == bucket(
                s.take(m as int),
                pass,
                q,
            ).len() + (if q == key as int { 1int } else { 0int }) by {
                s.take(m as int).lemma_filter_push(s[m as int], digit_is(pass, q));
            }
            s.take(m as int).lemma_filter_len(digit_is(pass, key as int));
        }
        let c = count[key as usize];
        count.set(key as usize, c + 1);
        m = m + 1;
    }
    proof {
        assert(s.take(n as int) =~= s);
    }
    let mut prefix: Vec<usize> = Vec::new();
    let mut sum: usize = 0;
    let mut i: usize = 0;
    while i < 256
        invariant
            i <= 256,
            n == s.len(),
            count@.len() == 256,
            forall|q: int| 0 <= q < 256 ==> count@[q] == bucket(s, pass, q).len(),
            prefix@.len() == i,
            sum == buckets_before(s, pass, i as int).len(),
            forall|q: int| 0 <= q < i ==> prefix@[q] == buckets_before(s, pass, q).len(),
            buckets_before(s, pass, 256).len() == n,
            0 <= pass < 4,
        decreases 256 - i,
    {
        prefix.push(sum);
        proof {
            lemma_buckets_before_len_mono(s, pass, i + 1, 256);
        }
        sum = sum + count[i];
        i = i + 1;
    }
    let ghost starts = prefix@;
    let mut m: usize = 0;
    while m < n
        invariant
            m <= n,
            n == s.len(),
            s == src@,
            dst@.len() == n,
            pass == (shift / 8) as int,
            0 <= pass < 4,
            shift == 0 || shift == 8 || shift == 16 || shift == 24,
            prefix@.len() == 256,
            buckets_before(s, pass, 256).len() == n,
            forall|q: int| 0 <= q < 256 ==> starts[q] == buckets_before(s, pass, q).len(),
            forall|q: int|
                0 <= q < 256 ==> prefix@[q] == starts[q] + bucket(s.take(m as int), pass, q).len(),
            forall|q: int, t: int|
                0 <= q < 256 && 0 <= t < bucket(s.take(m as int), pass, q).len() ==> dst@[starts[q] + t]
                    == #[trigger] bucket(s.take(m as int), pass, q)[t],
        decreases n - m,
    {
        let val = src[m];
        let key = pass_key(val, shift);
        let pos = prefix[key as usize];
        let ghost kk = key as int;
        let ghost before = dst@;
        proof {
            assert(s.take(m + 1) =~= s.take(m as int).push(val));
            s.lemma_filter_take_len(digit_is(pass, kk), m + 1);
            s.take(m as int).lemma_filter_push(val, digit_is(pass, kk));
            lemma_buckets_before_len_mono(s, pass, kk + 1, 256);
            assert(buckets_before(s, pass, kk + 1).len() == starts[kk] + bucket(s, pass, kk).len());
        }
        dst[pos] = val;
        prefix.set(key as usize, pos + 1);
        proof {
            assert forall|q: int, t: int|
                0 <= q < 256 && 0 <= t < bucket(s.take(m + 1), pass, q).len() implies dst@[starts[q] + t]
                    == #[trigger] bucket(s.take(m + 1), pass, q)[t] by {
                s.take(m as int).lemma_filter_push(val, digit_is(pass, q));
                if q != kk {
                    s.lemma_filter_take_len(digit_is(pass, q), m as int);
                    lemma_buckets_before_len_mono(s, pass, q + 1, 256);
                    assert(buckets_before(s, pass, q + 1).len() == starts[q] + bucket(s, pass, q).len());
                    if q < kk {
                        lemma_buckets_before_len_mono(s, pass, q + 1, kk);
                    } else {
                        lemma_buckets_before_len_mono(s, pass, kk + 1, q);
                    }
                    assert(starts[q] + t != pos);
                    assert(bucket(s.take(m + 1), pass, q) == bucket(s.take(m as int), pass, q));
                    assert(before[starts[q] + t] == bucket(s.take(m as int), pass, q)[t]);
                    assert(dst@[starts[q] + t] == before[starts[q] + t]);
                } else if t < bucket(s.take(m as int), pass, q).len() {
                    assert(starts[q] + t != pos);
                    assert(bucket(s.take(m + 1), pass, q) == bucket(s.take(m as int), pass, q).push(val));
                    assert(before[starts[q] + t] == bucket(s.take(m as int), pass, q)[t]);
                } else {
                    assert(bucket(s.take(m + 1), pass, q) == bucket(s.take(m as int), pass, q).push(val));
                    assert(starts[q] + t == pos);
                    assert(dst@[starts[q] + t] == val);
                    assert(bucket(s.take(m + 1), pass, q)[t] == val);
                }
            }
            assert forall|q: int|
                0 <= q < 256 implies prefix@[q] == starts[q] + bucket(s.take(m + 1), pass, q).len() by {
                s.take(m as int).lemma_filter_push(val, digit_is(pass, q));
            }
        }
        m = m + 1;
    }
    proof {
        assert(s.take(n as int) =~= s);
        lemma_layout(dst@, s, pass, 256);
        assert(dst@ =~= dst@.subrange(0, n as int));
    }
}


/// Sorts `arr` in ascending order: four stable counting-sort passes, one per
/// byte of the sign-flipped value from the least significant up, bouncing
/// between `arr` and a scratch buffer so that the last pass lands in `arr`.
pub fn radix_sort(arr: &mut [i32])
    ensures
        is_permutation(old(arr)@, final(arr)@),
        is_sorted(final(arr)@),
{
    broadcast use vstd::seq_lib::group_to_multiset_ensures;
    let ghost s0 = arr@;
    let n = arr.len();
    let mut temp: Vec<i32> = vec![0i32; n];
    let mut pass: u32 = 0;
    while pass < 4
        invariant
            pass <= 4,
            temp@.len() == n,
            arr@.len() == n,
            pass % 2 == 0 ==> is_permutation(s0, arr@) && sorted_by_prefix(arr@, pass as int),
            pass % 2 == 1 ==> is_permutation(s0, temp@) && sorted_by_prefix(temp@, pass as int),
        decreases 4 - pass,
    {
        let shift = pass * 8;
        let ghost src = if pass % 2 == 0 { arr@ } else { temp@ };
        if pass % 2 == 0 {
            counting_pass(arr, temp.as_mut_slice(), shift);
        } else {
            counting_pass(temp.as_slice(), arr, shift);
        }
        proof {
            lemma_buckets_before(src, pass as int, 256);
            lemma_filter_below_all(src, pass as int);
        }
        pass = pass + 1;
    }
    proof {
        assert forall|i: int, j: int| 0 <= i <= j < arr@.len() implies arr@[i] <= arr@[j] by {
            lemma_order_key_monotone(arr@[i], arr@[j]);
        }
    }
}

} // verus!
