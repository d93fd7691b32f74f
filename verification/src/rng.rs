//! Random input for the benchmarks, drawn from `rand`'s thread-local
//! generator. Nothing is promised of the drawn values beyond their range;
//! the shuffle itself is exact for any draws.

use vstd::prelude::*;
use rand::rngs::ThreadRng;
use rand::Rng;

verus! {

/// `rand`'s thread-local random number generator.
#[verifier::external_type_specification]
#[verifier::external_body]
pub struct ExThreadRng(ThreadRng);

/// `Rng::gen::<i32>()` of `rand`: a uniformly drawn `i32`; any value can come.
#[verifier::external_body]
fn draw_i32(rng: &mut ThreadRng) -> i32 {
    rng.gen::<i32>()
}

/// `Rng::gen_range(lo..hi)` of `rand` on `i64`: a value with `lo <= r < hi`
/// (the range is not empty, so the call does not panic).
#[verifier::external_body]
fn draw_i64_in(rng: &mut ThreadRng, lo: i64, hi: i64) -> (r: i64)
    requires
        lo < hi,
    ensures
        lo <= r < hi,
{
    rng.gen_range(lo..hi)
}

/// `Rng::gen_range(0..=max)` of `rand` on `usize`: a value at most `max`
/// (the range always holds 0, so the call does not panic).
#[verifier::external_body]
fn draw_usize_upto(rng: &mut ThreadRng, max: usize) -> (r: usize)
    ensures
        r <= max,
{
    rng.gen_range(0..=max)
}

/// `n` random `i32` values: the input of the sort benchmark.
pub fn random_i32_values(rng: &mut ThreadRng, n: usize) -> (values: Vec<i32>)
    ensures
        values@.len() == n,
{
    let mut values: Vec<i32> = Vec::new();
    let mut i: usize = 0;
    while i < n
        invariant
            i <= n,
            values@.len() == i,
        decreases n - i,
    {
        values.push(draw_i32(rng));
        i = i + 1;
    }
    values
}

/// `n` random values in `lo..hi`: the input of the branch-prediction benchmark.
pub fn random_values_in(rng: &mut ThreadRng, n: usize, lo: i64, hi: i64) -> (values: Vec<i64>)
    requires
        lo < hi,
    ensures
        values@.len() == n,
        forall|k: int| 0 <= k < n ==> lo <= #[trigger] values@[k] < hi,
{
    let mut values: Vec<i64> = Vec::new();
    let mut i: usize = 0;
    while i < n
        invariant
            i <= n,
            lo < hi,
            values@.len() == i,
            forall|k: int| 0 <= k < i ==> lo <= #[trigger] values@[k] < hi,
        decreases n - i,
    {
        values.push(draw_i64_in(rng, lo, hi));
        i = i + 1;
    }
    values
}

/// `0, 1, ..., n - 1`.
pub open spec fn identity(n: nat) -> Seq<usize> {
    Seq::new(n, |i: int| i as usize)
}

/// Fisher-Yates on `0 .. n` after `m` steps, where step `k` (from 0) swaps
/// position `n - 1 - k` with position `draws[k]`.
pub open spec fn shuffle_steps(n: nat, draws: Seq<usize>, m: nat) -> Seq<usize>
    decreases m,
{
    if m == 0 {
        identity(n)
    } else {
        let prev = shuffle_steps(n, draws, (m - 1) as nat);
        let i = n - m;
        let j = draws[m - 1] as int;
        prev.update(i, prev[j]).update(j, prev[i])
    }
}

/// The draws a shuffle of `n` takes: one for each position from `n - 1`
/// down to 1, each at most its position.
pub open spec fn valid_draws(n: nat, draws: Seq<usize>) -> bool {
    &&& draws.len() == (if n == 0 { 0 } else { n - 1 })
    &&& forall|k: int| 0 <= k < draws.len() ==> #[trigger] draws[k] <= n - 1 - k
}

/// The Fisher-Yates shuffle of `0 .. n` with the given draws: for `i` from
/// `n - 1` down to 1, position `i` is swapped with position `draws[n - 1 - i]`.
pub fn shuffle_with(n: usize, draws: &Vec<usize>) -> (indices: Vec<usize>)
    requires
        valid_draws(n as nat, draws@),
    ensures
        indices@ == shuffle_steps(n as nat, draws@, draws@.len()),
        indices@.len() == n,
        indices@.to_multiset() =~= identity(n as nat).to_multiset(),
        forall|k: int| 0 <= k < n ==> #[trigger] indices@[k] < n,
{
    let mut indices: Vec<usize> = Vec::new();
    let mut k: usize = 0;
    while k < n
        invariant
            k <= n,
            indices@ =~= identity(k as nat),
        decreases n - k,
    {
        indices.push(k);
        k = k + 1;
    }
    let mut m: usize = 0;
    while m < draws.len()
        invariant
            valid_draws(n as nat, draws@),
            m <= draws@.len(),
            indices@ == shuffle_steps(n as nat, draws@, m as nat),
            indices@.len() == n,
            indices@.to_multiset() =~= identity(n as nat).to_multiset(),
            forall|t: int| 0 <= t < n ==> #[trigger] indices@[t] < n,
        decreases draws@.len() - m,
    {
        let i = n - 1 - m;
        let j = draws[m];
        proof {
            crate::sorting::lemma_swap_multiset(indices@, i as int, j as int);
        }
        let a = indices[i];
        let b = indices[j];
        indices.set(i, b);
        indices.set(j, a);
        m = m + 1;
    }
    indices
}

/// A random permutation of `0 .. n` by the Fisher-Yates shuffle, with the
/// draws taken from `rng` for positions `n - 1` down to 1 in turn.
pub fn shuffled_indices(rng: &mut ThreadRng, n: usize) -> (indices: Vec<usize>)
    ensures
        indices@.len() == n,
        indices@.to_multiset() =~= identity(n as nat).to_multiset(),
        forall|k: int| 0 <= k < n ==> #[trigger] indices@[k] < n,
{
    let mut draws: Vec<usize> = Vec::new();
    let mut i: usize = n;
    while i > 1
        invariant
            i <= n,
            n > 0 ==> i >= 1,
            draws@.len() == n - i,
            forall|k: int| 0 <= k < draws@.len() ==> #[trigger] draws@[k] <= n - 1 - k,
        decreases i,
    {
        i = i - 1;
        let j = draw_usize_upto(rng, i);
        draws.push(j);
    }
    shuffle_with(n, &draws)
}

} // verus!
