//! The per-thread work of the concurrency benchmark: a sum of squares over a
//! range of indices, with 64-bit wrapping arithmetic.

use vstd::prelude::*;

verus! {

/// `a^2 + (a+1)^2 + ... + (b-1)^2`.
pub open spec fn squares_sum(a: int, b: int) -> int
    decreases b - a,
{
    if b <= a {
        0
    } else {
        squares_sum(a, b - 1) + (b - 1) * (b - 1)
    }
}

/// 2^64.
pub open spec fn modulus64() -> int {
    0x1_0000_0000_0000_0000
}

proof fn lemma_wrapping_add_u64(a: u64, b: u64)
    ensures
        a.wrapping_add(b) == (a + b) % modulus64(),
{
    let m = modulus64();
    if a + b >= m {
        vstd::arithmetic::div_mod::lemma_mod_add_multiples_vanish(a + b - m, m);
        vstd::arithmetic::div_mod::lemma_small_mod((a + b - m) as nat, m as nat);
    } else {
        vstd::arithmetic::div_mod::lemma_small_mod((a + b) as nat, m as nat);
    }
}

/// The sum of `j * j` for `start <= j < end`, modulo 2^64: what one thread
/// of the benchmark computes.
pub fn sum_of_squares(start: usize, end: usize) -> (sum: u64)
    ensures
        sum == squares_sum(start as int, end as int) % modulus64(),
{
    let mut sum: u64 = 0;
    let mut j: usize = start;
    proof {
        vstd::arithmetic::div_mod::lemma_small_mod(0, modulus64() as nat);
    }
    while j < end
        invariant
            start <= j <= end || (j == start && end <= start),
            sum == squares_sum(start as int, j as int) % modulus64(),
        decreases end - j,
    {
        let jj = j as u64;
        let sq = jj.wrapping_mul(jj);
        proof {
            let m = modulus64();
            lemma_wrapping_add_u64(sum, sq);
            vstd::arithmetic::div_mod::lemma_add_mod_noop(squares_sum(start as int, j as int), j * j, m);
            vstd::arithmetic::div_mod::lemma_mod_twice(squares_sum(start as int, j as int), m);
            vstd::arithmetic::div_mod::lemma_mod_twice(j * j, m);
            assert(sq as int == (j * j) % m);
            assert(squares_sum(start as int, j + 1) == squares_sum(start as int, j as int) + j * j);
        }
        sum = sum.wrapping_add(sq);
        j = j + 1;
    }
    proof {
        if end <= start {
            assert(squares_sum(start as int, end as int) == 0);
        }
    }
    sum
}

/// Sums over adjacent ranges add up to the sum over their union: the totals
/// of the threads, each over its own slice of the index range, add up to
/// the sum over the whole range.
pub proof fn squares_sum_split(a: int, b: int, c: int)
    requires
        a <= b <= c,
    ensures
        squares_sum(a, b) + squares_sum(b, c) == squares_sum(a, c),
    decreases c - b,
{
    if b < c {
        squares_sum_split(a, b, c - 1);
    }
}

/// The sum of the squares of the integers from `a` up to `b - 1`, in closed
/// form: six times it is `F(b) - F(a)` with `F(n) = (n - 1) n (2n - 1)`; so
/// `0^2 + ... + (n-1)^2 = (n - 1) n (2n - 1) / 6`. The totals are taken
/// modulo 2^64.
pub proof fn squares_sum_closed_form(a: int, b: int)
    requires
        a <= b,
    ensures
        6 * squares_sum(a, b) == (b - 1) * b * (2 * b - 1) - (a - 1) * a * (2 * a - 1),
        modulus64() == 0x1_0000_0000_0000_0000,
    decreases b - a,
{
    if a < b {
        squares_sum_closed_form(a, b - 1);
        assert(b * (b - 1) * (2 * b - 1) - (b - 2) * (b - 1) * (2 * b - 3) == 6 * ((b - 1) * (b - 1)))
            by (nonlinear_arith);
    }
}

} // verus!
