//! Kernels of the CPU benchmark: Fibonacci, a prime sieve, population count,
//! the conditional sum of the branch-prediction test and pointer chasing.

use vstd::prelude::*;
use vstd::arithmetic::div_mod::{lemma_fundamental_div_mod, lemma_mod_multiples_basic};
use vstd::arithmetic::mul::{lemma_mul_inequality, lemma_mul_is_commutative, lemma_mul_is_associative};

verus! {

// ---------------------------------------------------------------- Fibonacci

/// The Fibonacci numbers: 0, 1, 1, 2, 3, 5, ...
pub open spec fn fib(n: nat) -> nat
    decreases n,
{
    if n == 0 {
        0
    } else if n == 1 {
        1
    } else {
        fib((n - 2) as nat) + fib((n - 1) as nat)
    }
}

/// 2^64.
pub open spec fn modulus64() -> nat {
    0x1_0000_0000_0000_0000
}

/// Fibonacci number `steps`, modulo 2^64: `steps` rounds of
/// `(a, b) <- (b, a + b)` from `(0, 1)` with wrapping addition.
pub fn fibonacci(steps: u32) -> (a: u64)
    ensures
        a == fib(steps as nat) % modulus64(),
{
    let mut a: u64 = 0;
    let mut b: u64 = 1;
    let mut k: u32 = 0;
    while k < steps
        invariant
            k <= steps,
            a == fib(k as nat) % modulus64(),
            b == fib(k as nat + 1) % modulus64(),
        decreases steps - k,
    {
        let c = a.wrapping_add(b);
        proof {
            let m = modulus64() as int;
            vstd::arithmetic::div_mod::lemma_add_mod_noop(fib(k as nat) as int, fib(k as nat + 1) as int, m);
            assert(fib(k as nat + 2) == fib(k as nat) + fib(k as nat + 1));
            if (a as int) + (b as int) >= m {
                vstd::arithmetic::div_mod::lemma_mod_add_multiples_vanish(a + b - m, m);
                vstd::arithmetic::div_mod::lemma_small_mod((a + b - m) as nat, m as nat);
            } else {
                vstd::arithmetic::div_mod::lemma_small_mod((a + b) as nat, m as nat);
            }
        }
        a = b;
        b = c;
        k = k + 1;
    }
    a
}

/// The result vector of the Fibonacci benchmark: entry `j` is
/// `fib(steps) mod 2^64` xor `j`.
pub fn fibonacci_batch(count: usize, steps: u32) -> (results: Vec<u64>)
    ensures
        results@.len() == count,
        forall|j: int| 0 <= j < count ==> #[trigger] results@[j] == ((fib(steps as nat) % modulus64()) as u64) ^ (j as u64),
{
    let mut results: Vec<u64> = Vec::new();
    let mut j: usize = 0;
    while j < count
        invariant
            j <= count,
            results@.len() == j,
            forall|i: int| 0 <= i < j ==> #[trigger] results@[i] == ((fib(steps as nat) % modulus64()) as u64) ^ (i as u64),
        decreases count - j,
    {
        let a = fibonacci(steps);
        results.push(a ^ (j as u64));
        j = j + 1;
    }
    results
}

// ---------------------------------------------------------------- primes

/// `p` is a prime number.
pub open spec fn is_prime(p: int) -> bool {
    p >= 2 && forall|d: int| 2 <= d < p ==> #[trigger] (p % d) != 0
}

/// The number of primes `p` with `2 <= p <= n`.
pub open spec fn prime_count(n: int) -> nat
    decreases n,
{
    if n < 2 {
        0
    } else {
        prime_count(n - 1) + if is_prime(n) { 1nat } else { 0nat }
    }
}

/// `x` is crossed out by a sieve that has used the primes below `bound`.
pub open spec fn crossed_out(x: int, bound: int) -> bool {
    exists|p: int| 2 <= p < bound && is_prime(p) && p * p <= x && #[trigger] (x % p) == 0
}

proof fn lemma_divides_trans(n: int, p: int, k: int)
    requires
        n >= 1,
        p >= 1,
        k >= 1,
        n % p == 0,
        p % k == 0,
    ensures
        n % k == 0,
{
    lemma_fundamental_div_mod(n, p);
    lemma_fundamental_div_mod(p, k);
    let a = n / p;
    let b = p / k;
    assert(n == p * a);
    assert(p == k * b);
    lemma_mul_is_associative(k, b, a);
    lemma_mul_is_commutative(k, b * a);
    lemma_mod_multiples_basic(b * a, k);
}

/// No multiple of `i` lies strictly between a multiple `j` and `j + i`.
proof fn lemma_no_multiple_between(i: int, j: int, x: int)
    requires
        i > 0,
        j % i == 0,
        j < x < j + i,
    ensures
        x % i != 0,
{
    if x % i == 0 {
        lemma_fundamental_div_mod(x, i);
        lemma_fundamental_div_mod(j, i);
        let a = x / i;
        let b = j / i;
        assert(false) by (nonlinear_arith)
            requires
                x == i * a,
                j == i * b,
                j < x,
                x < j + i,
                i > 0,
        ;
    }
}

/// The least divisor of `n` that is at least `d`, when none below `d` divides.
proof fn lemma_least_divisor(n: int, d: int) -> (p: int)
    requires
        n >= 2,
        2 <= d <= n,
        forall|k: int| 2 <= k < d ==> #[trigger] (n % k) != 0,
    ensures
        2 <= p <= n,
        n % p == 0,
        forall|k: int| 2 <= k < p ==> #[trigger] (n % k) != 0,
    decreases n - d,
{
    if n % d == 0 {
        d
    } else {
        assert(d < n) by {
            if d == n {
                vstd::arithmetic::div_mod::lemma_mod_self_0(n);
            }
        }
        lemma_least_divisor(n, d + 1)
    }
}

/// A number that is not prime has a prime factor at most its square root.
proof fn lemma_small_prime_factor(n: int) -> (p: int)
    requires
        n >= 2,
        !is_prime(n),
    ensures
        2 <= p < n,
        is_prime(p),
        p * p <= n,
        n % p == 0,
{
    let p = lemma_least_divisor(n, 2);
    assert forall|k: int| 2 <= k < p implies #[trigger] (p % k) != 0 by {
        if p % k == 0 {
            lemma_divides_trans(n, p, k);
        }
    }
    let d = choose|d: int| 2 <= d < n && #[trigger] (n % d) == 0;
    assert(p <= d);
    lemma_fundamental_div_mod(n, p);
    let q = n / p;
    assert(n == p * q);
    assert(p < n);
    assert(q >= 2) by (nonlinear_arith)
        requires n == p * q, 2 <= p, p < n;
    lemma_mul_is_commutative(p, q);
    lemma_mod_multiples_basic(p, q);
    assert(n % q == 0);
    if q < p {
        assert(n % q != 0);
    }
    lemma_mul_inequality(p, q, p);
    p
}

/// Without any prime factor at most its square root, a number is prime.
proof fn lemma_not_crossed_is_prime(n: int)
    requires
        n >= 2,
        !crossed_out(n, n),
    ensures
        is_prime(n),
{
    if !is_prime(n) {
        let p = lemma_small_prime_factor(n);
        assert(crossed_out(n, n));
    }
}

/// The number of primes up to `limit`, by the sieve of Eratosthenes: each
/// prime `i` crosses out `i*i, i*i + i, ...` up to `limit`.
pub fn count_primes(limit: usize) -> (count: u64)
    requires
        limit < 0x1_0000_0000,
        limit <= usize::MAX / 2,
    ensures
        count == prime_count(limit as int),
{
    let mut sieve: Vec<bool> = vec![false; limit + 1];
    proof {
        assert forall|x: int| 0 <= x <= limit implies !sieve@[x] by {
            assert(vstd::pervasive::cloned(false, sieve@[x]));
        }
    }
    let mut count: u64 = 0;
    let mut i: usize = 2;
    while i <= limit
        invariant
            2 <= i,
            i <= limit + 1 || i == 2,
            limit < 0x1_0000_0000,
            limit <= usize::MAX / 2,
            sieve@.len() == limit + 1,
            count == prime_count(i - 1),
            count <= i,
            forall|x: int| 2 <= x <= limit ==> (#[trigger] sieve@[x] <==> crossed_out(x, i as int)),
        decreases limit + 1 - i,
    {
        if !sieve[i] {
            proof {
                assert(!crossed_out(i as int, i as int));
                lemma_not_crossed_is_prime(i as int);
            }
            count = count + 1;
            if (i as u64).wrapping_mul(i as u64) <= limit as u64 {
                let mut j: usize = i.wrapping_mul(i);
                proof {
                    assert(i * i < 0x1_0000_0000_0000_0000) by (nonlinear_arith)
                        requires i < 0x1_0000_0000;
                    assert((i as u64).wrapping_mul(i as u64) == i * i);
                    assert(i * i <= limit);
                    vstd::arithmetic::div_mod::lemma_small_mod((i * i) as nat, (usize::MAX - usize::MIN + 1) as nat);
                    assert(j == i * i);
                    lemma_mod_multiples_basic(i as int, i as int);
                }
                let ghost before = sieve@;
                while j <= limit
                    invariant
                        2 <= i <= limit,
                        limit < 0x1_0000_0000,
                        limit <= usize::MAX / 2,
                        is_prime(i as int),
                        i * i <= j <= limit + i,
                        j % i == 0,
                        sieve@.len() == limit + 1,
                        forall|x: int|
                            2 <= x <= limit ==> (#[trigger] sieve@[x] <==> (before[x] || (i * i <= x < j
                                && x % (i as int) == 0))),
                    decreases limit + i - j,
                {
                    sieve[j] = true;
                    proof {
                        vstd::arithmetic::div_mod::lemma_mod_add_multiples_vanish(j as int, i as int);
                        assert forall|x: int| j < x < j + i implies #[trigger] (x % (i as int)) != 0 by {
                            lemma_no_multiple_between(i as int, j as int, x);
                        }
                    }
                    j = j + i;
                }
                proof {
                    assert forall|x: int| 2 <= x <= limit implies (#[trigger] sieve@[x] <==> crossed_out(
                        x,
                        i + 1,
                    )) by {
                        if sieve@[x] && !before[x] {
                            assert(crossed_out(x, i + 1));
                        }
                        if crossed_out(x, i + 1) && !crossed_out(x, i as int) {
                            let p = choose|p: int| 2 <= p < i + 1 && is_prime(p) && p * p <= x && #[trigger] (x % p) == 0;
                            assert(p == i);
                        }
                    }
                }
            } else {
                proof {
                    assert forall|x: int| 2 <= x <= limit implies (#[trigger] sieve@[x] <==> crossed_out(
                        x,
                        i + 1,
                    )) by {
                        if crossed_out(x, i + 1) && !crossed_out(x, i as int) {
                            let p = choose|p: int| 2 <= p < i + 1 && is_prime(p) && p * p <= x && #[trigger] (x % p) == 0;
                            assert(p == i);
                            assert(i * i > limit) by (nonlinear_arith)
                                requires i * i > limit;
                        }
                    }
                }
            }
        } else {
            proof {
                let p = choose|p: int| 2 <= p < i && is_prime(p) && p * p <= i && #[trigger] ((i as int) % p) == 0;
                assert(!is_prime(i as int));
                assert forall|x: int| 2 <= x <= limit implies (#[trigger] sieve@[x] <==> crossed_out(
                    x,
                    i + 1,
                )) by {
                    if crossed_out(x, i + 1) && !crossed_out(x, i as int) {
                        let q = choose|q: int| 2 <= q < i + 1 && is_prime(q) && q * q <= x && #[trigger] (x % q) == 0;
                        assert(q == i);
                    }
                }
            }
        }
        i = i + 1;
    }
    proof {
        if i == 2 {
            assert(prime_count(limit as int) == 0);
        }
    }
    count
}


// ---------------------------------------------------------------- popcount

/// The number of set bits among the low `k` bits of `x`.
pub open spec fn ones_below(x: u32, k: nat) -> nat
    decreases k,
{
    if k == 0 {
        0
    } else {
        ones_below(x, (k - 1) as nat) + ((x >> ((k - 1) as u32)) & 1u32) as nat
    }
}

/// The number of set bits of `x`.
pub open spec fn count_ones(x: u32) -> nat {
    ones_below(x, 32)
}

/// The number of set bits of `x`, bit by bit.
pub fn popcount(x: u32) -> (c: u32)
    ensures
        c == count_ones(x),
{
    let mut c: u32 = 0;
    let mut k: u32 = 0;
    while k < 32
        invariant
            k <= 32,
            c == ones_below(x, k as nat),
            c <= k,
        decreases 32 - k,
    {
        let bit = (x >> k) & 1u32;
        assert(bit <= 1) by (bit_vector)
            requires bit == (x >> k) & 1u32;
        c = c + bit;
        k = k + 1;
    }
    c
}

/// The input of the popcount benchmark: `i * 0x9e3779b9 (mod 2^32)` for each
/// `i < n`.
pub fn golden_sequence(n: u32) -> (data: Vec<u32>)
    ensures
        data@.len() == n,
        forall|i: int| 0 <= i < n ==> #[trigger] data@[i] == ((i * 0x9e3779b9) % 0x1_0000_0000) as u32,
{
    let mut data: Vec<u32> = Vec::new();
    let mut i: u32 = 0;
    while i < n
        invariant
            i <= n,
            data@.len() == i,
            forall|t: int| 0 <= t < i ==> #[trigger] data@[t] == ((t * 0x9e3779b9) % 0x1_0000_0000) as u32,
        decreases n - i,
    {
        data.push(i.wrapping_mul(0x9e3779b9));
        i = i + 1;
    }
    data
}

/// The set bits of all of `s`, added up.
pub open spec fn total_ones(s: Seq<u32>) -> nat
    decreases s.len(),
{
    if s.len() == 0 {
        0
    } else {
        total_ones(s.drop_last()) + count_ones(s.last())
    }
}

/// The number of set bits over all of `data`.
pub fn total_popcount(data: &[u32]) -> (total: u64)
    requires
        data@.len() * 32 <= u64::MAX,
    ensures
        total == total_ones(data@),
{
    let mut total: u64 = 0;
    let mut i: usize = 0;
    while i < data.len()
        invariant
            i <= data@.len(),
            data@.len() * 32 <= u64::MAX,
            total == total_ones(data@.take(i as int)),
            total <= 32 * i,
        decreases data@.len() - i,
    {
        let c = popcount(data[i]);
        proof {
            assert(data@.take(i + 1).drop_last() =~= data@.take(i as int));
            lemma_ones_below_bound(data@[i as int], 32);
        }
        total = total + c as u64;
        i = i + 1;
    }
    proof {
        assert(data@.take(data@.len() as int) =~= data@);
    }
    total
}

proof fn lemma_ones_below_bound(x: u32, k: nat)
    ensures
        ones_below(x, k) <= k,
    decreases k,
{
    if k > 0 {
        lemma_ones_below_bound(x, (k - 1) as nat);
        let kk = (k - 1) as u32;
        let b = (x >> kk) & 1u32;
        assert(b <= 1) by (bit_vector)
            requires b == (x >> kk) & 1u32;
    }
}

// ---------------------------------------------------------------- branches

/// The sum of the values of `s` above `threshold`.
pub open spec fn sum_above(s: Seq<i64>, threshold: i64) -> int
    decreases s.len(),
{
    if s.len() == 0 {
        0
    } else {
        sum_above(s.drop_last(), threshold) + if s.last() > threshold { s.last() as int } else { 0 }
    }
}

/// `x` reduced to the `i64` range modulo 2^64, as wrapping addition leaves it.
pub open spec fn wrap_i64(x: int) -> i64 {
    let m = x % (modulus64() as int);
    if m >= 0x8000_0000_0000_0000 {
        (m - modulus64()) as i64
    } else {
        m as i64
    }
}

/// Wrapping into `i64` moves a value by a multiple of 2^64 and leaves a
/// value that fits in `i64` alone; and the Fibonacci numbers follow their
/// recurrence, taken modulo 2^64 by the benchmark.
pub proof fn wrapping_and_fibonacci_laws(x: int, n: nat)
    ensures
        (x - wrap_i64(x)) % 0x1_0000_0000_0000_0000 == 0,
        i64::MIN <= x <= i64::MAX ==> wrap_i64(x) == x,
        modulus64() == 0x1_0000_0000_0000_0000,
        fib(0) == 0,
        fib(1) == 1,
        fib(n + 2) == fib(n + 1) + fib(n),
{
    let mm: int = 0x1_0000_0000_0000_0000;
    let m = x % mm;
    vstd::arithmetic::div_mod::lemma_fundamental_div_mod(x, mm);
    let q = x / mm;
    assert(x == mm * q + m);
    let w = wrap_i64(x) as int;
    if m >= 0x8000_0000_0000_0000 {
        assert(w == m - mm);
        assert(x - w == mm * (q + 1)) by (nonlinear_arith)
            requires x == mm * q + m, w == m - mm;
        vstd::arithmetic::div_mod::lemma_mod_multiples_basic(q + 1, mm);
    } else {
        assert(w == m);
        assert(x - w == mm * q);
        vstd::arithmetic::div_mod::lemma_mod_multiples_basic(q, mm);
    }
    if i64::MIN <= x <= i64::MAX {
        if x >= 0 {
            vstd::arithmetic::div_mod::lemma_small_mod(x as nat, mm as nat);
        } else {
            vstd::arithmetic::div_mod::lemma_small_mod((x + mm) as nat, mm as nat);
            vstd::arithmetic::div_mod::lemma_mod_add_multiples_vanish(x, mm);
        }
    }
    assert(fib(n + 2) == fib(n + 1) + fib(n));
}

proof fn lemma_wrap_add(s: int, x: i64)
    ensures
        wrap_i64(s).wrapping_add(x) == wrap_i64(s + x),
{
    let big = modulus64() as int;
    let m = s % big;
    lemma_fundamental_div_mod(s, big);
    let q = s / big;
    vstd::arithmetic::div_mod::lemma_mod_multiples_vanish(q, m + x, big);
    assert(s + x == big * q + (m + x)) by (nonlinear_arith)
        requires s == big * q + m;
    assert((s + x) % big == (m + x) % big);
    let v = m + x;
    if v < 0 {
        vstd::arithmetic::div_mod::lemma_mod_add_multiples_vanish(v, big);
        vstd::arithmetic::div_mod::lemma_small_mod((v + big) as nat, big as nat);
    } else if v < big {
        vstd::arithmetic::div_mod::lemma_small_mod(v as nat, big as nat);
    } else {
        vstd::arithmetic::div_mod::lemma_mod_add_multiples_vanish(v - big, big);
        vstd::arithmetic::div_mod::lemma_small_mod((v - big) as nat, big as nat);
    }
}

/// The sum of the values above `threshold`, with wrapping 64-bit addition:
/// the loop the branch-prediction benchmark times on unsorted and on sorted
/// input.
pub fn sum_greater_than(values: &[i64], threshold: i64) -> (sum: i64)
    ensures
        sum == wrap_i64(sum_above(values@, threshold)),
{
    let mut sum: i64 = 0;
    let mut i: usize = 0;
    proof {
        vstd::arithmetic::div_mod::lemma_small_mod(0, modulus64());
    }
    while i < values.len()
        invariant
            i <= values@.len(),
            sum == wrap_i64(sum_above(values@.take(i as int), threshold)),
        decreases values@.len() - i,
    {
        let x = values[i];
        proof {
            assert(values@.take(i + 1).drop_last() =~= values@.take(i as int));
            lemma_wrap_add(sum_above(values@.take(i as int), threshold), x);
        }
        if x > threshold {
            sum = sum.wrapping_add(x);
        }
        i = i + 1;
    }
    proof {
        assert(values@.take(values@.len() as int) =~= values@);
    }
    sum
}

/// Removing one element takes its contribution out of the sum.
proof fn lemma_sum_above_remove(s: Seq<i64>, k: int, threshold: i64)
    requires
        0 <= k < s.len(),
    ensures
        sum_above(s, threshold) == sum_above(s.remove(k), threshold) + if s[k] > threshold { s[k] as int } else { 0 },
    decreases s.len(),
{
    if k < s.len() - 1 {
        let r = s.drop_last();
        lemma_sum_above_remove(r, k, threshold);
        assert(s.remove(k).drop_last() =~= r.remove(k));
        assert(s.remove(k).last() == s.last());
    } else {
        assert(s.remove(k) =~= s.drop_last());
    }
}

/// The sum above a threshold depends only on the multiset of values: sorting
/// the input, as the branch-prediction benchmark does, leaves it unchanged.
pub proof fn sum_above_permutation(s: Seq<i64>, t: Seq<i64>, threshold: i64)
    requires
        s.to_multiset() =~= t.to_multiset(),
    ensures
        sum_above(s, threshold) == sum_above(t, threshold),
    decreases s.len(),
{
    broadcast use vstd::seq_lib::group_to_multiset_ensures;
    assert(s.len() == s.to_multiset().len());
    assert(t.len() == t.to_multiset().len());
    if s.len() > 0 {
        let x = s.last();
        let n = s.len() as int;
        assert(s[n - 1] == x);
        assert(s.to_multiset().count(x) > 0);
        assert(t.contains(x));
        let k = choose|k: int| 0 <= k < t.len() && t[k] == x;
        assert(s.remove(n - 1) =~= s.drop_last());
        assert(s.drop_last().to_multiset() =~= t.remove(k).to_multiset());
        sum_above_permutation(s.drop_last(), t.remove(k), threshold);
        lemma_sum_above_remove(t, k, threshold);
    } else {
        assert(t.len() == 0);
    }
}

// ---------------------------------------------------------------- memory latency

/// Where `steps` jumps `pos <- s[pos]` from `pos` lead.
pub open spec fn chase(s: Seq<usize>, pos: int, steps: nat) -> int
    decreases steps,
{
    if steps == 0 {
        pos
    } else {
        chase(s, s[pos] as int, (steps - 1) as nat)
    }
}

/// Follows `steps` links of the index table from position 0: the pointer
/// chase the memory-latency benchmark times.
pub fn chase_pointers(indices: &[usize], steps: usize) -> (pos: usize)
    requires
        indices@.len() > 0,
        forall|k: int| 0 <= k < indices@.len() ==> #[trigger] indices@[k] < indices@.len(),
    ensures
        pos == chase(indices@, 0, steps as nat),
{
    let mut pos: usize = 0;
    let mut i: usize = 0;
    while i < steps
        invariant
            i <= steps,
            pos < indices@.len(),
            forall|k: int| 0 <= k < indices@.len() ==> #[trigger] indices@[k] < indices@.len(),
            chase(indices@, 0, steps as nat) == chase(indices@, pos as int, (steps - i) as nat),
        decreases steps - i,
    {
        pos = indices[pos];
        i = i + 1;
    }
    pos
}

} // verus!
