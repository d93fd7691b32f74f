//! The three 32-bit string hashes of the hashing benchmark: SDBM, DJB2 and
//! FNV-1a. All arithmetic is modulo 2^32, as in the optimised build the
//! benchmark runs (its `+`, `-` and shifts wrap there).

use vstd::prelude::*;

verus! {

/// 2^32, the modulus of every hash below.
pub open spec fn modulus() -> nat {
    0x1_0000_0000
}

/// SDBM: `h' = c + h * 65599 (mod 2^32)`, from `h = 0`.
pub open spec fn sdbm(s: Seq<u8>) -> u32
    decreases s.len(),
{
    if s.len() == 0 {
        0
    } else {
        ((sdbm(s.drop_last()) as nat * 65599 + s.last() as nat) % modulus()) as u32
    }
}

/// DJB2: `h' = h * 33 + c (mod 2^32)`, from `h = 5381`.
pub open spec fn djb2(s: Seq<u8>) -> u32
    decreases s.len(),
{
    if s.len() == 0 {
        5381
    } else {
        ((djb2(s.drop_last()) as nat * 33 + s.last() as nat) % modulus()) as u32
    }
}

/// FNV-1a: `h' = (h xor c) * 16777619 (mod 2^32)`, from `h = 2166136261`.
pub open spec fn fnv1a(s: Seq<u8>) -> u32
    decreases s.len(),
{
    if s.len() == 0 {
        2166136261
    } else {
        (((fnv1a(s.drop_last()) ^ (s.last() as u32)) as nat * 16777619) % modulus()) as u32
    }
}

/// One SDBM step with shifts, `c + (h << 6) + (h << 16) - h` in wrapping
/// arithmetic, is `h * 65599 + c` modulo 2^32.
proof fn lemma_sdbm_step(h: u32, c: u8)
    ensures
        (c as u32).wrapping_add(h << 6u32).wrapping_add(h << 16u32).wrapping_sub(h) == ((h as nat * 65599
            + c as nat) % modulus()) as u32,
{
    let c32 = c as u32;
    assert(c32.wrapping_add(h << 6u32).wrapping_add(h << 16u32).wrapping_sub(h) == h.wrapping_mul(65599u32).wrapping_add(c32)) by (bit_vector);
    lemma_wrapping_mul_add(h, 65599, c32);
}

/// One DJB2 step, written with a shift (`(h << 5) + h + c`) or with a
/// multiplication (`h * 33 + c`) in wrapping arithmetic, is `h * 33 + c`
/// modulo 2^32.
pub proof fn lemma_djb2_step(h: u32, c: u8)
    ensures
        ((h << 5u32).wrapping_add(h)).wrapping_add(c as u32) == ((h as nat * 33 + c as nat) % modulus()) as u32,
        h.wrapping_mul(33).wrapping_add(c as u32) == ((h as nat * 33 + c as nat) % modulus()) as u32,
{
    let c32 = c as u32;
    assert(((h << 5u32).wrapping_add(h)).wrapping_add(c32) == h.wrapping_mul(33u32).wrapping_add(c32)) by (bit_vector);
    lemma_wrapping_mul_add(h, 33, c32);
}

/// The three hashes byte by byte, with 32-bit wrapping arithmetic: DJB2
/// starts at 5381 and takes `h` to `h * 33 + c`, SDBM starts at 0 and takes
/// `h` to `h * 65599 + c`, FNV-1a starts at 2166136261 and takes `h` to
/// `(h xor c) * 16777619`, each modulo 2^32.
pub proof fn hash_steps(s: Seq<u8>, c: u8)
    ensures
        djb2(Seq::<u8>::empty()) == 5381,
        djb2(s.push(c)) as int == (djb2(s) as int * 33 + c as int) % 0x1_0000_0000,
        sdbm(Seq::<u8>::empty()) == 0,
        sdbm(s.push(c)) as int == (sdbm(s) as int * 65599 + c as int) % 0x1_0000_0000,
        fnv1a(Seq::<u8>::empty()) == 2166136261,
        fnv1a(s.push(c)) as int == ((fnv1a(s) ^ (c as u32)) as int * 16777619) % 0x1_0000_0000,
{
    assert(s.push(c).drop_last() =~= s);
    assert(s.push(c).last() == c);
}

/// DJB2 in closed form: `5381 * 33^n + s[0] * 33^(n-1) + ... + s[n-1]`
/// modulo 2^32, for a text of `n` bytes.
pub proof fn djb2_closed_form(s: Seq<u8>)
    ensures
        djb2(s) as int == djb2_poly(s) % 0x1_0000_0000,
    decreases s.len(),
{
    if s.len() > 0 {
        let p = s.drop_last();
        djb2_closed_form(p);
        let m: int = 0x1_0000_0000;
        let q = djb2_poly(p);
        assert(djb2(s) as int == (djb2(p) as int * 33 + s.last() as int) % m);
        vstd::arithmetic::div_mod::lemma_mul_mod_noop_left(q, 33, m);
        vstd::arithmetic::div_mod::lemma_add_mod_noop(q * 33, s.last() as int, m);
        vstd::arithmetic::div_mod::lemma_add_mod_noop((q % m) * 33, s.last() as int, m);
        vstd::arithmetic::div_mod::lemma_mod_twice((q % m) * 33, m);
        vstd::arithmetic::div_mod::lemma_mod_twice(q * 33, m);
    }
}

/// `5381 * 33^n + s[0] * 33^(n-1) + ... + s[n-1]` over the integers.
pub open spec fn djb2_poly(s: Seq<u8>) -> int
    decreases s.len(),
{
    if s.len() == 0 {
        5381
    } else {
        djb2_poly(s.drop_last()) * 33 + s.last() as int
    }
}

/// `x * y + c` computed with wrapping operations is the residue modulo 2^32.
proof fn lemma_wrapping_mul_add(x: u32, y: u32, c: u32)
    ensures
        x.wrapping_mul(y).wrapping_add(c) == ((x as nat * y as nat + c as nat) % modulus()) as u32,
{
    let m = modulus() as int;
    let p = (x as nat * y as nat) as int;
    vstd::arithmetic::div_mod::lemma_add_mod_noop(p, c as int, m);
    vstd::arithmetic::div_mod::lemma_mod_twice(c as int, m);
    assert(x.wrapping_mul(y) as int == p % m);
    assert((c as int) % m == c as int);
    assert((p % m + c as int) % m == (p + c as int) % m);
    vstd::arithmetic::div_mod::lemma_fundamental_div_mod(p % m + c as int, m);
    let v = p % m + c as int;
    if v >= m {
        vstd::arithmetic::div_mod::lemma_mod_add_multiples_vanish(v - m, m);
        vstd::arithmetic::div_mod::lemma_small_mod((v - m) as nat, m as nat);
    } else {
        vstd::arithmetic::div_mod::lemma_small_mod(v as nat, m as nat);
    }
}

/// SDBM hash of the bytes of `s`.
pub fn hash_sdbm(s: &[u8]) -> (hash: u32)
    ensures
        hash == sdbm(s@),
{
    let mut hash: u32 = 0;
    let mut i: usize = 0;
    while i < s.len()
        invariant
            i <= s@.len(),
            hash == sdbm(s@.take(i as int)),
        decreases s@.len() - i,
    {
        let c = s[i];
        proof {
            lemma_sdbm_step(hash, c);
            assert(s@.take(i + 1).drop_last() =~= s@.take(i as int));
        }
        hash = (c as u32).wrapping_add(hash << 6u32).wrapping_add(hash << 16u32).wrapping_sub(hash);
        i = i + 1;
    }
    proof {
        assert(s@.take(s@.len() as int) =~= s@);
    }
    hash
}

/// DJB2 hash of the bytes of `s`.
pub fn hash_djb2(s: &[u8]) -> (hash: u32)
    ensures
        hash == djb2(s@),
{
    let mut hash: u32 = 5381;
    let mut i: usize = 0;
    while i < s.len()
        invariant
            i <= s@.len(),
            hash == djb2(s@.take(i as int)),
        decreases s@.len() - i,
    {
        let c = s[i];
        proof {
            lemma_djb2_step(hash, c);
            assert(s@.take(i + 1).drop_last() =~= s@.take(i as int));
        }
        hash = ((hash << 5u32).wrapping_add(hash)).wrapping_add(c as u32);
        i = i + 1;
    }
    proof {
        assert(s@.take(s@.len() as int) =~= s@);
    }
    hash
}

/// FNV-1a hash of the bytes of `s`.
pub fn hash_fnv(s: &[u8]) -> (hash: u32)
    ensures
        hash == fnv1a(s@),
{
    let mut hash: u32 = 2166136261;
    let mut i: usize = 0;
    while i < s.len()
        invariant
            i <= s@.len(),
            hash == fnv1a(s@.take(i as int)),
        decreases s@.len() - i,
    {
        let c = s[i];
        proof {
            lemma_wrapping_mul_add(hash ^ (c as u32), 16777619, 0);
            assert(s@.take(i + 1).drop_last() =~= s@.take(i as int));
        }
        hash = hash ^ (c as u32);
        hash = hash.wrapping_mul(16777619);
        i = i + 1;
    }
    proof {
        assert(s@.take(s@.len() as int) =~= s@);
    }
    hash
}

} // verus!
