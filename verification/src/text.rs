//! Kernels of the string benchmark: DJB2 over the bytes of a string, the
//! string reversed, and the number of pieces that splitting on a delimiter
//! gives; and the alphabet text the string, regex and file benchmarks work on.

use vstd::prelude::*;
use vstd::string::StringSliceAdditionalSpecFns;
use crate::hashing::{djb2, lemma_djb2_step};
use crate::strutil::{chars_of, push_char};

verus! {

/// DJB2 hash of the UTF-8 bytes of `s`, computed as `h * 33 + c` with
/// wrapping multiplication and addition.
pub fn hash_djb2(s: &str) -> (hash: u32)
    ensures
        hash == djb2(s.spec_bytes()),
{
    let bytes = s.as_bytes();
    let mut hash: u32 = 5381;
    let mut i: usize = 0;
    while i < bytes.len()
        invariant
            i <= bytes@.len(),
            hash == djb2(bytes@.take(i as int)),
        decreases bytes@.len() - i,
    {
        let c = bytes[i];
        proof {
            lemma_djb2_step(hash, c);
            assert(bytes@.take(i + 1).drop_last() =~= bytes@.take(i as int));
        }
        hash = hash.wrapping_mul(33).wrapping_add(c as u32);
        i = i + 1;
    }
    proof {
        assert(bytes@.take(bytes@.len() as int) =~= bytes@);
    }
    hash
}

/// Holds of the characters equal to `delim`.
pub open spec fn is_char(delim: char) -> spec_fn(char) -> bool {
    |c: char| c == delim
}

/// How many pieces splitting `s` at every `delim` gives: one more than the
/// number of occurrences of `delim`.
pub fn count_splits(s: &str, delim: char) -> (n: usize)
    requires
        s@.len() < usize::MAX,
    ensures
        n == s@.filter(is_char(delim)).len() + 1,
{
    let mut count: usize = 0;
    let ghost chars = s@;
    for c in it: s.chars()
        invariant
            it.seq() == chars,
            chars.len() < usize::MAX,
            count == chars.take(it.index()).filter(is_char(delim)).len(),
    {
        proof {
            assert(chars.take(it.index() + 1) =~= chars.take(it.index()).push(c));
            chars.take(it.index()).lemma_filter_push(c, is_char(delim));
            chars.take(it.index()).lemma_filter_len(is_char(delim));
        }
        if c == delim {
            count = count + 1;
        }
    }
    proof {
        assert(chars.take(chars.len() as int) =~= chars);
    }
    count + 1
}

/// The characters of `s` in reverse order.
pub fn reversed(s: &str) -> (r: String)
    ensures
        r@ == s@.reverse(),
{
    let cs = chars_of(s);
    let n = cs.len();
    let mut r = String::new();
    let mut i: usize = n;
    while i > 0
        invariant
            i <= n,
            n == cs@.len(),
            r@.len() == n - i,
            forall|k: int| 0 <= k < n - i ==> #[trigger] r@[k] == cs@[n - 1 - k],
        decreases i,
    {
        i = i - 1;
        push_char(&mut r, cs[i]);
    }
    proof {
        assert(r@ =~= s@.reverse());
    }
    r
}

/// The byte at position `i` of the benchmark alphabet: `a` to `z` over and over.
pub open spec fn alphabet_byte(i: int) -> u8 {
    (97 + i % 26) as u8
}

/// The first `n` bytes of the benchmark alphabet.
pub fn alphabet_bytes(n: usize) -> (data: Vec<u8>)
    ensures
        data@ == Seq::new(n as nat, |i: int| alphabet_byte(i)),
{
    let mut data: Vec<u8> = Vec::new();
    let mut i: usize = 0;
    while i < n
        invariant
            i <= n,
            data@ == Seq::new(i as nat, |k: int| alphabet_byte(k)),
        decreases n - i,
    {
        data.push(97u8 + (i % 26) as u8);
        proof {
            assert(data@ =~= Seq::new((i + 1) as nat, |k: int| alphabet_byte(k)));
        }
        i = i + 1;
    }
    data
}

/// The first `n` characters of the benchmark alphabet, as text.
pub fn alphabet_text(n: usize) -> (text: String)
    ensures
        text@ == Seq::new(n as nat, |i: int| alphabet_byte(i) as char),
{
    let mut text = String::new();
    let mut i: usize = 0;
    while i < n
        invariant
            i <= n,
            text@ == Seq::new(i as nat, |k: int| alphabet_byte(k) as char),
        decreases n - i,
    {
        let b: u8 = 97u8 + (i % 26) as u8;
        push_char(&mut text, b as char);
        proof {
            assert(text@ =~= Seq::new((i + 1) as nat, |k: int| alphabet_byte(k) as char));
        }
        i = i + 1;
    }
    text
}

} // verus!
