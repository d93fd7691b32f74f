//! Kernels of the crypto benchmark: a block XORed with a key, and a
//! checksum that reads a block cyclically.

use vstd::prelude::*;

verus! {

/// The bytes of `a` XOR those of `b`, position by position.
pub open spec fn xor_bytes(a: Seq<u8>, b: Seq<u8>) -> Seq<u8> {
    Seq::new(a.len(), |i: int| a[i] ^ b[i])
}

/// `input` XOR `key`, byte by byte.
pub fn xor_block(input: &[u8], key: &[u8]) -> (output: Vec<u8>)
    requires
        input@.len() == key@.len(),
    ensures
        output@ == xor_bytes(input@, key@),
{
    let mut output: Vec<u8> = Vec::new();
    let mut i: usize = 0;
    while i < input.len()
        invariant
            i <= input@.len(),
            input@.len() == key@.len(),
            output@.len() == i,
            forall|t: int| 0 <= t < i ==> #[trigger] output@[t] == input@[t] ^ key@[t],
        decreases input@.len() - i,
    {
        output.push(input[i] ^ key[i]);
        i = i + 1;
    }
    proof {
        assert(output@ =~= xor_bytes(input@, key@));
    }
    output
}

/// XOR with the same key twice gives the block back: the key that
/// enciphers a block also deciphers it.
pub proof fn xor_twice_restores(block: Seq<u8>, key: Seq<u8>)
    requires
        block.len() == key.len(),
    ensures
        xor_bytes(xor_bytes(block, key), key) == block,
{
    assert forall|i: int| 0 <= i < block.len() implies #[trigger] xor_bytes(xor_bytes(block, key), key)[i] == block[i] by {
        let x = block[i];
        let k = key[i];
        assert((x ^ k) ^ k == x) by (bit_vector);
    }
    assert(xor_bytes(xor_bytes(block, key), key) =~= block);
}

/// What XOR with a key gives is the one block that XOR with the same key
/// turns back into the input, byte by byte; and the checksum adds one byte
/// per read, going round the block, modulo 2^32.
pub proof fn xor_and_checksum_laws(block: Seq<u8>, key: Seq<u8>, out: Seq<u8>, n: nat)
    requires
        block.len() == key.len(),
    ensures
        out == xor_bytes(block, key) <==> (out.len() == block.len() && forall|i: int|
            0 <= i < block.len() ==> #[trigger] (out[i] ^ key[i]) == block[i]),
        cyclic_checksum(block, 0) == 0,
        block.len() > 0 ==> (cyclic_checksum(block, n + 1) as int - cyclic_checksum(block, n) as int
            - block[(n as int) % (block.len() as int)] as int) % 0x1_0000_0000 == 0,
{
    if out.len() == block.len() && forall|i: int| 0 <= i < block.len() ==> #[trigger] (out[i] ^ key[i]) == block[i] {
        assert forall|i: int| 0 <= i < block.len() implies out[i] == #[trigger] xor_bytes(block, key)[i] by {
            let o = out[i];
            let k = key[i];
            let b = block[i];
            assert((o ^ k) == b ==> o == b ^ k) by (bit_vector);
        }
        assert(out =~= xor_bytes(block, key));
    }
    if out == xor_bytes(block, key) {
        assert forall|i: int| 0 <= i < block.len() implies #[trigger] (out[i] ^ key[i]) == block[i] by {
            let k = key[i];
            let b = block[i];
            assert((b ^ k) ^ k == b) by (bit_vector);
        }
    }
    if block.len() > 0 {
        let prev = cyclic_checksum(block, n);
        let c = block[(n as int) % (block.len() as int)];
        let next = prev.wrapping_add(c as i32);
        assert(cyclic_checksum(block, n + 1) == next);
        let d = next as int - prev as int - c as int;
        assert(d == 0 || d == -0x1_0000_0000);
        if d == -0x1_0000_0000 {
            vstd::arithmetic::div_mod::lemma_mod_multiples_basic(-1, 0x1_0000_0000);
        }
    }
}

/// `block[0] + block[1] + ...` over `count` reads that cycle through the
/// block, with wrapping 32-bit addition.
pub open spec fn cyclic_checksum(block: Seq<u8>, count: nat) -> i32
    decreases count,
{
    if count == 0 {
        0
    } else {
        cyclic_checksum(block, (count - 1) as nat).wrapping_add(block[((count - 1) as int) % (block.len() as int)] as i32)
    }
}

/// The integer-operation part of the benchmark: `count` bytes read
/// cyclically from `block`, summed.
pub fn checksum(block: &[u8], count: usize) -> (sum: i32)
    requires
        block@.len() > 0,
    ensures
        sum == cyclic_checksum(block@, count as nat),
{
    let mut sum: i32 = 0;
    let mut i: usize = 0;
    while i < count
        invariant
            i <= count,
            block@.len() > 0,
            sum == cyclic_checksum(block@, i as nat),
        decreases count - i,
    {
        sum = sum.wrapping_add(block[i % block.len()] as i32);
        i = i + 1;
    }
    sum
}

} // verus!
