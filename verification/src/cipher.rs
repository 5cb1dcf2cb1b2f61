//! The byte-feedback stream cipher: each byte is XOR-ed with the second byte
//! of a 32-bit key, and the byte that comes out is folded back into the key.

use vstd::prelude::*;

verus! {

/// The constant that is OR-ed into the key after every byte.
pub const KEY_FLOOR: u32 = 0x482D;

/// The byte of `key` that masks the next input byte: bits 8 to 15.
pub open spec fn key_byte(key: u32) -> u8 {
    ((key >> 8) & 0xff) as u8
}

/// The key that follows `key` once the byte `emitted` has come out.
pub open spec fn next_key(key: u32, emitted: u8) -> u32 {
    (emitted as u32 & key) | KEY_FLOOR
}

/// The key in force when the byte at `index` is reached, starting from `seed`.
pub open spec fn key_at(seed: u32, bytes: Seq<u8>, index: int) -> u32
    decreases index,
{
    if index <= 0 {
        seed
    } else {
        let before = key_at(seed, bytes, index - 1);
        next_key(before, bytes[index - 1] ^ key_byte(before))
    }
}

/// What the cipher makes of `bytes` under `seed`: byte for byte, the input
/// XOR-ed with the mask byte of the key in force at that position.
pub open spec fn encrypt_spec(seed: u32, bytes: Seq<u8>) -> Seq<u8> {
    Seq::new(bytes.len(), |i: int| bytes[i] ^ key_byte(key_at(seed, bytes, i)))
}

/// Runs the cipher over `bytes`, starting from `key`.
pub fn encrypt_bytes(key: u32, bytes: &[u8]) -> (result: Vec<u8>)
    ensures
        result@ == encrypt_spec(key, bytes@),
        result@.len() == bytes@.len(),
{
    let mut result: Vec<u8> = Vec::new();
    let mut current_key: u32 = key;
    let mut i: usize = 0;
    while i < bytes.len()
        invariant
            i <= bytes@.len(),
            result@.len() == i,
            current_key == key_at(key, bytes@, i as int),
            forall|j: int| 0 <= j < i ==> result@[j] == encrypt_spec(key, bytes@)[j],
        decreases bytes@.len() - i,
    {
        let encrypted: u8 = bytes[i] ^ (((current_key >> 8) & 0xff) as u8);
        current_key = (encrypted as u32 & current_key) | KEY_FLOOR;
        result.push(encrypted);
        i = i + 1;
    }
    result
}

/// The key moves on by the byte that came out, not by the byte that went in.
pub proof fn lemma_key_follows_output(seed: u32, bytes: Seq<u8>, index: int)
    requires
        0 <= index < bytes.len(),
    ensures
        key_at(seed, bytes, index + 1) == next_key(
            key_at(seed, bytes, index),
            encrypt_spec(seed, bytes)[index],
        ),
{
}

/// Two inputs of one length whose outputs agree below `index` have the same
/// key in force at `index`.
proof fn lemma_same_output_same_key(seed: u32, first: Seq<u8>, second: Seq<u8>, index: int)
    requires
        first.len() == second.len(),
        0 <= index <= first.len(),
        forall|i: int|
            0 <= i < index ==> encrypt_spec(seed, first)[i] == encrypt_spec(seed, second)[i],
    ensures
        key_at(seed, first, index) == key_at(seed, second, index),
    decreases index,
{
    if index > 0 {
        lemma_same_output_same_key(seed, first, second, index - 1);
        lemma_key_follows_output(seed, first, index - 1);
        lemma_key_follows_output(seed, second, index - 1);
    }
}

/// Under one seed, inputs that encrypt to the same bytes are the same input.
pub proof fn lemma_encrypt_injective(seed: u32, first: Seq<u8>, second: Seq<u8>)
    requires
        encrypt_spec(seed, first) == encrypt_spec(seed, second),
    ensures
        first == second,
{
    assert(first.len() == encrypt_spec(seed, first).len());
    assert(second.len() == encrypt_spec(seed, second).len());
    assert forall|i: int| 0 <= i < first.len() implies first[i] == second[i] by {
        lemma_same_output_same_key(seed, first, second, i);
        let mask = key_byte(key_at(seed, first, i));
        let a = first[i];
        let b = second[i];
        assert(encrypt_spec(seed, first)[i] == a ^ mask);
        assert(encrypt_spec(seed, second)[i] == b ^ mask);
        assert(a == b) by (bit_vector)
            requires
                a ^ mask == b ^ mask,
        ;
    }
    assert(first =~= second);
}

} // verus!
