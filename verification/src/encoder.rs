//! The printable encoding: three bytes become four symbols of a private
//! alphabet, least significant six bits first, and a short tail is not padded.

use vstd::prelude::*;
use vstd::string::*;

verus! {

/// The symbols, in index order. The last one, `=`, has index 64 and is never
/// reached by a six-bit window.
pub const ALPHABET: &'static str =
    "ABCDEFGHIJKLMNOPQRSTUVWXYZabcdefghijklmnopqrstuvwxyz0123456789+/=";

/// The alphabet as a sequence of characters.
pub open spec fn alphabet() -> Seq<char> {
    ALPHABET@
}

/// The byte at `index`, or zero past the end of `bytes`.
pub open spec fn byte_or_zero(bytes: Seq<u8>, index: int) -> u8 {
    if 0 <= index < bytes.len() {
        bytes[index]
    } else {
        0
    }
}

/// The 32-bit word whose little-endian bytes are `b0`, `b1`, `b2`, 0.
pub open spec fn pack_le(b0: u8, b1: u8, b2: u8) -> u32 {
    (b0 as u32) | ((b1 as u32) << 8) | ((b2 as u32) << 16)
}

/// The word packed from the three bytes of group number `group`, with zero
/// for each byte that `bytes` does not have.
pub open spec fn group_word(bytes: Seq<u8>, group: int) -> u32 {
    pack_le(
        byte_or_zero(bytes, 3 * group),
        byte_or_zero(bytes, 3 * group + 1),
        byte_or_zero(bytes, 3 * group + 2),
    )
}

/// Six-bit window number `k` of `word`: bits `6k` to `6k + 5`.
pub open spec fn window(word: u32, k: int) -> u32 {
    if k == 0 {
        word & 0x3f
    } else if k == 1 {
        (word >> 6) & 0x3f
    } else if k == 2 {
        (word >> 12) & 0x3f
    } else {
        (word >> 18) & 0x3f
    }
}

/// How many symbols a tail of `rest` bytes gives.
pub open spec fn tail_len(rest: int) -> int {
    if rest == 1 {
        2
    } else if rest == 2 {
        3
    } else {
        0
    }
}

/// How many symbols `len` bytes give.
pub open spec fn encoded_len(len: nat) -> nat {
    (4 * (len / 3) + tail_len((len % 3) as int)) as nat
}

/// The symbol at position `j` of the encoding of `bytes`.
pub open spec fn encoded_char(bytes: Seq<u8>, j: int) -> char {
    alphabet()[window(group_word(bytes, j / 4), j % 4) as int]
}

/// The encoding of `bytes`.
pub open spec fn encode_spec(bytes: Seq<u8>) -> Seq<char> {
    Seq::new(encoded_len(bytes.len()), |j: int| encoded_char(bytes, j))
}

/// `c` is one of the first 64 symbols of the alphabet.
pub open spec fn is_symbol(c: char) -> bool {
    exists|k: int| 0 <= k < 64 && alphabet()[k] == c
}

/// The alphabet is plain ASCII, so it can be cut at any index.
proof fn lemma_alphabet_ascii()
    ensures
        ALPHABET@.len() == 65,
        ALPHABET.is_ascii(),
{
    reveal_strlit("ABCDEFGHIJKLMNOPQRSTUVWXYZabcdefghijklmnopqrstuvwxyz0123456789+/=");
}

/// Appends the symbol that has `index` in the alphabet.
fn push_symbol(text: &mut String, index: u32)
    requires
        index < 65,
    ensures
        final(text)@ == old(text)@.push(alphabet()[index as int]),
{
    proof {
        lemma_alphabet_ascii();
    }
    let at: usize = index as usize;
    let symbol = ALPHABET.substring_ascii(at, at + 1);
    text.append(symbol);
}

/// Packs three bytes into a word, `b0` lowest.
fn pack_word(b0: u8, b1: u8, b2: u8) -> (word: u32)
    ensures
        word == pack_le(b0, b1, b2),
{
    (b0 as u32) | ((b1 as u32) << 8) | ((b2 as u32) << 16)
}

/// Appends window number `k` of `word` as a symbol.
fn push_window(text: &mut String, word: u32, k: u32)
    requires
        k < 4,
    ensures
        final(text)@ == old(text)@.push(alphabet()[window(word, k as int) as int]),
{
    let index: u32 = if k == 0 {
        word & 0x3f
    } else if k == 1 {
        (word >> 6) & 0x3f
    } else if k == 2 {
        (word >> 12) & 0x3f
    } else {
        (word >> 18) & 0x3f
    };
    assert(index < 64) by (bit_vector)
        requires
            index == word & 0x3f || index == (word >> 6) & 0x3f || index == (word >> 12) & 0x3f
                || index == (word >> 18) & 0x3f,
    ;
    push_symbol(text, index);
}

/// Encodes `bytes`: four symbols for each full group of three bytes, then two
/// symbols for one byte left over, or three symbols for two.
pub fn variant_base64_encode(bytes: &[u8]) -> (result: String)
    ensures
        result@ == encode_spec(bytes@),
        result@.len() == encoded_len(bytes@.len()),
{
    let blocks_count: usize = bytes.len() / 3;
    let left_bytes: usize = bytes.len() % 3;
    let mut result = String::new();
    let mut block: usize = 0;
    while block < blocks_count
        invariant
            block <= blocks_count,
            blocks_count == bytes@.len() / 3,
            bytes@.len() <= usize::MAX,
            result@.len() == 4 * block,
            forall|j: int| 0 <= j < 4 * block ==> result@[j] == encoded_char(bytes@, j),
        decreases blocks_count - block,
    {
        let word = pack_word(bytes[3 * block], bytes[3 * block + 1], bytes[3 * block + 2]);
        push_window(&mut result, word, 0);
        push_window(&mut result, word, 1);
        push_window(&mut result, word, 2);
        push_window(&mut result, word, 3);
        block = block + 1;
    }
    if left_bytes > 0 {
        let second: u8 = if left_bytes == 2 {
            bytes[3 * blocks_count + 1]
        } else {
            0
        };
        let word = pack_word(bytes[3 * blocks_count], second, 0);
        push_window(&mut result, word, 0);
        push_window(&mut result, word, 1);
        if left_bytes == 2 {
            push_window(&mut result, word, 2);
        }
    }
    result
}

/// The alphabet has 65 symbols, no two of them alike, and `=` is the last.
pub proof fn lemma_alphabet_distinct()
    ensures
        alphabet().len() == 65,
        alphabet()[64] == '=',
        forall|i: int, j: int| 0 <= i < j < 65 ==> alphabet()[i] != alphabet()[j],
{
    reveal_strlit("ABCDEFGHIJKLMNOPQRSTUVWXYZabcdefghijklmnopqrstuvwxyz0123456789+/=");
}

/// Every window is a six-bit value.
pub proof fn lemma_window_bound(word: u32, k: int)
    ensures
        window(word, k) < 64,
{
    assert(word & 0x3f < 64) by (bit_vector);
    assert((word >> 6) & 0x3f < 64) by (bit_vector);
    assert((word >> 12) & 0x3f < 64) by (bit_vector);
    assert((word >> 18) & 0x3f < 64) by (bit_vector);
}

/// The length law: `len` bytes give four symbols for every three bytes, and
/// none, two or three more for a tail of none, one or two bytes.
pub proof fn lemma_encoded_len(bytes: Seq<u8>)
    ensures
        encode_spec(bytes).len() == 4 * (bytes.len() / 3) + (if bytes.len() % 3 == 0 {
            0int
        } else if bytes.len() % 3 == 1 {
            2int
        } else {
            3int
        }),
{
}

/// Every character of an encoding is one of the first 64 symbols of the
/// alphabet; `=` does not occur.
pub proof fn lemma_encoded_symbols(bytes: Seq<u8>)
    ensures
        forall|j: int|
            0 <= j < encode_spec(bytes).len() ==> is_symbol(#[trigger] encode_spec(bytes)[j]),
        forall|j: int|
            0 <= j < encode_spec(bytes).len() ==> #[trigger] encode_spec(bytes)[j] != '=',
{
    lemma_alphabet_distinct();
    assert forall|j: int| 0 <= j < encode_spec(bytes).len() implies is_symbol(
        #[trigger] encode_spec(bytes)[j],
    ) && encode_spec(bytes)[j] != '=' by {
        let k = window(group_word(bytes, j / 4), j % 4) as int;
        lemma_window_bound(group_word(bytes, j / 4), j % 4);
        assert(alphabet()[k] == encode_spec(bytes)[j]);
    }
}

/// Window `k` of the two group words is the same where the two encodings
/// hold the same symbol at position `4 * group + k`.
proof fn lemma_same_symbol_same_window(first: Seq<u8>, second: Seq<u8>, group: int, k: int)
    requires
        encode_spec(first) == encode_spec(second),
        0 <= group,
        0 <= k < 4,
        4 * group + k < encode_spec(first).len(),
    ensures
        window(group_word(first, group), k) == window(group_word(second, group), k),
{
    let j = 4 * group + k;
    assert(j / 4 == group && j % 4 == k);
    lemma_window_bound(group_word(first, group), k);
    lemma_window_bound(group_word(second, group), k);
    lemma_alphabet_distinct();
    assert(encode_spec(first)[j] == alphabet()[window(group_word(first, group), k) as int]);
    assert(encode_spec(second)[j] == alphabet()[window(group_word(second, group), k) as int]);
}

/// Four equal windows: the three bytes are equal.
proof fn lemma_four_windows(a0: u8, a1: u8, a2: u8, b0: u8, b1: u8, b2: u8)
    requires
        window(pack_le(a0, a1, a2), 0) == window(pack_le(b0, b1, b2), 0),
        window(pack_le(a0, a1, a2), 1) == window(pack_le(b0, b1, b2), 1),
        window(pack_le(a0, a1, a2), 2) == window(pack_le(b0, b1, b2), 2),
        window(pack_le(a0, a1, a2), 3) == window(pack_le(b0, b1, b2), 3),
    ensures
        a0 == b0,
        a1 == b1,
        a2 == b2,
{
    let x = pack_le(a0, a1, a2);
    let y = pack_le(b0, b1, b2);
    assert(a0 == b0 && a1 == b1 && a2 == b2) by (bit_vector)
        requires
            x == (a0 as u32) | ((a1 as u32) << 8) | ((a2 as u32) << 16),
            y == (b0 as u32) | ((b1 as u32) << 8) | ((b2 as u32) << 16),
            x & 0x3f == y & 0x3f,
            (x >> 6) & 0x3f == (y >> 6) & 0x3f,
            (x >> 12) & 0x3f == (y >> 12) & 0x3f,
            (x >> 18) & 0x3f == (y >> 18) & 0x3f,
    ;
}

/// Three equal windows of words whose third byte is zero: the two bytes are
/// equal.
proof fn lemma_three_windows(a0: u8, a1: u8, b0: u8, b1: u8)
    requires
        window(pack_le(a0, a1, 0), 0) == window(pack_le(b0, b1, 0), 0),
        window(pack_le(a0, a1, 0), 1) == window(pack_le(b0, b1, 0), 1),
        window(pack_le(a0, a1, 0), 2) == window(pack_le(b0, b1, 0), 2),
    ensures
        a0 == b0,
        a1 == b1,
{
    let x = pack_le(a0, a1, 0);
    let y = pack_le(b0, b1, 0);
    assert(a0 == b0 && a1 == b1) by (bit_vector)
        requires
            x == (a0 as u32) | ((a1 as u32) << 8) | ((0u8 as u32) << 16),
            y == (b0 as u32) | ((b1 as u32) << 8) | ((0u8 as u32) << 16),
            x & 0x3f == y & 0x3f,
            (x >> 6) & 0x3f == (y >> 6) & 0x3f,
            (x >> 12) & 0x3f == (y >> 12) & 0x3f,
    ;
}

/// Two equal windows of words whose second and third bytes are zero: the
/// byte is equal.
proof fn lemma_two_windows(a0: u8, b0: u8)
    requires
        window(pack_le(a0, 0, 0), 0) == window(pack_le(b0, 0, 0), 0),
        window(pack_le(a0, 0, 0), 1) == window(pack_le(b0, 0, 0), 1),
    ensures
        a0 == b0,
{
    let x = pack_le(a0, 0, 0);
    let y = pack_le(b0, 0, 0);
    assert(a0 == b0) by (bit_vector)
        requires
            x == (a0 as u32) | ((0u8 as u32) << 8) | ((0u8 as u32) << 16),
            y == (b0 as u32) | ((0u8 as u32) << 8) | ((0u8 as u32) << 16),
            x & 0x3f == y & 0x3f,
            (x >> 6) & 0x3f == (y >> 6) & 0x3f,
    ;
}

/// Byte sequences with the same encoding are the same sequence.
pub proof fn lemma_encode_injective(first: Seq<u8>, second: Seq<u8>)
    requires
        encode_spec(first) == encode_spec(second),
    ensures
        first == second,
{
    let len = first.len() as int;
    assert(encode_spec(first).len() == encoded_len(first.len()));
    assert(encode_spec(second).len() == encoded_len(second.len()));
    assert(first.len() == second.len());
    assert forall|i: int| 0 <= i < len implies first[i] == second[i] by {
        let group = i / 3;
        if group < len / 3 {
            lemma_same_symbol_same_window(first, second, group, 0);
            lemma_same_symbol_same_window(first, second, group, 1);
            lemma_same_symbol_same_window(first, second, group, 2);
            lemma_same_symbol_same_window(first, second, group, 3);
            lemma_four_windows(
                first[3 * group],
                first[3 * group + 1],
                first[3 * group + 2],
                second[3 * group],
                second[3 * group + 1],
                second[3 * group + 2],
            );
        } else if len % 3 == 2 {
            lemma_same_symbol_same_window(first, second, group, 0);
            lemma_same_symbol_same_window(first, second, group, 1);
            lemma_same_symbol_same_window(first, second, group, 2);
            lemma_three_windows(
                first[3 * group],
                first[3 * group + 1],
                second[3 * group],
                second[3 * group + 1],
            );
        } else {
            lemma_same_symbol_same_window(first, second, group, 0);
            lemma_same_symbol_same_window(first, second, group, 1);
            lemma_two_windows(first[3 * group], second[3 * group]);
        }
    }
    assert(first =~= second);
}

} // verus!
