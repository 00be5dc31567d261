//! Per-buffer XOR descramble, the first byte-touching stage of a decode
//! call.
//!
//! When common mode is on, every whole 32-bit little-endian word of the
//! input is XORed with a per-call key `input_ptr ^ input_len`; a trailing
//! partial word (`len % 4 != 0`) is copied verbatim. Common mode is off by
//! default, and then the input is consumed unchanged.
//!
//! XOR with a little-endian word is the same as XOR of byte `i` with byte
//! `i % 4` of the key, which is how the contracts below state it.
use std::borrow::Cow;
use vstd::prelude::*;

verus! {

/// Common-mode toggle gating the per-buffer XOR descramble.
#[derive(Debug, Clone, Copy, PartialEq, Eq)]
pub struct CommonMode(pub bool);

impl CommonMode {
    /// Common mode off: the default, input consumed verbatim.
    pub fn off() -> (m: Self)
        ensures
            !m.0,
    {
        CommonMode(false)
    }

    /// Common mode on: the word-wise XOR pass runs.
    pub fn on() -> (m: Self)
        ensures
            m.0,
    {
        CommonMode(true)
    }

    /// Whether the XOR descramble pass is active.
    pub fn is_on(&self) -> (b: bool)
        ensures
            b == self.0,
    {
        self.0
    }
}

impl Default for CommonMode {
    /// The default is common mode off.
    fn default() -> (m: Self)
        ensures
            !m.0,
    {
        CommonMode(false)
    }
}

/// Byte `j` (`0..4`, least significant first) of a 32-bit key.
pub open spec fn key_byte(key: u32, j: int) -> u8 {
    if j == 0 {
        key as u8
    } else if j == 1 {
        (key >> 8u32) as u8
    } else if j == 2 {
        (key >> 16u32) as u8
    } else {
        (key >> 24u32) as u8
    }
}

/// Number of bytes covered by whole 32-bit words.
pub open spec fn whole_word_bytes(len: int) -> int {
    (len / 4) * 4
}

/// Byte `i` of the descrambled buffer: XORed with key byte `i % 4` inside
/// the whole words, verbatim in the tail.
pub open spec fn descrambled_byte(input: Seq<u8>, key: u32, i: int) -> u8 {
    if i < whole_word_bytes(input.len() as int) {
        input[i] ^ key_byte(key, i % 4)
    } else {
        input[i]
    }
}

/// The whole descrambled buffer.
pub open spec fn descrambled(input: Seq<u8>, key: u32) -> Seq<u8> {
    Seq::new(input.len(), |i: int| descrambled_byte(input, key, i))
}

/// XOR of a little-endian word with the key, read back byte by byte,
/// equals the byte-wise XOR with the key's bytes.
proof fn lemma_le_word_xor(b0: u8, b1: u8, b2: u8, b3: u8, key: u32)
    ensures
        ({
            let w = (b0 as u32) | ((b1 as u32) << 8u32) | ((b2 as u32) << 16u32) | ((b3 as u32)
                << 24u32);
            let x = w ^ key;
            &&& x as u8 == b0 ^ (key as u8)
            &&& (x >> 8u32) as u8 == b1 ^ ((key >> 8u32) as u8)
            &&& (x >> 16u32) as u8 == b2 ^ ((key >> 16u32) as u8)
            &&& (x >> 24u32) as u8 == b3 ^ ((key >> 24u32) as u8)
        }),
{
    assert({
        let w = (b0 as u32) | ((b1 as u32) << 8u32) | ((b2 as u32) << 16u32) | ((b3 as u32)
            << 24u32);
        let x = w ^ key;
        &&& x as u8 == b0 ^ (key as u8)
        &&& (x >> 8u32) as u8 == b1 ^ ((key >> 8u32) as u8)
        &&& (x >> 16u32) as u8 == b2 ^ ((key >> 16u32) as u8)
        &&& (x >> 24u32) as u8 == b3 ^ ((key >> 24u32) as u8)
    }) by (bit_vector);
}

/// XOR is its own inverse byte by byte.
proof fn lemma_xor_twice(a: u8, k: u8)
    ensures
        (a ^ k) ^ k == a,
{
    assert((a ^ k) ^ k == a) by (bit_vector);
}

/// The descramble is self-inverse: applying it twice with one key gives
/// the input back, for every buffer and key.
pub proof fn lemma_descramble_involutive(input: Seq<u8>, key: u32)
    ensures
        descrambled(descrambled(input, key), key) == input,
{
    let once = descrambled(input, key);
    assert forall|i: int| 0 <= i < input.len() implies #[trigger] descrambled(once, key)[i]
        == input[i] by {
        if i < whole_word_bytes(input.len() as int) {
            lemma_xor_twice(input[i], key_byte(key, i % 4));
        }
    }
    assert(descrambled(once, key) =~= input);
}

/// The little-endian 32-bit word of bytes `o..o + 4`.
pub open spec fn le_word_at(s: Seq<u8>, o: int) -> u32 {
    (s[o] as u32) | ((s[o + 1] as u32) << 8u32) | ((s[o + 2] as u32) << 16u32) | ((s[o
        + 3] as u32) << 24u32)
}

/// Byte by byte: inside the whole words, byte `i` is XORed with the key
/// shifted down by `8 × (i mod 4)` bits (the key applied least
/// significant byte first); past the last whole word it is unchanged.
pub proof fn lemma_descramble_bytes(input: Seq<u8>, key: u32, i: int)
    requires
        0 <= i < input.len(),
    ensures
        i < (input.len() / 4) * 4 ==> descrambled(input, key)[i] == input[i] ^ ((key >> ((8 * (i
            % 4)) as u32)) as u8),
        i >= (input.len() / 4) * 4 ==> descrambled(input, key)[i] == input[i],
{
    let r = i % 4;
    if r == 0 {
        assert(key >> 0u32 == key) by (bit_vector);
    }
}

/// Word by word: every whole little-endian word of the descrambled
/// buffer is the input's word XORed with the key.
pub proof fn lemma_descramble_words(input: Seq<u8>, key: u32, w: int)
    requires
        0 <= w,
        4 * w + 4 <= input.len(),
    ensures
        le_word_at(descrambled(input, key), 4 * w) == le_word_at(input, 4 * w) ^ key,
{
    let o = 4 * w;
    let d = descrambled(input, key);
    lemma_descramble_bytes(input, key, o);
    lemma_descramble_bytes(input, key, o + 1);
    lemma_descramble_bytes(input, key, o + 2);
    lemma_descramble_bytes(input, key, o + 3);
    assert(o % 4 == 0 && (o + 1) % 4 == 1 && (o + 2) % 4 == 2 && (o + 3) % 4 == 3);
    assert(o + 3 < (input.len() / 4) * 4);
    let (b0, b1, b2, b3) = (input[o], input[o + 1], input[o + 2], input[o + 3]);
    let (d0, d1, d2, d3) = (d[o], d[o + 1], d[o + 2], d[o + 3]);
    assert(((d0 as u32) | ((d1 as u32) << 8u32) | ((d2 as u32) << 16u32) | ((d3 as u32) << 24u32))
        == ((b0 as u32) | ((b1 as u32) << 8u32) | ((b2 as u32) << 16u32) | ((b3 as u32)
        << 24u32)) ^ key) by (bit_vector)
        requires
            d0 == b0 ^ ((key >> 0u32) as u8),
            d1 == b1 ^ ((key >> 8u32) as u8),
            d2 == b2 ^ ((key >> 16u32) as u8),
            d3 == b3 ^ ((key >> 24u32) as u8),
    ;
}

/// The per-call descramble key `in_ptr ^ in_len`.
pub fn xor_key(in_ptr: u32, in_len: u32) -> (k: u32)
    ensures
        k == in_ptr ^ in_len,
{
    in_ptr ^ in_len
}

/// Word-wise XOR-descramble `input` into a caller-owned `out` of the same
/// length.
pub fn xor_descramble_into(input: &[u8], key: u32, out: &mut [u8])
    requires
        old(out)@.len() == input@.len(),
    ensures
        final(out)@ == descrambled(input@, key),
{
    let len = input.len();
    let full_words = len / 4;
    let tail = full_words * 4;
    let mut w: usize = 0;
    while w < full_words
        invariant
            len == input@.len(),
            out@.len() == len,
            full_words == len / 4,
            tail == full_words * 4,
            w <= full_words,
            forall|i: int| 0 <= i < w * 4 ==> #[trigger] out@[i] == descrambled_byte(input@, key, i),
        decreases full_words - w,
    {
        let off = w * 4;
        let b0 = input[off];
        let b1 = input[off + 1];
        let b2 = input[off + 2];
        let b3 = input[off + 3];
        let word: u32 = (b0 as u32) | ((b1 as u32) << 8u32) | ((b2 as u32) << 16u32) | ((
        b3 as u32) << 24u32);
        let x = word ^ key;
        proof {
            lemma_le_word_xor(b0, b1, b2, b3, key);
        }
        out[off] = x as u8;
        out[off + 1] = (x >> 8u32) as u8;
        out[off + 2] = (x >> 16u32) as u8;
        out[off + 3] = (x >> 24u32) as u8;
        proof {
            assert(off + 3 < whole_word_bytes(len as int));
            assert((off + 1) % 4 == 1);
            assert((off + 2) % 4 == 2);
            assert((off + 3) % 4 == 3);
            assert(off % 4 == 0);
        }
        w += 1;
    }
    let mut i: usize = tail;
    while i < len
        invariant
            len == input@.len(),
            out@.len() == len,
            tail == whole_word_bytes(len as int),
            tail <= i <= len,
            forall|j: int| 0 <= j < i ==> #[trigger] out@[j] == descrambled_byte(input@, key, j),
        decreases len - i,
    {
        out[i] = input[i];
        i += 1;
    }
    assert(out@ =~= descrambled(input@, key));
}

/// Word-wise XOR-descramble `input`, returning an owned buffer.
pub fn xor_descramble(input: &[u8], key: u32) -> (out: Vec<u8>)
    ensures
        out@ == descrambled(input@, key),
{
    let mut out: Vec<u8> = vec![0u8; input.len()];
    xor_descramble_into(input, key, out.as_mut_slice());
    out
}

/// Descramble one input buffer according to the common-mode flag: the
/// packet itself, borrowed, when common mode is off; the owned XOR pass
/// when it is on.
pub fn descramble_packet<'a>(common_mode: CommonMode, packet: &'a [u8], key: u32) -> (r: Cow<
    'a,
    [u8],
>)
    ensures
        !common_mode.0 ==> (r matches Cow::Borrowed(b) && b@ == packet@),
        common_mode.0 ==> (r matches Cow::Owned(o) && o@ == descrambled(packet@, key)),
{
    if common_mode.is_on() {
        Cow::Owned(xor_descramble(packet, key))
    } else {
        Cow::Borrowed(packet)
    }
}

} // verus!
