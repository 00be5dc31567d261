//! The lagged Fibonacci generator of the dither, and the MD5 digest that
//! seeds it.
//!
//! The recurrence is `s[i] = s[i-24] + s[i-55] (mod 2^32)` over a 64-word
//! ring. The ring is seeded by MD5 digests of the 19-byte messages
//! `seed_le32 || j_le32 || 11 zero bytes` for `j ∈ {8, 12, …, 60}`, each
//! digest filling words `j..j+4`; words `0..8` stay zero.
//!
//! MD5 follows RFC 1321: pad with `0x80`, zeros to `56 mod 64`, and the
//! 64-bit little-endian bit length; compress every 64-byte block with the
//! four 16-step rounds; output the four state words little-endian.
use vstd::prelude::*;

verus! {

/// 32-bit wrapping addition.
pub open spec fn add32(a: u32, b: u32) -> u32 {
    vstd::wrapping::u32_specs::wrapping_add(a, b)
}

/// Left rotation of a word by `s` bits, `0 < s < 32`.
pub open spec fn rotl(x: u32, s: u32) -> u32 {
    (x << s) | (x >> ((32 - s) as u32))
}

/// The 64 additive constants of MD5.
pub open spec fn md5_k_seq() -> Seq<u32> {
    seq![
        0xd76aa478u32, 0xe8c7b756, 0x242070db, 0xc1bdceee, 0xf57c0faf, 0x4787c62a, 0xa8304613,
        0xfd469501, 0x698098d8, 0x8b44f7af, 0xffff5bb1, 0x895cd7be, 0x6b901122, 0xfd987193,
        0xa679438e, 0x49b40821, 0xf61e2562, 0xc040b340, 0x265e5a51, 0xe9b6c7aa, 0xd62f105d,
        0x02441453, 0xd8a1e681, 0xe7d3fbc8, 0x21e1cde6, 0xc33707d6, 0xf4d50d87, 0x455a14ed,
        0xa9e3e905, 0xfcefa3f8, 0x676f02d9, 0x8d2a4c8a, 0xfffa3942, 0x8771f681, 0x6d9d6122,
        0xfde5380c, 0xa4beea44, 0x4bdecfa9, 0xf6bb4b60, 0xbebfbc70, 0x289b7ec6, 0xeaa127fa,
        0xd4ef3085, 0x04881d05, 0xd9d4d039, 0xe6db99e5, 0x1fa27cf8, 0xc4ac5665, 0xf4292244,
        0x432aff97, 0xab9423a7, 0xfc93a039, 0x655b59c3, 0x8f0ccc92, 0xffeff47d, 0x85845dd1,
        0x6fa87e4f, 0xfe2ce6e0, 0xa3014314, 0x4e0811a1, 0xf7537e82, 0xbd3af235, 0x2ad7d2bb,
        0xeb86d391,
    ]
}

/// The per-step rotation amount of MD5: `7 12 17 22`, `5 9 14 20`,
/// `4 11 16 23`, `6 10 15 21`, each cycled over its round.
pub open spec fn md5_s(i: int) -> u32 {
    let r = i % 4;
    if i < 16 {
        if r == 0 {
            7
        } else if r == 1 {
            12
        } else if r == 2 {
            17
        } else {
            22
        }
    } else if i < 32 {
        if r == 0 {
            5
        } else if r == 1 {
            9
        } else if r == 2 {
            14
        } else {
            20
        }
    } else if i < 48 {
        if r == 0 {
            4
        } else if r == 1 {
            11
        } else if r == 2 {
            16
        } else {
            23
        }
    } else {
        if r == 0 {
            6
        } else if r == 1 {
            10
        } else if r == 2 {
            15
        } else {
            21
        }
    }
}

/// The nonlinear function of step `i`.
pub open spec fn md5_f(i: int, b: u32, c: u32, d: u32) -> u32 {
    if i < 16 {
        (b & c) | (!b & d)
    } else if i < 32 {
        (d & b) | (!d & c)
    } else if i < 48 {
        b ^ c ^ d
    } else {
        c ^ (b | !d)
    }
}

/// The message word step `i` reads.
pub open spec fn md5_g(i: int) -> int {
    if i < 16 {
        i
    } else if i < 32 {
        (5 * i + 1) % 16
    } else if i < 48 {
        (3 * i + 5) % 16
    } else {
        (7 * i) % 16
    }
}

/// The MD5 chaining state `(a, b, c, d)`.
pub type Md5State = (u32, u32, u32, u32);

/// Step `i` of the compression function on message words `m`.
pub open spec fn md5_step(i: int, st: Md5State, m: Seq<u32>) -> Md5State {
    let f = md5_f(i, st.1, st.2, st.3);
    let sum = add32(add32(add32(st.0, f), md5_k_seq()[i]), m[md5_g(i)]);
    (st.3, add32(st.1, rotl(sum, md5_s(i))), st.1, st.2)
}

/// The first `n` steps of the compression function.
pub open spec fn md5_steps(n: int, st: Md5State, m: Seq<u32>) -> Md5State
    decreases n,
{
    if n <= 0 {
        st
    } else {
        md5_step(n - 1, md5_steps(n - 1, st, m), m)
    }
}

/// One block's compression: the 64 steps added into the chaining state.
pub open spec fn md5_compress(h: Md5State, m: Seq<u32>) -> Md5State {
    let r = md5_steps(64, h, m);
    (add32(h.0, r.0), add32(h.1, r.1), add32(h.2, r.2), add32(h.3, r.3))
}

/// The little-endian word at byte offset `off`.
pub open spec fn le_word(bytes: Seq<u8>, off: int) -> u32 {
    (bytes[off] as u32) | ((bytes[off + 1] as u32) << 8u32) | ((bytes[off + 2] as u32) << 16u32) | ((
    bytes[off + 3] as u32) << 24u32)
}

/// The sixteen message words of block `blk`.
pub open spec fn block_words(p: Seq<u8>, blk: int) -> Seq<u32> {
    Seq::new(16, |i: int| le_word(p, 64 * blk + 4 * i))
}

/// The number of zero bytes padding a message of `len` bytes after the
/// `0x80` marker, up to `56 mod 64`.
pub open spec fn md5_zero_count(len: int) -> int {
    (119 - len % 64) % 64
}

/// The eight little-endian bytes of a 64-bit value.
pub open spec fn le_bytes64(x: u64) -> Seq<u8> {
    Seq::new(8, |k: int| (x >> ((8 * k) as u64)) as u8)
}

/// The padded message.
pub open spec fn md5_pad(input: Seq<u8>) -> Seq<u8> {
    input + seq![0x80u8] + Seq::new(md5_zero_count(input.len() as int) as nat, |i: int| 0u8)
        + le_bytes64((input.len() * 8) as u64)
}

/// The initial chaining state.
pub open spec fn md5_init() -> Md5State {
    (0x67452301u32, 0xefcdab89u32, 0x98badcfeu32, 0x10325476u32)
}

/// The chaining state after the first `n` blocks of a padded message.
pub open spec fn md5_blocks(p: Seq<u8>, n: int) -> Md5State
    decreases n,
{
    if n <= 0 {
        md5_init()
    } else {
        md5_compress(md5_blocks(p, n - 1), block_words(p, n - 1))
    }
}

/// The little-endian bytes of a word.
pub open spec fn le_bytes32(w: u32) -> Seq<u8> {
    seq![w as u8, (w >> 8u32) as u8, (w >> 16u32) as u8, (w >> 24u32) as u8]
}

/// The MD5 digest of a message.
pub open spec fn md5_spec(input: Seq<u8>) -> Seq<u8> {
    let p = md5_pad(input);
    let h = md5_blocks(p, (p.len() / 64) as int);
    le_bytes32(h.0) + le_bytes32(h.1) + le_bytes32(h.2) + le_bytes32(h.3)
}

fn md5_k_table() -> (t: [u32; 64])
    ensures
        t@ == md5_k_seq(),
{
    [
        0xd76aa478, 0xe8c7b756, 0x242070db, 0xc1bdceee, 0xf57c0faf, 0x4787c62a, 0xa8304613,
        0xfd469501, 0x698098d8, 0x8b44f7af, 0xffff5bb1, 0x895cd7be, 0x6b901122, 0xfd987193,
        0xa679438e, 0x49b40821, 0xf61e2562, 0xc040b340, 0x265e5a51, 0xe9b6c7aa, 0xd62f105d,
        0x02441453, 0xd8a1e681, 0xe7d3fbc8, 0x21e1cde6, 0xc33707d6, 0xf4d50d87, 0x455a14ed,
        0xa9e3e905, 0xfcefa3f8, 0x676f02d9, 0x8d2a4c8a, 0xfffa3942, 0x8771f681, 0x6d9d6122,
        0xfde5380c, 0xa4beea44, 0x4bdecfa9, 0xf6bb4b60, 0xbebfbc70, 0x289b7ec6, 0xeaa127fa,
        0xd4ef3085, 0x04881d05, 0xd9d4d039, 0xe6db99e5, 0x1fa27cf8, 0xc4ac5665, 0xf4292244,
        0x432aff97, 0xab9423a7, 0xfc93a039, 0x655b59c3, 0x8f0ccc92, 0xffeff47d, 0x85845dd1,
        0x6fa87e4f, 0xfe2ce6e0, 0xa3014314, 0x4e0811a1, 0xf7537e82, 0xbd3af235, 0x2ad7d2bb,
        0xeb86d391,
    ]
}

fn md5_rotation(i: usize) -> (s: u32)
    requires
        i < 64,
    ensures
        s == md5_s(i as int),
        0 < s < 32,
{
    let r = i % 4;
    if i < 16 {
        if r == 0 {
            7
        } else if r == 1 {
            12
        } else if r == 2 {
            17
        } else {
            22
        }
    } else if i < 32 {
        if r == 0 {
            5
        } else if r == 1 {
            9
        } else if r == 2 {
            14
        } else {
            20
        }
    } else if i < 48 {
        if r == 0 {
            4
        } else if r == 1 {
            11
        } else if r == 2 {
            16
        } else {
            23
        }
    } else {
        if r == 0 {
            6
        } else if r == 1 {
            10
        } else if r == 2 {
            15
        } else {
            21
        }
    }
}

/// Compress one 64-byte block of `padded` into the chaining state.
fn md5_compress_block(h: Md5State, padded: &Vec<u8>, blk: usize, k_table: &[u32; 64]) -> (r:
    Md5State)
    requires
        64 * blk + 64 <= padded@.len(),
        k_table@ == md5_k_seq(),
    ensures
        r == md5_compress(h, block_words(padded@, blk as int)),
{
    let ghost words = block_words(padded@, blk as int);
    let mut m: [u32; 16] = [0u32; 16];
    let plen = padded.len();
    assert(64 * blk + 64 <= plen);
    let base = 64 * blk;
    let mut i: usize = 0;
    while i < 16
        invariant
            i <= 16,
            base == 64 * blk,
            base + 64 <= padded@.len(),
            words == block_words(padded@, blk as int),
            forall|j: int| 0 <= j < i ==> #[trigger] m@[j] == words[j],
        decreases 16 - i,
    {
        let off = base + 4 * i;
        m[i] = (padded[off] as u32) | ((padded[off + 1] as u32) << 8u32) | ((padded[off + 2] as u32)
            << 16u32) | ((padded[off + 3] as u32) << 24u32);
        i += 1;
    }
    assert(m@ =~= words);
    let (mut a, mut b, mut c, mut d) = h;
    let mut s: usize = 0;
    while s < 64
        invariant
            s <= 64,
            m@ == words,
            k_table@ == md5_k_seq(),
            (a, b, c, d) == md5_steps(s as int, h, words),
        decreases 64 - s,
    {
        let (f, g) = if s < 16 {
            ((b & c) | (!b & d), s)
        } else if s < 32 {
            ((d & b) | (!d & c), (5 * s + 1) % 16)
        } else if s < 48 {
            (b ^ c ^ d, (3 * s + 5) % 16)
        } else {
            (c ^ (b | !d), (7 * s) % 16)
        };
        let rot = md5_rotation(s);
        let sum = a.wrapping_add(f).wrapping_add(k_table[s]).wrapping_add(m[g]);
        let rotated = (sum << rot) | (sum >> (32 - rot));
        let temp = d;
        d = c;
        c = b;
        b = b.wrapping_add(rotated);
        a = temp;
        s += 1;
    }
    (h.0.wrapping_add(a), h.1.wrapping_add(b), h.2.wrapping_add(c), h.3.wrapping_add(d))
}

/// The MD5 digest of `input` (RFC 1321).
pub fn md5(input: &[u8]) -> (out: [u8; 16])
    requires
        input@.len() < 0x2000_0000_0000_0000,
        input@.len() + 72 <= usize::MAX,
    ensures
        out@ == md5_spec(input@),
{
    let len = input.len();
    let bit_len: u64 = (len as u64) * 8;
    let mut padded: Vec<u8> = Vec::new();
    let mut i: usize = 0;
    while i < len
        invariant
            len == input@.len(),
            i <= len,
            padded@ == input@.subrange(0, i as int),
        decreases len - i,
    {
        padded.push(input[i]);
        proof {
            assert(input@.subrange(0, i as int).push(input@[i as int]) =~= input@.subrange(
                0,
                i as int + 1,
            ));
        }
        i += 1;
    }
    assert(input@.subrange(0, len as int) =~= input@);
    padded.push(0x80u8);
    let ghost z = md5_zero_count(len as int);
    let ghost zeros_done: int = 0;
    while padded.len() % 64 != 56
        invariant
            len == input@.len(),
            len + 72 <= usize::MAX,
            z == md5_zero_count(len as int),
            0 <= zeros_done <= z,
            padded@.len() == len + 1 + zeros_done,
            padded@ == input@ + seq![0x80u8] + Seq::new(zeros_done as nat, |j: int| 0u8),
        decreases z - zeros_done,
    {
        proof {
            if zeros_done == z {
                assert((len + 1 + z) % 64 == 56);
            }
        }
        padded.push(0u8);
        proof {
            assert(Seq::new(zeros_done as nat, |j: int| 0u8).push(0u8) =~= Seq::new(
                (zeros_done + 1) as nat,
                |j: int| 0u8,
            ));
            zeros_done = zeros_done + 1;
        }
    }
    proof {
        if zeros_done < z {
            assert((len + 1 + zeros_done) % 64 != 56);
        }
    }
    assert(zeros_done == z);
    let ghost before_len = padded@;
    let mut k: usize = 0;
    while k < 8
        invariant
            k <= 8,
            padded@ == before_len + le_bytes64(bit_len).subrange(0, k as int),
            before_len.len() == len + 1 + z,
            len + 72 <= usize::MAX,
        decreases 8 - k,
    {
        let byte = (bit_len >> ((8 * k) as u64)) as u8;
        padded.push(byte);
        proof {
            assert(le_bytes64(bit_len).subrange(0, k as int).push(byte) =~= le_bytes64(
                bit_len,
            ).subrange(0, k as int + 1));
        }
        k += 1;
    }
    assert(le_bytes64(bit_len).subrange(0, 8) =~= le_bytes64(bit_len));
    assert(padded@ =~= md5_pad(input@));
    let k_table = md5_k_table();
    let blocks = padded.len() / 64;
    let mut h: Md5State = (0x67452301u32, 0xefcdab89u32, 0x98badcfeu32, 0x10325476u32);
    let mut blk: usize = 0;
    while blk < blocks
        invariant
            blk <= blocks,
            blocks == padded@.len() / 64,
            k_table@ == md5_k_seq(),
            h == md5_blocks(padded@, blk as int),
        decreases blocks - blk,
    {
        h = md5_compress_block(h, &padded, blk, &k_table);
        blk += 1;
    }
    let words = [h.0, h.1, h.2, h.3];
    let mut out = [0u8; 16];
    let mut w: usize = 0;
    while w < 4
        invariant
            w <= 4,
            words@ == seq![h.0, h.1, h.2, h.3],
            forall|j: int|
                0 <= j < 4 * w ==> #[trigger] out@[j] == (le_bytes32(words@[j / 4]))[j % 4],
        decreases 4 - w,
    {
        let x = words[w];
        out[4 * w] = x as u8;
        out[4 * w + 1] = (x >> 8u32) as u8;
        out[4 * w + 2] = (x >> 16u32) as u8;
        out[4 * w + 3] = (x >> 24u32) as u8;
        w += 1;
    }
    assert(out@ =~= le_bytes32(h.0) + le_bytes32(h.1) + le_bytes32(h.2) + le_bytes32(h.3));
    out
}

/// The 19-byte seeding message for slot `j`: the seed and `j`
/// little-endian, then eleven zero bytes.
pub open spec fn seed_message(seed: u32, j: u32) -> Seq<u8> {
    le_bytes32(seed) + le_bytes32(j) + Seq::new(11, |i: int| 0u8)
}

/// A little-endian word decodes back from its four bytes.
proof fn lemma_le_bytes32_round_trip(w: u32)
    ensures
        ((w as u8) as u32) | (((w >> 8u32) as u8 as u32) << 8u32) | (((w >> 16u32) as u8 as u32)
            << 16u32) | (((w >> 24u32) as u8 as u32) << 24u32) == w,
{
    assert(((w as u8) as u32) | (((w >> 8u32) as u8 as u32) << 8u32) | (((w >> 16u32) as u8 as u32)
        << 16u32) | (((w >> 24u32) as u8 as u32) << 24u32) == w) by (bit_vector);
}

/// The seeding message of slot `j` is nineteen bytes: byte `k < 4` is
/// bits `8k..8k + 8` of the seed, byte `4 + k` bits `8k..8k + 8` of `j`
/// (both least significant byte first), the rest zero; read back as
/// little-endian words, bytes `0..4` give the seed and bytes `4..8` give
/// `j`.
pub proof fn lemma_seed_message_layout(seed: u32, j: u32)
    ensures
        seed_message(seed, j).len() == 19,
        forall|k: int|
            0 <= k < 4 ==> #[trigger] seed_message(seed, j)[k] == (seed >> ((8 * k) as u32)) as u8,
        forall|k: int|
            0 <= k < 4 ==> #[trigger] seed_message(seed, j)[4 + k] == (j >> ((8 * k) as u32)) as u8,
        forall|k: int| 8 <= k < 19 ==> #[trigger] seed_message(seed, j)[k] == 0,
        le_word(seed_message(seed, j), 0) == seed,
        le_word(seed_message(seed, j), 4) == j,
{
    let m = seed_message(seed, j);
    assert(seed >> 0u32 == seed) by (bit_vector);
    assert(j >> 0u32 == j) by (bit_vector);
    assert forall|k: int| 0 <= k < 4 implies #[trigger] m[4 + k] == (j >> ((8 * k) as u32)) as u8 by {
        assert(m[4 + k] == le_bytes32(j)[k]);
    }
    lemma_le_bytes32_round_trip(seed);
    lemma_le_bytes32_round_trip(j);
    assert(m[4] == j as u8 && m[5] == (j >> 8u32) as u8 && m[6] == (j >> 16u32) as u8 && m[7]
        == (j >> 24u32) as u8);
}

/// The seeded ring: words `0..8` zero, word `i ≥ 8` the little-endian
/// word `i % 4` of the digest of slot `i - i % 4`.
pub open spec fn seeded_state(seed: u32) -> Seq<u32> {
    Seq::new(
        64,
        |i: int|
            if i < 8 {
                0u32
            } else {
                le_word(md5_spec(seed_message(seed, (i - i % 4) as u32)), 4 * (i % 4))
            },
    )
}

/// Whether `m` is a 19-byte message whose first two little-endian words
/// are `seed` and `j` and whose remaining eleven bytes are zero.
pub open spec fn is_slot_message(m: Seq<u8>, seed: u32, j: int) -> bool {
    &&& m.len() == 19
    &&& le_word(m, 0) == seed
    &&& le_word(m, 4) == j
    &&& forall|k: int| 8 <= k < 19 ==> #[trigger] m[k] == 0
}

/// The seeded ring of `seed`: 64 words, words `0..8` zero, and word
/// `i >= 8` the little-endian word `i mod 4` of the MD5 digest of the
/// slot message of `i - i mod 4`, which is the 19-byte message whose
/// first two little-endian words are the seed and `i - i mod 4`, the rest
/// zero.
pub proof fn lemma_seeded_ring(seed: u32)
    ensures
        seeded_state(seed).len() == 64,
        forall|i: int| 0 <= i < 8 ==> #[trigger] seeded_state(seed)[i] == 0,
        forall|j: u32| #[trigger] is_slot_message(seed_message(seed, j), seed, j as int),
        forall|i: int|
            8 <= i < 64 ==> #[trigger] seeded_state(seed)[i] == le_word(
                md5_spec(seed_message(seed, (i - i % 4) as u32)),
                4 * (i % 4),
            ),
{
    assert forall|j: u32| #[trigger] is_slot_message(seed_message(seed, j), seed, j as int) by {
        lemma_seed_message_layout(seed, j);
    }
}

/// The lagged Fibonacci generator: a 64-word ring and a cursor.
#[derive(Clone, Copy)]
pub struct Lfg {
    state: [u32; 64],
    index: u32,
}

impl Lfg {
    /// The ring.
    pub closed spec fn ring(&self) -> Seq<u32> {
        self.state@
    }

    /// The cursor.
    pub closed spec fn cursor(&self) -> u32 {
        self.index
    }

    /// The cursor stays inside the ring.
    #[verifier::type_invariant]
    closed spec fn cursor_in_ring(self) -> bool {
        self.index < 64
    }

    /// The ring always holds 64 words.
    pub proof fn lemma_ring_len(&self)
        ensures
            self.ring().len() == 64,
    {
    }

    /// A generator seeded from `seed`, cursor at `0`.
    pub fn new(seed: u32) -> (g: Self)
        ensures
            g.ring() == seeded_state(seed),
            g.ring().len() == 64,
            g.cursor() == 0,
    {
        let mut state = [0u32; 64];
        let mut j: usize = 8;
        while j < 64
            invariant
                8 <= j <= 64,
                j % 4 == 0,
                forall|i: int| 0 <= i < j ==> #[trigger] state@[i] == seeded_state(seed)[i],
            decreases 64 - j,
        {
            let mut input = [0u8; 19];
            input[0] = seed as u8;
            input[1] = (seed >> 8u32) as u8;
            input[2] = (seed >> 16u32) as u8;
            input[3] = (seed >> 24u32) as u8;
            let jw = j as u32;
            input[4] = jw as u8;
            input[5] = (jw >> 8u32) as u8;
            input[6] = (jw >> 16u32) as u8;
            input[7] = (jw >> 24u32) as u8;
            assert(input@ =~= seed_message(seed, jw));
            let digest = md5(&input);
            let mut k: usize = 0;
            while k < 4
                invariant
                    8 <= j < 64,
                    j % 4 == 0,
                    jw == j,
                    k <= 4,
                    digest@ == md5_spec(seed_message(seed, jw)),
                    forall|i: int| 0 <= i < j + k ==> #[trigger] state@[i] == seeded_state(seed)[i],
                decreases 4 - k,
            {
                let off = k * 4;
                let w = (digest[off] as u32) | ((digest[off + 1] as u32) << 8u32) | ((digest[off
                    + 2] as u32) << 16u32) | ((digest[off + 3] as u32) << 24u32);
                proof {
                    let i = (j + k) as int;
                    assert(i % 4 == k);
                    assert(i - i % 4 == j);
                }
                state[j + k] = w;
                k += 1;
            }
            j += 4;
        }
        assert(state@ =~= seeded_state(seed));
        Lfg { state, index: 0 }
    }

    /// Advance the ring and return the new word
    /// `s[i - 24] + s[i - 55] (mod 2^32)`, stored at the cursor.
    pub fn next(&mut self) -> (v: u32)
        ensures
            v == add32(
                old(self).ring()[(old(self).cursor() + 40) % 64],
                old(self).ring()[(old(self).cursor() + 9) % 64],
            ),
            final(self).ring() == old(self).ring().update(old(self).cursor() as int, v),
            final(self).ring().len() == 64,
            final(self).cursor() == (old(self).cursor() + 1) % 64,
            old(self).cursor() < 64,
            final(self).cursor() < 64,
    {
        proof {
            use_type_invariant(&*self);
        }
        let i = self.index as usize;
        let sa = i + 64 - 24;
        let sb = i + 64 - 55;
        let ia = sa & 63;
        let ib = sb & 63;
        assert(ia == sa % 64) by (bit_vector)
            requires
                ia == sa & 63,
        ;
        assert(ib == sb % 64) by (bit_vector)
            requires
                ib == sb & 63,
        ;
        let a = self.state[ia];
        let b = self.state[ib];
        let v = a.wrapping_add(b);
        self.state[i] = v;
        let si = self.index + 1;
        let ni = si & 63;
        assert(ni == si % 64) by (bit_vector)
            requires
                ni == si & 63,
        ;
        self.index = ni;
        v
    }

    /// Advance the ring as [`Lfg::next`] does and return the dither sign
    /// of the new word: positive exactly when its top bit is set.
    pub fn next_sign_positive(&mut self) -> (p: bool)
        ensures
            p == (add32(
                old(self).ring()[(old(self).cursor() + 40) % 64],
                old(self).ring()[(old(self).cursor() + 9) % 64],
            ) >= 0x8000_0000),
            final(self).ring() == old(self).ring().update(
                old(self).cursor() as int,
                add32(
                    old(self).ring()[(old(self).cursor() + 40) % 64],
                    old(self).ring()[(old(self).cursor() + 9) % 64],
                ),
            ),
            final(self).cursor() == (old(self).cursor() + 1) % 64,
    {
        let v = self.next();
        let top = v & 0x8000_0000u32;
        assert(top != 0 <==> v >= 0x8000_0000) by (bit_vector)
            requires
                top == v & 0x8000_0000u32,
        ;
        top != 0
    }
}

} // verus!
