//! MSB-first big-endian frame bit reader.
//!
//! The backend reads each sub-packet's frame bitstream most-significant
//! bit first, walking the input as big-endian 32-bit words. The reader
//! state is a bit cursor (bits consumed so far) and a bit limit (the frame
//! size in bits): a read whose span reaches past the limit yields `0` and
//! clamps the cursor at the limit.
//!
//! The value of a read is stated over [`bits_value`], the integer formed
//! by `n` consecutive bits of the input viewed as an MSB-first bitstream
//! (bytes past the end of the input read as zero).
use vstd::prelude::*;

verus! {

/// Number of bits in one input word.
pub const WORD_BITS: u32 = 32;

/// Number of bytes in one input word.
pub const WORD_BYTES: usize = 4;

/// Context offset of the reader's word-pointer field.
pub const CTX_WORD_POINTER_OFFSET: u32 = 0x47ac;

/// Context offset of the reader's bit-position field.
pub const CTX_BIT_POSITION_OFFSET: u32 = 0x47b0;

/// Context offset of the reader's bit-cursor field.
pub const CTX_BIT_CURSOR_OFFSET: u32 = 0x47b4;

/// Context offset of the reader's bit-limit field.
pub const CTX_BIT_LIMIT_OFFSET: u32 = 0x47b8;

/// Byte `i` of the input, `0` outside it.
pub open spec fn byte_at(data: Seq<u8>, i: int) -> u8 {
    if 0 <= i < data.len() {
        data[i]
    } else {
        0u8
    }
}

/// Bit `i` (MSB-first) of the input bitstream: bit `7 - i % 8` of byte
/// `i / 8`.
pub open spec fn bit_at(data: Seq<u8>, i: int) -> u32 {
    ((byte_at(data, i / 8) as u32) >> ((7 - i % 8) as u32)) & 1u32
}

/// The integer formed by the `n` bits starting at bit `start`, first bit
/// most significant.
pub open spec fn bits_value(data: Seq<u8>, start: int, n: nat) -> nat
    decreases n,
{
    if n == 0 {
        0
    } else {
        (2 * bits_value(data, start, (n - 1) as nat) + bit_at(data, start + n - 1)) as nat
    }
}

/// The big-endian accumulation of the first `i` bytes starting at `base`.
pub open spec fn be_prefix(data: Seq<u8>, base: int, i: nat) -> u32
    decreases i,
{
    if i == 0 {
        0u32
    } else {
        ((be_prefix(data, base, (i - 1) as nat) << 8u32) | (byte_at(data, base + i - 1) as u32))
    }
}

/// The big-endian 32-bit word at word index `w`.
pub open spec fn word_spec(data: Seq<u8>, w: int) -> u32 {
    be_prefix(data, 4 * w, 4)
}

/// The integer formed by the top `n` bits of `x`.
pub open spec fn top_bits(x: u32, n: nat) -> nat
    decreases n,
{
    if n == 0 {
        0
    } else {
        (2 * top_bits(x, (n - 1) as nat) + ((x >> ((32 - n) as u32)) & 1u32)) as nat
    }
}

proof fn lemma_be4_bits(b0: u32, b1: u32, b2: u32, b3: u32, x: u32, r: u32)
    by (bit_vector)
    requires
        b0 < 256,
        b1 < 256,
        b2 < 256,
        b3 < 256,
        r < 8,
        x == (((((b0 << 8u32) | b1) << 8u32) | b2) << 8u32) | b3,
    ensures
        (x >> ((31 - r) as u32)) & 1u32 == (b0 >> ((7 - r) as u32)) & 1u32,
        (x >> ((23 - r) as u32)) & 1u32 == (b1 >> ((7 - r) as u32)) & 1u32,
        (x >> ((15 - r) as u32)) & 1u32 == (b2 >> ((7 - r) as u32)) & 1u32,
        (x >> ((7 - r) as u32)) & 1u32 == (b3 >> ((7 - r) as u32)) & 1u32,
{
}

/// Bit `j` of the word at index `w` is bit `32 w + j` of the bitstream.
proof fn lemma_word_bit(data: Seq<u8>, w: int, j: int)
    requires
        0 <= w,
        0 <= j < 32,
    ensures
        (word_spec(data, w) >> ((31 - j) as u32)) & 1u32 == bit_at(data, 32 * w + j),
{
    let b0 = byte_at(data, 4 * w) as u32;
    let b1 = byte_at(data, 4 * w + 1) as u32;
    let b2 = byte_at(data, 4 * w + 2) as u32;
    let b3 = byte_at(data, 4 * w + 3) as u32;
    let p1 = be_prefix(data, 4 * w, 1);
    let p2 = be_prefix(data, 4 * w, 2);
    let p3 = be_prefix(data, 4 * w, 3);
    let x = be_prefix(data, 4 * w, 4);
    assert(be_prefix(data, 4 * w, 0) == 0u32);
    assert(p1 == (0u32 << 8u32) | b0);
    assert(p1 == b0) by (bit_vector)
        requires
            p1 == (0u32 << 8u32) | b0,
    ;
    assert(p2 == (p1 << 8u32) | b1);
    assert(p3 == (p2 << 8u32) | b2);
    assert(x == (p3 << 8u32) | b3);
    let q = j / 8;
    let r = (j % 8) as u32;
    assert((32 * w + j) / 8 == 4 * w + q);
    assert((32 * w + j) % 8 == j % 8);
    lemma_be4_bits(b0, b1, b2, b3, x, r);
    if q == 0 {
        assert((31 - j) as u32 == (31 - r) as u32);
    } else if q == 1 {
        assert((31 - j) as u32 == (23 - r) as u32);
    } else if q == 2 {
        assert((31 - j) as u32 == (15 - r) as u32);
    } else {
        assert((31 - j) as u32 == (7 - r) as u32);
    }
}

proof fn lemma_shift_step(x: u32, s: u32)
    by (bit_vector)
    requires
        s < 31,
    ensures
        (x >> s) == ((x >> ((s + 1) as u32)) << 1u32) | ((x >> s) & 1u32),
        (x >> ((s + 1) as u32)) < 0x8000_0000u32,
{
}

proof fn lemma_or_low_bit(y: u32, b: u32)
    by (bit_vector)
    requires
        y < 0x8000_0000u32,
        b < 2,
    ensures
        ((y << 1u32) | b) == y * 2 + b,
{
}

/// `x >> (32 - n)` is the integer formed by the top `n` bits of `x`.
proof fn lemma_top_bits(x: u32, n: nat)
    requires
        1 <= n <= 32,
    ensures
        (x >> ((32 - n) as u32)) as nat == top_bits(x, n),
    decreases n,
{
    if n == 1 {
        assert((x >> 31u32) & 1u32 == x >> 31u32) by (bit_vector);
        assert(top_bits(x, 0) == 0);
    } else {
        lemma_top_bits(x, (n - 1) as nat);
        let s = (32 - n) as u32;
        lemma_shift_step(x, s);
        assert((s + 1) as u32 == (32 - (n - 1)) as u32);
        let b = (x >> s) & 1u32;
        assert(b < 2) by (bit_vector)
            requires
                b == (x >> s) & 1u32,
        ;
        lemma_or_low_bit(x >> (s + 1), b);
    }
}

/// The top `n` bits of a word whose bit `k` is stream bit `start + k`
/// form the stream value of those `n` bits.
proof fn lemma_top_bits_stream(data: Seq<u8>, start: int, x: u32, n: nat)
    requires
        n <= 32,
        forall|k: int| 0 <= k < n ==> #[trigger] ((x >> ((31 - k) as u32)) & 1u32) == bit_at(data, start + k),
    ensures
        top_bits(x, n) == bits_value(data, start, n),
    decreases n,
{
    if n > 0 {
        lemma_top_bits_stream(data, start, x, (n - 1) as nat);
        let k = n - 1;
        assert((31 - k) as u32 == (32 - n) as u32);
        assert((x >> ((31 - k) as u32)) & 1u32 == bit_at(data, start + k));
    }
}

proof fn lemma_straddle_bits(cur: u32, next: u32, pos: u32, k: u32)
    by (bit_vector)
    requires
        1 <= pos < 32,
        k < 32,
    ensures
        k < 32 - pos ==> ((((cur << pos) | (next >> ((32 - pos) as u32))) >> ((31 - k) as u32)) & 1u32) == ((
        cur >> ((31 - (pos + k)) as u32)) & 1u32),
        k >= 32 - pos ==> ((((cur << pos) | (next >> ((32 - pos) as u32))) >> ((31 - k) as u32)) & 1u32) == ((
        next >> ((31 - (k + pos - 32)) as u32)) & 1u32),
{
}

/// A stream bit is `0` or `1`.
pub proof fn lemma_bit_at_le_one(data: Seq<u8>, i: int)
    ensures
        bit_at(data, i) <= 1,
{
    let b = byte_at(data, i / 8) as u32;
    let s = (7 - i % 8) as u32;
    assert((b >> s) & 1u32 <= 1) by (bit_vector);
}

/// Reading `n` bits and then `m` bits yields, placed side by side, the
/// same integer as reading all `n + m` bits at once.
pub proof fn lemma_bits_value_concat(data: Seq<u8>, start: int, n: nat, m: nat)
    ensures
        bits_value(data, start, n + m) == bits_value(data, start, n) * vstd::arithmetic::power2::pow2(m)
            + bits_value(data, start + n, m),
    decreases m,
{
    if m == 0 {
        vstd::arithmetic::power2::lemma2_to64();
    } else {
        vstd::arithmetic::power2::lemma_pow2_unfold(m);
        lemma_bits_value_concat(data, start, n, (m - 1) as nat);
        let p = vstd::arithmetic::power2::pow2((m - 1) as nat);
        assert(bits_value(data, start, n) * (2 * p) == 2 * (bits_value(data, start, n) * p))
            by (nonlinear_arith);
        assert(start + (n + m) - 1 == start + n + m - 1);
        assert(((n + m) - 1) as nat == n + (m - 1) as nat);
    }
}

/// The value of `n` bits is below `2^n`.
pub proof fn lemma_bits_value_bound(data: Seq<u8>, start: int, n: nat)
    ensures
        bits_value(data, start, n) < vstd::arithmetic::power2::pow2(n),
    decreases n,
{
    if n == 0 {
        vstd::arithmetic::power2::lemma2_to64();
    } else {
        vstd::arithmetic::power2::lemma_pow2_unfold(n);
        lemma_bits_value_bound(data, start, (n - 1) as nat);
        lemma_bit_at_le_one(data, start + n - 1);
    }
}

/// MSB-first big-endian frame bit reader.
///
/// Holds the input bytes, the running bit cursor and the bit limit; the
/// word index and within-word bit position are derived from the cursor.
#[derive(Debug, Clone)]
pub struct FrameBitReader<'a> {
    data: &'a [u8],
    cursor: u32,
    limit: u32,
}

impl<'a> FrameBitReader<'a> {
    /// The input bytes.
    pub closed spec fn input(&self) -> Seq<u8> {
        self.data@
    }

    /// The bit cursor: bits consumed so far.
    pub closed spec fn cursor(&self) -> u32 {
        self.cursor
    }

    /// The bit limit: reads reaching past it return `0`.
    pub closed spec fn limit(&self) -> u32 {
        self.limit
    }

    /// The value `read_bits(n)` returns from this state.
    pub open spec fn bits_ahead(&self, n: u32) -> u32 {
        if n == 0 || n > 32 {
            0
        } else if self.cursor() + n > self.limit() {
            0
        } else {
            bits_value(self.input(), self.cursor() as int, n as nat) as u32
        }
    }

    /// The cursor after `read_bits(n)` from this state.
    pub open spec fn cursor_after(&self, n: u32) -> u32 {
        if n == 0 || n > 32 {
            self.cursor()
        } else if self.cursor() + n > self.limit() {
            self.limit()
        } else {
            (self.cursor() + n) as u32
        }
    }

    /// The reader state after `read_bits(n)`.
    pub closed spec fn after_read(&self, n: u32) -> FrameBitReader<'a> {
        FrameBitReader { data: self.data, cursor: self.cursor_after(n), limit: self.limit }
    }

    /// What `after_read` leaves of the state: the same input and limit,
    /// the cursor advanced as `read_bits` advances it.
    pub proof fn lemma_after_read(&self, n: u32)
        ensures
            self.after_read(n).input() == self.input(),
            self.after_read(n).limit() == self.limit(),
            self.after_read(n).cursor() == self.cursor_after(n),
    {
    }

    /// The state `new` starts from over `data`.
    pub closed spec fn spec_new(data: &'a [u8]) -> FrameBitReader<'a> {
        FrameBitReader { data, cursor: 0, limit: ((data@.len() * 8) % 0x1_0000_0000) as u32 }
    }

    /// A reader over `data` with the bit limit set to the byte length in
    /// bits, truncated to 32 bits.
    pub fn new(data: &'a [u8]) -> (r: Self)
        requires
            data@.len() < 0x2000_0000_0000_0000,
        ensures
            r == Self::spec_new(data),
            r.input() == data@,
            r.cursor() == 0,
            r.limit() == (data@.len() * 8) % 0x1_0000_0000,
    {
        let bits: u64 = (data.len() as u64) * 8;
        let limit = bits as u32;
        assert(limit == bits % 0x1_0000_0000) by (bit_vector)
            requires
                limit == bits as u32,
        ;
        FrameBitReader { data, cursor: 0, limit }
    }

    /// A reader over `data` with an explicit bit limit.
    pub fn with_bit_limit(data: &'a [u8], bit_limit: u32) -> (r: Self)
        ensures
            r.input() == data@,
            r.cursor() == 0,
            r.limit() == bit_limit,
    {
        FrameBitReader { data, cursor: 0, limit: bit_limit }
    }

    /// The running bit cursor.
    pub fn bit_cursor(&self) -> (c: u32)
        ensures
            c == self.cursor(),
    {
        self.cursor
    }

    /// The bit limit.
    pub fn bit_limit(&self) -> (l: u32)
        ensures
            l == self.limit(),
    {
        self.limit
    }

    /// The word the next read starts in (`cursor / 32`).
    pub fn word_index(&self) -> (w: u32)
        ensures
            w == self.cursor() / 32,
    {
        self.cursor / WORD_BITS
    }

    /// The bit position inside the current word (`cursor % 32`).
    pub fn bit_position(&self) -> (p: u32)
        ensures
            p == self.cursor() % 32,
    {
        self.cursor % WORD_BITS
    }

    /// Bits remaining before the limit (`limit - cursor`, saturating at 0).
    pub fn bits_remaining(&self) -> (r: u32)
        ensures
            r == if self.cursor() <= self.limit() {
                (self.limit() - self.cursor()) as u32
            } else {
                0u32
            },
    {
        self.limit.saturating_sub(self.cursor)
    }

    /// Whether the cursor has reached the limit.
    pub fn at_end(&self) -> (b: bool)
        ensures
            b == (self.cursor() >= self.limit()),
    {
        self.cursor >= self.limit
    }

    /// The big-endian word at word index `w`, zero past the input.
    fn word_at(&self, w: u32) -> (v: u32)
        requires
            w < 0x2000_0000,
        ensures
            v == word_spec(self.input(), w as int),
    {
        let base: usize = (w as usize) * WORD_BYTES;
        let mut acc: u32 = 0;
        let mut i: usize = 0;
        while i < WORD_BYTES
            invariant
                i <= 4,
                base == 4 * (w as int),
                acc == be_prefix(self.input(), base as int, i as nat),
            decreases 4 - i,
        {
            let idx = base + i;
            let byte: u8 = if idx < self.data.len() {
                self.data[idx]
            } else {
                0u8
            };
            assert(byte == byte_at(self.input(), base + (i + 1) - 1));
            acc = (acc << 8u32) | (byte as u32);
            i += 1;
        }
        acc
    }

    /// Reads `n` bits MSB-first.
    ///
    /// For `n` outside `1..=32` nothing is read and `0` is returned. A read
    /// whose span would pass the bit limit returns `0` and clamps the cursor
    /// at the limit. Otherwise the result is the value of the `n` bits at
    /// the cursor, and the cursor advances by `n`.
    pub fn read_bits(&mut self, n: u32) -> (v: u32)
        ensures
            final(self).input() == old(self).input(),
            final(self).limit() == old(self).limit(),
            (n == 0 || n > 32) ==> v == 0 && final(self).cursor() == old(self).cursor(),
            (1 <= n <= 32 && old(self).cursor() + n > old(self).limit()) ==> v == 0
                && final(self).cursor() == old(self).limit(),
            (1 <= n <= 32 && old(self).cursor() + n <= old(self).limit()) ==> v == bits_value(
                old(self).input(),
                old(self).cursor() as int,
                n as nat,
            ) && final(self).cursor() == old(self).cursor() + n,
            v == old(self).bits_ahead(n),
            *final(self) == old(self).after_read(n),
    {
        proof {
            if 1 <= n <= 32 && self.cursor + n <= self.limit {
                lemma_bits_value_bound(self.input(), self.cursor as int, n as nat);
                if n < 32 {
                    vstd::arithmetic::power2::lemma_pow2_strictly_increases(n as nat, 32);
                }
                vstd::arithmetic::power2::lemma2_to64();
            }
        }
        if n == 0 || n > WORD_BITS {
            return 0;
        }
        if self.cursor > self.limit || n > self.limit - self.cursor {
            self.cursor = self.limit;
            return 0;
        }
        let w = self.cursor / WORD_BITS;
        let pos = self.cursor % WORD_BITS;
        let cur = self.word_at(w);
        let aligned = if pos == 0 {
            cur
        } else {
            let next = self.word_at(w + 1);
            (cur << pos) | (next >> (WORD_BITS - pos))
        };
        let value = aligned >> (WORD_BITS - n);
        proof {
            let data = self.input();
            let c = self.cursor as int;
            assert(c == 32 * (w as int) + pos as int);
            assert forall|k: int| 0 <= k < n implies #[trigger] ((aligned >> ((31 - k) as u32))
                & 1u32) == bit_at(data, c + k) by {
                if pos == 0 {
                    lemma_word_bit(data, w as int, k);
                } else {
                    let next = word_spec(data, w as int + 1);
                    lemma_straddle_bits(cur, next, pos, k as u32);
                    
                    if k < 32 - pos {
                        lemma_word_bit(data, w as int, pos + k);
                        
                    } else {
                        lemma_word_bit(data, w as int + 1, k + pos - 32);
                        
                        assert(32 * (w as int + 1) + (k + pos - 32) == c + k);
                    }
                }
            }
            lemma_top_bits(aligned, n as nat);
            lemma_top_bits_stream(data, c, aligned, n as nat);
        }
        self.cursor = self.cursor + n;
        value
    }

    /// Reads the next bit as `0` / `1` (`0` at the end of the frame).
    pub fn read_bit(&mut self) -> (v: u32)
        ensures
            final(self).input() == old(self).input(),
            final(self).limit() == old(self).limit(),
            old(self).cursor() + 1 > old(self).limit() ==> v == 0 && final(self).cursor()
                == old(self).limit(),
            old(self).cursor() + 1 <= old(self).limit() ==> v == bit_at(
                old(self).input(),
                old(self).cursor() as int,
            ) && final(self).cursor() == old(self).cursor() + 1,
            v <= 1,
            v == old(self).bits_ahead(1),
            *final(self) == old(self).after_read(1),
    {
        let v = self.read_bits(1);
        proof {
            reveal_with_fuel(bits_value, 2);
            lemma_bit_at_le_one(old(self).input(), old(self).cursor() as int);
        }
        v
    }

    /// Advances the cursor by `n` bits without reading, clamping at the
    /// limit.
    pub fn skip_bits(&mut self, n: u32)
        ensures
            final(self).input() == old(self).input(),
            final(self).limit() == old(self).limit(),
            final(self).cursor() == if old(self).cursor() + n <= old(self).limit() {
                (old(self).cursor() + n) as u32
            } else {
                old(self).limit()
            },
    {
        let s = self.cursor.saturating_add(n);
        self.cursor = if s < self.limit {
            s
        } else {
            self.limit
        };
    }

    /// Reads the next bit as the signed flag `0` / `-1` (`0` at the end of
    /// the frame).
    pub fn read_flag(&mut self) -> (v: i32)
        ensures
            final(self).input() == old(self).input(),
            final(self).limit() == old(self).limit(),
            old(self).cursor() + 1 > old(self).limit() ==> v == 0 && final(self).cursor()
                == old(self).limit(),
            old(self).cursor() + 1 <= old(self).limit() ==> v == -(bit_at(
                old(self).input(),
                old(self).cursor() as int,
            ) as int) && final(self).cursor() == old(self).cursor() + 1,
    {
        let b = self.read_bit();
        0i32.wrapping_sub(b as i32)
    }
}

} // verus!
