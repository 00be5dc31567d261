//! Spectral Huffman codebooks and the bit-by-bit VLC walk.
//!
//! There are seven spectral codebooks. A codebook is a list of per-symbol
//! codewords `(code, length)`; a symbol is decoded by reading bits
//! MSB-first, accumulating them, and emitting the symbol as soon as the
//! accumulated `(length, code)` is one of the codewords. Some codebooks
//! carry duplicated (escape-style) codewords; a duplicated codeword
//! decodes to the first symbol carrying it.
use crate::bitreader::{
    bit_at, bits_value, lemma_bit_at_le_one, lemma_bits_value_bound, lemma_bits_value_concat,
    FrameBitReader,
};
use crate::Error;
use std::collections::HashMap;
use vstd::prelude::*;

verus! {

/// Number of spectral codebooks.
pub const SPECTRAL_CODEBOOK_COUNT: u8 = 7;

/// Highest spectral codebook index.
pub const MAX_SPECTRAL_CODEBOOK_INDEX: u8 = 6;

/// The number of spectral codebooks.
pub const CODEBOOK_COUNT: u8 = 7;

/// The symbol count of codebook `i`.
pub open spec fn codebook_symbol_count(i: int) -> u32 {
    if i == 0 {
        196
    } else if i == 1 {
        100
    } else if i == 2 {
        49
    } else if i == 3 {
        625
    } else if i == 4 {
        256
    } else if i == 5 {
        243
    } else {
        32
    }
}

/// A spectral codebook index in `0..=6`.
#[derive(Debug, Clone, Copy, PartialEq, Eq, PartialOrd, Ord, Hash)]
pub struct SpectralCodebook(u8);

impl SpectralCodebook {
    /// The raw index.
    pub closed spec fn value(&self) -> u8 {
        self.0
    }

    /// The index is at most `6`.
    #[verifier::type_invariant]
    closed spec fn inv(self) -> bool {
        self.0 <= MAX_SPECTRAL_CODEBOOK_INDEX
    }

    /// The codebook for `raw`, or an error above `6`.
    pub fn new(raw: u8) -> (r: core::result::Result<Self, Error>)
        ensures
            raw <= MAX_SPECTRAL_CODEBOOK_INDEX ==> (r matches Ok(c) && c.value() == raw),
            raw > MAX_SPECTRAL_CODEBOOK_INDEX ==> r == Err::<Self, Error>(
                Error::SpectralCodebookOutOfRange { got: raw },
            ),
    {
        if raw > MAX_SPECTRAL_CODEBOOK_INDEX {
            return Err(Error::SpectralCodebookOutOfRange { got: raw });
        }
        Ok(SpectralCodebook(raw))
    }

    /// The codebook for a `raw` value known to be in range.
    pub fn new_const(raw: u8) -> (c: Self)
        requires
            raw <= MAX_SPECTRAL_CODEBOOK_INDEX,
        ensures
            c.value() == raw,
    {
        SpectralCodebook(raw)
    }

    /// The raw index.
    pub fn get(self) -> (v: u8)
        ensures
            v == self.value(),
            v <= MAX_SPECTRAL_CODEBOOK_INDEX,
    {
        proof {
            use_type_invariant(&self);
        }
        self.0
    }

    /// The raw index as a table position.
    pub fn as_usize(self) -> (v: usize)
        ensures
            v == self.value(),
            v <= MAX_SPECTRAL_CODEBOOK_INDEX,
    {
        proof {
            use_type_invariant(&self);
        }
        self.0 as usize
    }

    /// The codebook's symbol count.
    pub fn symbol_count(self) -> (n: u32)
        ensures
            n == codebook_symbol_count(self.value() as int),
    {
        match self.get() {
            0 => 196,
            1 => 100,
            2 => 49,
            3 => 625,
            4 => 256,
            5 => 243,
            _ => 32,
        }
    }
}

/// The lookup key of a codeword: the length above the code.
pub open spec fn vlc_key(len: u32, code: u32) -> u64 {
    ((len as u64) << 32u64) | (code as u64)
}

proof fn lemma_vlc_key_injective(l1: u32, c1: u32, l2: u32, c2: u32)
    ensures
        vlc_key(l1, c1) == vlc_key(l2, c2) ==> l1 == l2 && c1 == c2,
{
    assert(((((l1 as u64) << 32u64) | (c1 as u64)) == (((l2 as u64) << 32u64) | (c2 as u64))) ==> (
    l1 == l2 && c1 == c2)) by (bit_vector);
}

/// The first of the first `n` symbols whose codeword is `(len, code)`.
pub open spec fn first_match(codes: Seq<u32>, lengths: Seq<u32>, len: u32, code: u32, n: int) -> Option<
    u32,
>
    decreases n,
{
    if n <= 0 {
        None
    } else {
        match first_match(codes, lengths, len, code, n - 1) {
            Some(s) => Some(s),
            None => if codes[n - 1] == code && lengths[n - 1] == len {
                Some((n - 1) as u32)
            } else {
                None
            },
        }
    }
}

/// The shortest of the first `n` lengths (`u32::MAX` for none).
pub open spec fn min_len_of(lengths: Seq<u32>, n: int) -> u32
    decreases n,
{
    if n <= 0 {
        u32::MAX
    } else {
        let m = min_len_of(lengths, n - 1);
        if lengths[n - 1] < m {
            lengths[n - 1]
        } else {
            m
        }
    }
}

/// The longest of the first `n` lengths (`0` for none).
pub open spec fn max_len_of(lengths: Seq<u32>, n: int) -> u32
    decreases n,
{
    if n <= 0 {
        0
    } else {
        let m = max_len_of(lengths, n - 1);
        if lengths[n - 1] > m {
            lengths[n - 1]
        } else {
            m
        }
    }
}

/// A decode-ready spectral Huffman codebook.
#[derive(Debug)]
pub struct SpectralHuffman {
    codebook: SpectralCodebook,
    lengths: Vec<u32>,
    codes: Vec<u32>,
    lookup: HashMap<u64, u32>,
    min_len: u32,
    max_len: u32,
}

/// The VLC walk from `r` after `nbits` bits accumulated into `acc`: read
/// one bit, and from `min` bits on emit the first symbol whose codeword
/// matches; after `max` bits without a match, report it. Returns the
/// outcome and the reader after the bits read.
pub open spec fn vlc_walk(
    codes: Seq<u32>,
    lengths: Seq<u32>,
    codebook: u8,
    min: u32,
    max: u32,
    r: FrameBitReader,
    nbits: u32,
    acc: u32,
) -> (core::result::Result<u32, Error>, FrameBitReader)
    decreases max - nbits,
{
    if nbits >= max {
        (Err(Error::SpectralVlcNoMatch { codebook, bits: nbits }), r)
    } else {
        let acc2 = ((acc << 1u32) | r.bits_ahead(1)) as u32;
        let r2 = r.after_read(1);
        let n2 = (nbits + 1) as u32;
        if n2 >= min && first_match(codes, lengths, n2, acc2, codes.len() as int) is Some {
            (Ok(first_match(codes, lengths, n2, acc2, codes.len() as int)->Some_0), r2)
        } else {
            vlc_walk(codes, lengths, codebook, min, max, r2, n2, acc2)
        }
    }
}

impl SpectralHuffman {
    /// The codewords' codes, per symbol.
    pub closed spec fn codes_spec(&self) -> Seq<u32> {
        self.codes@
    }

    /// The codewords' lengths, per symbol.
    pub closed spec fn lengths_spec(&self) -> Seq<u32> {
        self.lengths@
    }

    /// The codebook index.
    pub closed spec fn codebook_spec(&self) -> SpectralCodebook {
        self.codebook
    }

    /// The lookup holds, for every codeword, its first symbol; the bounds
    /// are the shortest and longest lengths.
    #[verifier::type_invariant]
    closed spec fn inv(self) -> bool {
        &&& self.codes@.len() == self.lengths@.len()
        &&& self.codes@.len() <= u32::MAX
        &&& self.min_len == min_len_of(self.lengths@, self.lengths@.len() as int)
        &&& self.max_len == max_len_of(self.lengths@, self.lengths@.len() as int)
        &&& forall|l: u32, c: u32|
            #[trigger] self.lookup@.contains_key(vlc_key(l, c)) == (first_match(
                self.codes@,
                self.lengths@,
                l,
                c,
                self.codes@.len() as int,
            ) is Some)
        &&& forall|l: u32, c: u32|
            #[trigger] self.lookup@.contains_key(vlc_key(l, c)) ==> self.lookup@[vlc_key(l, c)]
                == first_match(self.codes@, self.lengths@, l, c, self.codes@.len() as int)->Some_0
    }

    /// The decode structure of one codebook from its per-symbol codeword
    /// codes and lengths.
    pub fn from_tables(codebook: SpectralCodebook, codes: Vec<u32>, lengths: Vec<u32>) -> (h: Self)
        requires
            codes@.len() == lengths@.len(),
            codes@.len() <= u32::MAX,
        ensures
            h.codes_spec() == codes@,
            h.lengths_spec() == lengths@,
            h.codebook_spec() == codebook,
    {
        broadcast use vstd::std_specs::hash::group_hash_axioms;

        let n = codes.len();
        let mut lookup: HashMap<u64, u32> = HashMap::new();
        let mut min_len: u32 = u32::MAX;
        let mut max_len: u32 = 0;
        let mut sym: usize = 0;
        while sym < n
            invariant
                n == codes@.len(),
                n == lengths@.len(),
                n <= u32::MAX,
                sym <= n,
                min_len == min_len_of(lengths@, sym as int),
                max_len == max_len_of(lengths@, sym as int),
                forall|l: u32, c: u32|
                    #[trigger] lookup@.contains_key(vlc_key(l, c)) == (first_match(
                        codes@,
                        lengths@,
                        l,
                        c,
                        sym as int,
                    ) is Some),
                forall|l: u32, c: u32|
                    #[trigger] lookup@.contains_key(vlc_key(l, c)) ==> lookup@[vlc_key(l, c)]
                        == first_match(codes@, lengths@, l, c, sym as int)->Some_0,
            decreases n - sym,
        {
            let code = codes[sym];
            let len = lengths[sym];
            if len < min_len {
                min_len = len;
            }
            if len > max_len {
                max_len = len;
            }
            let key: u64 = ((len as u64) << 32u64) | (code as u64);
            let ghost old_map = lookup@;
            if !lookup.contains_key(&key) {
                lookup.insert(key, sym as u32);
            }
            proof {
                assert forall|l: u32, c: u32|
                    #[trigger] lookup@.contains_key(vlc_key(l, c)) == (first_match(
                        codes@,
                        lengths@,
                        l,
                        c,
                        sym as int + 1,
                    ) is Some) && (lookup@.contains_key(vlc_key(l, c)) ==> lookup@[vlc_key(l, c)]
                        == first_match(codes@, lengths@, l, c, sym as int + 1)->Some_0) by {
                    lemma_vlc_key_injective(l, c, len, code);
                    assert(old_map.contains_key(vlc_key(l, c)) == (first_match(
                        codes@,
                        lengths@,
                        l,
                        c,
                        sym as int,
                    ) is Some));
                }
            }
            sym += 1;
        }
        SpectralHuffman { codebook, lengths, codes, lookup, min_len, max_len }
    }

    /// The codebook index.
    pub fn codebook(&self) -> (c: SpectralCodebook)
        ensures
            c == self.codebook_spec(),
    {
        self.codebook
    }

    /// Number of symbols.
    pub fn symbol_count(&self) -> (n: u32)
        ensures
            n == self.codes_spec().len(),
    {
        proof {
            use_type_invariant(self);
        }
        self.codes.len() as u32
    }

    /// Shortest codeword length (`u32::MAX` for an empty codebook).
    pub fn min_code_length(&self) -> (n: u32)
        ensures
            n == min_len_of(self.lengths_spec(), self.lengths_spec().len() as int),
    {
        proof {
            use_type_invariant(self);
        }
        self.min_len
    }

    /// Longest codeword length (`0` for an empty codebook).
    pub fn max_code_length(&self) -> (n: u32)
        ensures
            n == max_len_of(self.lengths_spec(), self.lengths_spec().len() as int),
    {
        proof {
            use_type_invariant(self);
        }
        self.max_len
    }

    /// The codeword `(code, length)` of a symbol.
    pub fn codeword(&self, symbol: u32) -> (r: core::result::Result<(u32, u32), Error>)
        ensures
            symbol < self.codes_spec().len() ==> r == Ok::<(u32, u32), Error>(
                (self.codes_spec()[symbol as int], self.lengths_spec()[symbol as int]),
            ),
            symbol >= self.codes_spec().len() ==> r == Err::<(u32, u32), Error>(
                Error::SpectralSymbolOutOfRange {
                    got: symbol,
                    count: self.codes_spec().len() as u32,
                },
            ),
    {
        proof {
            use_type_invariant(self);
        }
        let idx = symbol as usize;
        if idx >= self.codes.len() {
            return Err(
                Error::SpectralSymbolOutOfRange { got: symbol, count: self.codes.len() as u32 },
            );
        }
        Ok((self.codes[idx], self.lengths[idx]))
    }

    /// Whether a symbol's codeword is shared with another symbol (an
    /// escape-style duplicate).
    pub fn is_escape_symbol(&self, symbol: u32) -> (r: core::result::Result<bool, Error>)
        ensures
            symbol < self.codes_spec().len() ==> r == Ok::<bool, Error>(
                exists|t: int|
                    0 <= t < self.codes_spec().len() && t != symbol && #[trigger] self.codes_spec()[t]
                        == self.codes_spec()[symbol as int] && self.lengths_spec()[t]
                        == self.lengths_spec()[symbol as int],
            ),
            symbol >= self.codes_spec().len() ==> r == Err::<bool, Error>(
                Error::SpectralSymbolOutOfRange {
                    got: symbol,
                    count: self.codes_spec().len() as u32,
                },
            ),
    {
        broadcast use vstd::std_specs::hash::group_hash_axioms;

        proof {
            use_type_invariant(self);
        }
        let (code, len) = match self.codeword(symbol) {
            Ok(w) => w,
            Err(e) => {
                return Err(e);
            },
        };
        let key: u64 = ((len as u64) << 32u64) | (code as u64);
        assert(key == vlc_key(len, code));
        proof {
            lemma_first_match_found(self.codes@, self.lengths@, len, code, self.codes@.len() as int, symbol as int);
        }
        let first = match self.lookup.get(&key) {
            Some(f) => *f,
            None => {
                assert(false);
                symbol
            },
        };
        proof {
            lemma_first_match_is_match(self.codes@, self.lengths@, len, code, self.codes@.len() as int);
        }
        if first != symbol {
            return Ok(true);
        }
        let n = self.codes.len();
        let mut t: usize = 0;
        while t < n
            invariant
                n == self.codes@.len(),
                n == self.lengths@.len(),
                n <= u32::MAX,
                symbol < n,
                t <= n,
                code == self.codes@[symbol as int],
                len == self.lengths@[symbol as int],
                forall|u: int|
                    0 <= u < t ==> !(u != symbol && #[trigger] self.codes@[u] == code
                        && self.lengths@[u] == len),
            decreases n - t,
        {
            if t as u32 != symbol && self.codes[t] == code && self.lengths[t] == len {
                return Ok(true);
            }
            t += 1;
        }
        Ok(false)
    }

    /// Decode one symbol from `reader`, MSB-first: accumulate bits and,
    /// from the shortest length on, return the first symbol whose
    /// codeword matches; after the longest length without a match, report
    /// it.
    pub fn decode_symbol(&self, reader: &mut FrameBitReader) -> (r: core::result::Result<u32, Error>)
        ensures
            r == vlc_walk(
                self.codes_spec(),
                self.lengths_spec(),
                self.codebook_spec().value(),
                min_len_of(self.lengths_spec(), self.lengths_spec().len() as int),
                max_len_of(self.lengths_spec(), self.lengths_spec().len() as int),
                *old(reader),
                0,
                0,
            ).0,
            *final(reader) == vlc_walk(
                self.codes_spec(),
                self.lengths_spec(),
                self.codebook_spec().value(),
                min_len_of(self.lengths_spec(), self.lengths_spec().len() as int),
                max_len_of(self.lengths_spec(), self.lengths_spec().len() as int),
                *old(reader),
                0,
                0,
            ).1,
    {
        broadcast use vstd::std_specs::hash::group_hash_axioms;

        proof {
            use_type_invariant(self);
        }
        let ghost codes = self.codes@;
        let ghost lengths = self.lengths@;
        let ghost cb = self.codebook.value();
        let mut acc: u32 = 0;
        let mut nbits: u32 = 0;
        while nbits < self.max_len
            invariant
                codes == self.codes@,
                lengths == self.lengths@,
                cb == self.codebook.value(),
                nbits <= self.max_len,
                self.min_len == min_len_of(lengths, lengths.len() as int),
                self.max_len == max_len_of(lengths, lengths.len() as int),
                self.codes@.len() == self.lengths@.len(),
                forall|l: u32, c: u32|
                    #[trigger] self.lookup@.contains_key(vlc_key(l, c)) == (first_match(
                        codes,
                        lengths,
                        l,
                        c,
                        codes.len() as int,
                    ) is Some),
                forall|l: u32, c: u32|
                    #[trigger] self.lookup@.contains_key(vlc_key(l, c)) ==> self.lookup@[vlc_key(
                        l,
                        c,
                    )] == first_match(codes, lengths, l, c, codes.len() as int)->Some_0,
                vlc_walk(codes, lengths, cb, self.min_len, self.max_len, *old(reader), 0, 0)
                    == vlc_walk(codes, lengths, cb, self.min_len, self.max_len, *reader, nbits, acc),
            decreases self.max_len - nbits,
        {
            let ghost before = *reader;
            let ghost acc0 = acc;
            let bit = reader.read_bit();
            acc = (acc << 1u32) | bit;
            nbits += 1;
            if nbits < self.min_len {
                continue;
            }
            let key: u64 = ((nbits as u64) << 32u64) | (acc as u64);
            assert(key == vlc_key(nbits, acc));
            match self.lookup.get(&key) {
                Some(sym) => {
                    proof {
                        assert(vlc_walk(codes, lengths, cb, self.min_len, self.max_len, before, (nbits - 1) as u32, acc0)
                            == (Ok::<u32, Error>(*sym), *reader));
                    }
                    return Ok(*sym);
                },
                None => {},
            }
        }
        Err(Error::SpectralVlcNoMatch { codebook: self.codebook.get(), bits: nbits })
    }
}

proof fn lemma_first_match_found(codes: Seq<u32>, lengths: Seq<u32>, len: u32, code: u32, n: int, s: int)
    requires
        0 <= s < n <= codes.len(),
        n <= u32::MAX,
        n <= lengths.len(),
        codes[s] == code,
        lengths[s] == len,
    ensures
        first_match(codes, lengths, len, code, n) is Some,
        first_match(codes, lengths, len, code, n)->Some_0 <= s,
    decreases n,
{
    if s < n - 1 {
        lemma_first_match_found(codes, lengths, len, code, n - 1, s);
    } else {
        lemma_first_match_is_match(codes, lengths, len, code, n - 1);
    }
}

proof fn lemma_first_match_is_match(codes: Seq<u32>, lengths: Seq<u32>, len: u32, code: u32, n: int)
    requires
        0 <= n <= codes.len(),
        n <= u32::MAX,
        n <= lengths.len(),
    ensures
        first_match(codes, lengths, len, code, n) is Some ==> {
            let s = first_match(codes, lengths, len, code, n)->Some_0 as int;
            0 <= s < n && codes[s] == code && lengths[s] == len
        },
    decreases n,
{
    if n > 0 {
        lemma_first_match_is_match(codes, lengths, len, code, n - 1);
    }
}

/// Every codeword is one to 32 bits long and fits its length.
pub open spec fn codewords_fit(codes: Seq<u32>, lengths: Seq<u32>) -> bool {
    &&& codes.len() == lengths.len()
    &&& forall|t: int|
        0 <= t < codes.len() ==> 1 <= #[trigger] lengths[t] <= 32 && codes[t]
            < vstd::arithmetic::power2::pow2(lengths[t] as nat)
}

/// No codeword is the leading part of a longer one.
pub open spec fn prefix_free(codes: Seq<u32>, lengths: Seq<u32>) -> bool {
    forall|t: int, u: int|
        0 <= t < codes.len() && 0 <= u < codes.len() && #[trigger] lengths[t] < #[trigger] lengths[u]
            ==> codes[t] as int != codes[u] as int / (vstd::arithmetic::power2::pow2(
            (lengths[u] - lengths[t]) as nat,
        ) as int)
}

proof fn lemma_len_bounds(lengths: Seq<u32>, n: int, s: int)
    requires
        0 <= s < n <= lengths.len(),
    ensures
        min_len_of(lengths, n) <= lengths[s] <= max_len_of(lengths, n),
    decreases n,
{
    if s < n - 1 {
        lemma_len_bounds(lengths, n - 1, s);
    }
}

proof fn lemma_shl_or_bit(acc: u32, b: u32)
    by (bit_vector)
    requires
        acc < 0x8000_0000,
        b <= 1,
    ensures
        ((acc << 1u32) | b) == acc * 2 + b,
{
}

/// The walk from `k` bits into symbol `s`'s codeword, with the bits read
/// so far accumulated, ends after the whole codeword with its first
/// holder.
proof fn lemma_walk_codeword(
    codes: Seq<u32>,
    lengths: Seq<u32>,
    codebook: u8,
    r0: FrameBitReader,
    s: int,
    r: FrameBitReader,
    k: u32,
    acc: u32,
)
    requires
        codewords_fit(codes, lengths),
        prefix_free(codes, lengths),
        codes.len() <= u32::MAX,
        0 <= s < codes.len(),
        r0.cursor() + lengths[s] <= r0.limit(),
        bits_value(r0.input(), r0.cursor() as int, lengths[s] as nat) == codes[s],
        k < lengths[s],
        r.input() == r0.input(),
        r.limit() == r0.limit(),
        r.cursor() == r0.cursor() + k,
        acc == bits_value(r0.input(), r0.cursor() as int, k as nat),
    ensures
        ({
            let n = codes.len() as int;
            let w = vlc_walk(
                codes,
                lengths,
                codebook,
                min_len_of(lengths, n),
                max_len_of(lengths, n),
                r,
                k,
                acc,
            );
            &&& first_match(codes, lengths, lengths[s], codes[s], n) is Some
            &&& w.0 == Ok::<u32, Error>(
                first_match(codes, lengths, lengths[s], codes[s], n)->Some_0,
            )
            &&& w.1.cursor() == r0.cursor() + lengths[s]
            &&& w.1.input() == r0.input()
            &&& w.1.limit() == r0.limit()
        }),
    decreases lengths[s] - k,
{
    let n = codes.len() as int;
    let len = lengths[s];
    let c = r0.cursor() as int;
    let data = r0.input();
    lemma_len_bounds(lengths, n, s);
    r.lemma_after_read(1);
    let r2 = r.after_read(1);
    lemma_bits_value_bound(data, c, k as nat);
    if k < 31 {
        vstd::arithmetic::power2::lemma_pow2_strictly_increases(k as nat, 31);
    }
    vstd::arithmetic::power2::lemma2_to64();
    lemma_bit_at_le_one(data, c + k);
    let b = r.bits_ahead(1);
    assert(b == bit_at(data, c + k)) by {
        assert(bits_value(data, c + k, 1) == 2 * bits_value(data, c + k, 0) + bit_at(data, c + k));
    }
    assert(acc < 0x8000_0000);
    lemma_shl_or_bit(acc, b);
    let acc2 = ((acc << 1u32) | b) as u32;
    assert(acc2 == bits_value(data, c, (k + 1) as nat));
    let n2 = (k + 1) as u32;
    if n2 < len {
        assert(first_match(codes, lengths, n2, acc2, n) is None) by {
            lemma_first_match_is_match(codes, lengths, n2, acc2, n);
            if first_match(codes, lengths, n2, acc2, n) is Some {
                let t = first_match(codes, lengths, n2, acc2, n)->Some_0 as int;
                let p = vstd::arithmetic::power2::pow2((len - n2) as nat);
                lemma_bits_value_concat(data, c, n2 as nat, (len - n2) as nat);
                lemma_bits_value_bound(data, c + n2, (len - n2) as nat);
                vstd::arithmetic::power2::lemma_pow2_pos((len - n2) as nat);
                vstd::arithmetic::div_mod::lemma_fundamental_div_mod_converse_div(
                    codes[s] as int,
                    p as int,
                    acc2 as int,
                    bits_value(data, c + n2, (len - n2) as nat) as int,
                );
                assert(lengths[t] < lengths[s]);
                assert(codes[t] as int != codes[s] as int / (p as int));
            }
        }
        lemma_walk_codeword(codes, lengths, codebook, r0, s, r2, n2, acc2);
    } else {
        assert(acc2 == codes[s]);
        lemma_first_match_found(codes, lengths, len, codes[s], n, s);
    }
}

/// Decoding from a reader positioned on symbol `s`'s codeword, in a
/// prefix-free code, yields the first symbol holding that codeword (`s`
/// itself unless an earlier symbol shares it) and consumes exactly the
/// codeword's bits.
pub proof fn lemma_codeword_decodes(
    codes: Seq<u32>,
    lengths: Seq<u32>,
    codebook: u8,
    r: FrameBitReader,
    s: int,
)
    requires
        codewords_fit(codes, lengths),
        prefix_free(codes, lengths),
        codes.len() <= u32::MAX,
        0 <= s < codes.len(),
        r.cursor() + lengths[s] <= r.limit(),
        bits_value(r.input(), r.cursor() as int, lengths[s] as nat) == codes[s],
    ensures
        ({
            let n = codes.len() as int;
            let w = vlc_walk(
                codes,
                lengths,
                codebook,
                min_len_of(lengths, n),
                max_len_of(lengths, n),
                r,
                0,
                0,
            );
            let t = first_match(codes, lengths, lengths[s], codes[s], n)->Some_0 as int;
            &&& first_match(codes, lengths, lengths[s], codes[s], n) is Some
            &&& w.0 == Ok::<u32, Error>(t as u32)
            &&& t <= s && codes[t] == codes[s] && lengths[t] == lengths[s]
            &&& w.1.cursor() == r.cursor() + lengths[s]
        }),
{
    let n = codes.len() as int;
    lemma_walk_codeword(codes, lengths, codebook, r, s, r, 0, 0);
    lemma_first_match_found(codes, lengths, lengths[s], codes[s], n, s);
    lemma_first_match_is_match(codes, lengths, lengths[s], codes[s], n);
}

} // verus!
