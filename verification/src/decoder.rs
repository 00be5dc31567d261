//! The per-subpacket gain profile read and the multichannel packet split.
//!
//! A subpacket opens with its gain profile: a unary-coded entry count
//! (zero bits closed by a one bit; at most eight entries are read), then
//! per entry a 3-bit slot, a 1-bit flag and, when the flag is set, a 4-bit
//! gain biased by `7` (`-1` when it is clear). Each entry fills the slots
//! from the one after the previous entry's run up to its own slot with its
//! gain; slots no entry reaches stay `0`. The bits are read MSB-first by
//! `oxideav_core::bits::BitReader`, at bit positions the read tracks.
//!
//! A multichannel packet carries one subpacket per channel group; its last
//! `n - 1` bytes store the sizes of subpackets `1..n`, halved, and the
//! first subpacket takes the bytes before them that are left.
use crate::bitreader::{bit_at, bits_value};
use crate::Error;
use oxideav_core::bits::BitReader;
use oxideav_core::Error as CoreError;
use vstd::prelude::*;

verus! {

#[verifier::external_type_specification]
#[verifier::external_body]
pub struct ExCoreError(CoreError);

/// Whether the first one bit at or after bit `pos` is `k` bits on: bits
/// `pos..pos + k` are zero and bit `pos + k` is one, inside the input.
pub open spec fn one_at(data: Seq<u8>, pos: int, k: int) -> bool {
    &&& 0 <= k
    &&& pos + k < data.len() * 8
    &&& bit_at(data, pos + k) == 1
    &&& forall|j: int| 0 <= j < k ==> #[trigger] bit_at(data, pos + j) == 0
}

/// `oxideav_core::bits::BitReader` over `data`, moved to bit `pos` by
/// `skip`, then `read_u32(n)`: the `n` bits at `pos`, MSB-first, when they
/// lie inside the input; an error otherwise (from `skip` when `pos` is past
/// the end, from `read_u32` when fewer than `n` bits are left).
#[verifier::external_body]
fn core_read_bits(data: &[u8], pos: u32, n: u32) -> (r: core::result::Result<u32, CoreError>)
    requires
        n <= 32,
        data@.len() < 0x2000_0000,
    ensures
        r is Ok <==> pos + n <= data@.len() * 8,
        r matches Ok(v) ==> v == bits_value(data@, pos as int, n as nat),
{
    let mut br = BitReader::new(data);
    br.skip(pos)?;
    br.read_u32(n)
}

/// `oxideav_core::bits::BitReader` over `data`, moved to bit `pos` by
/// `skip`, then `read_unary`: the count of zero bits before the next one
/// bit; an error when no one bit follows inside the input (the count
/// cannot overflow for an input under 2^29 bytes).
#[verifier::external_body]
fn core_read_unary(data: &[u8], pos: u32) -> (r: core::result::Result<u32, CoreError>)
    requires
        data@.len() < 0x2000_0000,
    ensures
        r matches Ok(k) ==> one_at(data@, pos as int, k as int),
        r is Err ==> forall|k: int| !one_at(data@, pos as int, k),
{
    let mut br = BitReader::new(data);
    br.skip(pos)?;
    br.read_unary()
}

/// The maximum number of gain entries and the slot count.
pub const GAIN_SLOTS: usize = 8;

/// The gain-value bias: a coded gain `c` stands for `c - 7`.
pub const GAIN_VALUE_BIAS: i32 = 7;

/// The profile after one entry: slots `last..=min(slot, 7)` take `value`;
/// the next run starts after them (at most at `8`).
pub open spec fn gain_fill_step(g: Seq<i32>, last: int, slot: int, value: i32) -> (Seq<i32>, int) {
    let hi = if slot < 7 {
        slot
    } else {
        7
    };
    (
        Seq::new(8, |s: int| if last <= s <= hi { value } else { g[s] }),
        if hi + 1 < 8 {
            hi + 1
        } else {
            8
        },
    )
}

/// The profile, and where the next run starts, after the entries
/// `(slot, value)` in order, from eight zero slots.
pub open spec fn gain_fill(entries: Seq<(u32, i32)>) -> (Seq<i32>, int)
    decreases entries.len(),
{
    if entries.len() == 0 {
        (Seq::new(8, |s: int| 0i32), 0)
    } else {
        let prev = gain_fill(entries.drop_last());
        gain_fill_step(prev.0, prev.1, entries.last().0 as int, entries.last().1)
    }
}

/// The entry at bit `q` and the position after it: the 3-bit slot, the
/// flag, and the biased 4-bit gain when the flag is set (`-1` when it is
/// clear); nothing when a field runs past the input.
pub open spec fn entry_at(data: Seq<u8>, q: int) -> Option<((u32, i32), int)> {
    let end = data.len() * 8;
    if q + 4 > end {
        None
    } else if bits_value(data, q + 3, 1) != 0 {
        if q + 8 > end {
            None
        } else {
            Some(((bits_value(data, q, 3) as u32, (bits_value(data, q + 4, 4) - 7) as i32), q + 8))
        }
    } else {
        Some(((bits_value(data, q, 3) as u32, -1i32), q + 4))
    }
}

/// Reading `m` entries from bit `p`: the entries read, the position after
/// them, and whether all `m` were read (on a failure, the entries before
/// it and where the failing one starts).
pub open spec fn entries_from(data: Seq<u8>, p: int, m: nat) -> (Seq<(u32, i32)>, int, bool)
    decreases m,
{
    if m == 0 {
        (Seq::empty(), p, true)
    } else {
        let prev = entries_from(data, p, (m - 1) as nat);
        if !prev.2 {
            prev
        } else {
            match entry_at(data, prev.1) {
                None => (prev.0, prev.1, false),
                Some((e, q)) => (prev.0.push(e), q, true),
            }
        }
    }
}

/// The gain-profile read from bit `pos`: the entries read, the position
/// after the profile, and whether it was read whole.
pub open spec fn gain_read(data: Seq<u8>, pos: int) -> (Seq<(u32, i32)>, int, bool) {
    if exists|k: int| one_at(data, pos, k) {
        let k = choose|k: int| one_at(data, pos, k);
        entries_from(data, pos + k + 1, if k < 8 {
            k as nat
        } else {
            8
        })
    } else {
        (Seq::empty(), pos, false)
    }
}

proof fn lemma_one_at_unique(data: Seq<u8>, pos: int, k1: int, k2: int)
    requires
        one_at(data, pos, k1),
        one_at(data, pos, k2),
    ensures
        k1 == k2,
{
    if k1 < k2 {
        assert(bit_at(data, pos + k1) == 0);
    } else if k2 < k1 {
        assert(bit_at(data, pos + k2) == 0);
    }
}

proof fn lemma_gain_fill_next(entries: Seq<(u32, i32)>)
    ensures
        gain_fill(entries).0.len() == 8,
        0 <= gain_fill(entries).1 <= 8,
    decreases entries.len(),
{
    if entries.len() > 0 {
        lemma_gain_fill_next(entries.drop_last());
    }
}

/// A failed read stays failed however many more entries are asked for.
proof fn lemma_entries_fail_persists(data: Seq<u8>, p: int, m: nat, m2: nat)
    requires
        m <= m2,
        !entries_from(data, p, m).2,
    ensures
        entries_from(data, p, m2) == entries_from(data, p, m),
    decreases m2 - m,
{
    if m < m2 {
        lemma_entries_fail_persists(data, p, m, (m2 - 1) as nat);
    }
}

/// Entries advance the position: each takes four or eight bits.
proof fn lemma_entries_position(data: Seq<u8>, p: int, m: nat)
    ensures
        p <= entries_from(data, p, m).1,
        entries_from(data, p, m).2 ==> entries_from(data, p, m).1 <= p + 8 * m,
        entries_from(data, p, m).0.len() <= m,
    decreases m,
{
    if m > 0 {
        lemma_entries_position(data, p, (m - 1) as nat);
    }
}

/// Fill one entry's run: slots `last..=min(slot, 7)` take `value`.
/// Returns where the next run starts.
fn fill_gain_run(gains: &mut [i32; 8], last: usize, slot: u32, value: i32) -> (next: usize)
    requires
        old(gains)@.len() == 8,
        last <= 8,
    ensures
        final(gains)@ == gain_fill_step(old(gains)@, last as int, slot as int, value).0,
        next == gain_fill_step(old(gains)@, last as int, slot as int, value).1,
{
    let hi: usize = if slot < 7 {
        slot as usize
    } else {
        7
    };
    let mut s = last;
    while s <= hi
        invariant
            last <= s,
            s == last || s <= hi + 1,
            hi <= 7,
            hi == (if slot < 7 {
                slot as int
            } else {
                7
            }),
            gains@.len() == 8,
            forall|t: int|
                0 <= t < 8 ==> #[trigger] gains@[t] == (if last <= t < s {
                    value
                } else {
                    old(gains)@[t]
                }),
        decreases hi + 1 - s,
    {
        gains[s] = value;
        s += 1;
    }
    assert(gains@ =~= gain_fill_step(old(gains)@, last as int, slot as int, value).0);
    if hi + 1 < 8 {
        hi + 1
    } else {
        8
    }
}

/// Read the gain profile that starts at bit `pos` of `data` into `gains`:
/// every slot is cleared, then the unary entry count (capped at eight) and
/// that many entries are read and their runs filled in order. Returns the
/// bit position after the profile; a field running past the input is
/// [`Error::GainProfileReadFailed`], with the runs of the entries read
/// before it filled.
pub fn decode_gains(data: &[u8], pos: u32, gains: &mut [i32; 8]) -> (r: core::result::Result<
    u32,
    Error,
>)
    requires
        data@.len() < 0x2000_0000,
    ensures
        final(gains)@ == gain_fill(gain_read(data@, pos as int).0).0,
        gain_read(data@, pos as int).2 ==> r == Ok::<u32, Error>(
            gain_read(data@, pos as int).1 as u32,
        ),
        !gain_read(data@, pos as int).2 ==> r == Err::<u32, Error>(Error::GainProfileReadFailed),
{
    let mut z: usize = 0;
    while z < GAIN_SLOTS
        invariant
            z <= 8,
            gains@.len() == 8,
            forall|t: int| 0 <= t < z ==> #[trigger] gains@[t] == 0,
        decreases 8 - z,
    {
        gains[z] = 0;
        z += 1;
    }
    assert(gains@ =~= gain_fill(Seq::<(u32, i32)>::empty()).0);
    let count = match core_read_unary(data, pos) {
        Ok(k) => k,
        Err(_) => {
            return Err(Error::GainProfileReadFailed);
        },
    };
    proof {
        let k = choose|k: int| one_at(data@, pos as int, k);
        lemma_one_at_unique(data@, pos as int, k, count as int);
    }
    let n: u32 = if count < 8 {
        count
    } else {
        8
    };
    let start: u32 = pos + count + 1;
    assert(gain_read(data@, pos as int) == entries_from(data@, start as int, n as nat));
    let mut q: u32 = start;
    let ghost mut entries: Seq<(u32, i32)> = Seq::empty();
    let mut last: usize = 0;
    let mut k: u32 = 0;
    while k < n
        invariant
            data@.len() < 0x2000_0000,
            n <= 8,
            k <= n,
            start <= data@.len() * 8,
            gain_read(data@, pos as int) == entries_from(data@, start as int, n as nat),
            entries_from(data@, start as int, k as nat) == (entries, q as int, true),
            gains@ == gain_fill(entries).0,
            last == gain_fill(entries).1,
        decreases n - k,
    {
        proof {
            lemma_gain_fill_next(entries);
            lemma_entries_position(data@, start as int, k as nat);
            vstd::arithmetic::power2::lemma2_to64();
        }
        let ghost prev = entries;
        let slot = match core_read_bits(data, q, 3) {
            Ok(v) => v,
            Err(_) => {
                proof {
                    assert(!entries_from(data@, start as int, (k + 1) as nat).2);
                    lemma_entries_fail_persists(data@, start as int, (k + 1) as nat, n as nat);
                }
                return Err(Error::GainProfileReadFailed);
            },
        };
        let flag = match core_read_bits(data, q + 3, 1) {
            Ok(v) => v,
            Err(_) => {
                proof {
                    assert(!entries_from(data@, start as int, (k + 1) as nat).2);
                    lemma_entries_fail_persists(data@, start as int, (k + 1) as nat, n as nat);
                }
                return Err(Error::GainProfileReadFailed);
            },
        };
        let value: i32 = if flag != 0 {
            match core_read_bits(data, q + 4, 4) {
                Ok(v) => {
                    proof {
                        crate::bitreader::lemma_bits_value_bound(data@, q + 4, 4);
                    }
                    (v as i32) - GAIN_VALUE_BIAS
                },
                Err(_) => {
                    proof {
                        assert(!entries_from(data@, start as int, (k + 1) as nat).2);
                        lemma_entries_fail_persists(
                            data@,
                            start as int,
                            (k + 1) as nat,
                            n as nat,
                        );
                    }
                    return Err(Error::GainProfileReadFailed);
                },
            }
        } else {
            -1
        };
        let next_q: u32 = if flag != 0 {
            q + 8
        } else {
            q + 4
        };
        last = fill_gain_run(gains, last, slot, value);
        proof {
            entries = entries.push((slot, value));
            assert(entries.drop_last() =~= prev);
            assert(entries_from(data@, start as int, (k + 1) as nat) == (
                entries,
                next_q as int,
                true,
            ));
        }
        q = next_q;
        k += 1;
    }
    Ok(q)
}

/// Twice the stored sizes of the `m` trailer bytes from byte `off`.
pub open spec fn trailer_total(payload: Seq<u8>, off: int, m: int) -> int
    decreases m,
{
    if m <= 0 {
        0
    } else {
        trailer_total(payload, off, m - 1) + 2 * payload[off + m - 1]
    }
}

/// The sizes of the `n` subpackets of a multichannel packet: the last
/// `n - 1` bytes store the sizes of subpackets `1..n`, halved; the first
/// subpacket takes what is left before them.
pub open spec fn packet_split(payload: Seq<u8>, n: int) -> Seq<int> {
    let t = payload.len() - (n - 1);
    Seq::new(
        n as nat,
        |i: int|
            if i == 0 {
                t - trailer_total(payload, t, n - 1)
            } else {
                2 * payload[t + i - 1]
            },
    )
}

/// Split a multichannel packet among its `n` subpackets by its size
/// trailer (see [`packet_split`]). A packet shorter than the trailer is
/// [`Error::SizeTrailerTooShort`]; stored sizes that, with the trailer,
/// exceed the packet are [`Error::SubpacketSizesExceedPayload`]. The sizes
/// returned and the trailer tile the packet.
pub fn split_packet_sizes(payload: &[u8], n: usize) -> (r: core::result::Result<Vec<usize>, Error>)
    requires
        n >= 1,
    ensures
        payload@.len() < n - 1 ==> r == Err::<Vec<usize>, Error>(
            Error::SizeTrailerTooShort { got: payload@.len() as usize, trailer: (n - 1) as usize },
        ),
        payload@.len() >= n - 1 && trailer_total(payload@, payload@.len() - (n - 1), n - 1)
            > payload@.len() - (n - 1) ==> r == Err::<Vec<usize>, Error>(
            Error::SubpacketSizesExceedPayload { payload_len: payload@.len() as usize },
        ),
        payload@.len() >= n - 1 && trailer_total(payload@, payload@.len() - (n - 1), n - 1)
            <= payload@.len() - (n - 1) ==> (r matches Ok(v) && v@.len() == n && (forall|i: int|
            0 <= i < n ==> #[trigger] v@[i] == packet_split(payload@, n as int)[i])),
{
    let len = payload.len();
    let trailer = n - 1;
    if len < trailer {
        return Err(Error::SizeTrailerTooShort { got: len, trailer });
    }
    let t = len - trailer;
    let mut sizes: Vec<usize> = Vec::new();
    sizes.push(0);
    let mut sum: usize = 0;
    let mut over = false;
    let mut i: usize = 0;
    while i < trailer
        invariant
            t + trailer == len,
            len == payload@.len(),
            i <= trailer,
            sizes@.len() == i + 1,
            forall|j: int| 1 <= j <= i ==> #[trigger] sizes@[j] == 2 * payload@[t + j - 1],
            !over ==> sum == trailer_total(payload@, t as int, i as int) && sum <= t,
            over ==> trailer_total(payload@, t as int, i as int) > t,
        decreases trailer - i,
    {
        let b2 = 2 * (payload[t + i] as usize);
        if !over {
            if b2 > t - sum {
                over = true;
            } else {
                sum = sum + b2;
            }
        }
        sizes.push(b2);
        i += 1;
    }
    if over {
        return Err(Error::SubpacketSizesExceedPayload { payload_len: len });
    }
    sizes.set(0, t - sum);
    proof {
        assert forall|k: int| 0 <= k < n implies #[trigger] sizes@[k] == packet_split(
            payload@,
            n as int,
        )[k] by {}
    }
    Ok(sizes)
}

/// The sum of the first `k` entries of `s`.
pub open spec fn prefix_total(s: Seq<int>, k: int) -> int
    decreases k,
{
    if k <= 0 {
        0
    } else {
        prefix_total(s, k - 1) + s[k - 1]
    }
}

proof fn lemma_split_prefix(payload: Seq<u8>, n: int, k: int)
    requires
        1 <= k <= n,
        n - 1 <= payload.len(),
    ensures
        prefix_total(packet_split(payload, n), k) == packet_split(payload, n)[0] + trailer_total(
            payload,
            payload.len() - (n - 1),
            k - 1,
        ),
    decreases k,
{
    let s = packet_split(payload, n);
    let t = payload.len() - (n - 1);
    assert(prefix_total(s, k) == prefix_total(s, k - 1) + s[k - 1]);
    if k > 1 {
        lemma_split_prefix(payload, n, k - 1);
        assert(s[k - 1] == 2 * payload[t + k - 2]);
        assert(trailer_total(payload, t, k - 1) == trailer_total(payload, t, k - 2) + 2 * payload[t
            + k - 2]);
    } else {
        assert(prefix_total(s, 0) == 0);
        assert(trailer_total(payload, t, 0) == 0);
    }
}

/// The subpacket sizes of a packet at least as long as its trailer,
/// together with the trailer, cover the packet exactly.
pub proof fn lemma_packet_split_tiles(payload: Seq<u8>, n: int)
    requires
        n >= 1,
        n - 1 <= payload.len(),
    ensures
        prefix_total(packet_split(payload, n), n) + (n - 1) == payload.len(),
{
    lemma_split_prefix(payload, n, n);
}

} // verus!
