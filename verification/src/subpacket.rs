//! Per-call sub-packet split and PCM offset accounting.
//!
//! A decode call's `frame_bytes`-byte input is partitioned into
//! `sub_packets_per_call` consecutive slots of `sub_packet_size` bytes.
//! The first call emits the warm-up PCM budget and every later call the
//! steady-state one.
use crate::init::{warmup_bytes, DecodeConfig};
use crate::Error;
use vstd::prelude::*;

verus! {

/// The per-call input partition and PCM cadence of a configuration.
#[derive(Debug, Clone, Copy, PartialEq, Eq)]
pub struct SubPacketLayout {
    /// Per-call input length.
    pub frame_bytes: u32,
    /// Bytes per sub-packet slot.
    pub sub_packet_size: u16,
    /// Slots per call.
    pub sub_packets_per_call: u32,
    /// Steady-state PCM bytes per call.
    pub pcm_bytes_per_call: u32,
    /// PCM bytes of the first call.
    pub warmup_pcm_bytes: u32,
}

/// The layout a configuration determines.
pub open spec fn layout_of(c: DecodeConfig) -> SubPacketLayout {
    SubPacketLayout {
        frame_bytes: c.frame_bytes,
        sub_packet_size: c.sub_packet_size,
        sub_packets_per_call: c.sub_packets_per_call,
        pcm_bytes_per_call: c.pcm_bytes_per_call,
        warmup_pcm_bytes: warmup_bytes(c) as u32,
    }
}

/// The PCM byte offset at which call `k` starts: nothing before call 0,
/// the warm-up plus `k - 1` steady budgets otherwise.
pub open spec fn pcm_offset(l: SubPacketLayout, k: int) -> int {
    if k <= 0 {
        0
    } else {
        l.warmup_pcm_bytes + (k - 1) * l.pcm_bytes_per_call
    }
}

/// Slot `i` of a call input: bytes `[i × size, (i + 1) × size)`.
pub open spec fn slot_of(input: Seq<u8>, size: int, i: int) -> Seq<u8> {
    input.subrange(i * size, (i + 1) * size)
}

impl SubPacketLayout {
    /// The layout of a configuration.
    pub fn from_config(config: &DecodeConfig) -> (l: Self)
        requires
            warmup_bytes(*config) <= u32::MAX,
        ensures
            l == layout_of(*config),
    {
        let w = config.warmup_pcm_bytes();
        SubPacketLayout {
            frame_bytes: config.frame_bytes,
            sub_packet_size: config.sub_packet_size,
            sub_packets_per_call: config.sub_packets_per_call,
            pcm_bytes_per_call: config.pcm_bytes_per_call,
            warmup_pcm_bytes: w as u32,
        }
    }

    /// Split one call's input into its slots.
    ///
    /// The input must be exactly `frame_bytes` long; the slots are the
    /// consecutive `sub_packet_size`-byte pieces, `sub_packets_per_call` of
    /// them.
    pub fn iter_call<'b>(&self, input: &'b [u8]) -> (r: core::result::Result<Vec<&'b [u8]>, Error>)
        requires
            self.sub_packets_per_call * self.sub_packet_size <= self.frame_bytes,
        ensures
            input@.len() != self.frame_bytes ==> r == Err::<Vec<&'b [u8]>, Error>(
                Error::SubPacketInputLengthMismatch {
                    got: input@.len() as usize,
                    expected: self.frame_bytes as usize,
                },
            ),
            input@.len() == self.frame_bytes ==> (r matches Ok(v) && v@.len()
                == self.sub_packets_per_call && forall|i: int|
                0 <= i < v@.len() ==> #[trigger] v@[i]@ == slot_of(
                    input@,
                    self.sub_packet_size as int,
                    i,
                )),
    {
        if input.len() != self.frame_bytes as usize {
            return Err(
                Error::SubPacketInputLengthMismatch {
                    got: input.len(),
                    expected: self.frame_bytes as usize,
                },
            );
        }
        let size = self.sub_packet_size as usize;
        let mut v: Vec<&'b [u8]> = Vec::new();
        let mut i: u32 = 0;
        while i < self.sub_packets_per_call
            invariant
                self.sub_packets_per_call * self.sub_packet_size <= self.frame_bytes,
                input@.len() == self.frame_bytes,
                size == self.sub_packet_size,
                i <= self.sub_packets_per_call,
                v@.len() == i,
                forall|j: int| 0 <= j < i ==> #[trigger] v@[j]@ == slot_of(input@, size as int, j),
            decreases self.sub_packets_per_call - i,
        {
            proof {
                assert((i as int + 1) * size <= self.sub_packets_per_call as int * size)
                    by (nonlinear_arith)
                    requires
                        i < self.sub_packets_per_call,
                        0 <= size,
                ;
                assert((i as int + 1) * size == i as int * size + size) by (nonlinear_arith);
            }
            let start = (i as usize) * size;
            let end = start + size;
            v.push(&input[start..end]);
            i += 1;
        }
        Ok(v)
    }

    /// The PCM byte offset at which call `call` starts.
    pub fn pcm_offset_for_call(&self, call: u32) -> (n: u64)
        ensures
            n == pcm_offset(*self, call as int),
    {
        if call == 0 {
            return 0;
        }
        proof {
            assert((call as int - 1) * self.pcm_bytes_per_call as int <= u32::MAX as int
                * u32::MAX as int) by (nonlinear_arith)
                requires
                    0 <= call as int - 1 <= u32::MAX,
                    self.pcm_bytes_per_call <= u32::MAX,
            ;
            assert(0 <= (call as int - 1) * self.pcm_bytes_per_call as int) by (nonlinear_arith)
                requires
                    0 <= call as int - 1,
            ;
        }
        self.warmup_pcm_bytes as u64 + (call as u64 - 1) * self.pcm_bytes_per_call as u64
    }

    /// The byte range of slot `slot` inside a call's input:
    /// `[slot × size, (slot + 1) × size)`; an error for a slot at or past
    /// `sub_packets_per_call`.
    pub fn slot_byte_range(&self, slot: u32) -> (r: core::result::Result<core::ops::Range<usize>, Error>)
        requires
            self.sub_packets_per_call * self.sub_packet_size <= self.frame_bytes,
        ensures
            slot >= self.sub_packets_per_call ==> r == Err::<core::ops::Range<usize>, Error>(
                Error::SlotOutOfRange { slot, slots_per_call: self.sub_packets_per_call },
            ),
            slot < self.sub_packets_per_call ==> (r matches Ok(rg) && rg.start == slot
                * self.sub_packet_size && rg.end == (slot + 1) * self.sub_packet_size),
    {
        if slot >= self.sub_packets_per_call {
            return Err(Error::SlotOutOfRange { slot, slots_per_call: self.sub_packets_per_call });
        }
        proof {
            assert((slot as int + 1) * self.sub_packet_size <= self.sub_packets_per_call as int
                * self.sub_packet_size) by (nonlinear_arith)
                requires
                    slot < self.sub_packets_per_call,
            ;
            assert((slot as int + 1) * self.sub_packet_size == slot as int * self.sub_packet_size
                + self.sub_packet_size) by (nonlinear_arith);
        }
        let size = self.sub_packet_size as usize;
        let start = (slot as usize) * size;
        Ok(start..start + size)
    }

    /// The byte range of call `call`'s input in the stream:
    /// `[call × frame_bytes, (call + 1) × frame_bytes)`.
    pub fn call_byte_range(&self, call: u32) -> (r: core::ops::Range<u64>)
        ensures
            r.start == call * self.frame_bytes,
            r.end == (call + 1) * self.frame_bytes,
    {
        proof {
            assert((call as int + 1) * self.frame_bytes <= 0x1_0000_0000 * 0xFFFF_FFFF)
                by (nonlinear_arith)
                requires
                    call <= 0xFFFF_FFFF,
                    self.frame_bytes <= 0xFFFF_FFFF,
            ;
            assert((call as int + 1) * self.frame_bytes == call as int * self.frame_bytes
                + self.frame_bytes) by (nonlinear_arith);
            assert(0 <= call as int * self.frame_bytes) by (nonlinear_arith);
        }
        let fb = self.frame_bytes as u64;
        let start = (call as u64) * fb;
        start..start + fb
    }
}

} // verus!
