//! Decode-call sequence state: the call counter and the PCM cursor.
//!
//! Each call must supply exactly `frame_bytes` of input and fill exactly
//! the call's PCM budget — the warm-up on the first call, the steady-state
//! budget afterwards. Accounting a completed call validates both lengths
//! and advances the counter and the cursor.
use crate::init::{warmup_bytes, DecodeConfig};
use crate::subpacket::{layout_of, pcm_offset, SubPacketLayout};
use crate::Error;
use vstd::prelude::*;

verus! {

/// The running per-call accounting of a stream.
#[derive(Debug, Clone, Copy, PartialEq, Eq)]
pub struct CallSession {
    layout: SubPacketLayout,
    calls_completed: u32,
    total_pcm_emitted: u64,
}

/// The PCM budget of the next call after `calls` completed calls.
pub open spec fn call_budget(l: SubPacketLayout, calls: int) -> u32 {
    if calls == 0 {
        l.warmup_pcm_bytes
    } else {
        l.pcm_bytes_per_call
    }
}

impl CallSession {
    /// The layout.
    pub closed spec fn layout_spec(&self) -> SubPacketLayout {
        self.layout
    }

    /// Calls accounted so far.
    pub closed spec fn calls(&self) -> u32 {
        self.calls_completed
    }

    /// PCM bytes accounted so far.
    pub closed spec fn emitted(&self) -> u64 {
        self.total_pcm_emitted
    }

    /// The cursor is the PCM offset of the next call.
    #[verifier::type_invariant]
    closed spec fn cursor_at_offset(self) -> bool {
        self.total_pcm_emitted == pcm_offset(self.layout, self.calls_completed as int)
    }

    /// A fresh session for a configuration.
    pub fn from_config(config: &DecodeConfig) -> (s: Self)
        requires
            warmup_bytes(*config) <= u32::MAX,
        ensures
            s.layout_spec() == layout_of(*config),
            s.calls() == 0,
            s.emitted() == 0,
    {
        CallSession {
            layout: SubPacketLayout::from_config(config),
            calls_completed: 0,
            total_pcm_emitted: 0,
        }
    }

    /// The layout.
    pub fn layout(&self) -> (l: SubPacketLayout)
        ensures
            l == self.layout_spec(),
    {
        self.layout
    }

    /// Calls accounted so far.
    pub fn calls_completed(&self) -> (n: u32)
        ensures
            n == self.calls(),
    {
        self.calls_completed
    }

    /// PCM bytes accounted so far.
    pub fn total_pcm_emitted(&self) -> (n: u64)
        ensures
            n == self.emitted(),
            n == pcm_offset(self.layout_spec(), self.calls() as int),
    {
        proof {
            use_type_invariant(self);
        }
        self.total_pcm_emitted
    }

    /// The input length the next call must supply (`frame_bytes`).
    pub fn next_call_expected_input_len(&self) -> (n: u32)
        ensures
            n == self.layout_spec().frame_bytes,
    {
        self.layout.frame_bytes
    }

    /// The PCM budget of the next call: the warm-up for the first call, the
    /// steady-state budget afterwards.
    pub fn next_call_pcm_bytes(&self) -> (n: u32)
        ensures
            n == call_budget(self.layout_spec(), self.calls() as int),
    {
        if self.calls_completed == 0 {
            self.layout.warmup_pcm_bytes
        } else {
            self.layout.pcm_bytes_per_call
        }
    }

    /// The byte range the next call's PCM occupies in the output stream.
    pub fn next_call_pcm_byte_range(&self) -> (r: core::ops::Range<u64>)
        ensures
            r.start == self.emitted(),
            r.end == self.emitted() + call_budget(self.layout_spec(), self.calls() as int),
    {
        proof {
            use_type_invariant(self);
            lemma_cursor_is_pcm_offset(self.layout, self.calls_completed as int);
            lemma_offset_bound(self.layout, self.calls_completed as int + 1);
        }
        let start = self.total_pcm_emitted;
        let end = start + self.next_call_pcm_bytes() as u64;
        start..end
    }

    /// Account one completed call: the input must be `frame_bytes` long and
    /// the output the call's PCM budget; then the counter advances by one
    /// and the cursor by the output length. A rejected call changes
    /// nothing.
    pub fn advance_one_call(&mut self, input_len: usize, output_len: usize) -> (r: core::result::Result<(), Error>)
        requires
            old(self).calls() < u32::MAX,
        ensures
            final(self).layout_spec() == old(self).layout_spec(),
            input_len != old(self).layout_spec().frame_bytes ==> r == Err::<(), Error>(
                Error::CallInputLengthMismatch {
                    got: input_len,
                    expected: old(self).layout_spec().frame_bytes as usize,
                },
            ) && *final(self) == *old(self),
            input_len == old(self).layout_spec().frame_bytes && output_len != call_budget(
                old(self).layout_spec(),
                old(self).calls() as int,
            ) ==> r == Err::<(), Error>(
                Error::CallOutputLengthMismatch {
                    got: output_len,
                    expected: call_budget(old(self).layout_spec(), old(self).calls() as int) as usize,
                },
            ) && *final(self) == *old(self),
            input_len == old(self).layout_spec().frame_bytes && output_len == call_budget(
                old(self).layout_spec(),
                old(self).calls() as int,
            ) ==> r is Ok && final(self).calls() == old(self).calls() + 1 && final(self).emitted()
                == old(self).emitted() + output_len,
    {
        let expected_in = self.layout.frame_bytes as usize;
        if input_len != expected_in {
            return Err(Error::CallInputLengthMismatch { got: input_len, expected: expected_in });
        }
        let expected_out = self.next_call_pcm_bytes() as usize;
        if output_len != expected_out {
            return Err(Error::CallOutputLengthMismatch { got: output_len, expected: expected_out });
        }
        proof {
            use_type_invariant(&*self);
            lemma_cursor_is_pcm_offset(self.layout, self.calls_completed as int);
            lemma_offset_bound(self.layout, self.calls_completed as int + 1);
        }
        let calls = self.calls_completed + 1;
        let emitted = self.total_pcm_emitted + output_len as u64;
        *self = CallSession { layout: self.layout, calls_completed: calls, total_pcm_emitted: emitted };
        Ok(())
    }
}

/// Walking `k` accepted calls from a fresh session places the cursor at
/// the layout's PCM offset of call `k`.
pub proof fn lemma_cursor_is_pcm_offset(l: SubPacketLayout, k: int)
    requires
        k >= 0,
    ensures
        pcm_offset(l, k + 1) == pcm_offset(l, k) + call_budget(l, k),
{
    if k > 0 {
        assert(k * l.pcm_bytes_per_call == (k - 1) * l.pcm_bytes_per_call + l.pcm_bytes_per_call)
            by (nonlinear_arith);
    } else {
        assert(0 * l.pcm_bytes_per_call == 0) by (nonlinear_arith);
    }
}

/// The PCM offset of any call fits in 64 bits.
proof fn lemma_offset_bound(l: SubPacketLayout, k: int)
    requires
        0 <= k <= u32::MAX + 1,
    ensures
        0 <= pcm_offset(l, k) <= u64::MAX,
{
    if k > 0 {
        assert(0 <= (k - 1) * l.pcm_bytes_per_call <= u32::MAX * u32::MAX) by (nonlinear_arith)
            requires
                0 <= k - 1 <= u32::MAX,
                l.pcm_bytes_per_call <= u32::MAX,
        ;
    }
}

} // verus!
