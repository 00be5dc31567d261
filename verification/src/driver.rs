//! The per-call decode driver: descramble, sub-packet split, backend gate
//! and PCM cadence.
//!
//! Each call validates its input length against `frame_bytes`, optionally
//! runs the XOR descramble (common mode), splits the input into its
//! sub-packet slots, hands the backend frame decode the bit
//! `(~flags) & 1`, and accounts the call: warm-up PCM on the first call,
//! the steady-state budget afterwards.
//!
//! On the observe gate (`flags` bit 0 clear) the backend emits zeroed
//! output independent of the input. On the decode gate the frame walk
//! reads the head frame's 6-bit segment-count field (biased by `6`) and
//! then stops at the spectral codebook, whose bytes are not available.
use crate::bitreader::{bits_value, FrameBitReader};
use crate::descramble::{descramble_packet, descrambled, CommonMode};
use crate::init::{total_bytes, warmup_bytes, DecodeConfig, RADECODE_FLAGS_DECODE};
use crate::session::{call_budget, CallSession};
use crate::subpacket::{layout_of, slot_of, SubPacketLayout};
use crate::Error;
use std::borrow::Cow;
use vstd::prelude::*;

verus! {

/// The backend frame-decode gate derived from the call's `flags`.
#[derive(Debug, Clone, Copy, PartialEq, Eq)]
pub enum DecodeGate {
    /// `flags` bit 0 set: the backend decodes the bitstream.
    Decode,
    /// `flags` bit 0 clear: the backend emits zeroed output independent
    /// of the input.
    Observe,
}

/// The decode or observe selection of a call: only bit 0 counts.
pub open spec fn gate_of(flags: u32) -> DecodeGate {
    if flags & 1 == 1 {
        DecodeGate::Decode
    } else {
        DecodeGate::Observe
    }
}

/// The bit forwarded to the backend for a gate.
pub open spec fn gate_bit(g: DecodeGate) -> u32 {
    match g {
        DecodeGate::Decode => 0,
        DecodeGate::Observe => 1,
    }
}

/// The forwarded gate bit is literally `(~flags) & 1`.
pub proof fn lemma_gate_bit_is_inverted_bit_zero(flags: u32)
    ensures
        gate_bit(gate_of(flags)) == (!flags) & 1,
{
    assert((flags & 1 == 1) ==> ((!flags) & 1) == 0) by (bit_vector);
    assert((flags & 1 != 1) ==> ((!flags) & 1) == 1) by (bit_vector);
}

impl DecodeGate {
    /// The selection made by a raw call argument.
    pub fn from_flags(flags: u32) -> (g: Self)
        ensures
            g == gate_of(flags),
    {
        if flags & 1 == 1 {
            DecodeGate::Decode
        } else {
            DecodeGate::Observe
        }
    }

    /// The bit forwarded to the backend: `0` for decode, `1` for observe.
    pub fn backend_gate_bit(self) -> (b: u32)
        ensures
            b == gate_bit(self),
    {
        match self {
            DecodeGate::Decode => 0,
            DecodeGate::Observe => 1,
        }
    }

    /// Whether the backend performs the real bitstream decode.
    pub fn is_decode(self) -> (b: bool)
        ensures
            b == (self == DecodeGate::Decode),
    {
        match self {
            DecodeGate::Decode => true,
            DecodeGate::Observe => false,
        }
    }
}

/// The bias of the head frame's 6-bit segment-count field.
pub const SEGMENT_COUNT_BIAS: u32 = 6;

/// The 6-bit field at the head of a frame: the top six bits of the
/// input, or `0` when the input holds fewer than six bits.
pub open spec fn head_field(frame: Seq<u8>) -> u32 {
    if frame.len() * 8 >= 6 {
        bits_value(frame, 0, 6) as u32
    } else {
        0
    }
}

/// What the decode gate reports for a head frame: the segment count
/// biased negative, or else the spectral-codebook blocker the walk
/// reaches after it.
pub open spec fn decode_gate_error(frame: Seq<u8>) -> Error {
    if head_field(frame) < SEGMENT_COUNT_BIAS {
        Error::GainSegmentCountUnderflow { raw: head_field(frame) }
    } else {
        Error::SpectralCodebookBytesUnavailable
    }
}

/// The bytes a call hands to the backend: descrambled when common mode is
/// on, the packet itself otherwise.
pub open spec fn call_bytes(mode: CommonMode, packet: Seq<u8>, key: u32) -> Seq<u8> {
    if mode.0 {
        descrambled(packet, key)
    } else {
        packet
    }
}

/// Whether a configuration's sizes are consistent: the slots fit in the
/// call input and the warm-up budget fits in 32 bits.
pub open spec fn config_consistent(c: DecodeConfig) -> bool {
    &&& c.sub_packets_per_call * c.sub_packet_size <= c.frame_bytes
    &&& warmup_bytes(c) <= u32::MAX
}

/// Read the head frame's segment-count field and remove its bias.
fn read_head_segment_count(frame: &[u8]) -> (r: core::result::Result<u32, Error>)
    ensures
        head_field(frame@) < SEGMENT_COUNT_BIAS ==> r == Err::<u32, Error>(
            Error::GainSegmentCountUnderflow { raw: head_field(frame@) },
        ),
        head_field(frame@) >= SEGMENT_COUNT_BIAS ==> r == Ok::<u32, Error>(
            (head_field(frame@) - SEGMENT_COUNT_BIAS) as u32,
        ),
{
    let limit: u32 = if frame.len() >= 0x2000_0000 {
        u32::MAX
    } else {
        (frame.len() * 8) as u32
    };
    let mut reader = FrameBitReader::with_bit_limit(frame, limit);
    let raw = reader.read_bits(6);
    proof {
        if frame@.len() * 8 >= 6 {
            crate::bitreader::lemma_bits_value_bound(frame@, 0, 6);
        } else {
            assert(frame@.len() == 0);
        }
    }
    if raw < SEGMENT_COUNT_BIAS {
        Err(Error::GainSegmentCountUnderflow { raw })
    } else {
        Ok(raw - SEGMENT_COUNT_BIAS)
    }
}

/// The per-call decode driver.
#[derive(Debug, Clone, Copy, PartialEq, Eq)]
pub struct Driver {
    config: DecodeConfig,
    common_mode: CommonMode,
    session: CallSession,
}

impl Driver {
    /// The wired configuration.
    pub closed spec fn config_spec(&self) -> DecodeConfig {
        self.config
    }

    /// The common-mode state.
    pub closed spec fn mode(&self) -> CommonMode {
        self.common_mode
    }

    /// Calls completed so far.
    pub closed spec fn calls(&self) -> u32 {
        self.session.calls()
    }

    /// PCM bytes emitted so far.
    pub closed spec fn emitted(&self) -> u64 {
        self.session.emitted()
    }

    /// The session follows the configuration's layout, and the
    /// configuration's sizes are consistent.
    #[verifier::type_invariant]
    closed spec fn inv(self) -> bool {
        &&& self.session.layout_spec() == layout_of(self.config)
        &&& config_consistent(self.config)
    }

    /// A fresh driver: no call completed, common mode off.
    pub fn new(config: DecodeConfig) -> (d: Self)
        requires
            config_consistent(config),
        ensures
            d.config_spec() == config,
            !d.mode().0,
            d.calls() == 0,
            d.emitted() == 0,
    {
        let session = CallSession::from_config(&config);
        Driver { config, common_mode: CommonMode::off(), session }
    }

    /// A fresh driver for any configuration: the configuration's slots
    /// must fit in its call input, else
    /// [`Error::FrameNotDivisibleBySubPacket`], and its warm-up budget must
    /// fit in 32 bits, else [`Error::WarmupBudgetOverflow`]; otherwise the
    /// driver [`Driver::new`] builds.
    pub fn try_new(config: DecodeConfig) -> (r: core::result::Result<Self, Error>)
        ensures
            config.sub_packets_per_call * config.sub_packet_size > config.frame_bytes ==> r
                == Err::<Self, Error>(
                Error::FrameNotDivisibleBySubPacket {
                    frame_bytes: config.frame_bytes,
                    sub_packet_size: config.sub_packet_size,
                },
            ),
            config.sub_packets_per_call * config.sub_packet_size <= config.frame_bytes
                && warmup_bytes(config) > u32::MAX ==> r == Err::<Self, Error>(
                Error::WarmupBudgetOverflow { warmup_bytes: warmup_bytes(config) as u64 },
            ),
            config_consistent(config) ==> (r matches Ok(d) && d.config_spec() == config
                && !d.mode().0 && d.calls() == 0 && d.emitted() == 0),
    {
        let spc = config.sub_packets_per_call as u64;
        let size = config.sub_packet_size as u64;
        assert(spc * size <= 0xFFFF_FFFF * 0xFFFF) by (nonlinear_arith)
            requires
                spc <= 0xFFFF_FFFF,
                size <= 0xFFFF,
        ;
        if spc * size > config.frame_bytes as u64 {
            return Err(
                Error::FrameNotDivisibleBySubPacket {
                    frame_bytes: config.frame_bytes,
                    sub_packet_size: config.sub_packet_size,
                },
            );
        }
        let warmup = config.warmup_pcm_bytes();
        if warmup > u32::MAX as u64 {
            return Err(Error::WarmupBudgetOverflow { warmup_bytes: warmup });
        }
        Ok(Driver::new(config))
    }

    /// The same driver with the given initial common mode.
    pub fn with_common_mode(self, mode: CommonMode) -> (d: Self)
        ensures
            d.config_spec() == self.config_spec(),
            d.mode() == mode,
            d.calls() == self.calls(),
            d.emitted() == self.emitted(),
    {
        proof {
            use_type_invariant(&self);
        }
        Driver { config: self.config, common_mode: mode, session: self.session }
    }

    /// The wired configuration.
    pub fn config(&self) -> (c: &DecodeConfig)
        ensures
            *c == self.config_spec(),
    {
        &self.config
    }

    /// The current common mode.
    pub fn common_mode(&self) -> (m: CommonMode)
        ensures
            m == self.mode(),
    {
        self.common_mode
    }

    /// Set the common mode.
    pub fn set_common_mode(&mut self, mode: CommonMode)
        ensures
            final(self).mode() == mode,
            final(self).config_spec() == old(self).config_spec(),
            final(self).calls() == old(self).calls(),
            final(self).emitted() == old(self).emitted(),
    {
        proof {
            use_type_invariant(&*self);
        }
        self.common_mode = mode;
    }

    /// The per-call layout of the configuration.
    pub fn layout(&self) -> (l: SubPacketLayout)
        ensures
            l == layout_of(self.config_spec()),
    {
        proof {
            use_type_invariant(self);
        }
        self.session.layout()
    }

    /// Calls completed so far.
    pub fn calls_completed(&self) -> (n: u32)
        ensures
            n == self.calls(),
    {
        self.session.calls_completed()
    }

    /// PCM bytes emitted so far: always the configuration's PCM total for
    /// the calls completed, whatever sequence of calls led here.
    pub fn total_pcm_emitted(&self) -> (n: u64)
        ensures
            n == self.emitted(),
            n == total_bytes(self.config_spec(), self.calls() as int),
    {
        proof {
            use_type_invariant(self);
        }
        self.session.total_pcm_emitted()
    }

    /// The input length the next call must supply.
    pub fn next_call_expected_input_len(&self) -> (n: u32)
        ensures
            n == self.config_spec().frame_bytes,
    {
        proof {
            use_type_invariant(self);
        }
        self.session.next_call_expected_input_len()
    }

    /// The PCM budget of the next call.
    pub fn next_call_pcm_bytes(&self) -> (n: u32)
        ensures
            n == call_budget(layout_of(self.config_spec()), self.calls() as int),
    {
        proof {
            use_type_invariant(self);
        }
        self.session.next_call_pcm_bytes()
    }

    /// The byte range of the next call's PCM in the output stream.
    pub fn next_call_pcm_byte_range(&self) -> (r: core::ops::Range<u64>)
        ensures
            r.start == self.emitted(),
            r.end == self.emitted() + call_budget(
                layout_of(self.config_spec()),
                self.calls() as int,
            ),
    {
        proof {
            use_type_invariant(self);
        }
        self.session.next_call_pcm_byte_range()
    }

    /// Validate one call's input length and descramble it; the session
    /// does not move.
    pub fn prepare_call<'a>(&self, packet: &'a [u8], xor_key: u32) -> (r: core::result::Result<
        PreparedCall<'a>,
        Error,
    >)
        ensures
            packet@.len() != self.config_spec().frame_bytes ==> r == Err::<PreparedCall<'a>, Error>(
                Error::CallInputLengthMismatch {
                    got: packet@.len() as usize,
                    expected: self.config_spec().frame_bytes as usize,
                },
            ),
            packet@.len() == self.config_spec().frame_bytes ==> (r matches Ok(p) && p.bytes()
                == call_bytes(self.mode(), packet@, xor_key) && p.layout_spec() == layout_of(
                self.config_spec(),
            ) && p.is_owned() == self.mode().0),
    {
        proof {
            use_type_invariant(self);
        }
        let expected = self.session.next_call_expected_input_len() as usize;
        if packet.len() != expected {
            return Err(Error::CallInputLengthMismatch { got: packet.len(), expected });
        }
        let bytes = descramble_packet(self.common_mode, packet, xor_key);
        Ok(PreparedCall { descrambled: bytes, layout: self.session.layout() })
    }

    /// Validate one call whose PCM is synthesized from supplied frame
    /// spectra, before any synthesis: the input length, then the output
    /// length against the call's PCM budget, then one spectrum per
    /// sub-packet. The session does not move; once the synthesis has
    /// filled the output, [`Driver::advance_after_decode`] accounts the
    /// call.
    pub fn prepare_synthesized_call<'a>(
        &self,
        packet: &'a [u8],
        output_len: usize,
        frame_count: usize,
        xor_key: u32,
    ) -> (r: core::result::Result<PreparedCall<'a>, Error>)
        ensures
            packet@.len() != self.config_spec().frame_bytes ==> r == Err::<PreparedCall<'a>, Error>(
                Error::CallInputLengthMismatch {
                    got: packet@.len() as usize,
                    expected: self.config_spec().frame_bytes as usize,
                },
            ),
            packet@.len() == self.config_spec().frame_bytes && output_len != call_budget(
                layout_of(self.config_spec()),
                self.calls() as int,
            ) ==> r == Err::<PreparedCall<'a>, Error>(
                Error::CallOutputLengthMismatch {
                    got: output_len,
                    expected: call_budget(layout_of(self.config_spec()), self.calls() as int) as usize,
                },
            ),
            packet@.len() == self.config_spec().frame_bytes && output_len == call_budget(
                layout_of(self.config_spec()),
                self.calls() as int,
            ) && frame_count != self.config_spec().sub_packets_per_call ==> r == Err::<
                PreparedCall<'a>,
                Error,
            >(
                Error::FrameSpectrumCountMismatch {
                    got: frame_count,
                    expected: self.config_spec().sub_packets_per_call as usize,
                },
            ),
            packet@.len() == self.config_spec().frame_bytes && output_len == call_budget(
                layout_of(self.config_spec()),
                self.calls() as int,
            ) && frame_count == self.config_spec().sub_packets_per_call ==> (r matches Ok(p)
                && p.bytes() == call_bytes(self.mode(), packet@, xor_key) && p.layout_spec()
                == layout_of(self.config_spec()) && p.is_owned() == self.mode().0),
    {
        proof {
            use_type_invariant(self);
        }
        let prepared = match self.prepare_call(packet, xor_key) {
            Ok(p) => p,
            Err(e) => {
                return Err(e);
            },
        };
        let expected_out = self.session.next_call_pcm_bytes() as usize;
        if output_len != expected_out {
            return Err(Error::CallOutputLengthMismatch { got: output_len, expected: expected_out });
        }
        let spc = prepared.sub_packets_per_call() as usize;
        if frame_count != spc {
            return Err(Error::FrameSpectrumCountMismatch { got: frame_count, expected: spc });
        }
        Ok(prepared)
    }

    /// Account one completed call whose PCM the caller produced.
    pub fn advance_after_decode(&mut self, output_len: usize) -> (r: core::result::Result<
        (),
        Error,
    >)
        requires
            old(self).calls() < u32::MAX,
        ensures
            final(self).config_spec() == old(self).config_spec(),
            final(self).mode() == old(self).mode(),
            output_len != call_budget(layout_of(old(self).config_spec()), old(self).calls() as int)
                ==> r == Err::<(), Error>(
                Error::CallOutputLengthMismatch {
                    got: output_len,
                    expected: call_budget(
                        layout_of(old(self).config_spec()),
                        old(self).calls() as int,
                    ) as usize,
                },
            ) && final(self).calls() == old(self).calls() && final(self).emitted() == old(
                self,
            ).emitted(),
            output_len == call_budget(layout_of(old(self).config_spec()), old(self).calls() as int)
                ==> r is Ok && final(self).calls() == old(self).calls() + 1 && final(self).emitted()
                == old(self).emitted() + output_len,
    {
        proof {
            use_type_invariant(&*self);
        }
        let input_len = self.session.next_call_expected_input_len() as usize;
        let mut session = self.session;
        let r = session.advance_one_call(input_len, output_len);
        self.session = session;
        r
    }

    /// One decode call on the real-decode gate.
    pub fn decode_call(&mut self, packet: &[u8], output: &mut [u8], xor_key: u32) -> (r:
        core::result::Result<(), Error>)
        requires
            old(self).calls() < u32::MAX,
        ensures
            final(self).config_spec() == old(self).config_spec(),
            final(self).mode() == old(self).mode(),
            final(output)@ == old(output)@,
            final(self).calls() == old(self).calls(),
            final(self).emitted() == old(self).emitted(),
            packet@.len() != old(self).config_spec().frame_bytes ==> r == Err::<(), Error>(
                Error::CallInputLengthMismatch {
                    got: packet@.len() as usize,
                    expected: old(self).config_spec().frame_bytes as usize,
                },
            ),
            packet@.len() == old(self).config_spec().frame_bytes && old(output)@.len()
                != call_budget(layout_of(old(self).config_spec()), old(self).calls() as int)
                ==> r == Err::<(), Error>(
                Error::CallOutputLengthMismatch {
                    got: old(output)@.len() as usize,
                    expected: call_budget(
                        layout_of(old(self).config_spec()),
                        old(self).calls() as int,
                    ) as usize,
                },
            ),
            packet@.len() == old(self).config_spec().frame_bytes && old(output)@.len()
                == call_budget(layout_of(old(self).config_spec()), old(self).calls() as int)
                ==> r == Err::<(), Error>(
                decode_gate_error(call_bytes(old(self).mode(), packet@, xor_key)),
            ),
    {
        assert(RADECODE_FLAGS_DECODE & 1 == 1) by (bit_vector);
        self.decode_call_with_flags(packet, output, xor_key, RADECODE_FLAGS_DECODE)
    }

    /// One decode call with the raw `flags` argument.
    ///
    /// Checks the input length, then the output length against the
    /// call's PCM budget; a failed check changes nothing. On the observe
    /// gate the output is zero-filled and the call is accounted. On the
    /// decode gate the head frame is walked up to the spectral codebook
    /// blocker; the session does not move and the output is untouched.
    pub fn decode_call_with_flags(
        &mut self,
        packet: &[u8],
        output: &mut [u8],
        xor_key: u32,
        flags: u32,
    ) -> (r: core::result::Result<(), Error>)
        requires
            old(self).calls() < u32::MAX,
        ensures
            final(self).config_spec() == old(self).config_spec(),
            final(self).mode() == old(self).mode(),
            packet@.len() != old(self).config_spec().frame_bytes ==> r == Err::<(), Error>(
                Error::CallInputLengthMismatch {
                    got: packet@.len() as usize,
                    expected: old(self).config_spec().frame_bytes as usize,
                },
            ) && final(self).calls() == old(self).calls() && final(self).emitted() == old(
                self,
            ).emitted() && final(output)@ == old(output)@,
            packet@.len() == old(self).config_spec().frame_bytes && old(output)@.len()
                != call_budget(layout_of(old(self).config_spec()), old(self).calls() as int)
                ==> r == Err::<(), Error>(
                Error::CallOutputLengthMismatch {
                    got: old(output)@.len() as usize,
                    expected: call_budget(
                        layout_of(old(self).config_spec()),
                        old(self).calls() as int,
                    ) as usize,
                },
            ) && final(self).calls() == old(self).calls() && final(self).emitted() == old(
                self,
            ).emitted() && final(output)@ == old(output)@,
            packet@.len() == old(self).config_spec().frame_bytes && old(output)@.len()
                == call_budget(layout_of(old(self).config_spec()), old(self).calls() as int)
                && gate_of(flags) == DecodeGate::Observe ==> r is Ok && final(output)@ == Seq::new(
                old(output)@.len(),
                |i: int| 0u8,
            ) && final(self).calls() == old(self).calls() + 1 && final(self).emitted() == old(
                self,
            ).emitted() + old(output)@.len(),
            packet@.len() == old(self).config_spec().frame_bytes && old(output)@.len()
                == call_budget(layout_of(old(self).config_spec()), old(self).calls() as int)
                && gate_of(flags) == DecodeGate::Decode ==> r == Err::<(), Error>(
                decode_gate_error(call_bytes(old(self).mode(), packet@, xor_key)),
            ) && final(self).calls() == old(self).calls() && final(self).emitted() == old(
                self,
            ).emitted() && final(output)@ == old(output)@,
    {
        proof {
            use_type_invariant(&*self);
        }
        let prepared = match self.prepare_call(packet, xor_key) {
            Ok(p) => p,
            Err(e) => {
                return Err(e);
            },
        };
        let expected_out = self.session.next_call_pcm_bytes() as usize;
        if output.len() != expected_out {
            return Err(Error::CallOutputLengthMismatch { got: output.len(), expected: expected_out });
        }
        match DecodeGate::from_flags(flags) {
            DecodeGate::Observe => {
                let n = output.len();
                let mut i: usize = 0;
                while i < n
                    invariant
                        n == output@.len(),
                        i <= n,
                        forall|j: int| 0 <= j < i ==> #[trigger] output@[j] == 0u8,
                    decreases n - i,
                {
                    output[i] = 0u8;
                    i += 1;
                }
                assert(output@ =~= Seq::new(n as nat, |j: int| 0u8));
                let mut session = self.session;
                let r = session.advance_one_call(packet.len(), n);
                self.session = session;
                r
            },
            DecodeGate::Decode => {
                let head = prepared.descrambled();
                match read_head_segment_count(head) {
                    Err(e) => Err(e),
                    Ok(_) => Err(Error::SpectralCodebookBytesUnavailable),
                }
            },
        }
    }
}

/// One call's validated, descrambled input and its layout.
#[derive(Debug)]
pub struct PreparedCall<'a> {
    descrambled: Cow<'a, [u8]>,
    layout: SubPacketLayout,
}

impl<'a> PreparedCall<'a> {
    /// The descrambled bytes.
    pub closed spec fn bytes(&self) -> Seq<u8> {
        self.descrambled@
    }

    /// The layout.
    pub closed spec fn layout_spec(&self) -> SubPacketLayout {
        self.layout
    }

    /// Whether the bytes are an owned copy (common mode on) rather than
    /// the borrowed input.
    pub closed spec fn is_owned(&self) -> bool {
        self.descrambled is Owned
    }

    /// The bytes fill the call and the slots fit in it.
    #[verifier::type_invariant]
    closed spec fn inv(self) -> bool {
        &&& self.descrambled@.len() == self.layout.frame_bytes
        &&& self.layout.sub_packets_per_call * self.layout.sub_packet_size
            <= self.layout.frame_bytes
    }

    /// The descrambled per-call input.
    pub fn descrambled(&self) -> (b: &[u8])
        ensures
            b@ == self.bytes(),
            b@.len() == self.layout_spec().frame_bytes,
    {
        proof {
            use_type_invariant(self);
        }
        match &self.descrambled {
            Cow::Borrowed(b) => *b,
            Cow::Owned(o) => o.as_slice(),
        }
    }

    /// Sub-packets per call.
    pub fn sub_packets_per_call(&self) -> (n: u32)
        ensures
            n == self.layout_spec().sub_packets_per_call,
    {
        self.layout.sub_packets_per_call
    }

    /// Sub-packet size in bytes.
    pub fn sub_packet_size(&self) -> (n: u16)
        ensures
            n == self.layout_spec().sub_packet_size,
    {
        self.layout.sub_packet_size
    }

    /// The sub-packet slots of the call, in slot order; every one is
    /// present.
    pub fn iter_sub_packets(&self) -> (v: Vec<core::result::Result<&[u8], Error>>)
        ensures
            v@.len() == self.layout_spec().sub_packets_per_call,
            forall|i: int|
                0 <= i < v@.len() ==> (#[trigger] v@[i] matches Ok(s) && s@ == slot_of(
                    self.bytes(),
                    self.layout_spec().sub_packet_size as int,
                    i,
                )),
    {
        proof {
            use_type_invariant(self);
        }
        let bytes = self.descrambled();
        let mut out: Vec<core::result::Result<&[u8], Error>> = Vec::new();
        match self.layout.iter_call(bytes) {
            Ok(slots) => {
                let mut i: usize = 0;
                while i < slots.len()
                    invariant
                        i <= slots@.len(),
                        out@.len() == i,
                        forall|j: int|
                            0 <= j < i ==> (#[trigger] out@[j] matches Ok(s) && s@ == slots@[j]@),
                    decreases slots@.len() - i,
                {
                    out.push(Ok(slots[i]));
                    i += 1;
                }
            },
            Err(_) => {},
        }
        out
    }

    /// The layout.
    pub fn layout(&self) -> (l: SubPacketLayout)
        ensures
            l == self.layout_spec(),
    {
        self.layout
    }
}

} // verus!
