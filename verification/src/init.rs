//! Decoder open configuration.
//!
//! `RAInitDecoder` consumes a descriptor (the `channels` divisor and the
//! sub-packet size), the extradata cookie and a named flavor record. This
//! module cross-checks them and derives the per-call geometry:
//! `sub_packets_per_call = frame_bytes / sub_packet_size` and
//! `pcm_bytes_per_call = sub_packets_per_call × samples_per_frame ×
//! channels × 2`.
use crate::cookie::{cookie_geometry, cookie_matches, CookCookie};
use crate::flavor::FlavorRecord;
use crate::Error;
use vstd::prelude::*;

verus! {

/// The `flags` value of a real decode call (bit 0 set).
pub const RADECODE_FLAGS_DECODE: u32 = 1;

/// Output sample format: 16-bit PCM, two bytes per sample.
pub const PCM_BYTES_PER_SAMPLE: u32 = 2;

/// The two descriptor scalars the geometry uses.
#[derive(Debug, Clone, Copy, PartialEq, Eq)]
pub struct Descriptor {
    /// Descriptor `+0x06`: the divisor recovering samples per frame from
    /// the cookie product.
    pub channels_divisor: u16,
    /// Descriptor `+0x0a`: bytes of coded payload per sub-packet.
    pub sub_packet_size: u16,
}

/// A fully-wired decoder configuration.
#[derive(Debug, Clone, Copy, PartialEq, Eq)]
pub struct DecodeConfig {
    /// Channel count.
    pub channels: u16,
    /// Sample rate in Hz.
    pub sample_rate_hz: u32,
    /// Samples per transform frame.
    pub samples_per_frame: u32,
    /// Number of coded subbands.
    pub subband_count: u16,
    /// Stereo / coupling mode.
    pub stereo_mode: u16,
    /// Per-call coded input size in bytes.
    pub frame_bytes: u32,
    /// Sub-packet size in bytes.
    pub sub_packet_size: u16,
    /// Sub-packets consumed by one call.
    pub sub_packets_per_call: u32,
    /// Steady-state PCM bytes per call.
    pub pcm_bytes_per_call: u32,
}

/// Whether every check of [`DecodeConfig::from_inputs`] passes, so that it
/// goes on to compute the PCM budget.
pub open spec fn config_checks_pass(
    cookie: CookCookie,
    descriptor: Descriptor,
    flavor: FlavorRecord,
    frame_bytes: u32,
) -> bool {
    &&& cookie_geometry(cookie) is Ok
    &&& descriptor.channels_divisor != 0
    &&& descriptor.sub_packet_size != 0
    &&& cookie_matches(cookie, flavor)
    &&& cookie.samples_per_frame_x_channels as int / descriptor.channels_divisor as int
        == flavor.samples_per_frame
    &&& frame_bytes as int % descriptor.sub_packet_size as int == 0
}

/// The steady-state PCM budget of a call, as an integer.
pub open spec fn pcm_budget(flavor: FlavorRecord, frame_bytes: u32, sub_packet_size: u16) -> int {
    (frame_bytes as int / sub_packet_size as int) * flavor.samples_per_frame * flavor.channels * 2
}

/// What [`DecodeConfig::from_inputs`] gives.
pub open spec fn decode_config_of(
    cookie: CookCookie,
    descriptor: Descriptor,
    flavor: FlavorRecord,
    frame_bytes: u32,
) -> core::result::Result<DecodeConfig, Error> {
    if cookie_geometry(cookie) is Err {
        Err(cookie_geometry(cookie)->Err_0)
    } else if descriptor.channels_divisor == 0 {
        Err(Error::ZeroDivisorChannels)
    } else if descriptor.sub_packet_size == 0 {
        Err(Error::ZeroDivisorSubPacketSize)
    } else if !cookie_matches(cookie, flavor) {
        Err(Error::CookieFlavorMismatch)
    } else if cookie.samples_per_frame_x_channels as int / descriptor.channels_divisor as int
        != flavor.samples_per_frame {
        Err(Error::CookieFlavorMismatch)
    } else if frame_bytes as int % descriptor.sub_packet_size as int != 0 {
        Err(
            Error::FrameNotDivisibleBySubPacket {
                frame_bytes,
                sub_packet_size: descriptor.sub_packet_size,
            },
        )
    } else {
        Ok(
            DecodeConfig {
                channels: cookie.channels,
                sample_rate_hz: flavor.sample_rate_hz,
                samples_per_frame: flavor.samples_per_frame,
                subband_count: cookie.subband_count,
                stereo_mode: cookie.stereo_mode,
                frame_bytes,
                sub_packet_size: descriptor.sub_packet_size,
                sub_packets_per_call: (frame_bytes as int / descriptor.sub_packet_size as int) as u32,
                pcm_bytes_per_call: pcm_budget(flavor, frame_bytes, descriptor.sub_packet_size) as u32,
            },
        )
    }
}

/// The first-call (warm-up) PCM bytes of a config: two frames' worth.
pub open spec fn warmup_bytes(c: DecodeConfig) -> int {
    2 * c.samples_per_frame * c.channels * PCM_BYTES_PER_SAMPLE
}

/// The PCM bytes emitted by the first `calls` calls.
pub open spec fn total_bytes(c: DecodeConfig, calls: int) -> int {
    if calls <= 0 {
        0
    } else {
        warmup_bytes(c) + (calls - 1) * c.pcm_bytes_per_call
    }
}

impl DecodeConfig {
    /// Wire cookie, descriptor and flavor into a config.
    ///
    /// Checks, in order: the cookie geometry; a zero channels divisor; a
    /// zero sub-packet size; the cookie describing the flavor; the
    /// descriptor-recovered samples per frame agreeing with the flavor's;
    /// `frame_bytes` dividing evenly into sub-packets.
    pub fn from_inputs(
        cookie: &CookCookie,
        descriptor: &Descriptor,
        flavor: &FlavorRecord,
        frame_bytes: u32,
    ) -> (r: core::result::Result<Self, Error>)
        requires
            config_checks_pass(*cookie, *descriptor, *flavor, frame_bytes) ==> pcm_budget(
                *flavor,
                frame_bytes,
                descriptor.sub_packet_size,
            ) <= u32::MAX,
        ensures
            r == decode_config_of(*cookie, *descriptor, *flavor, frame_bytes),
            r matches Ok(c) ==> c.sub_packets_per_call * c.sub_packet_size == c.frame_bytes
                && c.pcm_bytes_per_call == c.sub_packets_per_call * c.samples_per_frame
                * c.channels * PCM_BYTES_PER_SAMPLE && (c.channels == 1 || c.channels == 2),
    {
        match cookie.validate_geometry() {
            Ok(()) => {},
            Err(e) => {
                return Err(e);
            },
        }
        if descriptor.channels_divisor == 0 {
            return Err(Error::ZeroDivisorChannels);
        }
        if descriptor.sub_packet_size == 0 {
            return Err(Error::ZeroDivisorSubPacketSize);
        }
        if !cookie.matches_flavor(flavor) {
            return Err(Error::CookieFlavorMismatch);
        }
        let recovered_spf = cookie.samples_per_frame_x_channels as u32
            / descriptor.channels_divisor as u32;
        if recovered_spf != flavor.samples_per_frame {
            return Err(Error::CookieFlavorMismatch);
        }
        if frame_bytes % descriptor.sub_packet_size as u32 != 0 {
            return Err(
                Error::FrameNotDivisibleBySubPacket {
                    frame_bytes,
                    sub_packet_size: descriptor.sub_packet_size,
                },
            );
        }
        let sub_packets_per_call = frame_bytes / descriptor.sub_packet_size as u32;
        proof {
            let s = sub_packets_per_call as int;
            let f = flavor.samples_per_frame as int;
            let ch = flavor.channels as int;
            assert(ch == 1 || ch == 2);
            assert(0 <= s * f) by (nonlinear_arith)
                requires
                    0 <= s,
                    0 <= f,
            ;
            assert(s * f <= s * f * ch) by (nonlinear_arith)
                requires
                    0 <= s * f,
                    1 <= ch,
            ;
            assert(s * f * ch <= s * f * ch * 2) by (nonlinear_arith)
                requires
                    0 <= s * f * ch,
            ;
            assert(s * (descriptor.sub_packet_size as int) == frame_bytes as int) by (
            nonlinear_arith)
                requires
                    s == frame_bytes as int / descriptor.sub_packet_size as int,
                    frame_bytes as int % descriptor.sub_packet_size as int == 0,
                    descriptor.sub_packet_size > 0,
            ;
        }
        let pcm_bytes_per_call = sub_packets_per_call * flavor.samples_per_frame * flavor.channels
            * PCM_BYTES_PER_SAMPLE;
        Ok(
            DecodeConfig {
                channels: cookie.channels,
                sample_rate_hz: flavor.sample_rate_hz,
                samples_per_frame: flavor.samples_per_frame,
                subband_count: cookie.subband_count,
                stereo_mode: cookie.stereo_mode,
                frame_bytes,
                sub_packet_size: descriptor.sub_packet_size,
                sub_packets_per_call,
                pcm_bytes_per_call,
            },
        )
    }

    /// PCM bytes of `calls` steady-state calls (no warm-up).
    pub fn steady_state_pcm_bytes(&self, calls: u32) -> (n: u64)
        ensures
            n == calls * self.pcm_bytes_per_call,
    {
        proof {
            assert(calls as int * self.pcm_bytes_per_call as int <= u32::MAX as int * u32::MAX as int)
                by (nonlinear_arith)
                requires
                    calls <= u32::MAX,
                    self.pcm_bytes_per_call <= u32::MAX,
            ;
        }
        calls as u64 * self.pcm_bytes_per_call as u64
    }

    /// PCM bytes of the first (warm-up) call:
    /// `2 × samples_per_frame × channels × 2`.
    pub fn warmup_pcm_bytes(&self) -> (n: u64)
        ensures
            n == warmup_bytes(*self),
    {
        proof {
            let f = self.samples_per_frame as int;
            let ch = self.channels as int;
            assert(2 * f * ch * 2 <= 2 * (u32::MAX as int) * (u16::MAX as int) * 2)
                by (nonlinear_arith)
                requires
                    0 <= f <= u32::MAX,
                    0 <= ch <= u16::MAX,
            ;
            assert(0 <= f * ch) by (nonlinear_arith)
                requires
                    0 <= f,
                    0 <= ch,
            ;
        }
        2 * self.samples_per_frame as u64 * self.channels as u64 * PCM_BYTES_PER_SAMPLE as u64
    }

    /// PCM bytes of the first `calls` calls: nothing for none, otherwise the
    /// warm-up plus `calls - 1` steady-state budgets.
    pub fn total_pcm_bytes(&self, calls: u32) -> (n: u64)
        requires
            total_bytes(*self, calls as int) <= u64::MAX,
        ensures
            n == total_bytes(*self, calls as int),
    {
        if calls == 0 {
            return 0;
        }
        let warmup = self.warmup_pcm_bytes();
        proof {
            assert((calls as int - 1) * self.pcm_bytes_per_call as int <= u32::MAX as int
                * u32::MAX as int) by (nonlinear_arith)
                requires
                    0 <= calls as int - 1 <= u32::MAX,
                    self.pcm_bytes_per_call <= u32::MAX,
            ;
            assert(0 <= (calls as int - 1) * self.pcm_bytes_per_call as int) by (nonlinear_arith)
                requires
                    0 <= calls as int - 1,
            ;
        }
        let steady = (calls as u64 - 1) * self.pcm_bytes_per_call as u64;
        warmup + steady
    }
}

/// The PCM cadence: the first call emits the warm-up and every later call
/// one steady-state budget, so each call adds exactly its own budget to the
/// running total.
pub proof fn lemma_total_bytes_step(c: DecodeConfig, calls: int)
    requires
        calls >= 0,
    ensures
        total_bytes(c, calls + 1) == total_bytes(c, calls) + if calls == 0 {
            warmup_bytes(c)
        } else {
            c.pcm_bytes_per_call as int
        },
{
    if calls == 0 {
        assert(0 * c.pcm_bytes_per_call == 0) by (nonlinear_arith);
    } else {
        assert(calls * c.pcm_bytes_per_call == (calls - 1) * c.pcm_bytes_per_call
            + c.pcm_bytes_per_call) by (nonlinear_arith);
    }
}

} // verus!
