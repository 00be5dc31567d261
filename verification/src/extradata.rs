//! Cook codec-specific extradata parser.
//!
//! | size | mode                     | layout                        |
//! |------|--------------------------|-------------------------------|
//! |  8 B | MONO / STEREO            | 4 B cookversion + 2 B spf + 2 B subbands |
//! | 16 B | JOINT_STEREO             | 8 B above + 4 B unused + 2 B js_subband_start + 2 B js_vlc_bits |
//! | 80 B | MC_COOK                  | 20 B sub-blobs: 16 B blob + 4 B channel mask |
//!
//! All multi-byte values are big-endian. `samples_per_frame` is the total
//! over all channels of a subpacket.
use crate::cookie::{be16_at, be32_at};
use vstd::prelude::*;

verus! {

/// The big-endian `u16` at byte offset `off`.
fn read_be_u16(buf: &[u8], off: usize) -> (v: u16)
    requires
        off + 2 <= buf@.len(),
    ensures
        v == be16_at(buf@, off as int),
{
    (buf[off] as u16) * 256 + (buf[off + 1] as u16)
}

/// The big-endian `u32` at byte offset `off`.
fn read_be_u32(buf: &[u8], off: usize) -> (v: u32)
    requires
        off + 4 <= buf@.len(),
    ensures
        v == be32_at(buf@, off as int),
{
    (buf[off] as u32) * 0x100_0000 + (buf[off + 1] as u32) * 0x1_0000 + (buf[off + 2] as u32)
        * 0x100 + (buf[off + 3] as u32)
}

/// Largest accepted joint-stereo start subband.
pub const MAX_JS_SUBBAND_START: u32 = 50;

/// Largest accepted subband count.
pub const MAX_SUBBANDS: u32 = 50;

/// Largest accepted total of subbands and joint-stereo start.
pub const MAX_TOTAL_SUBBANDS: u32 = 53;

/// Why an extradata blob was rejected.
#[derive(Debug, Clone, Copy, PartialEq, Eq)]
pub enum ExtradataError {
    /// Shorter than the 8-byte minimum.
    TooShort { len: usize },
    /// A multichannel blob whose length is not a multiple of 20.
    MultichannelLengthNotMultipleOf20 { len: usize },
    /// An unknown cookversion.
    UnknownVersion { version: u32 },
    /// Shorter than the mode's layout.
    TooShortForMode { mode: CookMode, got: usize, need: usize },
    /// A joint-stereo start subband above 50.
    JsSubbandStartOutOfRange,
    /// A subband count outside `1..=50`.
    SubbandsOutOfRange,
    /// Subbands plus joint-stereo start above 53.
    TotalSubbandsOutOfRange,
    /// Joint-stereo VLC bits outside `2..=6`.
    JsVlcBitsOutOfRange,
    /// Samples per channel not one of 256, 512, 1024.
    SamplesPerChannelUnsupported { samples_per_channel: usize },
}

/// The stream mode.
#[derive(Debug, Clone, Copy, PartialEq, Eq)]
pub enum CookMode {
    /// `0x01000001`.
    Mono,
    /// `0x01000002`.
    Stereo,
    /// `0x01000003`.
    JointStereo,
    /// `0x02000000`.
    MultiChannel,
}

/// The mode of a cookversion.
pub open spec fn mode_of_version(v: u32) -> Option<CookMode> {
    if v == 0x0100_0001 {
        Some(CookMode::Mono)
    } else if v == 0x0100_0002 {
        Some(CookMode::Stereo)
    } else if v == 0x0100_0003 {
        Some(CookMode::JointStereo)
    } else if v == 0x0200_0000 {
        Some(CookMode::MultiChannel)
    } else {
        None
    }
}

/// The channels a mode emits per subpacket (`0` for multichannel, whose
/// sub-blobs carry a channel mask).
pub open spec fn mode_channels(m: CookMode) -> usize {
    match m {
        CookMode::Mono => 1,
        CookMode::Stereo => 2,
        CookMode::JointStereo => 2,
        CookMode::MultiChannel => 0,
    }
}

impl CookMode {
    fn from_version(v: u32) -> (r: core::result::Result<Self, ExtradataError>)
        ensures
            mode_of_version(v) is Some ==> r == Ok::<CookMode, ExtradataError>(
                mode_of_version(v)->Some_0,
            ),
            mode_of_version(v) is None ==> r == Err::<CookMode, ExtradataError>(
                ExtradataError::UnknownVersion { version: v },
            ),
    {
        match v {
            0x0100_0001 => Ok(CookMode::Mono),
            0x0100_0002 => Ok(CookMode::Stereo),
            0x0100_0003 => Ok(CookMode::JointStereo),
            0x0200_0000 => Ok(CookMode::MultiChannel),
            other => Err(ExtradataError::UnknownVersion { version: other }),
        }
    }

    /// Channels this mode emits per subpacket (`0` for multichannel).
    pub fn nb_channels(self) -> (n: usize)
        ensures
            n == mode_channels(self),
    {
        match self {
            CookMode::Mono => 1,
            CookMode::Stereo => 2,
            CookMode::JointStereo => 2,
            CookMode::MultiChannel => 0,
        }
    }

    /// Whether this is joint stereo.
    pub fn is_joint_stereo(self) -> (b: bool)
        ensures
            b == (self == CookMode::JointStereo),
    {
        match self {
            CookMode::JointStereo => true,
            _ => false,
        }
    }
}

/// One subpacket's parameters.
#[derive(Debug, Clone)]
pub struct SubpacketParams {
    /// The mode.
    pub mode: CookMode,
    /// Samples per frame over all channels.
    pub samples_per_frame: u32,
    /// Subband count.
    pub subbands: u32,
    /// Joint-stereo start subband.
    pub js_subband_start: u32,
    /// Joint-stereo VLC bits.
    pub js_vlc_bits: u32,
    /// Channel mask (multichannel only, else `0`).
    pub channel_mask: u32,
    /// Channels this subpacket emits.
    pub nb_channels: usize,
}

/// Samples per channel: the frame's samples over the channel count (at
/// least one).
pub open spec fn samples_per_channel_of(p: SubpacketParams) -> int {
    p.samples_per_frame as int / (if p.nb_channels >= 1 {
        p.nb_channels as int
    } else {
        1
    })
}

/// The validation outcome of a subpacket's parameters, checks in order.
pub open spec fn validation_of(p: SubpacketParams) -> core::result::Result<(), ExtradataError> {
    if p.js_subband_start > MAX_JS_SUBBAND_START {
        Err(ExtradataError::JsSubbandStartOutOfRange)
    } else if p.subbands == 0 || p.subbands > MAX_SUBBANDS {
        Err(ExtradataError::SubbandsOutOfRange)
    } else if p.subbands + p.js_subband_start > MAX_TOTAL_SUBBANDS {
        Err(ExtradataError::TotalSubbandsOutOfRange)
    } else if p.mode == CookMode::JointStereo && !(2 <= p.js_vlc_bits <= 6) {
        Err(ExtradataError::JsVlcBitsOutOfRange)
    } else if !(samples_per_channel_of(p) == 256 || samples_per_channel_of(p) == 512
        || samples_per_channel_of(p) == 1024) {
        Err(
            ExtradataError::SamplesPerChannelUnsupported {
                samples_per_channel: samples_per_channel_of(p) as usize,
            },
        )
    } else {
        Ok(())
    }
}

impl SubpacketParams {
    /// Per-channel transform length.
    pub fn samples_per_channel(&self) -> (n: usize)
        ensures
            n == samples_per_channel_of(*self),
    {
        let ch = if self.nb_channels >= 1 {
            self.nb_channels
        } else {
            1
        };
        (self.samples_per_frame as usize) / ch
    }

    /// Check the parameters: the joint-stereo start, the subband count,
    /// their total, the joint-stereo VLC bits, the samples per channel.
    pub fn validate(&self) -> (r: core::result::Result<(), ExtradataError>)
        ensures
            r == validation_of(*self),
    {
        if self.js_subband_start > MAX_JS_SUBBAND_START {
            return Err(ExtradataError::JsSubbandStartOutOfRange);
        }
        if self.subbands == 0 || self.subbands > MAX_SUBBANDS {
            return Err(ExtradataError::SubbandsOutOfRange);
        }
        let total = self.subbands + self.js_subband_start;
        if total > MAX_TOTAL_SUBBANDS {
            return Err(ExtradataError::TotalSubbandsOutOfRange);
        }
        if self.mode.is_joint_stereo() {
            if !(2 <= self.js_vlc_bits && self.js_vlc_bits <= 6) {
                return Err(ExtradataError::JsVlcBitsOutOfRange);
            }
        }
        let spc = self.samples_per_channel();
        if !(spc == 256 || spc == 512 || spc == 1024) {
            return Err(ExtradataError::SamplesPerChannelUnsupported { samples_per_channel: spc });
        }
        Ok(())
    }
}

/// The number of set bits.
pub open spec fn popcount(x: u32) -> nat
    decreases x,
{
    if x == 0 {
        0
    } else {
        (x % 2) as nat + popcount(x / 2)
    }
}

proof fn lemma_popcount_bound(x: u32, b: nat)
    requires
        x < vstd::arithmetic::power2::pow2(b),
    ensures
        popcount(x) <= b,
    decreases b,
{
    vstd::arithmetic::power2::lemma2_to64();
    if x != 0 {
        if b == 0 {
            assert(false);
        } else {
            vstd::arithmetic::power2::lemma_pow2_unfold(b);
            lemma_popcount_bound((x / 2) as u32, (b - 1) as nat);
        }
    }
}

fn count_ones(x: u32) -> (n: u32)
    ensures
        n == popcount(x),
{
    proof {
        vstd::arithmetic::power2::lemma2_to64();
        lemma_popcount_bound(x, 32);
    }
    let mut y = x;
    let mut n: u32 = 0;
    while y != 0
        invariant
            n + popcount(y) == popcount(x),
            popcount(x) <= 32,
        decreases y,
    {
        n = n + y % 2;
        y = y / 2;
    }
    n
}

/// The parameters of a 16-byte (or shorter) sub-blob under a default
/// mode: multichannel sub-blobs are joint stereo when their VLC bits
/// reach 2 and mono otherwise; other modes come from the blob's own
/// cookversion. The channel mask and count are left zero.
pub open spec fn sub_blob_of(buf: Seq<u8>, default_mode: CookMode) -> core::result::Result<
    SubpacketParams,
    ExtradataError,
> {
    let mode = if default_mode == CookMode::MultiChannel {
        if buf.len() >= 16 && be16_at(buf, 14) >= 2 {
            Some(CookMode::JointStereo)
        } else {
            Some(CookMode::Mono)
        }
    } else {
        mode_of_version(be32_at(buf, 0))
    };
    match mode {
        None => Err(ExtradataError::UnknownVersion { version: be32_at(buf, 0) }),
        Some(m) => Ok(
            SubpacketParams {
                mode: m,
                samples_per_frame: be16_at(buf, 4) as u32,
                subbands: be16_at(buf, 6) as u32,
                js_subband_start: if buf.len() >= 16 {
                    be16_at(buf, 12) as u32
                } else {
                    0
                },
                js_vlc_bits: if buf.len() >= 16 {
                    be16_at(buf, 14) as u32
                } else {
                    0
                },
                channel_mask: 0,
                nb_channels: 0,
            },
        ),
    }
}

fn parse_sub_blob_16(buf: &[u8], default_mode: CookMode) -> (r: core::result::Result<
    SubpacketParams,
    ExtradataError,
>)
    requires
        buf@.len() >= 8,
    ensures
        r == sub_blob_of(buf@, default_mode),
{
    let v = read_be_u32(buf, 0);
    let mode = match default_mode {
        CookMode::MultiChannel => {
            if buf.len() >= 16 {
                let js_vlc_bits = read_be_u16(buf, 14);
                if js_vlc_bits >= 2 {
                    CookMode::JointStereo
                } else {
                    CookMode::Mono
                }
            } else {
                CookMode::Mono
            }
        },
        _ => match CookMode::from_version(v) {
            Ok(m) => m,
            Err(e) => {
                return Err(e);
            },
        },
    };
    let samples_per_frame = read_be_u16(buf, 4) as u32;
    let subbands = read_be_u16(buf, 6) as u32;
    let (js_subband_start, js_vlc_bits) = if buf.len() >= 16 {
        (read_be_u16(buf, 12) as u32, read_be_u16(buf, 14) as u32)
    } else {
        (0, 0)
    };
    Ok(
        SubpacketParams {
            mode,
            samples_per_frame,
            subbands,
            js_subband_start,
            js_vlc_bits,
            channel_mask: 0,
            nb_channels: 0,
        },
    )
}

/// Multichannel sub-blob `i` of a blob: its parameters with the mask and
/// the mask's channel count (at least one).
pub open spec fn mc_sub_blob(blob: Seq<u8>, i: int) -> SubpacketParams {
    let off = 20 * i;
    let p = sub_blob_of(blob.subrange(off, off + 16), CookMode::MultiChannel)->Ok_0;
    let mask = be32_at(blob, off + 16);
    SubpacketParams {
        channel_mask: mask,
        nb_channels: if popcount(mask) >= 1 {
            popcount(mask) as usize
        } else {
            1
        },
        ..p
    }
}

/// The first `n` multichannel sub-blobs, stopping at the first that fails
/// validation.
pub open spec fn mc_parse(blob: Seq<u8>, n: int) -> core::result::Result<
    Seq<SubpacketParams>,
    ExtradataError,
>
    decreases n,
{
    if n <= 0 {
        Ok(Seq::empty())
    } else {
        match mc_parse(blob, n - 1) {
            Err(e) => Err(e),
            Ok(s) => match validation_of(mc_sub_blob(blob, n - 1)) {
                Err(e) => Err(e),
                Ok(_) => Ok(s.push(mc_sub_blob(blob, n - 1))),
            },
        }
    }
}

proof fn lemma_mc_parse_err_persists(blob: Seq<u8>, k: int, m: int)
    requires
        1 <= k <= m,
        mc_parse(blob, k) is Err,
    ensures
        mc_parse(blob, m) == mc_parse(blob, k),
    decreases m - k,
{
    if k < m {
        lemma_mc_parse_err_persists(blob, k, m - 1);
    }
}

proof fn lemma_mc_parse_ok(blob: Seq<u8>, n: int)
    requires
        n >= 0,
        mc_parse(blob, n) is Ok,
    ensures
        mc_parse(blob, n)->Ok_0.len() == n,
        forall|k: int| 0 <= k < n ==> #[trigger] mc_parse(blob, n)->Ok_0[k] == mc_sub_blob(blob, k),
    decreases n,
{
    if n > 0 {
        lemma_mc_parse_ok(blob, n - 1);
    }
}

/// In a multichannel blob (version bytes `02 00 00 00`, a whole number
/// of 20-byte sub-blobs) that parses, sub-blob `i` gives subpacket `i`:
/// a joint-stereo pair exactly when the big-endian 16-bit field at its
/// bytes `14..16` (its VLC bit count) is at least 2, mono otherwise; its
/// VLC bit count is that field and its channel mask the big-endian word
/// at its bytes `16..20`.
pub proof fn lemma_multichannel_sub_blob_modes(blob: Seq<u8>, i: int)
    requires
        blob.len() >= 20,
        blob.len() % 20 == 0,
        blob[0] == 2 && blob[1] == 0 && blob[2] == 0 && blob[3] == 0,
        extradata_of(blob) is Ok,
        0 <= i < blob.len() / 20,
    ensures
        extradata_of(blob)->Ok_0.len() == blob.len() / 20,
        (blob[20 * i + 14] as int) * 256 + (blob[20 * i + 15] as int) >= 2 ==> extradata_of(blob)->Ok_0[i].mode
            == CookMode::JointStereo,
        (blob[20 * i + 14] as int) * 256 + (blob[20 * i + 15] as int) < 2 ==> extradata_of(blob)->Ok_0[i].mode
            == CookMode::Mono,
        extradata_of(blob)->Ok_0[i].js_vlc_bits == blob[20 * i + 14] as int * 256 + blob[20 * i
            + 15] as int,
        extradata_of(blob)->Ok_0[i].channel_mask == blob[20 * i + 16] as int * 0x100_0000 + blob[20
            * i + 17] as int * 0x1_0000 + blob[20 * i + 18] as int * 0x100 + blob[20 * i + 19] as int,
        extradata_of(blob)->Ok_0[i].samples_per_frame == (blob[20 * i + 4] as int) * 256 + (blob[20
            * i + 5] as int),
        extradata_of(blob)->Ok_0[i].subbands == (blob[20 * i + 6] as int) * 256 + (blob[20 * i
            + 7] as int),
        extradata_of(blob)->Ok_0[i].js_subband_start == (blob[20 * i + 12] as int) * 256 + (blob[20
            * i + 13] as int),
{
    assert(be32_at(blob, 0) == 0x0200_0000);
    let n = blob.len() / 20;
    lemma_mc_parse_ok(blob, n as int);
    let off = 20 * i;
    let sub = blob.subrange(off, off + 16);
    assert(off + 20 <= blob.len()) by (nonlinear_arith)
        requires
            0 <= i < n,
            n == blob.len() / 20,
            blob.len() % 20 == 0,
            off == 20 * i,
    ;
    assert(sub[14] == blob[off + 14] && sub[15] == blob[off + 15]);
    assert(sub[4] == blob[off + 4] && sub[5] == blob[off + 5]);
    assert(sub[6] == blob[off + 6] && sub[7] == blob[off + 7]);
    assert(sub[12] == blob[off + 12] && sub[13] == blob[off + 13]);
    assert(sub.len() == 16);
}

/// A single-stream blob (version bytes `01 00 00 v`, `v` in `1..=3`)
/// that parses gives one subpacket: mono with one channel for `v == 1`,
/// stereo with two for `v == 2`, joint stereo with two for `v == 3`;
/// its samples per frame and subband count are the big-endian 16-bit
/// fields at bytes `4..6` and `6..8`, and for joint stereo its start
/// subband and VLC bit count those at bytes `12..14` and `14..16`.
pub proof fn lemma_single_stream_blob(blob: Seq<u8>)
    requires
        blob.len() >= 8,
        blob[0] == 1 && blob[1] == 0 && blob[2] == 0 && 1 <= blob[3] <= 3,
        extradata_of(blob) is Ok,
    ensures
        extradata_of(blob)->Ok_0.len() == 1,
        blob[3] == 1 ==> extradata_of(blob)->Ok_0[0].mode == CookMode::Mono
            && extradata_of(blob)->Ok_0[0].nb_channels == 1,
        blob[3] == 2 ==> extradata_of(blob)->Ok_0[0].mode == CookMode::Stereo
            && extradata_of(blob)->Ok_0[0].nb_channels == 2,
        blob[3] == 3 ==> extradata_of(blob)->Ok_0[0].mode == CookMode::JointStereo
            && extradata_of(blob)->Ok_0[0].nb_channels == 2 && extradata_of(blob)->Ok_0[0].js_subband_start
            == (blob[12] as int) * 256 + (blob[13] as int) && extradata_of(blob)->Ok_0[0].js_vlc_bits
            == (blob[14] as int) * 256 + (blob[15] as int),
        extradata_of(blob)->Ok_0[0].samples_per_frame == (blob[4] as int) * 256 + (blob[5] as int),
        extradata_of(blob)->Ok_0[0].subbands == (blob[6] as int) * 256 + (blob[7] as int),
{
    assert(be32_at(blob, 0) == 0x0100_0000 + blob[3]);
    let m = mode_of_version(be32_at(blob, 0))->Some_0;
    let sub = blob.subrange(0, needed_len(m) as int);
    assert(sub[4] == blob[4] && sub[5] == blob[5] && sub[6] == blob[6] && sub[7] == blob[7]);
    assert(sub[0] == blob[0] && sub[1] == blob[1] && sub[2] == blob[2] && sub[3] == blob[3]);
    assert(be32_at(sub, 0) == be32_at(blob, 0));
    if blob[3] == 3 {
        assert(sub[12] == blob[12] && sub[13] == blob[13] && sub[14] == blob[14] && sub[15]
            == blob[15]);
    }
}

/// The layout length a single-stream mode needs.
pub open spec fn needed_len(m: CookMode) -> usize {
    if m == CookMode::JointStereo {
        16
    } else {
        8
    }
}

/// What parsing a blob gives: its subpackets or the first rejection.
pub open spec fn extradata_of(blob: Seq<u8>) -> core::result::Result<
    Seq<SubpacketParams>,
    ExtradataError,
> {
    if blob.len() < 8 {
        Err(ExtradataError::TooShort { len: blob.len() as usize })
    } else if be32_at(blob, 0) == 0x0200_0000 {
        if blob.len() % 20 != 0 {
            Err(ExtradataError::MultichannelLengthNotMultipleOf20 { len: blob.len() as usize })
        } else {
            mc_parse(blob, (blob.len() / 20) as int)
        }
    } else {
        match mode_of_version(be32_at(blob, 0)) {
            None => Err(ExtradataError::UnknownVersion { version: be32_at(blob, 0) }),
            Some(m) => if blob.len() < needed_len(m) {
                Err(
                    ExtradataError::TooShortForMode {
                        mode: m,
                        got: blob.len() as usize,
                        need: needed_len(m),
                    },
                )
            } else {
                let p = SubpacketParams {
                    nb_channels: mode_channels(m),
                    ..sub_blob_of(blob.subrange(0, needed_len(m) as int), m)->Ok_0
                };
                match validation_of(p) {
                    Err(e) => Err(e),
                    Ok(_) => Ok(seq![p]),
                }
            },
        }
    }
}

/// The parsed extradata: one parameter set per subpacket.
#[derive(Debug, Clone)]
pub struct CookExtradata {
    /// The subpackets.
    pub subpackets: Vec<SubpacketParams>,
}

/// The channel total of the first `n` subpackets.
pub open spec fn channels_total(s: Seq<SubpacketParams>, n: int) -> int
    decreases n,
{
    if n <= 0 {
        0
    } else {
        channels_total(s, n - 1) + s[n - 1].nb_channels
    }
}

impl CookExtradata {
    /// Parse an extradata blob.
    pub fn parse(blob: &[u8]) -> (r: core::result::Result<Self, ExtradataError>)
        ensures
            extradata_of(blob@) is Err ==> r == Err::<CookExtradata, ExtradataError>(
                extradata_of(blob@)->Err_0,
            ),
            extradata_of(blob@) is Ok ==> (r matches Ok(x) && x.subpackets@ == extradata_of(
                blob@,
            )->Ok_0),
    {
        if blob.len() < 8 {
            return Err(ExtradataError::TooShort { len: blob.len() });
        }
        let v0 = read_be_u32(blob, 0);
        if v0 == 0x0200_0000 {
            if blob.len() % 20 != 0 {
                return Err(ExtradataError::MultichannelLengthNotMultipleOf20 { len: blob.len() });
            }
            let n = blob.len() / 20;
            let mut subpackets: Vec<SubpacketParams> = Vec::new();
            let mut i: usize = 0;
            while i < n
                invariant
                    n == blob@.len() / 20,
                    blob@.len() % 20 == 0,
                    blob@.len() >= 8,
                    be32_at(blob@, 0) == 0x0200_0000,
                    i <= n,
                    mc_parse(blob@, i as int) == Ok::<Seq<SubpacketParams>, ExtradataError>(
                        subpackets@,
                    ),
                decreases n - i,
            {
                let blen = blob.len();
                assert(i * 20 + 20 <= blen) by (nonlinear_arith)
                    requires
                        i < n,
                        n == blen / 20,
                ;
                let off = i * 20;
                let sub = &blob[off..off + 16];
                let s = match parse_sub_blob_16(sub, CookMode::MultiChannel) {
                    Ok(p) => p,
                    Err(e) => {
                        return Err(e);
                    },
                };
                let mask = read_be_u32(blob, off + 16);
                let chans = count_ones(mask) as usize;
                let sp = SubpacketParams {
                    mode: s.mode,
                    samples_per_frame: s.samples_per_frame,
                    subbands: s.subbands,
                    js_subband_start: s.js_subband_start,
                    js_vlc_bits: s.js_vlc_bits,
                    channel_mask: mask,
                    nb_channels: if chans >= 1 {
                        chans
                    } else {
                        1
                    },
                };
                assert(sp == mc_sub_blob(blob@, i as int));
                match sp.validate() {
                    Ok(_) => {},
                    Err(e) => {
                        proof {
                            assert(mc_parse(blob@, i as int + 1) == Err::<
                                Seq<SubpacketParams>,
                                ExtradataError,
                            >(e));
                            lemma_mc_parse_err_persists(blob@, i as int + 1, n as int);
                        }
                        return Err(e);
                    },
                }
                subpackets.push(sp);
                i += 1;
            }
            return Ok(CookExtradata { subpackets });
        }
        let mode = match CookMode::from_version(v0) {
            Ok(m) => m,
            Err(e) => {
                return Err(e);
            },
        };
        let needed: usize = match mode {
            CookMode::JointStereo => 16,
            _ => 8,
        };
        if blob.len() < needed {
            return Err(ExtradataError::TooShortForMode { mode, got: blob.len(), need: needed });
        }
        let head = &blob[0..needed];
        let s = match parse_sub_blob_16(head, mode) {
            Ok(p) => p,
            Err(e) => {
                return Err(e);
            },
        };
        let sp = SubpacketParams {
            mode: s.mode,
            samples_per_frame: s.samples_per_frame,
            subbands: s.subbands,
            js_subband_start: s.js_subband_start,
            js_vlc_bits: s.js_vlc_bits,
            channel_mask: s.channel_mask,
            nb_channels: mode.nb_channels(),
        };
        match sp.validate() {
            Ok(_) => {},
            Err(e) => {
                return Err(e);
            },
        }
        let mut subpackets: Vec<SubpacketParams> = Vec::new();
        subpackets.push(sp);
        assert(subpackets@ =~= seq![sp]);
        Ok(CookExtradata { subpackets })
    }

    /// Total channels over all subpackets.
    pub fn total_channels(&self) -> (n: usize)
        requires
            channels_total(self.subpackets@, self.subpackets@.len() as int) <= usize::MAX,
        ensures
            n == channels_total(self.subpackets@, self.subpackets@.len() as int),
    {
        let mut acc: usize = 0;
        let mut i: usize = 0;
        while i < self.subpackets.len()
            invariant
                i <= self.subpackets@.len(),
                channels_total(self.subpackets@, self.subpackets@.len() as int) <= usize::MAX,
                acc == channels_total(self.subpackets@, i as int),
            decreases self.subpackets@.len() - i,
        {
            proof {
                lemma_channels_total_prefix(self.subpackets@, i as int + 1, self.subpackets@.len() as int);
            }
            acc = acc + self.subpackets[i].nb_channels;
            i += 1;
        }
        acc
    }
}

proof fn lemma_channels_total_prefix(s: Seq<SubpacketParams>, n: int, m: int)
    requires
        0 <= n <= m <= s.len(),
    ensures
        channels_total(s, n) <= channels_total(s, m),
    decreases m - n,
{
    if n < m {
        lemma_channels_total_prefix(s, n, m - 1);
    }
}

} // verus!
