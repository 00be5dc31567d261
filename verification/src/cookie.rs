//! Extradata "cookie" parser.
//!
//! The per-stream extradata blob is read big-endian. Its leading 32-bit
//! value is a selector; only the extended selector `0x01000003` is decoded
//! here, with this 16-byte grid:
//!
//! | Bytes      | Field                              |
//! | ---------- | ---------------------------------- |
//! | `[0..4]`   | u32 selector                       |
//! | `[4..6]`   | u16 samples_per_frame × channels   |
//! | `[6..8]`   | u16 subband count                  |
//! | `[8..12]`  | u32 reserved / sub-selector        |
//! | `[12..14]` | u16 channels                       |
//! | `[14..16]` | u16 stereo / coupling mode         |
use crate::flavor::FlavorRecord;
use crate::Error;
use vstd::prelude::*;

verus! {

/// Selector boundary: the extended cookie layout this parser consumes.
pub const SELECTOR_EXTENDED: u32 = 0x0100_0003;

/// Number of cookie bytes consumed by the extended layout.
pub const EXTENDED_COOKIE_LEN: usize = 16;

/// Big-endian 16-bit value at byte offset `o`.
pub open spec fn be16_at(s: Seq<u8>, o: int) -> u16 {
    (s[o] as int * 256 + s[o + 1] as int) as u16
}

/// Big-endian 32-bit value at byte offset `o`.
pub open spec fn be32_at(s: Seq<u8>, o: int) -> u32 {
    (s[o] as int * 0x100_0000 + s[o + 1] as int * 0x1_0000 + s[o + 2] as int * 0x100 + s[o
        + 3] as int) as u32
}

pub(crate) fn read_be16(s: &[u8], o: usize) -> (v: u16)
    requires
        o + 2 <= s@.len(),
    ensures
        v == be16_at(s@, o as int),
{
    (s[o] as u16) * 256 + (s[o + 1] as u16)
}

pub(crate) fn read_be32(s: &[u8], o: usize) -> (v: u32)
    requires
        o + 4 <= s@.len(),
    ensures
        v == be32_at(s@, o as int),
{
    (s[o] as u32) * 0x100_0000 + (s[o + 1] as u32) * 0x1_0000 + (s[o + 2] as u32) * 0x100 + (s[o
        + 3] as u32)
}

/// Backend-factory classification of a cookie's leading selector.
#[derive(Debug, Clone, Copy, PartialEq, Eq)]
pub enum SelectorFamily {
    /// `0x01000001`, `0x01000002`, `0x01000003` — the mono/stereo decoder.
    MonoStereo,
    /// `0x02000000` — the multichannel backend.
    Multichannel,
    /// Another value the factory would accept (never produced by
    /// [`SelectorFamily::classify`], whose accepted set is the two above).
    Other,
    /// A selector the backend factory rejects.
    Unsupported,
}

/// The family of a selector value.
pub open spec fn selector_family(selector: u32) -> SelectorFamily {
    if 0x0100_0001 <= selector <= 0x0100_0003 {
        SelectorFamily::MonoStereo
    } else if selector == 0x0200_0000 {
        SelectorFamily::Multichannel
    } else {
        SelectorFamily::Unsupported
    }
}

impl SelectorFamily {
    /// Classify a 32-bit selector by backend family: `0x01000001..=0x01000003`
    /// is mono/stereo, `0x02000000` multichannel, anything else unsupported.
    pub fn classify(selector: u32) -> (f: SelectorFamily)
        ensures
            f == selector_family(selector),
    {
        if 0x0100_0001 <= selector && selector <= 0x0100_0003 {
            SelectorFamily::MonoStereo
        } else if selector == 0x0200_0000 {
            SelectorFamily::Multichannel
        } else {
            SelectorFamily::Unsupported
        }
    }

    /// Whether [`CookCookie::parse`] decodes a cookie with this selector:
    /// only the extended selector.
    pub fn is_parser_supported(selector: u32) -> (b: bool)
        ensures
            b == (selector == SELECTOR_EXTENDED),
    {
        selector == SELECTOR_EXTENDED
    }
}

/// Parsed extended-selector extradata cookie.
#[derive(Debug, Clone, Copy, PartialEq, Eq)]
pub struct CookCookie {
    /// 32-bit selector.
    pub selector: u32,
    /// `samples_per_frame × channels`.
    pub samples_per_frame_x_channels: u16,
    /// Number of coded subbands.
    pub subband_count: u16,
    /// Reserved / sub-selector field.
    pub reserved: u32,
    /// Channel count.
    pub channels: u16,
    /// Stereo / coupling mode.
    pub stereo_mode: u16,
}

/// The structural geometry check: the first failing of a zero
/// samples product, a zero subband count and a channel count outside
/// `{1, 2}`.
pub open spec fn cookie_geometry(c: CookCookie) -> core::result::Result<(), Error> {
    if c.samples_per_frame_x_channels == 0 {
        Err(Error::CookieZeroSamplesProduct)
    } else if c.subband_count == 0 {
        Err(Error::CookieZeroSubbandCount)
    } else if c.channels != 1 && c.channels != 2 {
        Err(Error::CookieInvalidChannels { got: c.channels })
    } else {
        Ok(())
    }
}

/// The extended-layout fields of a blob of at least 16 bytes.
pub open spec fn cookie_fields(blob: Seq<u8>) -> CookCookie {
    CookCookie {
        selector: be32_at(blob, 0),
        samples_per_frame_x_channels: be16_at(blob, 4),
        subband_count: be16_at(blob, 6),
        reserved: be32_at(blob, 8),
        channels: be16_at(blob, 12),
        stereo_mode: be16_at(blob, 14),
    }
}

/// What parsing `blob` gives.
pub open spec fn cookie_parse(blob: Seq<u8>) -> core::result::Result<CookCookie, Error> {
    if blob.len() < 16 {
        Err(Error::CookieTooShort { got: blob.len() as usize })
    } else {
        let selector = be32_at(blob, 0);
        if selector == SELECTOR_EXTENDED {
            let c = cookie_fields(blob);
            match cookie_geometry(c) {
                Ok(_) => Ok(c),
                Err(e) => Err(e),
            }
        } else if selector_family(selector) == SelectorFamily::MonoStereo {
            Err(Error::NonExtendedSelectorNotSupported { selector })
        } else if selector_family(selector) == SelectorFamily::Multichannel {
            Err(Error::MultichannelSelectorNotSupported { selector })
        } else {
            Err(Error::UnsupportedSelector { selector })
        }
    }
}

/// Samples per frame recovered from a cookie: the product over the
/// channel count, none for zero channels.
pub open spec fn cookie_samples_per_frame(c: CookCookie) -> Option<u32> {
    if c.channels == 0 {
        None
    } else {
        Some((c.samples_per_frame_x_channels as int / c.channels as int) as u32)
    }
}

/// Whether a cookie self-describes a flavor record.
pub open spec fn cookie_matches(c: CookCookie, r: FlavorRecord) -> bool {
    &&& c.channels as u32 == r.channels
    &&& c.subband_count as u32 == r.subband_count
    &&& c.stereo_mode as u32 == r.stereo_mode
    &&& cookie_samples_per_frame(c) == Some(r.samples_per_frame)
}

impl CookCookie {
    /// Parse an extended-selector cookie from `blob`.
    ///
    /// A blob under 16 bytes is too short; a selector other than the
    /// extended one is rejected with its family's error; an extended cookie
    /// whose geometry fails [`CookCookie::validate_geometry`] is rejected
    /// with that error. Every returned cookie is geometry-well-formed and of
    /// the mono/stereo family.
    pub fn parse(blob: &[u8]) -> (r: core::result::Result<Self, Error>)
        ensures
            r == cookie_parse(blob@),
            r matches Ok(c) ==> cookie_geometry(c) is Ok && selector_family(c.selector)
                == SelectorFamily::MonoStereo,
    {
        if blob.len() < EXTENDED_COOKIE_LEN {
            return Err(Error::CookieTooShort { got: blob.len() });
        }
        let selector = read_be32(blob, 0);
        if selector == SELECTOR_EXTENDED {
            let candidate = CookCookie {
                selector,
                samples_per_frame_x_channels: read_be16(blob, 4),
                subband_count: read_be16(blob, 6),
                reserved: read_be32(blob, 8),
                channels: read_be16(blob, 12),
                stereo_mode: read_be16(blob, 14),
            };
            match candidate.validate_geometry() {
                Ok(()) => Ok(candidate),
                Err(e) => Err(e),
            }
        } else {
            match SelectorFamily::classify(selector) {
                SelectorFamily::MonoStereo => Err(Error::NonExtendedSelectorNotSupported { selector }),
                SelectorFamily::Multichannel => Err(
                    Error::MultichannelSelectorNotSupported { selector },
                ),
                _ => Err(Error::UnsupportedSelector { selector }),
            }
        }
    }

    /// The structural geometry check: a zero samples product, then a zero
    /// subband count, then a channel count outside `{1, 2}` — the first
    /// failure is reported.
    pub fn validate_geometry(&self) -> (r: core::result::Result<(), Error>)
        ensures
            r == cookie_geometry(*self),
    {
        if self.samples_per_frame_x_channels == 0 {
            return Err(Error::CookieZeroSamplesProduct);
        }
        if self.subband_count == 0 {
            return Err(Error::CookieZeroSubbandCount);
        }
        if self.channels != 1 && self.channels != 2 {
            return Err(Error::CookieInvalidChannels { got: self.channels });
        }
        Ok(())
    }

    /// The selector's backend family.
    pub fn family(&self) -> (f: SelectorFamily)
        ensures
            f == selector_family(self.selector),
    {
        SelectorFamily::classify(self.selector)
    }

    /// Samples per frame: the `[4..6]` product divided by the channel count
    /// (none for zero channels).
    pub fn samples_per_frame(&self) -> (r: Option<u32>)
        ensures
            r == cookie_samples_per_frame(*self),
    {
        if self.channels == 0 {
            return None;
        }
        Some(self.samples_per_frame_x_channels as u32 / self.channels as u32)
    }

    /// Whether this cookie describes the same configuration as `record`:
    /// channels, subband count, stereo mode and recovered samples per frame
    /// all agree.
    pub fn matches_flavor(&self, record: &FlavorRecord) -> (b: bool)
        ensures
            b == cookie_matches(*self, *record),
    {
        let spf = self.samples_per_frame();
        self.channels as u32 == record.channels && self.subband_count as u32
            == record.subband_count && self.stereo_mode as u32 == record.stereo_mode
            && match spf {
            Some(v) => v == record.samples_per_frame,
            None => false,
        }
    }
}

} // verus!
