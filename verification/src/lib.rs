//! RealAudio Cook audio codec: the stream-configuration front end and the
//! integer decode-pipeline stages, with their behaviour stated as Verus
//! contracts.
//!
//! The crate covers the extradata cookie parser, the flavor geometry
//! records, the open-time decode configuration, the per-call driver
//! (descramble, sub-packet split, PCM cadence), the MSB-first frame bit
//! reader, the frame-head read, the category-assignment bit allocator, the
//! spectral Huffman walk, the index decomposition and the dither generator.

pub mod assembler;
pub mod bit_alloc;
pub mod bitreader;
pub mod categorise;
pub mod category;
pub mod category_assignment;
pub mod codebook;
pub mod cookie;
pub mod decoder;
pub mod descramble;
pub mod driver;
pub mod error_text;
pub mod extradata;
pub mod coupling;
pub mod coupling_control;
pub mod flavor;
pub mod flavor_property;
pub mod frame;
pub mod gain;
pub mod index_decomp;
pub mod init;
pub mod lfg;
pub mod quantiser;
pub mod reciprocal;
pub mod session;
pub mod subpacket;
pub mod text;

use vstd::prelude::*;

verus! {

/// Crate-local error type.
#[derive(Debug, Clone, PartialEq, Eq)]
pub enum Error {
    /// Reserved placeholder for not-yet-implemented decode paths.
    NotImplemented,
    /// An extradata cookie blob was shorter than the layout requires.
    CookieTooShort { got: usize },
    /// An extradata cookie carried a selector the backend factory rejects.
    UnsupportedSelector { selector: u32 },
    /// A mono/stereo sibling selector (`0x01000001` / `0x01000002`) whose
    /// shorter cookie layout is not decoded here.
    NonExtendedSelectorNotSupported { selector: u32 },
    /// The multichannel selector `0x02000000`.
    MultichannelSelectorNotSupported { selector: u32 },
    /// Descriptor `channels_divisor` was `0`.
    ZeroDivisorChannels,
    /// Descriptor `sub_packet_size` was `0`.
    ZeroDivisorSubPacketSize,
    /// The cookie does not self-describe the named flavor record.
    CookieFlavorMismatch,
    /// `frame_bytes` is not an integer multiple of `sub_packet_size`.
    FrameNotDivisibleBySubPacket { frame_bytes: u32, sub_packet_size: u16 },
    /// A sub-packet slot index was out of range for the per-call partition.
    SlotOutOfRange { slot: u32, slots_per_call: u32 },
    /// A sub-packet split input did not have length `frame_bytes`.
    SubPacketInputLengthMismatch { got: usize, expected: usize },
    /// A call's input length did not match the per-call `frame_bytes`.
    CallInputLengthMismatch { got: usize, expected: usize },
    /// A call's output length did not match the per-call PCM budget.
    CallOutputLengthMismatch { got: usize, expected: usize },
    /// A gain/quantiser category index was above `6`.
    CategoryOutOfRange { got: u8 },
    /// A bit-allocation axis position was above `50`.
    BitAllocAxisOutOfRange { got: u8 },
    /// An MDCT half-window length was not one of the five stored lengths.
    MdctWindowLengthUnsupported { got: usize },
    /// A stereo-mode selector outside `{0} ∪ {2..=5}`.
    StereoModeUnsupported { got: u32 },
    /// A reciprocal-table denominator outside `1..=9`.
    ReciprocalDenominatorOutOfRange { got: u8 },
    /// A scale-ladder exponent outside `-63..=63`.
    ScaleExponentOutOfRange { got: i8 },
    /// A cookie channel count outside `{1, 2}`.
    CookieInvalidChannels { got: u16 },
    /// A cookie subband count of `0`.
    CookieZeroSubbandCount,
    /// A cookie `samples_per_frame × channels` product of `0`.
    CookieZeroSamplesProduct,
    /// A flavor-property ID above `20`.
    FlavorPropertyIdOutOfRange { got: u8 },
    /// A spectral-codebook index above `6`.
    SpectralCodebookOutOfRange { got: u8 },
    /// A spectral-symbol index outside `0..count`.
    SpectralSymbolOutOfRange { got: u32, count: u32 },
    /// The spectral VLC walk read the longest code length without a match.
    SpectralVlcNoMatch { codebook: u8, bits: u32 },
    /// A coupling index at or above the coupling table length.
    CouplingIndexOutOfRange { got: u32, ncoup: u32 },
    /// A coupling table of length `0`.
    CouplingTableEmpty,
    /// A spectral-vector dimension of `0`.
    SpectralVectorDimZero,
    /// The gain-envelope segment-count field biased negative.
    GainSegmentCountUnderflow { raw: u32 },
    /// A gain-envelope expansion over `0` sub-blocks.
    GainBlockCountZero,
    /// A stereo reconstruction without the coupling inputs.
    StereoCouplingMissing,
    /// A per-band value count that does not match the band's line count.
    BandValueCountMismatch { line_count: u32, got: usize },
    /// A per-band entry count that does not match the subband count.
    SpectrumBandCountMismatch { subband_count: u32, got: usize },
    /// A coupling-index count that does not match the coupling-band count.
    CouplingIndexCountMismatch { coupling_bands: u32, got: usize },
    /// The frame walk reached the spectral VLC step, whose codebook bytes
    /// are built at run time and are not available.
    SpectralCodebookBytesUnavailable,
    /// A reciprocal-table index above `6`.
    IndexRecipOutOfRange { got: u8 },
    /// An output-stage block length that does not match the window length.
    OutputWindowLengthMismatch { got: usize, window: usize },
    /// Two overlap-add contributions of different lengths.
    OverlapAddLengthMismatch { a: usize, b: usize },
    /// A zero-size inverse-transform block.
    TransformSizeZero,
    /// An odd forward-transform input length.
    TransformInputLengthOdd { got: usize },
    /// A synthesis spectrum whose length is not the engine hop.
    SynthesisSpectrumLengthMismatch { got: usize, hop: usize },
    /// A PCM output buffer that is not two bytes per sample.
    PcmOutputLengthMismatch { got: usize, expected: usize },
    /// Two stereo interleave channels of different lengths.
    InterleaveLengthMismatch { ch0: usize, ch1: usize },
    /// A synthesized frame PCM whose length is not the per-frame budget.
    FramePcmLengthMismatch { got: usize, expected: usize },
    /// A per-call PCM fill requested with fewer bytes buffered than needed.
    PcmAssemblerUnderrun { need: usize, have: usize },
    /// A synthesis window not carrying `2 × samples_per_frame` taps.
    SynthesisWindowLengthMismatch { got: usize, expected: usize },
    /// A frame spectrum whose channel routing disagrees with the config.
    FrameSpectrumChannelMismatch { got: u16, expected: u16 },
    /// A gain-profile set not carrying one profile per channel.
    GainProfileCountMismatch { got: usize, expected: usize },
    /// A spectrum carrying more coded lines than the transform admits.
    SpectrumExceedsTransformSize { got: usize, hop: usize },
    /// A synthesized call not supplied one spectrum per sub-packet.
    FrameSpectrumCountMismatch { got: usize, expected: usize },
    /// A coupling bit width with no stored pan table (outside `2..=6`).
    CouplingPanWidthUnsupported { got: u32 },
    /// A flavor geometry with no traced frame layout.
    FrameLayoutUnknown { channels: u16, subband_count: u32, samples_per_frame: u32 },
    /// The coupling-index VLC branch, whose tree is not available.
    CouplingIndexTreeUnavailable,
    /// A configuration whose warm-up PCM budget does not fit in 32 bits.
    WarmupBudgetOverflow { warmup_bytes: u64 },
    /// A gain-profile field could not be read from the subpacket's bits.
    GainProfileReadFailed,
    /// The envelope VLC region, whose tree is not available, with no
    /// envelope supplied in its place.
    EnvelopeValueTreeUnavailable,
    /// A supplied frame-scalar cursor before the head's end or with its
    /// 7-bit field past the bit limit.
    FrameCursorOutOfRange { got: u32, head: u32, limit: u32 },
    /// A multichannel packet shorter than its subpacket-size trailer.
    SizeTrailerTooShort { got: usize, trailer: usize },
    /// Multichannel subpacket sizes that, with their trailer, exceed the
    /// packet.
    SubpacketSizesExceedPayload { payload_len: usize },
    /// A coupling map that does not tile the band count.
    CouplingMapMismatch {
        start_band: u32,
        subbands_per_index: u32,
        coupling_bands: u32,
        band_count: u32,
    },
}

/// Crate-local Result alias.
pub type Result<T> = core::result::Result<T, Error>;

} // verus!
