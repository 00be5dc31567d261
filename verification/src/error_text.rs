//! The error messages: one line of text per error, with its fields.
use crate::Error;
use vstd::prelude::*;
use vstd::string::*;

verus! {

/// The character of digit `d` (`0..=15`), lowercase for `10..=15`.
pub open spec fn digit_char(d: int) -> char {
    seq!['0', '1', '2', '3', '4', '5', '6', '7', '8', '9', 'a', 'b', 'c', 'd', 'e', 'f'][d]
}

/// The decimal digits of `n`.
pub open spec fn dec_text(n: nat) -> Seq<char>
    decreases n,
{
    if n < 10 {
        seq![digit_char(n as int)]
    } else {
        dec_text(n / 10).push(digit_char((n % 10) as int))
    }
}

/// The decimal text of `n`, with a leading `-` when it is negative.
pub open spec fn signed_text(n: int) -> Seq<char> {
    if n < 0 {
        seq!['-'] + dec_text((-n) as nat)
    } else {
        dec_text(n as nat)
    }
}

/// The lowest `k` hexadecimal digits of `n`, most significant first.
pub open spec fn hex_digits(n: nat, k: nat) -> Seq<char>
    decreases k,
{
    if k == 0 {
        Seq::empty()
    } else {
        hex_digits(n / 16, (k - 1) as nat).push(digit_char((n % 16) as int))
    }
}

/// `0x` and eight lowercase hexadecimal digits.
pub open spec fn hex8_text(n: u32) -> Seq<char> {
    seq!['0', 'x'] + hex_digits(n as nat, 8)
}

fn push_digit(s: &mut String, d: u64)
    requires
        d < 16,
    ensures
        final(s)@ == old(s)@.push(digit_char(d as int)),
{
    if d == 0 {
        proof {
            reveal_strlit("0");
        }
        assert("0"@ =~= seq!['0']);
        s.append("0");
    } else if d == 1 {
        proof {
            reveal_strlit("1");
        }
        assert("1"@ =~= seq!['1']);
        s.append("1");
    } else if d == 2 {
        proof {
            reveal_strlit("2");
        }
        assert("2"@ =~= seq!['2']);
        s.append("2");
    } else if d == 3 {
        proof {
            reveal_strlit("3");
        }
        assert("3"@ =~= seq!['3']);
        s.append("3");
    } else if d == 4 {
        proof {
            reveal_strlit("4");
        }
        assert("4"@ =~= seq!['4']);
        s.append("4");
    } else if d == 5 {
        proof {
            reveal_strlit("5");
        }
        assert("5"@ =~= seq!['5']);
        s.append("5");
    } else if d == 6 {
        proof {
            reveal_strlit("6");
        }
        assert("6"@ =~= seq!['6']);
        s.append("6");
    } else if d == 7 {
        proof {
            reveal_strlit("7");
        }
        assert("7"@ =~= seq!['7']);
        s.append("7");
    } else if d == 8 {
        proof {
            reveal_strlit("8");
        }
        assert("8"@ =~= seq!['8']);
        s.append("8");
    } else if d == 9 {
        proof {
            reveal_strlit("9");
        }
        assert("9"@ =~= seq!['9']);
        s.append("9");
    } else if d == 10 {
        proof {
            reveal_strlit("a");
        }
        assert("a"@ =~= seq!['a']);
        s.append("a");
    } else if d == 11 {
        proof {
            reveal_strlit("b");
        }
        assert("b"@ =~= seq!['b']);
        s.append("b");
    } else if d == 12 {
        proof {
            reveal_strlit("c");
        }
        assert("c"@ =~= seq!['c']);
        s.append("c");
    } else if d == 13 {
        proof {
            reveal_strlit("d");
        }
        assert("d"@ =~= seq!['d']);
        s.append("d");
    } else if d == 14 {
        proof {
            reveal_strlit("e");
        }
        assert("e"@ =~= seq!['e']);
        s.append("e");
    } else {
        proof {
            reveal_strlit("f");
        }
        assert("f"@ =~= seq!['f']);
        s.append("f");
    }
}

fn append_decimal(s: &mut String, n: u64)
    ensures
        final(s)@ == old(s)@ + dec_text(n as nat),
    decreases n,
{
    if n >= 10 {
        append_decimal(s, n / 10);
    }
    push_digit(s, n % 10);
    assert(final(s)@ =~= old(s)@ + dec_text(n as nat)) by {
        if n >= 10 {
            assert(dec_text(n as nat) == dec_text((n / 10) as nat).push(digit_char((n % 10) as int)));
        }
    }
}

fn append_signed(s: &mut String, n: i64)
    requires
        n > i64::MIN,
    ensures
        final(s)@ == old(s)@ + signed_text(n as int),
{
    if n < 0 {
        proof {
            reveal_strlit("-");
        }
        assert("-"@ =~= seq!['-']);
        s.append("-");
        append_decimal(s, (-n) as u64);
        assert(final(s)@ =~= old(s)@ + signed_text(n as int));
    } else {
        append_decimal(s, n as u64);
    }
}

fn append_hex_digits(s: &mut String, n: u64, k: u64)
    ensures
        final(s)@ == old(s)@ + hex_digits(n as nat, k as nat),
    decreases k,
{
    if k > 0 {
        append_hex_digits(s, n / 16, k - 1);
        push_digit(s, n % 16);
        assert(final(s)@ =~= old(s)@ + hex_digits(n as nat, k as nat));
    } else {
        assert(final(s)@ =~= old(s)@ + hex_digits(n as nat, k as nat));
    }
}

fn append_hex8(s: &mut String, n: u32)
    ensures
        final(s)@ == old(s)@ + hex8_text(n),
{
    proof {
        reveal_strlit("0x");
    }
    assert("0x"@ =~= seq!['0', 'x']);
    s.append("0x");
    append_hex_digits(s, n as u64, 8);
    assert(final(s)@ =~= old(s)@ + hex8_text(n));
}

/// The message of an error.
pub open spec fn error_text(e: Error) -> Seq<char> {
    match e {
        Error::NotImplemented => "oxideav-cook: decode path not implemented"@,
        Error::CookieTooShort { got } => "oxideav-cook: extradata cookie too short ("@ + dec_text(got as nat) + " bytes)"@,
        Error::UnsupportedSelector { selector } => "oxideav-cook: unsupported cookie selector "@ + hex8_text(selector),
        Error::NonExtendedSelectorNotSupported { selector } => "oxideav-cook: cookie selector "@ + hex8_text(selector) + " is a non-extended mono/stereo sibling (cookie layout not pinned)"@,
        Error::MultichannelSelectorNotSupported { selector } => "oxideav-cook: cookie selector "@ + hex8_text(selector) + " is the multichannel backend (cookie layout not pinned)"@,
        Error::ZeroDivisorChannels => "oxideav-cook: descriptor channels_divisor (+0x06) is 0 (would divide-by-zero in backend init 0x20c0)"@,
        Error::ZeroDivisorSubPacketSize => "oxideav-cook: descriptor sub_packet_size (+0x0a) is 0 (would divide-by-zero in RADecode 0x1290)"@,
        Error::CookieFlavorMismatch => "oxideav-cook: extradata cookie does not self-describe the named flavor record"@,
        Error::FrameNotDivisibleBySubPacket { frame_bytes, sub_packet_size } => "oxideav-cook: frame_bytes "@ + dec_text(frame_bytes as nat) + " is not an integer multiple of sub_packet_size "@ + dec_text(sub_packet_size as nat),
        Error::SlotOutOfRange { slot, slots_per_call } => "oxideav-cook: sub-packet slot "@ + dec_text(slot as nat) + " out of range (slots_per_call = "@ + dec_text(slots_per_call as nat) + ")"@,
        Error::SubPacketInputLengthMismatch { got, expected } => "oxideav-cook: sub-packet input length "@ + dec_text(got as nat) + " does not match the per-call frame_bytes "@ + dec_text(expected as nat),
        Error::CallInputLengthMismatch { got, expected } => "oxideav-cook: RADecode call input length "@ + dec_text(got as nat) + " does not match the per-call frame_bytes "@ + dec_text(expected as nat),
        Error::CallOutputLengthMismatch { got, expected } => "oxideav-cook: RADecode call output buffer length "@ + dec_text(got as nat) + " does not match the per-call PCM budget "@ + dec_text(expected as nat),
        Error::CategoryOutOfRange { got } => "oxideav-cook: gain/quantiser category index "@ + dec_text(got as nat) + " is out of range (max is "@ + dec_text(crate::category::MAX_CATEGORY_INDEX as nat) + ")"@,
        Error::BitAllocAxisOutOfRange { got } => "oxideav-cook: bit-allocation axis position "@ + dec_text(got as nat) + " is out of range (max is "@ + dec_text(crate::bit_alloc::MAX_BIT_ALLOC_AXIS_POSITION as nat) + ")"@,
        Error::MdctWindowLengthUnsupported { got } => "oxideav-cook: MDCT half-window length "@ + dec_text(got as nat) + " is not one of the five stored lengths (3 / 7 / 15 / 31 / 64)"@,
        Error::StereoModeUnsupported { got } => "oxideav-cook: stereo-mode selector "@ + dec_text(got as nat) + " is outside the documented set (0 for mono; 2..=5 for the stereo / surround families)"@,
        Error::ReciprocalDenominatorOutOfRange { got } => "oxideav-cook: reciprocal-table denominator "@ + dec_text(got as nat) + " is outside the consecutive run ("@ + dec_text(crate::reciprocal::RECIPROCAL_DENOMINATOR_MIN as nat) + "..="@ + dec_text(crate::reciprocal::RECIPROCAL_DENOMINATOR_MAX as nat) + "; the stored 1/20 has its own accessor)"@,
        Error::ScaleExponentOutOfRange { got } => "oxideav-cook: scale-ladder exponent "@ + signed_text(got as int) + " is out of range (-63..=63)"@,
        Error::CookieInvalidChannels { got } => "oxideav-cook: cookie channels field "@ + dec_text(got as nat) + " is outside the well-formed {1, 2} set"@,
        Error::CookieZeroSubbandCount => "oxideav-cook: cookie subband count is 0 (no well-formed flavor record has subband_count == 0)"@,
        Error::CookieZeroSamplesProduct => "oxideav-cook: cookie [4..5] samples_per_frame × channels product is 0 (no well-formed flavor record has samples_per_frame == 0)"@,
        Error::FlavorPropertyIdOutOfRange { got } => "oxideav-cook: flavor-property ID "@ + dec_text(got as nat) + " is out of range (max is "@ + dec_text(crate::flavor_property::MAX_FLAVOR_PROPERTY_ID as nat) + ")"@,
        Error::SpectralCodebookOutOfRange { got } => "oxideav-cook: spectral-codebook index "@ + dec_text(got as nat) + " is out of range (max is "@ + dec_text(crate::codebook::MAX_SPECTRAL_CODEBOOK_INDEX as nat) + ")"@,
        Error::SpectralSymbolOutOfRange { got, count } => "oxideav-cook: spectral-symbol index "@ + dec_text(got as nat) + " is out of range (codebook has "@ + dec_text(count as nat) + " symbols)"@,
        Error::SpectralVlcNoMatch { codebook, bits } => "oxideav-cook: spectral VLC walk found no codeword in codebook "@ + dec_text(codebook as nat) + " within "@ + dec_text(bits as nat) + " bits"@,
        Error::CouplingIndexOutOfRange { got, ncoup } => "oxideav-cook: coupling index "@ + dec_text(got as nat) + " is out of range (Ncoup = "@ + dec_text(ncoup as nat) + ")"@,
        Error::CouplingTableEmpty => "oxideav-cook: joint-stereo coupling table has length 0 (no mirror-index partner to read)"@,
        Error::SpectralVectorDimZero => "oxideav-cook: spectral-vector dimension is 0 (a real per-category dimension is 2..=10)"@,
        Error::GainSegmentCountUnderflow { raw } => "oxideav-cook: gain-envelope segment-count field "@ + dec_text(raw as nat) + " biased to a negative count (field carries segment_count + 6)"@,
        Error::GainBlockCountZero => "oxideav-cook: gain-envelope application asked to expand over 0 sub-blocks (one factor is expanded per sub-block)"@,
        Error::StereoCouplingMissing => "oxideav-cook: stereo frame reconstruction (channels == 2) requires the coupling inputs (band range, rotation indices, coef table)"@,
        Error::BandValueCountMismatch { line_count, got } => "oxideav-cook: per-band reconstruction value count "@ + dec_text(got as nat) + " does not match the band's coded line count "@ + dec_text(line_count as nat),
        Error::SpectrumBandCountMismatch { subband_count, got } => "oxideav-cook: spectrum per-band entry count "@ + dec_text(got as nat) + " does not match the stream's subband count "@ + dec_text(subband_count as nat),
        Error::CouplingIndexCountMismatch { coupling_bands, got } => "oxideav-cook: coupling index count "@ + dec_text(got as nat) + " does not match the coupling-band count "@ + dec_text(coupling_bands as nat),
        Error::SpectralCodebookBytesUnavailable => "oxideav-cook: backend frame walk reached the spectral-VLC step; the seven codebooks' code/length bytes are runtime-built in BSS and not in the file image"@,
        Error::IndexRecipOutOfRange { got } => "oxideav-cook: reciprocal-table index "@ + dec_text(got as nat) + " out of range (0x8fac has 7 entries, indices 0..=6)"@,
        Error::OutputWindowLengthMismatch { got, window } => "oxideav-cook: output-stage block length "@ + dec_text(got as nat) + " does not match the selected MDCT window length "@ + dec_text(window as nat),
        Error::OverlapAddLengthMismatch { a, b } => "oxideav-cook: overlap-add contributions differ in length ("@ + dec_text(a as nat) + " vs "@ + dec_text(b as nat) + ")"@,
        Error::TransformSizeZero => "oxideav-cook: inverse-transform block size is 0 (the inverse MDCT runs at a block length >= 1)"@,
        Error::TransformInputLengthOdd { got } => "oxideav-cook: forward-MLT input length "@ + dec_text(got as nat) + " is odd (the MDCT consumes 2N time samples per N-coefficient frame)"@,
        Error::SynthesisSpectrumLengthMismatch { got, hop } => "oxideav-cook: synthesis spectrum length "@ + dec_text(got as nat) + " does not match the engine hop "@ + dec_text(hop as nat),
        Error::PcmOutputLengthMismatch { got, expected } => "oxideav-cook: PCM output buffer length "@ + dec_text(got as nat) + " is not two bytes per sample (expected "@ + dec_text(expected as nat) + ")"@,
        Error::InterleaveLengthMismatch { ch0, ch1 } => "oxideav-cook: stereo interleave channels differ in length ("@ + dec_text(ch0 as nat) + " vs "@ + dec_text(ch1 as nat) + ")"@,
        Error::FramePcmLengthMismatch { got, expected } => "oxideav-cook: synthesized frame PCM length "@ + dec_text(got as nat) + " does not match the per-frame budget "@ + dec_text(expected as nat),
        Error::PcmAssemblerUnderrun { need, have } => "oxideav-cook: per-call PCM fill needs "@ + dec_text(need as nat) + " bytes but only "@ + dec_text(have as nat) + " are buffered (push the call's frames first)"@,
        Error::SynthesisWindowLengthMismatch { got, expected } => "oxideav-cook: synthesis window length "@ + dec_text(got as nat) + " does not match 2 x samples_per_frame (expected "@ + dec_text(expected as nat) + ")"@,
        Error::FrameSpectrumChannelMismatch { got, expected } => "oxideav-cook: frame spectrum carries "@ + dec_text(got as nat) + " channel(s) but the config wires "@ + dec_text(expected as nat),
        Error::GainProfileCountMismatch { got, expected } => "oxideav-cook: "@ + dec_text(got as nat) + " gain profile(s) supplied for "@ + dec_text(expected as nat) + " channel(s)"@,
        Error::SpectrumExceedsTransformSize { got, hop } => "oxideav-cook: spectrum carries "@ + dec_text(got as nat) + " coded lines but the transform admits "@ + dec_text(hop as nat),
        Error::FrameSpectrumCountMismatch { got, expected } => "oxideav-cook: "@ + dec_text(got as nat) + " frame spectra supplied for a call of "@ + dec_text(expected as nat) + " sub-packets"@,
        Error::CouplingPanWidthUnsupported { got } => "oxideav-cook: coupling bit width "@ + dec_text(got as nat) + " has no stored pan table (2..=6)"@,
        Error::FrameLayoutUnknown { channels, subband_count, samples_per_frame } => "oxideav-cook: no frame layout for "@ + dec_text(channels as nat) + " channel(s), "@ + dec_text(subband_count as nat) + " subbands, "@ + dec_text(samples_per_frame as nat) + " samples per frame"@,
        Error::CouplingIndexTreeUnavailable => "oxideav-cook: the VLC-coded coupling indices need a tree that is not available"@,
        Error::WarmupBudgetOverflow { warmup_bytes } => "oxideav-cook: warm-up PCM budget "@ + dec_text(warmup_bytes as nat) + " does not fit in 32 bits"@,
        Error::GainProfileReadFailed => "oxideav-cook: a gain-profile field could not be read (the subpacket ran out of bits)"@,
        Error::EnvelopeValueTreeUnavailable => "oxideav-cook: the envelope VLC region needs a tree that is not available and no envelope was supplied"@,
        Error::FrameCursorOutOfRange { got, head, limit } => "oxideav-cook: frame-scalar cursor "@ + dec_text(got as nat) + " lies before the head end "@ + dec_text(head as nat) + " or its field passes the bit limit "@ + dec_text(limit as nat),
        Error::SizeTrailerTooShort { got, trailer } => "oxideav-cook: multichannel packet of "@ + dec_text(got as nat) + " bytes is shorter than its "@ + dec_text(trailer as nat) + "-byte size trailer"@,
        Error::SubpacketSizesExceedPayload { payload_len } => "oxideav-cook: multichannel subpacket sizes exceed the "@ + dec_text(payload_len as nat) + "-byte packet"@,
        Error::CouplingMapMismatch { start_band, subbands_per_index, coupling_bands, band_count } => "oxideav-cook: coupling map (start "@ + dec_text(start_band as nat) + ", "@ + dec_text(subbands_per_index as nat) + " per index, "@ + dec_text(coupling_bands as nat) + " coupling bands) does not tile "@ + dec_text(band_count as nat) + " bands"@,
    }
}

impl Error {
    /// The error's one-line message.
    #[verifier::rlimit(50)]
    pub fn message(&self) -> (s: String)
        ensures
            s@ == error_text(*self),
    {
        match self {
            Error::NotImplemented => {
                let mut s = String::from_str("oxideav-cook: decode path not implemented");
                s
            },
            Error::CookieTooShort { got } => {
                let mut s = String::from_str("oxideav-cook: extradata cookie too short (");
                append_decimal(&mut s, *got as u64);
                s.append(" bytes)");
                s
            },
            Error::UnsupportedSelector { selector } => {
                let mut s = String::from_str("oxideav-cook: unsupported cookie selector ");
                append_hex8(&mut s, *selector);
                s
            },
            Error::NonExtendedSelectorNotSupported { selector } => {
                let mut s = String::from_str("oxideav-cook: cookie selector ");
                append_hex8(&mut s, *selector);
                s.append(" is a non-extended mono/stereo sibling (cookie layout not pinned)");
                s
            },
            Error::MultichannelSelectorNotSupported { selector } => {
                let mut s = String::from_str("oxideav-cook: cookie selector ");
                append_hex8(&mut s, *selector);
                s.append(" is the multichannel backend (cookie layout not pinned)");
                s
            },
            Error::ZeroDivisorChannels => {
                let mut s = String::from_str("oxideav-cook: descriptor channels_divisor (+0x06) is 0 (would divide-by-zero in backend init 0x20c0)");
                s
            },
            Error::ZeroDivisorSubPacketSize => {
                let mut s = String::from_str("oxideav-cook: descriptor sub_packet_size (+0x0a) is 0 (would divide-by-zero in RADecode 0x1290)");
                s
            },
            Error::CookieFlavorMismatch => {
                let mut s = String::from_str("oxideav-cook: extradata cookie does not self-describe the named flavor record");
                s
            },
            Error::FrameNotDivisibleBySubPacket { frame_bytes, sub_packet_size } => {
                let mut s = String::from_str("oxideav-cook: frame_bytes ");
                append_decimal(&mut s, *frame_bytes as u64);
                s.append(" is not an integer multiple of sub_packet_size ");
                append_decimal(&mut s, *sub_packet_size as u64);
                s
            },
            Error::SlotOutOfRange { slot, slots_per_call } => {
                let mut s = String::from_str("oxideav-cook: sub-packet slot ");
                append_decimal(&mut s, *slot as u64);
                s.append(" out of range (slots_per_call = ");
                append_decimal(&mut s, *slots_per_call as u64);
                s.append(")");
                s
            },
            Error::SubPacketInputLengthMismatch { got, expected } => {
                let mut s = String::from_str("oxideav-cook: sub-packet input length ");
                append_decimal(&mut s, *got as u64);
                s.append(" does not match the per-call frame_bytes ");
                append_decimal(&mut s, *expected as u64);
                s
            },
            Error::CallInputLengthMismatch { got, expected } => {
                let mut s = String::from_str("oxideav-cook: RADecode call input length ");
                append_decimal(&mut s, *got as u64);
                s.append(" does not match the per-call frame_bytes ");
                append_decimal(&mut s, *expected as u64);
                s
            },
            Error::CallOutputLengthMismatch { got, expected } => {
                let mut s = String::from_str("oxideav-cook: RADecode call output buffer length ");
                append_decimal(&mut s, *got as u64);
                s.append(" does not match the per-call PCM budget ");
                append_decimal(&mut s, *expected as u64);
                s
            },
            Error::CategoryOutOfRange { got } => {
                let mut s = String::from_str("oxideav-cook: gain/quantiser category index ");
                append_decimal(&mut s, *got as u64);
                s.append(" is out of range (max is ");
                append_decimal(&mut s, crate::category::MAX_CATEGORY_INDEX as u64);
                s.append(")");
                s
            },
            Error::BitAllocAxisOutOfRange { got } => {
                let mut s = String::from_str("oxideav-cook: bit-allocation axis position ");
                append_decimal(&mut s, *got as u64);
                s.append(" is out of range (max is ");
                append_decimal(&mut s, crate::bit_alloc::MAX_BIT_ALLOC_AXIS_POSITION as u64);
                s.append(")");
                s
            },
            Error::MdctWindowLengthUnsupported { got } => {
                let mut s = String::from_str("oxideav-cook: MDCT half-window length ");
                append_decimal(&mut s, *got as u64);
                s.append(" is not one of the five stored lengths (3 / 7 / 15 / 31 / 64)");
                s
            },
            Error::StereoModeUnsupported { got } => {
                let mut s = String::from_str("oxideav-cook: stereo-mode selector ");
                append_decimal(&mut s, *got as u64);
                s.append(" is outside the documented set (0 for mono; 2..=5 for the stereo / surround families)");
                s
            },
            Error::ReciprocalDenominatorOutOfRange { got } => {
                let mut s = String::from_str("oxideav-cook: reciprocal-table denominator ");
                append_decimal(&mut s, *got as u64);
                s.append(" is outside the consecutive run (");
                append_decimal(&mut s, crate::reciprocal::RECIPROCAL_DENOMINATOR_MIN as u64);
                s.append("..=");
                append_decimal(&mut s, crate::reciprocal::RECIPROCAL_DENOMINATOR_MAX as u64);
                s.append("; the stored 1/20 has its own accessor)");
                s
            },
            Error::ScaleExponentOutOfRange { got } => {
                let mut s = String::from_str("oxideav-cook: scale-ladder exponent ");
                append_signed(&mut s, *got as i64);
                s.append(" is out of range (-63..=63)");
                s
            },
            Error::CookieInvalidChannels { got } => {
                let mut s = String::from_str("oxideav-cook: cookie channels field ");
                append_decimal(&mut s, *got as u64);
                s.append(" is outside the well-formed {1, 2} set");
                s
            },
            Error::CookieZeroSubbandCount => {
                let mut s = String::from_str("oxideav-cook: cookie subband count is 0 (no well-formed flavor record has subband_count == 0)");
                s
            },
            Error::CookieZeroSamplesProduct => {
                let mut s = String::from_str("oxideav-cook: cookie [4..5] samples_per_frame × channels product is 0 (no well-formed flavor record has samples_per_frame == 0)");
                s
            },
            Error::FlavorPropertyIdOutOfRange { got } => {
                let mut s = String::from_str("oxideav-cook: flavor-property ID ");
                append_decimal(&mut s, *got as u64);
                s.append(" is out of range (max is ");
                append_decimal(&mut s, crate::flavor_property::MAX_FLAVOR_PROPERTY_ID as u64);
                s.append(")");
                s
            },
            Error::SpectralCodebookOutOfRange { got } => {
                let mut s = String::from_str("oxideav-cook: spectral-codebook index ");
                append_decimal(&mut s, *got as u64);
                s.append(" is out of range (max is ");
                append_decimal(&mut s, crate::codebook::MAX_SPECTRAL_CODEBOOK_INDEX as u64);
                s.append(")");
                s
            },
            Error::SpectralSymbolOutOfRange { got, count } => {
                let mut s = String::from_str("oxideav-cook: spectral-symbol index ");
                append_decimal(&mut s, *got as u64);
                s.append(" is out of range (codebook has ");
                append_decimal(&mut s, *count as u64);
                s.append(" symbols)");
                s
            },
            Error::SpectralVlcNoMatch { codebook, bits } => {
                let mut s = String::from_str("oxideav-cook: spectral VLC walk found no codeword in codebook ");
                append_decimal(&mut s, *codebook as u64);
                s.append(" within ");
                append_decimal(&mut s, *bits as u64);
                s.append(" bits");
                s
            },
            Error::CouplingIndexOutOfRange { got, ncoup } => {
                let mut s = String::from_str("oxideav-cook: coupling index ");
                append_decimal(&mut s, *got as u64);
                s.append(" is out of range (Ncoup = ");
                append_decimal(&mut s, *ncoup as u64);
                s.append(")");
                s
            },
            Error::CouplingTableEmpty => {
                let mut s = String::from_str("oxideav-cook: joint-stereo coupling table has length 0 (no mirror-index partner to read)");
                s
            },
            Error::SpectralVectorDimZero => {
                let mut s = String::from_str("oxideav-cook: spectral-vector dimension is 0 (a real per-category dimension is 2..=10)");
                s
            },
            Error::GainSegmentCountUnderflow { raw } => {
                let mut s = String::from_str("oxideav-cook: gain-envelope segment-count field ");
                append_decimal(&mut s, *raw as u64);
                s.append(" biased to a negative count (field carries segment_count + 6)");
                s
            },
            Error::GainBlockCountZero => {
                let mut s = String::from_str("oxideav-cook: gain-envelope application asked to expand over 0 sub-blocks (one factor is expanded per sub-block)");
                s
            },
            Error::StereoCouplingMissing => {
                let mut s = String::from_str("oxideav-cook: stereo frame reconstruction (channels == 2) requires the coupling inputs (band range, rotation indices, coef table)");
                s
            },
            Error::BandValueCountMismatch { line_count, got } => {
                let mut s = String::from_str("oxideav-cook: per-band reconstruction value count ");
                append_decimal(&mut s, *got as u64);
                s.append(" does not match the band's coded line count ");
                append_decimal(&mut s, *line_count as u64);
                s
            },
            Error::SpectrumBandCountMismatch { subband_count, got } => {
                let mut s = String::from_str("oxideav-cook: spectrum per-band entry count ");
                append_decimal(&mut s, *got as u64);
                s.append(" does not match the stream's subband count ");
                append_decimal(&mut s, *subband_count as u64);
                s
            },
            Error::CouplingIndexCountMismatch { coupling_bands, got } => {
                let mut s = String::from_str("oxideav-cook: coupling index count ");
                append_decimal(&mut s, *got as u64);
                s.append(" does not match the coupling-band count ");
                append_decimal(&mut s, *coupling_bands as u64);
                s
            },
            Error::SpectralCodebookBytesUnavailable => {
                let mut s = String::from_str("oxideav-cook: backend frame walk reached the spectral-VLC step; the seven codebooks' code/length bytes are runtime-built in BSS and not in the file image");
                s
            },
            Error::IndexRecipOutOfRange { got } => {
                let mut s = String::from_str("oxideav-cook: reciprocal-table index ");
                append_decimal(&mut s, *got as u64);
                s.append(" out of range (0x8fac has 7 entries, indices 0..=6)");
                s
            },
            Error::OutputWindowLengthMismatch { got, window } => {
                let mut s = String::from_str("oxideav-cook: output-stage block length ");
                append_decimal(&mut s, *got as u64);
                s.append(" does not match the selected MDCT window length ");
                append_decimal(&mut s, *window as u64);
                s
            },
            Error::OverlapAddLengthMismatch { a, b } => {
                let mut s = String::from_str("oxideav-cook: overlap-add contributions differ in length (");
                append_decimal(&mut s, *a as u64);
                s.append(" vs ");
                append_decimal(&mut s, *b as u64);
                s.append(")");
                s
            },
            Error::TransformSizeZero => {
                let mut s = String::from_str("oxideav-cook: inverse-transform block size is 0 (the inverse MDCT runs at a block length >= 1)");
                s
            },
            Error::TransformInputLengthOdd { got } => {
                let mut s = String::from_str("oxideav-cook: forward-MLT input length ");
                append_decimal(&mut s, *got as u64);
                s.append(" is odd (the MDCT consumes 2N time samples per N-coefficient frame)");
                s
            },
            Error::SynthesisSpectrumLengthMismatch { got, hop } => {
                let mut s = String::from_str("oxideav-cook: synthesis spectrum length ");
                append_decimal(&mut s, *got as u64);
                s.append(" does not match the engine hop ");
                append_decimal(&mut s, *hop as u64);
                s
            },
            Error::PcmOutputLengthMismatch { got, expected } => {
                let mut s = String::from_str("oxideav-cook: PCM output buffer length ");
                append_decimal(&mut s, *got as u64);
                s.append(" is not two bytes per sample (expected ");
                append_decimal(&mut s, *expected as u64);
                s.append(")");
                s
            },
            Error::InterleaveLengthMismatch { ch0, ch1 } => {
                let mut s = String::from_str("oxideav-cook: stereo interleave channels differ in length (");
                append_decimal(&mut s, *ch0 as u64);
                s.append(" vs ");
                append_decimal(&mut s, *ch1 as u64);
                s.append(")");
                s
            },
            Error::FramePcmLengthMismatch { got, expected } => {
                let mut s = String::from_str("oxideav-cook: synthesized frame PCM length ");
                append_decimal(&mut s, *got as u64);
                s.append(" does not match the per-frame budget ");
                append_decimal(&mut s, *expected as u64);
                s
            },
            Error::PcmAssemblerUnderrun { need, have } => {
                let mut s = String::from_str("oxideav-cook: per-call PCM fill needs ");
                append_decimal(&mut s, *need as u64);
                s.append(" bytes but only ");
                append_decimal(&mut s, *have as u64);
                s.append(" are buffered (push the call's frames first)");
                s
            },
            Error::SynthesisWindowLengthMismatch { got, expected } => {
                let mut s = String::from_str("oxideav-cook: synthesis window length ");
                append_decimal(&mut s, *got as u64);
                s.append(" does not match 2 x samples_per_frame (expected ");
                append_decimal(&mut s, *expected as u64);
                s.append(")");
                s
            },
            Error::FrameSpectrumChannelMismatch { got, expected } => {
                let mut s = String::from_str("oxideav-cook: frame spectrum carries ");
                append_decimal(&mut s, *got as u64);
                s.append(" channel(s) but the config wires ");
                append_decimal(&mut s, *expected as u64);
                s
            },
            Error::GainProfileCountMismatch { got, expected } => {
                let mut s = String::from_str("oxideav-cook: ");
                append_decimal(&mut s, *got as u64);
                s.append(" gain profile(s) supplied for ");
                append_decimal(&mut s, *expected as u64);
                s.append(" channel(s)");
                s
            },
            Error::SpectrumExceedsTransformSize { got, hop } => {
                let mut s = String::from_str("oxideav-cook: spectrum carries ");
                append_decimal(&mut s, *got as u64);
                s.append(" coded lines but the transform admits ");
                append_decimal(&mut s, *hop as u64);
                s
            },
            Error::FrameSpectrumCountMismatch { got, expected } => {
                let mut s = String::from_str("oxideav-cook: ");
                append_decimal(&mut s, *got as u64);
                s.append(" frame spectra supplied for a call of ");
                append_decimal(&mut s, *expected as u64);
                s.append(" sub-packets");
                s
            },
            Error::CouplingPanWidthUnsupported { got } => {
                let mut s = String::from_str("oxideav-cook: coupling bit width ");
                append_decimal(&mut s, *got as u64);
                s.append(" has no stored pan table (2..=6)");
                s
            },
            Error::FrameLayoutUnknown { channels, subband_count, samples_per_frame } => {
                let mut s = String::from_str("oxideav-cook: no frame layout for ");
                append_decimal(&mut s, *channels as u64);
                s.append(" channel(s), ");
                append_decimal(&mut s, *subband_count as u64);
                s.append(" subbands, ");
                append_decimal(&mut s, *samples_per_frame as u64);
                s.append(" samples per frame");
                s
            },
            Error::CouplingIndexTreeUnavailable => {
                let mut s = String::from_str("oxideav-cook: the VLC-coded coupling indices need a tree that is not available");
                s
            },
            Error::WarmupBudgetOverflow { warmup_bytes } => {
                let mut s = String::from_str("oxideav-cook: warm-up PCM budget ");
                append_decimal(&mut s, *warmup_bytes as u64);
                s.append(" does not fit in 32 bits");
                s
            },
            Error::GainProfileReadFailed => {
                let mut s = String::from_str("oxideav-cook: a gain-profile field could not be read (the subpacket ran out of bits)");
                s
            },
            Error::EnvelopeValueTreeUnavailable => {
                let mut s = String::from_str("oxideav-cook: the envelope VLC region needs a tree that is not available and no envelope was supplied");
                s
            },
            Error::FrameCursorOutOfRange { got, head, limit } => {
                let mut s = String::from_str("oxideav-cook: frame-scalar cursor ");
                append_decimal(&mut s, *got as u64);
                s.append(" lies before the head end ");
                append_decimal(&mut s, *head as u64);
                s.append(" or its field passes the bit limit ");
                append_decimal(&mut s, *limit as u64);
                s
            },
            Error::SizeTrailerTooShort { got, trailer } => {
                let mut s = String::from_str("oxideav-cook: multichannel packet of ");
                append_decimal(&mut s, *got as u64);
                s.append(" bytes is shorter than its ");
                append_decimal(&mut s, *trailer as u64);
                s.append("-byte size trailer");
                s
            },
            Error::SubpacketSizesExceedPayload { payload_len } => {
                let mut s = String::from_str("oxideav-cook: multichannel subpacket sizes exceed the ");
                append_decimal(&mut s, *payload_len as u64);
                s.append("-byte packet");
                s
            },
            Error::CouplingMapMismatch { start_band, subbands_per_index, coupling_bands, band_count } => {
                let mut s = String::from_str("oxideav-cook: coupling map (start ");
                append_decimal(&mut s, *start_band as u64);
                s.append(", ");
                append_decimal(&mut s, *subbands_per_index as u64);
                s.append(" per index, ");
                append_decimal(&mut s, *coupling_bands as u64);
                s.append(" coupling bands) does not tile ");
                append_decimal(&mut s, *band_count as u64);
                s.append(" bands");
                s
            },
        }
    }
}

} // verus!
