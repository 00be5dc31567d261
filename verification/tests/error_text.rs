use oxideav_cook::Error;

#[test]
fn messages_carry_their_fields() {
    assert_eq!(
        Error::UnsupportedSelector { selector: 0x0100_0001 }.message(),
        "oxideav-cook: unsupported cookie selector 0x01000001"
    );
    assert_eq!(
        Error::UnsupportedSelector { selector: 0xdead_beef }.message(),
        format!("oxideav-cook: unsupported cookie selector {:#010x}", 0xdead_beefu32)
    );
    assert_eq!(
        Error::CookieTooShort { got: 0 }.message(),
        "oxideav-cook: extradata cookie too short (0 bytes)"
    );
    assert_eq!(
        Error::CategoryOutOfRange { got: 9 }.message(),
        "oxideav-cook: gain/quantiser category index 9 is out of range (max is 6)"
    );
    assert_eq!(
        Error::ScaleExponentOutOfRange { got: -70 }.message(),
        "oxideav-cook: scale-ladder exponent -70 is out of range (-63..=63)"
    );
    assert_eq!(
        Error::ScaleExponentOutOfRange { got: i8::MIN }.message(),
        format!("oxideav-cook: scale-ladder exponent {} is out of range (-63..=63)", i8::MIN)
    );
    assert_eq!(
        Error::CookieInvalidChannels { got: 3 }.message(),
        "oxideav-cook: cookie channels field 3 is outside the well-formed {1, 2} set"
    );
    assert_eq!(
        Error::ReciprocalDenominatorOutOfRange { got: 12 }.message(),
        "oxideav-cook: reciprocal-table denominator 12 is outside the consecutive run (1..=9; the stored 1/20 has its own accessor)"
    );
    assert_eq!(
        Error::FrameNotDivisibleBySubPacket { frame_bytes: 465, sub_packet_size: 92 }.message(),
        "oxideav-cook: frame_bytes 465 is not an integer multiple of sub_packet_size 92"
    );
    assert_eq!(
        Error::WarmupBudgetOverflow { warmup_bytes: u64::MAX }.message(),
        format!("oxideav-cook: warm-up PCM budget {} does not fit in 32 bits", u64::MAX)
    );
}

#[test]
fn packet_split_messages() {
    assert_eq!(
        Error::SizeTrailerTooShort { got: 1, trailer: 2 }.message(),
        "oxideav-cook: multichannel packet of 1 bytes is shorter than its 2-byte size trailer"
    );
    assert_eq!(
        Error::SubpacketSizesExceedPayload { payload_len: 6 }.message(),
        "oxideav-cook: multichannel subpacket sizes exceed the 6-byte packet"
    );
}
