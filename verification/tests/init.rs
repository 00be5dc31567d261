use oxideav_cook::cookie::{CookCookie, SELECTOR_EXTENDED};
use oxideav_cook::flavor::{FlavorRecord, FlavorTable, flavor_record};
use oxideav_cook::init::{DecodeConfig, Descriptor, RADECODE_FLAGS_DECODE};
use oxideav_cook::Error;
const REAL_COOKIE: [u8; 16] = [
    0x01, 0x00, 0x00, 0x03, 0x08, 0x00, 0x00, 0x20, 0x00, 0x00, 0x00, 0x00, 0x00, 0x02, 0x00,
    0x04,
];
const REAL_DESCRIPTOR: Descriptor = Descriptor {
    channels_divisor: 2,
    sub_packet_size: 93,
};
const REAL_FRAME_BYTES: u32 = 465;

fn real_cookie() -> CookCookie {
    CookCookie::parse(&REAL_COOKIE).unwrap()
}

fn real_flavor() -> FlavorRecord {
    flavor_record(&known_table(), 21).unwrap()
}

#[test]
fn real_stream_derives_validated_geometry() {
    let cfg = DecodeConfig::from_inputs(
        &real_cookie(),
        &REAL_DESCRIPTOR,
        &real_flavor(),
        REAL_FRAME_BYTES,
    )
    .unwrap();
    assert_eq!(cfg.channels, 2);
    assert_eq!(cfg.sample_rate_hz, 44100);
    assert_eq!(cfg.samples_per_frame, 1024);
    assert_eq!(cfg.subband_count, 32);
    assert_eq!(cfg.stereo_mode, 4);
    assert_eq!(cfg.frame_bytes, 465);
    assert_eq!(cfg.sub_packet_size, 93);
    assert_eq!(cfg.sub_packets_per_call, 5);
    assert_eq!(cfg.pcm_bytes_per_call, 20480);
}

#[test]
fn zero_channels_divisor_rejected() {
    let bad = Descriptor {
        channels_divisor: 0,
        ..REAL_DESCRIPTOR
    };
    assert_eq!(
        DecodeConfig::from_inputs(&real_cookie(), &bad, &real_flavor(), REAL_FRAME_BYTES),
        Err(Error::ZeroDivisorChannels),
    );
}

#[test]
fn zero_sub_packet_size_rejected() {
    let bad = Descriptor {
        channels_divisor: 2,
        sub_packet_size: 0,
    };
    assert_eq!(
        DecodeConfig::from_inputs(&real_cookie(), &bad, &real_flavor(), REAL_FRAME_BYTES),
        Err(Error::ZeroDivisorSubPacketSize),
    );
}

#[test]
fn mismatched_flavor_rejected() {
    let other = flavor_record(&known_table(), 4).unwrap();
    assert_eq!(
        DecodeConfig::from_inputs(&real_cookie(), &REAL_DESCRIPTOR, &other, REAL_FRAME_BYTES),
        Err(Error::CookieFlavorMismatch),
    );
}

#[test]
fn non_integer_sub_packet_division_rejected() {
    let err = DecodeConfig::from_inputs(&real_cookie(), &REAL_DESCRIPTOR, &real_flavor(), 466)
        .unwrap_err();
    assert_eq!(
        err,
        Error::FrameNotDivisibleBySubPacket {
            frame_bytes: 466,
            sub_packet_size: 93
        }
    );
}

#[test]
fn cross_check_with_wrong_descriptor_channel_count() {
    let mono_div = Descriptor {
        channels_divisor: 1,
        sub_packet_size: 93,
    };
    assert_eq!(
        DecodeConfig::from_inputs(&real_cookie(), &mono_div, &real_flavor(), REAL_FRAME_BYTES),
        Err(Error::CookieFlavorMismatch),
    );
}

#[test]
fn total_pcm_bytes_matches_validator_for_144_calls() {
    let cfg = DecodeConfig::from_inputs(
        &real_cookie(),
        &REAL_DESCRIPTOR,
        &real_flavor(),
        REAL_FRAME_BYTES,
    )
    .unwrap();
    let warmup_bytes = 2u64 * 1024 * 2 * 2;
    let steady_bytes = 143u64 * 20_480;
    assert_eq!(warmup_bytes, 8_192);
    assert_eq!(steady_bytes + warmup_bytes, 2_936_832);
    assert_eq!(cfg.warmup_pcm_bytes(), warmup_bytes);
    assert_eq!(cfg.total_pcm_bytes(144), 2_936_832);
    assert_eq!(cfg.steady_state_pcm_bytes(144), 2_949_120);
    assert_eq!(cfg.total_pcm_bytes(0), 0);
    assert_eq!(cfg.total_pcm_bytes(1), warmup_bytes);
}

#[test]
fn radecode_flags_constant_is_validated_value() {
    assert_eq!(RADECODE_FLAGS_DECODE, 1);
    assert_eq!((!RADECODE_FLAGS_DECODE) & 1, 0);
}


#[test]
fn literal_cookie_with_invalid_channels_rejected_before_divisor_checks() {
    let bad = CookCookie {
        selector: SELECTOR_EXTENDED,
        samples_per_frame_x_channels: 2048,
        subband_count: 32,
        reserved: 0,
        channels: 3,
        stereo_mode: 4,
    };
    let err =
        DecodeConfig::from_inputs(&bad, &REAL_DESCRIPTOR, &real_flavor(), REAL_FRAME_BYTES)
            .unwrap_err();
    assert_eq!(err, Error::CookieInvalidChannels { got: 3 });
}

#[test]
fn literal_cookie_with_zero_subband_count_rejected_before_divisor_checks() {
    let bad = CookCookie {
        selector: SELECTOR_EXTENDED,
        samples_per_frame_x_channels: 2048,
        subband_count: 0,
        reserved: 0,
        channels: 2,
        stereo_mode: 4,
    };
    let err =
        DecodeConfig::from_inputs(&bad, &REAL_DESCRIPTOR, &real_flavor(), REAL_FRAME_BYTES)
            .unwrap_err();
    assert_eq!(err, Error::CookieZeroSubbandCount);
}

#[test]
fn literal_cookie_with_zero_samples_product_rejected_before_divisor_checks() {
    let bad = CookCookie {
        selector: SELECTOR_EXTENDED,
        samples_per_frame_x_channels: 0,
        subband_count: 32,
        reserved: 0,
        channels: 2,
        stereo_mode: 4,
    };
    let err =
        DecodeConfig::from_inputs(&bad, &REAL_DESCRIPTOR, &real_flavor(), REAL_FRAME_BYTES)
            .unwrap_err();
    assert_eq!(err, Error::CookieZeroSamplesProduct);
}

#[test]
fn cookie_validation_runs_before_descriptor_divisor_checks() {
    let bad = CookCookie {
        selector: SELECTOR_EXTENDED,
        samples_per_frame_x_channels: 2048,
        subband_count: 32,
        reserved: 0,
        channels: 5,
        stereo_mode: 4,
    };
    let bad_desc = Descriptor {
        channels_divisor: 0,
        sub_packet_size: 0,
    };
    let err = DecodeConfig::from_inputs(&bad, &bad_desc, &real_flavor(), REAL_FRAME_BYTES)
        .unwrap_err();
    assert_eq!(err, Error::CookieInvalidChannels { got: 5 });
}

/// A geometry table in the stock layout: a header row and 31 records.
/// Records 0, 4, 21, 22 and 30 carry the values the original table is
/// known to hold; the others are well-formed presets of the same shape.
const FIXTURE_CSV: &str = "coupling_mode,stereo_mode,samples_per_frame,channels,subband_count,frame_bytes,sample_rate_hz
1,0,256,1,12,20,8000
0,0,256,1,12,32,11025
0,0,512,1,16,64,22050
0,0,512,1,20,96,22050
0,0,1024,1,24,128,44100
0,0,1024,1,32,192,44100
0,0,1024,1,37,256,44100
1,2,256,2,12,40,8000
1,2,256,2,12,64,11025
1,2,512,2,16,128,22050
1,2,512,2,20,192,22050
1,2,1024,2,24,256,44100
1,2,1024,2,32,384,44100
1,2,1024,2,37,512,44100
1,3,256,2,12,64,11025
1,3,512,2,16,96,22050
1,3,512,2,20,128,22050
1,3,1024,2,24,192,44100
2,3,1024,2,32,256,44100
2,4,512,2,20,256,22050
2,4,1024,2,24,512,44100
2,4,1024,2,32,744,44100
2,4,1024,2,32,1024,44100
3,4,1024,2,37,1024,44100
3,5,1024,2,37,744,44100
0,0,1024,1,37,384,44100
0,0,512,1,20,64,11025
1,2,512,2,20,96,11025
1,3,1024,2,37,744,44100
2,5,1024,2,32,512,44100
17,5,1024,1,1,256,44100
";

fn known_table() -> FlavorTable {
    FlavorTable::from_csv(FIXTURE_CSV.as_bytes())
}
