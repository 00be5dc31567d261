use oxideav_cook::cookie::{CookCookie, SELECTOR_EXTENDED, SelectorFamily};
use oxideav_cook::flavor::{FlavorTable, flavor_record};
use oxideav_cook::Error;
const REAL_COOKIE: [u8; 16] = [
    0x01, 0x00, 0x00, 0x03, 0x08, 0x00, 0x00, 0x20, 0x00, 0x00, 0x00, 0x00, 0x00, 0x02, 0x00,
    0x04,
];

#[test]
fn parses_real_cookie_fields() {
    let c = CookCookie::parse(&REAL_COOKIE).unwrap();
    assert_eq!(c.selector, SELECTOR_EXTENDED);
    assert_eq!(c.samples_per_frame_x_channels, 2048);
    assert_eq!(c.subband_count, 32);
    assert_eq!(c.reserved, 0);
    assert_eq!(c.channels, 2);
    assert_eq!(c.stereo_mode, 4);
    assert_eq!(c.samples_per_frame(), Some(1024));
}

#[test]
fn real_cookie_matches_flavor_record_21() {
    let c = CookCookie::parse(&REAL_COOKIE).unwrap();
    let r = flavor_record(&known_table(), 21).unwrap();
    assert!(c.matches_flavor(&r), "cookie {c:?} vs record {r:?}");
}

#[test]
fn short_blob_is_rejected() {
    assert_eq!(
        CookCookie::parse(&REAL_COOKIE[..15]),
        Err(Error::CookieTooShort { got: 15 })
    );
}

#[test]
fn non_extended_monostereo_sibling_rejected_with_typed_error() {
    let mut blob = REAL_COOKIE;
    blob[3] = 0x02;
    assert_eq!(
        CookCookie::parse(&blob),
        Err(Error::NonExtendedSelectorNotSupported {
            selector: 0x0100_0002
        })
    );
    blob[3] = 0x01;
    assert_eq!(
        CookCookie::parse(&blob),
        Err(Error::NonExtendedSelectorNotSupported {
            selector: 0x0100_0001
        })
    );
}

#[test]
fn multichannel_selector_rejected_with_typed_error() {
    let mut blob = REAL_COOKIE;
    blob[0] = 0x02;
    blob[1] = 0x00;
    blob[2] = 0x00;
    blob[3] = 0x00;
    assert_eq!(
        CookCookie::parse(&blob),
        Err(Error::MultichannelSelectorNotSupported {
            selector: 0x0200_0000
        })
    );
}

#[test]
fn truly_unrecognised_selector_rejected() {
    let mut blob = REAL_COOKIE;
    blob[0] = 0xff;
    blob[1] = 0xff;
    blob[2] = 0xff;
    blob[3] = 0xff;
    assert_eq!(
        CookCookie::parse(&blob),
        Err(Error::UnsupportedSelector {
            selector: 0xffff_ffff
        })
    );
}

#[test]
fn selector_family_classifies_documented_values() {
    assert_eq!(
        SelectorFamily::classify(0x0100_0001),
        SelectorFamily::MonoStereo
    );
    assert_eq!(
        SelectorFamily::classify(0x0100_0002),
        SelectorFamily::MonoStereo
    );
    assert_eq!(
        SelectorFamily::classify(SELECTOR_EXTENDED),
        SelectorFamily::MonoStereo
    );
    assert_eq!(
        SelectorFamily::classify(0x0200_0000),
        SelectorFamily::Multichannel
    );
    assert_eq!(
        SelectorFamily::classify(0x0200_0001),
        SelectorFamily::Unsupported
    );
    assert!(SelectorFamily::is_parser_supported(SELECTOR_EXTENDED));
    assert!(!SelectorFamily::is_parser_supported(0x0100_0001));
    assert!(!SelectorFamily::is_parser_supported(0x0200_0000));
}

#[test]
fn parsed_cookie_family_is_monostereo() {
    let c = CookCookie::parse(&REAL_COOKIE).unwrap();
    assert_eq!(c.family(), SelectorFamily::MonoStereo);
}

#[test]
fn samples_per_frame_zero_channels_is_none() {
    let c = CookCookie {
        selector: SELECTOR_EXTENDED,
        samples_per_frame_x_channels: 2048,
        subband_count: 32,
        reserved: 0,
        channels: 0,
        stereo_mode: 4,
    };
    assert_eq!(c.samples_per_frame(), None);
}


fn well_formed() -> CookCookie {
    CookCookie {
        selector: SELECTOR_EXTENDED,
        samples_per_frame_x_channels: 2048,
        subband_count: 32,
        reserved: 0,
        channels: 2,
        stereo_mode: 4,
    }
}

#[test]
fn validate_geometry_accepts_well_formed_cookies() {
    let c = CookCookie::parse(&REAL_COOKIE).unwrap();
    assert!(c.validate_geometry().is_ok());
    let mono = CookCookie {
        channels: 1,
        samples_per_frame_x_channels: 1024,
        ..well_formed()
    };
    assert!(mono.validate_geometry().is_ok());
}

#[test]
fn validate_geometry_rejects_zero_channels() {
    let bad = CookCookie {
        channels: 0,
        ..well_formed()
    };
    assert_eq!(
        bad.validate_geometry(),
        Err(Error::CookieInvalidChannels { got: 0 })
    );
}

#[test]
fn validate_geometry_rejects_channels_above_two() {
    for ch in [3u16, 4, 5, 6, 255, 65_535] {
        let bad = CookCookie {
            channels: ch,
            ..well_formed()
        };
        assert_eq!(
            bad.validate_geometry(),
            Err(Error::CookieInvalidChannels { got: ch }),
            "channels = {ch}"
        );
    }
}

#[test]
fn validate_geometry_rejects_zero_subband_count() {
    let bad = CookCookie {
        subband_count: 0,
        ..well_formed()
    };
    assert_eq!(bad.validate_geometry(), Err(Error::CookieZeroSubbandCount));
}

#[test]
fn validate_geometry_rejects_zero_samples_product() {
    let bad = CookCookie {
        samples_per_frame_x_channels: 0,
        ..well_formed()
    };
    assert_eq!(
        bad.validate_geometry(),
        Err(Error::CookieZeroSamplesProduct)
    );
}

#[test]
fn parse_rejects_extended_cookie_with_invalid_channels() {
    let mut blob = REAL_COOKIE;
    blob[12] = 0x00;
    blob[13] = 0x03;
    assert_eq!(
        CookCookie::parse(&blob),
        Err(Error::CookieInvalidChannels { got: 3 })
    );
}

#[test]
fn parse_rejects_extended_cookie_with_zero_channels() {
    let mut blob = REAL_COOKIE;
    blob[12] = 0x00;
    blob[13] = 0x00;
    assert_eq!(
        CookCookie::parse(&blob),
        Err(Error::CookieInvalidChannels { got: 0 })
    );
}

#[test]
fn parse_rejects_extended_cookie_with_zero_subband_count() {
    let mut blob = REAL_COOKIE;
    blob[6] = 0x00;
    blob[7] = 0x00;
    assert_eq!(CookCookie::parse(&blob), Err(Error::CookieZeroSubbandCount));
}

#[test]
fn parse_rejects_extended_cookie_with_zero_samples_product() {
    let mut blob = REAL_COOKIE;
    blob[4] = 0x00;
    blob[5] = 0x00;
    assert_eq!(
        CookCookie::parse(&blob),
        Err(Error::CookieZeroSamplesProduct)
    );
}

#[test]
fn parse_surfaces_first_failure_under_multi_field_malformation() {
    let mut blob = REAL_COOKIE;
    blob[4] = 0x00;
    blob[5] = 0x00;
    blob[6] = 0x00;
    blob[7] = 0x00;
    blob[12] = 0x00;
    blob[13] = 0x03;
    assert_eq!(
        CookCookie::parse(&blob),
        Err(Error::CookieZeroSamplesProduct)
    );
}

#[test]
fn parsed_cookies_are_always_geometry_well_formed() {
    let c = CookCookie::parse(&REAL_COOKIE).unwrap();
    assert!(c.validate_geometry().is_ok());
    assert!(c.channels == 1 || c.channels == 2);
    assert!(c.subband_count >= 1);
    assert!(c.samples_per_frame_x_channels >= 1);
}

/// A geometry table in the stock layout: a header row and 31 records.
/// Records 0, 4, 21, 22 and 30 carry the values the original table is
/// known to hold; the others are well-formed presets of the same shape.
const FIXTURE_CSV: &str = "coupling_mode,stereo_mode,samples_per_frame,channels,subband_count,frame_bytes,sample_rate_hz
1,0,256,1,12,20,8000
0,0,256,1,12,32,11025
0,0,512,1,16,64,22050
0,0,512,1,20,96,22050
0,0,1024,1,24,128,44100
0,0,1024,1,32,192,44100
0,0,1024,1,37,256,44100
1,2,256,2,12,40,8000
1,2,256,2,12,64,11025
1,2,512,2,16,128,22050
1,2,512,2,20,192,22050
1,2,1024,2,24,256,44100
1,2,1024,2,32,384,44100
1,2,1024,2,37,512,44100
1,3,256,2,12,64,11025
1,3,512,2,16,96,22050
1,3,512,2,20,128,22050
1,3,1024,2,24,192,44100
2,3,1024,2,32,256,44100
2,4,512,2,20,256,22050
2,4,1024,2,24,512,44100
2,4,1024,2,32,744,44100
2,4,1024,2,32,1024,44100
3,4,1024,2,37,1024,44100
3,5,1024,2,37,744,44100
0,0,1024,1,37,384,44100
0,0,512,1,20,64,11025
1,2,512,2,20,96,11025
1,3,1024,2,37,744,44100
2,5,1024,2,32,512,44100
17,5,1024,1,1,256,44100
";

fn known_table() -> FlavorTable {
    FlavorTable::from_csv(FIXTURE_CSV.as_bytes())
}
