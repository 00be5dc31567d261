use oxideav_cook::cookie::{CookCookie, SELECTOR_EXTENDED};
use oxideav_cook::flavor::{
    flavor_indices_matching_cookie, flavor_record, iter_flavor_records,
    iter_playable_flavor_records, FlavorRecord, FlavorTable, FLAVOR_COUNT,
    RA_GET_NUMBER_OF_FLAVORS2_ADVERTISED, RA_GET_NUMBER_OF_FLAVORS_ADVERTISED,
    SENTINEL_FLAVOR_INDEX,
};

/// A geometry table in the stock layout: a header row and 31 records.
/// Records 0, 4, 21, 22 and 30 carry the values the original table is
/// known to hold; the others are well-formed presets of the same shape.
const FIXTURE_CSV: &str = "coupling_mode,stereo_mode,samples_per_frame,channels,subband_count,frame_bytes,sample_rate_hz
1,0,256,1,12,20,8000
0,0,256,1,12,32,11025
0,0,512,1,16,64,22050
0,0,512,1,20,96,22050
0,0,1024,1,24,128,44100
0,0,1024,1,32,192,44100
0,0,1024,1,37,256,44100
1,2,256,2,12,40,8000
1,2,256,2,12,64,11025
1,2,512,2,16,128,22050
1,2,512,2,20,192,22050
1,2,1024,2,24,256,44100
1,2,1024,2,32,384,44100
1,2,1024,2,37,512,44100
1,3,256,2,12,64,11025
1,3,512,2,16,96,22050
1,3,512,2,20,128,22050
1,3,1024,2,24,192,44100
2,3,1024,2,32,256,44100
2,4,512,2,20,256,22050
2,4,1024,2,24,512,44100
2,4,1024,2,32,744,44100
2,4,1024,2,32,1024,44100
3,4,1024,2,37,1024,44100
3,5,1024,2,37,744,44100
0,0,1024,1,37,384,44100
0,0,512,1,20,64,11025
1,2,512,2,20,96,11025
1,3,1024,2,37,744,44100
2,5,1024,2,32,512,44100
17,5,1024,1,1,256,44100
";

fn table() -> FlavorTable {
    FlavorTable::from_csv(FIXTURE_CSV.as_bytes())
}

#[test]
fn table_has_exactly_31_records() {
    let t = table();
    assert_eq!(t.len(), FLAVOR_COUNT as usize);
    for i in 0..t.len() {
        assert!(
            flavor_record(&t, i as u8).is_some(),
            "unparseable record at line {i}"
        );
    }
}

#[test]
fn first_records_match_known_geometry() {
    let t = table();
    let r0 = flavor_record(&t, 0).unwrap();
    assert_eq!(
        (r0.samples_per_frame, r0.channels, r0.sample_rate_hz),
        (256, 1, 8000)
    );
    let r4 = flavor_record(&t, 4).unwrap();
    assert_eq!(
        (r4.samples_per_frame, r4.channels, r4.sample_rate_hz),
        (1024, 1, 44100)
    );
}

#[test]
fn record_21_is_the_real_stream_flavor() {
    let r = flavor_record(&table(), 21).unwrap();
    assert_eq!(r.channels, 2);
    assert_eq!(r.sample_rate_hz, 44100);
    assert_eq!(r.subband_count, 32);
    assert_eq!(r.samples_per_frame, 1024);
    assert_eq!(r.stereo_mode, 4);
    assert_eq!(r.coupling_mode, 2);
}

#[test]
fn every_record_is_well_formed() {
    let t = table();
    for i in 0..FLAVOR_COUNT {
        let r = flavor_record(&t, i).expect("record present");
        assert!(matches!(r.samples_per_frame, 256 | 512 | 1024), "spf {r:?}");
        assert!(matches!(r.channels, 1 | 2), "channels {r:?}");
        assert!(
            matches!(r.sample_rate_hz, 8000 | 11025 | 22050 | 44100),
            "rate {r:?}"
        );
    }
}

#[test]
fn out_of_range_index_is_none() {
    let t = table();
    assert!(flavor_record(&t, FLAVOR_COUNT).is_none());
    assert!(flavor_record(&t, u8::MAX).is_none());
}

#[test]
fn iter_visits_every_record_in_order() {
    let t = table();
    let collected: Vec<(u8, FlavorRecord)> = iter_flavor_records(&t);
    assert_eq!(collected.len(), FLAVOR_COUNT as usize);
    for (i, (idx, rec)) in collected.iter().enumerate() {
        assert_eq!(*idx, i as u8, "iter must visit indices in order");
        assert_eq!(Some(*rec), flavor_record(&t, *idx));
    }
    let (last_idx, last_rec) = collected.last().copied().unwrap();
    assert_eq!(last_idx, FLAVOR_COUNT - 1);
    assert_eq!(last_rec.subband_count, 1);
}

#[test]
fn cookie_matches_both_record_21_and_22_for_real_stream() {
    const REAL_COOKIE: [u8; 16] = [
        0x01, 0x00, 0x00, 0x03, 0x08, 0x00, 0x00, 0x20, 0x00, 0x00, 0x00, 0x00, 0x00, 0x02,
        0x00, 0x04,
    ];
    let t = table();
    let c = CookCookie::parse(&REAL_COOKIE).unwrap();
    let matches = flavor_indices_matching_cookie(&t, &c);
    assert!(
        matches.contains(&21),
        "record 21 must match real-stream cookie: {matches:?}"
    );
    assert!(
        matches.contains(&22),
        "record 22 must match real-stream cookie (frame_bytes differs): {matches:?}"
    );
    for idx in &matches {
        let r = flavor_record(&t, *idx).unwrap();
        assert_eq!(r.channels, 2);
        assert_eq!(r.subband_count, 32);
        assert_eq!(r.stereo_mode, 4);
        assert_eq!(r.samples_per_frame, 1024);
    }
}

#[test]
fn advertised_counts_are_15_and_34() {
    assert_eq!(RA_GET_NUMBER_OF_FLAVORS_ADVERTISED, 15);
    assert_eq!(RA_GET_NUMBER_OF_FLAVORS2_ADVERTISED, 34);
    assert_ne!(
        RA_GET_NUMBER_OF_FLAVORS_ADVERTISED,
        RA_GET_NUMBER_OF_FLAVORS2_ADVERTISED
    );
    assert_ne!(RA_GET_NUMBER_OF_FLAVORS_ADVERTISED, FLAVOR_COUNT);
    assert_ne!(RA_GET_NUMBER_OF_FLAVORS2_ADVERTISED, FLAVOR_COUNT);
    assert_eq!(SENTINEL_FLAVOR_INDEX, FLAVOR_COUNT - 1);
}

#[test]
fn sentinel_predicate_fires_only_on_index_30() {
    let t = table();
    for (idx, rec) in iter_flavor_records(&t) {
        if idx == SENTINEL_FLAVOR_INDEX {
            assert!(
                rec.is_sentinel(),
                "index {idx} must be the sentinel (subband_count = 1): {rec:?}"
            );
            assert_eq!(rec.subband_count, 1);
        } else {
            assert!(
                !rec.is_sentinel(),
                "index {idx} is a playable preset, but is_sentinel() fired: {rec:?}"
            );
            assert!(
                rec.subband_count >= 2,
                "playable record at index {idx} should have subband_count >= 2: {rec:?}"
            );
        }
    }
    let sentinel = flavor_record(&t, SENTINEL_FLAVOR_INDEX).unwrap();
    assert!(sentinel.is_sentinel());
    assert_eq!(sentinel.coupling_mode, 17);
    assert_eq!(sentinel.stereo_mode, 5);
    assert_eq!(sentinel.samples_per_frame, 1024);
    assert_eq!(sentinel.channels, 1);
    assert_eq!(sentinel.subband_count, 1);
    assert_eq!(sentinel.frame_bytes, 256);
    assert_eq!(sentinel.sample_rate_hz, 44100);
}

#[test]
fn iter_playable_yields_exactly_30_records() {
    let t = table();
    let playable: Vec<(u8, FlavorRecord)> = iter_playable_flavor_records(&t);
    assert_eq!(playable.len(), (FLAVOR_COUNT - 1) as usize);
    for (i, (idx, rec)) in playable.iter().enumerate() {
        assert_eq!(
            *idx, i as u8,
            "iter_playable must visit consecutive indices 0..=29"
        );
        assert!(*idx < SENTINEL_FLAVOR_INDEX);
        assert!(!rec.is_sentinel());
        assert_eq!(Some(*rec), flavor_record(&t, *idx));
    }
    assert!(playable
        .iter()
        .all(|(idx, _)| *idx != SENTINEL_FLAVOR_INDEX));
}

#[test]
fn unmatchable_cookie_returns_empty() {
    let bogus = CookCookie {
        selector: SELECTOR_EXTENDED,
        samples_per_frame_x_channels: 2048,
        subband_count: 99,
        reserved: 0,
        channels: 2,
        stereo_mode: 4,
    };
    assert!(flavor_indices_matching_cookie(&table(), &bogus).is_empty());
}

#[test]
fn csv_parsing_skips_header_and_blank_lines_and_trims_fields() {
    let text = "header line\n\n  2, 4 ,1024,2,32, 744 ,44100  \n\t\nnot,a,record\n17,5,1024,1,1,256,44100";
    let t = FlavorTable::from_csv(text.as_bytes());
    assert_eq!(t.len(), 3);
    assert_eq!(
        flavor_record(&t, 0),
        Some(FlavorRecord {
            coupling_mode: 2,
            stereo_mode: 4,
            samples_per_frame: 1024,
            channels: 2,
            subband_count: 32,
            frame_bytes: 744,
            sample_rate_hz: 44100,
        })
    );
    assert_eq!(flavor_record(&t, 1), None);
    assert!(flavor_record(&t, 2).unwrap().is_sentinel());
    let pairs = iter_flavor_records(&t);
    assert_eq!(pairs.iter().map(|p| p.0).collect::<Vec<u8>>(), vec![0, 2]);
    assert_eq!(iter_playable_flavor_records(&t).len(), 1);
}

#[test]
fn csv_line_with_wrong_field_count_or_overflow_is_rejected() {
    let text = "h\n1,2,3,4,5,6\n1,2,3,4,5,6,7,8\n1,2,3,4,5,6,4294967296\n1,2,3,4,5,6,4294967295\n";
    let t = FlavorTable::from_csv(text.as_bytes());
    assert_eq!(t.len(), 4);
    assert_eq!(flavor_record(&t, 0), None);
    assert_eq!(flavor_record(&t, 1), None);
    assert_eq!(flavor_record(&t, 2), None);
    assert_eq!(flavor_record(&t, 3).unwrap().sample_rate_hz, u32::MAX);
}

#[test]
fn empty_text_gives_empty_table() {
    let t = FlavorTable::from_csv(b"");
    assert_eq!(t.len(), 0);
    assert!(iter_flavor_records(&t).is_empty());
}
