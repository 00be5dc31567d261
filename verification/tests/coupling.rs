use oxideav_cook::coupling::{CouplingMode, STEREO_MODE_MAX, STEREO_MODE_MIN, StereoMode};
use oxideav_cook::flavor::{FLAVOR_COUNT, FlavorTable, flavor_record, iter_flavor_records};
use oxideav_cook::Error;
#[test]
fn stereo_mode_classifies_documented_values() {
    assert_eq!(StereoMode::from_raw(0).unwrap(), StereoMode::Mono);
    for v in STEREO_MODE_MIN..=STEREO_MODE_MAX {
        assert_eq!(
            StereoMode::from_raw(v).unwrap(),
            StereoMode::Stereo(v as u8)
        );
    }
}

#[test]
fn stereo_mode_rejects_reserved_and_oob() {
    for got in [1u32, 6, 7, 100, u32::MAX] {
        assert_eq!(
            StereoMode::from_raw(got).unwrap_err(),
            Error::StereoModeUnsupported { got }
        );
    }
}

#[test]
fn stereo_mode_raw_roundtrips() {
    for raw in [0u32, 2, 3, 4, 5] {
        assert_eq!(StereoMode::from_raw(raw).unwrap().raw(), raw);
    }
}

#[test]
fn stereo_mode_is_stereo_flag() {
    assert!(!StereoMode::Mono.is_stereo());
    for v in 2u8..=5 {
        assert!(StereoMode::Stereo(v).is_stereo());
    }
}

#[test]
fn coupling_mode_splits_zero_and_nonzero() {
    assert_eq!(CouplingMode::from_raw(0), CouplingMode::Uncoupled);
    for raw in [1u32, 2, 5, 6, 8, 17, 19, 0xffff_ffff] {
        assert_eq!(CouplingMode::from_raw(raw), CouplingMode::Coupled(raw));
    }
}

#[test]
fn coupling_mode_raw_and_flags() {
    assert_eq!(CouplingMode::Uncoupled.raw(), 0);
    assert!(!CouplingMode::Uncoupled.is_coupled());
    for raw in [1u32, 2, 19] {
        let c = CouplingMode::from_raw(raw);
        assert_eq!(c.raw(), raw);
        assert!(c.is_coupled());
    }
}

#[test]
fn record_classifiers_agree_with_raw_fields() {
    for (idx, rec) in iter_flavor_records(&known_table()) {
        let cm = rec.coupling_mode_class();
        assert_eq!(cm.raw(), rec.coupling_mode, "coupling raw mismatch @ {idx}");
        assert_eq!(cm.is_coupled(), rec.is_coupled());
        assert_eq!(cm.is_coupled(), rec.coupling_mode != 0);

        let sm = rec
            .stereo_mode_class()
            .unwrap_or_else(|e| panic!("record {idx} stereo mode out of spec: {e:?}"));
        assert_eq!(sm.raw(), rec.stereo_mode, "stereo raw mismatch @ {idx}");
        assert_eq!(sm.is_stereo(), rec.is_stereo());
        assert_eq!(sm.is_stereo(), (2..=5).contains(&rec.stereo_mode));
    }
}

#[test]
fn record_21_is_coupled_stereo() {
    let r = flavor_record(&known_table(), 21).unwrap();
    assert_eq!(r.coupling_mode_class(), CouplingMode::Coupled(2));
    assert_eq!(r.stereo_mode_class().unwrap(), StereoMode::Stereo(4));
    assert!(r.is_coupled());
    assert!(r.is_stereo());
    assert_eq!(r.channels, 2);
}

#[test]
fn sentinel_record_30_classifies() {
    let s = flavor_record(&known_table(), FLAVOR_COUNT - 1).unwrap();
    assert_eq!(s.coupling_mode_class(), CouplingMode::Coupled(17));
    assert_eq!(s.stereo_mode_class().unwrap(), StereoMode::Stereo(5));
}

/// A geometry table in the stock layout: a header row and 31 records.
/// Records 0, 4, 21, 22 and 30 carry the values the original table is
/// known to hold; the others are well-formed presets of the same shape.
const FIXTURE_CSV: &str = "coupling_mode,stereo_mode,samples_per_frame,channels,subband_count,frame_bytes,sample_rate_hz
1,0,256,1,12,20,8000
0,0,256,1,12,32,11025
0,0,512,1,16,64,22050
0,0,512,1,20,96,22050
0,0,1024,1,24,128,44100
0,0,1024,1,32,192,44100
0,0,1024,1,37,256,44100
1,2,256,2,12,40,8000
1,2,256,2,12,64,11025
1,2,512,2,16,128,22050
1,2,512,2,20,192,22050
1,2,1024,2,24,256,44100
1,2,1024,2,32,384,44100
1,2,1024,2,37,512,44100
1,3,256,2,12,64,11025
1,3,512,2,16,96,22050
1,3,512,2,20,128,22050
1,3,1024,2,24,192,44100
2,3,1024,2,32,256,44100
2,4,512,2,20,256,22050
2,4,1024,2,24,512,44100
2,4,1024,2,32,744,44100
2,4,1024,2,32,1024,44100
3,4,1024,2,37,1024,44100
3,5,1024,2,37,744,44100
0,0,1024,1,37,384,44100
0,0,512,1,20,64,11025
1,2,512,2,20,96,11025
1,3,1024,2,37,744,44100
2,5,1024,2,32,512,44100
17,5,1024,1,1,256,44100
";

fn known_table() -> FlavorTable {
    FlavorTable::from_csv(FIXTURE_CSV.as_bytes())
}

#[test]
fn mono_records_are_uncoupled_mono() {
    let r1 = flavor_record(&known_table(), 1).unwrap();
    assert_eq!(r1.channels, 1);
    assert_eq!(r1.coupling_mode_class(), CouplingMode::Uncoupled);
    assert_eq!(r1.stereo_mode_class().unwrap(), StereoMode::Mono);
    assert!(!r1.is_coupled());
    assert!(!r1.is_stereo());
}

#[test]
fn coupling_and_stereo_mode_classifications_match_the_table() {
    let t = known_table();
    let r0 = flavor_record(&t, 0).unwrap();
    assert!(r0.is_coupled(), "record 0 carries coupling-region 1");
    assert!(!r0.is_stereo(), "record 0 is stereo-mode 0 (mono)");
    assert_eq!(r0.channels, 1);

    let mut coupled_mono_seen = false;
    for (idx, rec) in iter_flavor_records(&t) {
        if rec.is_stereo() {
            assert!(
                rec.is_coupled(),
                "stereo record {idx} should also be coupled: {rec:?}"
            );
        }
        if rec.is_coupled() && !rec.is_stereo() {
            coupled_mono_seen = true;
        }
    }
    assert!(
        coupled_mono_seen,
        "expected at least one coupled record with stereo-mode 0 (e.g. index 0)"
    );

    let r21 = flavor_record(&t, 21).unwrap();
    assert!(r21.is_coupled() && r21.is_stereo());
}

use oxideav_cook::coupling::CouplingPanWidth;

#[test]
fn pan_widths_map_bits_lengths_and_table_heads() {
    let all = CouplingPanWidth::all();
    let mut prev_end: Option<u32> = None;
    for (row, w) in all.iter().enumerate() {
        assert_eq!(w.row_index(), row);
        assert_eq!(w.bits(), row as u32 + 2);
        assert_eq!(w.table_len(), (1u32 << w.bits()) - 1);
        assert_eq!(CouplingPanWidth::from_bits(w.bits()), Ok(*w));
        if let Some(end) = prev_end {
            assert_eq!(w.rva(), end, "tables tile back to back");
        }
        prev_end = Some(w.rva() + 4 * w.table_len());
    }
    assert_eq!(CouplingPanWidth::W2.rva(), 0x8d0c);
    assert_eq!(prev_end, Some(0x8d0c + 4 * (3 + 7 + 15 + 31 + 63)));
    for bad in [0u32, 1, 7, 32] {
        assert_eq!(
            CouplingPanWidth::from_bits(bad),
            Err(Error::CouplingPanWidthUnsupported { got: bad })
        );
    }
}
