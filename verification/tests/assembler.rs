use oxideav_cook::assembler::{CallPcmAssembler};
use oxideav_cook::cookie::{CookCookie};
use oxideav_cook::flavor::{FlavorTable, flavor_record};
use oxideav_cook::init::{DecodeConfig, Descriptor};
use oxideav_cook::Error;

const REAL_COOKIE: [u8; 16] = [
    0x01, 0x00, 0x00, 0x03, 0x08, 0x00, 0x00, 0x20, 0x00, 0x00, 0x00, 0x00, 0x00, 0x02, 0x00,
    0x04,
];

fn real_config() -> DecodeConfig {
    let cookie = CookCookie::parse(&REAL_COOKIE).unwrap();
    let descriptor = Descriptor {
        channels_divisor: 2,
        sub_packet_size: 93,
    };
    let flavor = flavor_record(&known_table(), 21).unwrap();
    DecodeConfig::from_inputs(&cookie, &descriptor, &flavor, 465).unwrap()
}

#[test]
fn frame_pcm_size_derives_from_config() {
    let a = CallPcmAssembler::from_config(&real_config()).unwrap();
    assert_eq!(a.frame_pcm_bytes(), 4_096);
    assert_eq!(a.buffered(), 0);
}

#[test]
fn push_rejects_wrong_frame_size() {
    let mut a = CallPcmAssembler::from_config(&real_config()).unwrap();
    let err = a.push_frame_pcm(&[0u8; 4_095]).unwrap_err();
    assert_eq!(
        err,
        Error::FramePcmLengthMismatch {
            got: 4_095,
            expected: 4_096
        }
    );
    assert_eq!(a.buffered(), 0);
}

#[test]
fn underrun_is_typed_and_non_destructive() {
    let mut a = CallPcmAssembler::from_config(&real_config()).unwrap();
    a.push_frame_pcm(&[1u8; 4_096]).unwrap();
    let mut out = vec![0u8; 8_192];
    let err = a.fill_call(&mut out).unwrap_err();
    assert_eq!(
        err,
        Error::PcmAssemblerUnderrun {
            need: 8_192,
            have: 4_096
        }
    );
    assert_eq!(a.buffered(), 4_096);
}

#[test]
fn fifo_order_is_preserved() {
    let mut a = CallPcmAssembler::from_config(&real_config()).unwrap();
    a.push_frame_pcm(&vec![0x11u8; 4_096]).unwrap();
    a.push_frame_pcm(&vec![0x22u8; 4_096]).unwrap();
    a.push_frame_pcm(&vec![0x33u8; 4_096]).unwrap();
    let mut out = vec![0u8; 8_192];
    a.fill_call(&mut out).unwrap();
    assert!(out[..4_096].iter().all(|&b| b == 0x11));
    assert!(out[4_096..].iter().all(|&b| b == 0x22));
    assert_eq!(a.buffered(), 4_096);
    a.reset();
    assert_eq!(a.buffered(), 0);
}

#[test]
fn validated_144_call_cadence_reproduces_pinned_totals() {
    let cfg = real_config();
    let mut a = CallPcmAssembler::from_config(&cfg).unwrap();
    let frame = vec![0u8; 4_096];
    let mut total_out = 0u64;
    for call in 0..144u32 {
        for _ in 0..cfg.sub_packets_per_call {
            a.push_frame_pcm(&frame).unwrap();
        }
        let budget = if call == 0 { 8_192usize } else { 20_480 };
        let mut out = vec![0xFFu8; budget];
        a.fill_call(&mut out).unwrap();
        total_out += budget as u64;
        assert_eq!(a.buffered(), 12_288, "constant 3-frame backlog");
        assert_eq!(total_out, cfg.total_pcm_bytes(call + 1));
    }
    assert_eq!(total_out, 2_936_832);
}

#[test]
fn from_config_rejects_zero_sub_packets() {
    let mut cfg = real_config();
    cfg.sub_packets_per_call = 0;
    cfg.frame_bytes = 0;
    assert!(matches!(
        CallPcmAssembler::from_config(&cfg),
        Err(Error::FrameNotDivisibleBySubPacket { .. })
    ));
}

/// A geometry table in the stock layout: a header row and 31 records.
/// Records 0, 4, 21, 22 and 30 carry the values the original table is
/// known to hold; the others are well-formed presets of the same shape.
const FIXTURE_CSV: &str = "coupling_mode,stereo_mode,samples_per_frame,channels,subband_count,frame_bytes,sample_rate_hz
1,0,256,1,12,20,8000
0,0,256,1,12,32,11025
0,0,512,1,16,64,22050
0,0,512,1,20,96,22050
0,0,1024,1,24,128,44100
0,0,1024,1,32,192,44100
0,0,1024,1,37,256,44100
1,2,256,2,12,40,8000
1,2,256,2,12,64,11025
1,2,512,2,16,128,22050
1,2,512,2,20,192,22050
1,2,1024,2,24,256,44100
1,2,1024,2,32,384,44100
1,2,1024,2,37,512,44100
1,3,256,2,12,64,11025
1,3,512,2,16,96,22050
1,3,512,2,20,128,22050
1,3,1024,2,24,192,44100
2,3,1024,2,32,256,44100
2,4,512,2,20,256,22050
2,4,1024,2,24,512,44100
2,4,1024,2,32,744,44100
2,4,1024,2,32,1024,44100
3,4,1024,2,37,1024,44100
3,5,1024,2,37,744,44100
0,0,1024,1,37,384,44100
0,0,512,1,20,64,11025
1,2,512,2,20,96,11025
1,3,1024,2,37,744,44100
2,5,1024,2,32,512,44100
17,5,1024,1,1,256,44100
";

fn known_table() -> FlavorTable {
    FlavorTable::from_csv(FIXTURE_CSV.as_bytes())
}
