use oxideav_cook::cookie::CookCookie;
use oxideav_cook::init::{DecodeConfig, Descriptor};
use oxideav_cook::flavor::FlavorRecord;
use oxideav_cook::session::CallSession;
use oxideav_cook::subpacket::SubPacketLayout;
use oxideav_cook::Error;

const REAL_COOKIE: [u8; 16] = [
    0x01, 0x00, 0x00, 0x03, 0x08, 0x00, 0x00, 0x20, 0x00, 0x00, 0x00, 0x00, 0x00, 0x02, 0x00,
    0x04,
];

fn real_config() -> DecodeConfig {
    let cookie = CookCookie::parse(&REAL_COOKIE).unwrap();
    let descriptor = Descriptor {
        channels_divisor: 2,
        sub_packet_size: 93,
    };
    let flavor = FlavorRecord {
        coupling_mode: 2,
        stereo_mode: 4,
        samples_per_frame: 1024,
        channels: 2,
        subband_count: 32,
        frame_bytes: 744,
        sample_rate_hz: 44100,
    };
    DecodeConfig::from_inputs(&cookie, &descriptor, &flavor, 465).unwrap()
}

#[test]
fn layout_carries_the_config_cadence() {
    let l = SubPacketLayout::from_config(&real_config());
    assert_eq!(l.frame_bytes, 465);
    assert_eq!(l.sub_packet_size, 93);
    assert_eq!(l.sub_packets_per_call, 5);
    assert_eq!(l.pcm_bytes_per_call, 20_480);
    assert_eq!(l.warmup_pcm_bytes, 8_192);
}

#[test]
fn layout_splits_a_call_into_consecutive_slots() {
    let l = SubPacketLayout::from_config(&real_config());
    let input: Vec<u8> = (0..465u32).map(|i| i as u8).collect();
    let slots = l.iter_call(&input).unwrap();
    assert_eq!(slots.len(), 5);
    for (i, s) in slots.iter().enumerate() {
        assert_eq!(*s, &input[i * 93..(i + 1) * 93]);
    }
    assert_eq!(
        l.iter_call(&input[..464]).unwrap_err(),
        Error::SubPacketInputLengthMismatch {
            got: 464,
            expected: 465
        }
    );
}

#[test]
fn pcm_offsets_follow_warmup_then_steady_state() {
    let l = SubPacketLayout::from_config(&real_config());
    assert_eq!(l.pcm_offset_for_call(0), 0);
    assert_eq!(l.pcm_offset_for_call(1), 8_192);
    assert_eq!(l.pcm_offset_for_call(2), 8_192 + 20_480);
    assert_eq!(l.pcm_offset_for_call(144), 8_192 + 143 * 20_480);
}

#[test]
fn fresh_session_expects_frame_bytes_and_the_warmup_budget() {
    let s = CallSession::from_config(&real_config());
    assert_eq!(s.calls_completed(), 0);
    assert_eq!(s.total_pcm_emitted(), 0);
    assert_eq!(s.next_call_expected_input_len(), 465);
    assert_eq!(s.next_call_pcm_bytes(), 8_192);
    assert_eq!(s.next_call_pcm_byte_range(), 0..8_192);
    assert_eq!(s.layout(), SubPacketLayout::from_config(&real_config()));
}

#[test]
fn rejected_calls_leave_the_session_unchanged() {
    let mut s = CallSession::from_config(&real_config());
    let before = s;
    assert_eq!(
        s.advance_one_call(464, 8_192),
        Err(Error::CallInputLengthMismatch {
            got: 464,
            expected: 465
        })
    );
    assert_eq!(s, before);
    assert_eq!(
        s.advance_one_call(465, 20_480),
        Err(Error::CallOutputLengthMismatch {
            got: 20_480,
            expected: 8_192
        })
    );
    assert_eq!(s, before);
}

#[test]
fn accepted_calls_advance_the_cursor_to_each_calls_pcm_offset() {
    let mut s = CallSession::from_config(&real_config());
    let l = s.layout();
    for k in 0..10u32 {
        assert_eq!(s.total_pcm_emitted(), l.pcm_offset_for_call(k));
        let budget = s.next_call_pcm_bytes();
        let range = s.next_call_pcm_byte_range();
        assert_eq!(range.end - range.start, budget as u64);
        s.advance_one_call(465, budget as usize).unwrap();
        assert_eq!(s.calls_completed(), k + 1);
        assert_eq!(s.total_pcm_emitted(), l.pcm_offset_for_call(k + 1));
    }
    assert_eq!(s.next_call_pcm_bytes(), 20_480);
    assert_eq!(s.total_pcm_emitted(), real_config().total_pcm_bytes(10));
}

#[test]
fn slot_and_call_byte_ranges_tile_the_stream() {
    let l = SubPacketLayout::from_config(&real_config());
    for slot in 0..5u32 {
        let r = l.slot_byte_range(slot).unwrap();
        assert_eq!(r, (slot as usize * 93)..((slot as usize + 1) * 93));
    }
    assert_eq!(
        l.slot_byte_range(5),
        Err(Error::SlotOutOfRange {
            slot: 5,
            slots_per_call: 5
        })
    );
    assert_eq!(l.call_byte_range(0), 0..465);
    assert_eq!(l.call_byte_range(143), 143 * 465..144 * 465);
    assert_eq!(l.call_byte_range(143).end, 66_960);
}
