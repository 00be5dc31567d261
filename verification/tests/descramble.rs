use std::borrow::Cow;
use oxideav_cook::descramble::{CommonMode, descramble_packet, xor_descramble, xor_descramble_into, xor_key};
#[test]
fn xor_key_is_ptr_xor_len() {
    assert_eq!(xor_key(0, 0), 0);
    assert_eq!(xor_key(0xDEAD_BEEF, 0), 0xDEAD_BEEF);
    assert_eq!(xor_key(0, 465), 465);
    assert_eq!(xor_key(0x1000_0000, 0x0000_01D1), 0x1000_01D1);
    assert_eq!(xor_key(0xFFFF_FFFF, 0xFFFF_FFFF), 0);
}

#[test]
fn xor_descramble_is_self_inverse() {
    let buf: Vec<u8> = (0u8..=255).cycle().take(1000).collect();
    let key = 0xA5A5_5A5Au32;
    let once = xor_descramble(&buf, key);
    let twice = xor_descramble(&once, key);
    assert_eq!(twice, buf, "double XOR with same key restores input");
    assert_ne!(once, buf, "single XOR with a non-zero key changes bytes");
    assert_eq!(once.len(), buf.len(), "length preserved");
}

#[test]
fn tail_partial_word_round_trips_and_is_verbatim() {
    let buf: Vec<u8> = (0u32..465).map(|i| i.wrapping_mul(7) as u8).collect();
    assert_eq!(buf.len() % 4, 1, "465 leaves a 1-byte tail");
    let key = 0x1234_5678u32;
    let once = xor_descramble(&buf, key);
    assert_eq!(
        *once.last().unwrap(),
        *buf.last().unwrap(),
        "trailing partial-word byte is verbatim"
    );
    assert_eq!(xor_descramble(&once, key), buf);
}

#[test]
fn into_variant_matches_allocating() {
    let buf: Vec<u8> = (0u8..200).collect();
    let key = 0x0BAD_F00Du32;
    let owned = xor_descramble(&buf, key);
    let mut out = vec![0u8; buf.len()];
    xor_descramble_into(&buf, key, &mut out);
    assert_eq!(out, owned);
}

#[test]
fn common_mode_off_bypasses_xor() {
    assert!(!CommonMode::default().is_on(), "default is off");
    assert!(!CommonMode::off().is_on());
    assert!(CommonMode::on().is_on());

    let buf: Vec<u8> = (0u8..100).collect();
    let got = descramble_packet(CommonMode::off(), &buf, 0xDEAD_BEEF);
    assert!(matches!(got, Cow::Borrowed(_)), "off-path is zero-copy");
    assert_eq!(&*got, &buf[..]);
}

#[test]
fn common_mode_on_runs_self_inverse_pass() {
    let buf: Vec<u8> = (0u8..=255).cycle().take(465).collect();
    let key = xor_key(0x6000_0000, buf.len() as u32);
    let scrambled = descramble_packet(CommonMode::on(), &buf, key);
    assert!(matches!(scrambled, Cow::Owned(_)), "on-path allocates");
    assert_ne!(&*scrambled, &buf[..], "on-path changes bytes");
    let restored = descramble_packet(CommonMode::on(), &scrambled, key);
    assert_eq!(&*restored, &buf[..], "double application restores input");
}
