use oxideav_cook::decoder::{decode_gains, split_packet_sizes};
use oxideav_cook::Error;

fn pack(fields: &[(u32, u32)]) -> Vec<u8> {
    let mut bits: Vec<u8> = Vec::new();
    for &(v, n) in fields {
        for b in (0..n).rev() {
            bits.push(((v >> b) & 1) as u8);
        }
    }
    while bits.len() % 8 != 0 {
        bits.push(0);
    }
    let mut bytes = vec![0u8; bits.len() / 8];
    for (i, &bit) in bits.iter().enumerate() {
        if bit != 0 {
            bytes[i / 8] |= 0x80 >> (i % 8);
        }
    }
    bytes
}

fn gains_of(bytes: &[u8]) -> (Result<u32, Error>, [i32; 8], u32) {
    let mut g = [99i32; 8];
    let r = decode_gains(bytes, 0, &mut g);
    let pos = *r.as_ref().unwrap_or(&0);
    (r, g, pos)
}

#[test]
fn zero_entries_leave_every_slot_cleared() {
    let (r, g, pos) = gains_of(&pack(&[(1, 1)]));
    assert!(r.is_ok());
    assert_eq!(g, [0; 8]);
    assert_eq!(pos, 1);
}

#[test]
fn entries_fill_runs_up_to_their_slots() {
    // Two entries: slot 2 with gain 10 - 7 = 3, slot 5 without gain (-1).
    let bytes = pack(&[(0b001, 3), (2, 3), (1, 1), (10, 4), (5, 3), (0, 1)]);
    let (r, g, pos) = gains_of(&bytes);
    assert!(r.is_ok());
    assert_eq!(g, [3, 3, 3, -1, -1, -1, 0, 0]);
    assert_eq!(pos, 3 + 8 + 4);
}

#[test]
fn a_slot_behind_the_run_fills_nothing_but_restarts_the_run() {
    let bytes = pack(&[
        (0b0001, 4),
        (5, 3),
        (1, 1),
        (0, 4),
        (1, 3),
        (1, 1),
        (15, 4),
        (7, 3),
        (0, 1),
    ]);
    let (r, g, _) = gains_of(&bytes);
    assert!(r.is_ok());
    assert_eq!(g, [-7, -7, -1, -1, -1, -1, -1, -1]);
}

#[test]
fn at_most_eight_entries_are_read() {
    let mut fields = vec![(0u32, 10), (1, 1)];
    for slot in 0..8u32 {
        fields.push((slot, 3));
        fields.push((1, 1));
        fields.push((slot + 7, 4));
    }
    // A ninth entry that must not be read.
    fields.push((7, 3));
    fields.push((0, 1));
    let (r, g, pos) = gains_of(&pack(&fields));
    assert!(r.is_ok());
    assert_eq!(g, [0, 1, 2, 3, 4, 5, 6, 7]);
    assert_eq!(pos, 11 + 8 * 8);
}

#[test]
fn running_out_of_bits_is_a_read_failure() {
    assert_eq!(gains_of(&[]).0, Err(Error::GainProfileReadFailed));
    assert_eq!(gains_of(&[0, 0]).0, Err(Error::GainProfileReadFailed));
    // One entry announced, its gain field cut short.
    let (r, _, _) = gains_of(&pack(&[(0b01, 2), (3, 3), (1, 1), (0, 2)])[..1]);
    assert_eq!(r, Err(Error::GainProfileReadFailed));
}

#[test]
fn the_profile_can_start_inside_a_byte() {
    // Three junk bits, then one entry: slot 1, gain 9 - 7 = 2.
    let bytes = pack(&[(0b101, 3), (0b01, 2), (1, 3), (1, 1), (9, 4)]);
    let mut g = [5i32; 8];
    assert_eq!(decode_gains(&bytes, 3, &mut g), Ok(3 + 2 + 8));
    assert_eq!(g, [2, 2, 0, 0, 0, 0, 0, 0]);
}

#[test]
fn a_failed_read_keeps_the_runs_read_before_it() {
    // Two entries announced; the first (slot 2, no gain) is whole, the
    // second is cut short.
    let bytes = pack(&[(0b001, 3), (2, 3), (0, 1), (1, 1)]);
    let mut g = [5i32; 8];
    assert_eq!(
        decode_gains(&bytes, 0, &mut g),
        Err(Error::GainProfileReadFailed)
    );
    assert_eq!(g, [-1, -1, -1, 0, 0, 0, 0, 0]);
}

#[test]
fn a_start_past_the_end_is_a_read_failure() {
    let mut g = [0i32; 8];
    assert_eq!(
        decode_gains(&[0xff], 9, &mut g),
        Err(Error::GainProfileReadFailed)
    );
}

#[test]
fn packet_split_follows_the_size_trailer() {
    let mut payload = vec![0u8; 10];
    payload.push(2);
    payload.push(1);
    let sizes = split_packet_sizes(&payload, 3).unwrap();
    assert_eq!(sizes, vec![4, 4, 2]);
    assert_eq!(sizes.iter().sum::<usize>() + 2, payload.len());
}

#[test]
fn packet_split_of_one_subpacket_is_the_whole_packet() {
    let payload = [9u8, 8, 7, 6, 5];
    assert_eq!(split_packet_sizes(&payload, 1), Ok(vec![5]));
    assert_eq!(split_packet_sizes(&[], 1), Ok(vec![0]));
}

#[test]
fn packet_split_rejects_a_packet_shorter_than_its_trailer() {
    assert_eq!(
        split_packet_sizes(&[1u8], 3),
        Err(Error::SizeTrailerTooShort { got: 1, trailer: 2 })
    );
}

#[test]
fn packet_split_rejects_sizes_past_the_packet() {
    let payload = [0u8, 0, 0, 0, 3, 1];
    assert_eq!(
        split_packet_sizes(&payload, 3),
        Err(Error::SubpacketSizesExceedPayload { payload_len: 6 })
    );
    // Exactly filling the bytes before the trailer leaves the first
    // subpacket empty.
    let payload = [0u8, 0, 0, 0, 0, 0, 0, 0, 3, 1];
    assert_eq!(split_packet_sizes(&payload, 3), Ok(vec![0, 6, 2]));
}
