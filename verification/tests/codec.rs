use tcu_telemetry::frame::{decode, encode, END_MARKER, FRAME_LEN, N_CHANNELS, START_MARKER};

fn vector_from_bits(bits: u32) -> Vec<bool> {
    (0..N_CHANNELS).map(|i| (bits >> i) & 1 == 1).collect()
}

#[test]
fn encode_layout_is_exact() {
    let states = vec![true, false, true, false, true, false, true];
    let frame = encode(&states);
    assert_eq!(
        frame,
        vec![START_MARKER, 1, 0, 1, 0, 1, 0, 1, 0, END_MARKER]
    );
}

#[test]
fn encode_length_is_fixed_for_every_vector() {
    for bits in 0..(1u32 << N_CHANNELS) {
        let frame = encode(&vector_from_bits(bits));
        assert_eq!(frame.len(), FRAME_LEN);
    }
}

#[test]
fn round_trip_over_every_vector() {
    for bits in 0..(1u32 << N_CHANNELS) {
        let states = vector_from_bits(bits);
        let frame = encode(&states);
        assert_eq!(decode(&frame), Some(states));
    }
}

#[test]
fn decode_rejects_wrong_length() {
    assert_eq!(decode(&vec![]), None);
    assert_eq!(decode(&vec![START_MARKER, 1, 0, 1, END_MARKER]), None);
    assert_eq!(
        decode(&vec![START_MARKER, 1, 0, 1, 0, 1, 0, 1, 0, 0, END_MARKER]),
        None
    );
}

#[test]
fn decode_rejects_corrupt_start_marker() {
    let mut frame = encode(&vec![true; N_CHANNELS]);
    frame[0] ^= 0xFF;
    assert_eq!(decode(&frame), None);
}

#[test]
fn decode_rejects_corrupt_end_marker() {
    let mut frame = encode(&vec![true; N_CHANNELS]);
    let last = frame.len() - 1;
    frame[last] ^= 0xFF;
    assert_eq!(decode(&frame), None);
}

#[test]
fn decode_reads_any_nonzero_interior_byte_as_high() {
    let frame = vec![START_MARKER, 0x05, 0, 0xFF, 0, 1, 0, 0x80, 0, END_MARKER];
    assert_eq!(
        decode(&frame),
        Some(vec![true, false, true, false, true, false, true])
    );
}
