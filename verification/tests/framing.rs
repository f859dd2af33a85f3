use bear_island::framing::{decode_frame, encode_frame, frame_length, HEADER_LEN};

#[test]
fn encode_frame_prefixes_big_endian_length() {
    let framed = encode_frame(&[1, 2, 3]);
    assert_eq!(framed, vec![0, 0, 0, 0, 0, 0, 0, 3, 1, 2, 3]);
}

#[test]
fn encode_frame_of_empty_payload_is_header_only() {
    assert_eq!(encode_frame(&[]), vec![0u8; HEADER_LEN]);
}

#[test]
fn frame_length_reads_big_endian() {
    assert_eq!(frame_length(&[0, 0, 0, 0, 0, 0, 1, 2]), 258);
    assert_eq!(frame_length(&[1, 0, 0, 0, 0, 0, 0, 0]), 1u64 << 56);
    assert_eq!(frame_length(&[255; 8]), u64::MAX);
}

#[test]
fn frame_length_matches_std_from_be_bytes() {
    let header = [0x12, 0x34, 0x56, 0x78, 0x9a, 0xbc, 0xde, 0xf0];
    assert_eq!(frame_length(&header), u64::from_be_bytes(header));
}

#[test]
fn frame_length_ignores_bytes_after_header() {
    assert_eq!(frame_length(&[0, 0, 0, 0, 0, 0, 0, 5, 9, 9]), 5);
}

#[test]
fn decode_frame_round_trips() {
    let payload: Vec<u8> = (0..300u32).map(|i| (i % 256) as u8).collect();
    let framed = encode_frame(&payload);
    assert_eq!(decode_frame(&framed), Some(payload));
}

#[test]
fn decode_frame_ignores_trailing_bytes() {
    let mut framed = encode_frame(&[7, 8]);
    framed.extend_from_slice(&[1, 1, 1]);
    assert_eq!(decode_frame(&framed), Some(vec![7, 8]));
}

#[test]
fn decode_frame_rejects_short_input() {
    assert_eq!(decode_frame(&[0, 0, 0]), None);
    assert_eq!(decode_frame(&[0, 0, 0, 0, 0, 0, 0, 4, 1, 2, 3]), None);
}
