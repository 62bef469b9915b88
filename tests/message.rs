use hbak::message::{encode_frame, frame_length, HEADER_LEN};

#[test]
fn frame_layout() {
    let f = encode_frame(b"abc");
    assert_eq!(f, vec![3, 0, 0, 0, 0, 0, 0, 0, b'a', b'b', b'c']);
    assert_eq!(frame_length(&f[..HEADER_LEN]), 3);
    assert_eq!(encode_frame(&[]), vec![0; 8]);
}

#[test]
fn frame_length_reads_little_endian() {
    let payload = vec![7u8; 300];
    let f = encode_frame(&payload);
    assert_eq!(&f[..HEADER_LEN], &[44, 1, 0, 0, 0, 0, 0, 0]);
    assert_eq!(frame_length(&f[..HEADER_LEN]), 300);
    assert_eq!(frame_length(&[0xff; 8]), u64::MAX);
    assert_eq!(&f[HEADER_LEN..], &payload[..]);
}

#[test]
fn frame_matches_bincode_byte_vectors() {
    let payload = vec![1u8, 2, 3, 250];
    assert_eq!(encode_frame(&payload), bincode::serialize(&payload).unwrap());
}
