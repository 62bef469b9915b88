use hbak::crypto::{
    decrypt, derive_key, open_with_key, seal_with_key, RecoveryStream, SnapshotStream,
    CHUNK_SIZE, NONCE_LEN, SEALED_SIZE, TAG_LEN,
};
use hbak::error::LocalNodeError;

fn key() -> Vec<u8> {
    (0u8..32).collect()
}

fn nonce() -> Vec<u8> {
    (100u8..119).collect()
}

#[test]
fn sealed_body_round_trip() {
    for len in [0usize, 1, 17, 1000] {
        let plain: Vec<u8> = (0..len).map(|i| (i * 7 % 251) as u8).collect();
        let body = seal_with_key(&key(), &nonce(), &plain).unwrap();
        assert_eq!(body.len(), len + TAG_LEN);
        if len > 0 {
            assert_ne!(&body[..len], &plain[..]);
        }
        assert_eq!(open_with_key(&key(), &nonce(), &body).unwrap(), plain);
    }
}

#[test]
fn sealed_body_round_trip_across_chunks() {
    let plain: Vec<u8> = (0..CHUNK_SIZE + 5).map(|i| (i % 253) as u8).collect();
    let body = seal_with_key(&key(), &nonce(), &plain).unwrap();
    assert_eq!(body.len(), SEALED_SIZE + 5 + TAG_LEN);
    assert_eq!(open_with_key(&key(), &nonce(), &body).unwrap(), plain);
    let exact: Vec<u8> = vec![9; CHUNK_SIZE];
    let body = seal_with_key(&key(), &nonce(), &exact).unwrap();
    assert_eq!(body.len(), SEALED_SIZE);
    assert_eq!(open_with_key(&key(), &nonce(), &body).unwrap(), exact);
}

#[test]
fn tampering_any_byte_fails() {
    let plain = b"send stream payload".to_vec();
    let body = seal_with_key(&key(), &nonce(), &plain).unwrap();
    for i in 0..body.len() {
        let mut bad = body.clone();
        bad[i] ^= 0x01;
        assert_eq!(open_with_key(&key(), &nonce(), &bad), Err(LocalNodeError::Crypto));
    }
    let mut other_nonce = nonce();
    other_nonce[0] ^= 1;
    assert_eq!(open_with_key(&key(), &other_nonce, &body), Err(LocalNodeError::Crypto));
}

#[test]
fn truncation_fails() {
    let plain = vec![7u8; 100];
    let body = seal_with_key(&key(), &nonce(), &plain).unwrap();
    for cut in [1usize, 2, TAG_LEN, TAG_LEN + 1, body.len()] {
        let short = &body[..body.len() - cut];
        assert_eq!(open_with_key(&key(), &nonce(), short), Err(LocalNodeError::Crypto), "{}", cut);
    }
}

#[test]
fn truncation_at_a_chunk_boundary_fails() {
    let plain: Vec<u8> = vec![3; CHUNK_SIZE + 10];
    let body = seal_with_key(&key(), &nonce(), &plain).unwrap();
    assert_eq!(open_with_key(&key(), &nonce(), &body[..SEALED_SIZE]), Err(LocalNodeError::Crypto));
}

#[test]
fn stream_chunks_by_hand() {
    let mut st = SnapshotStream::with_key(key(), nonce());
    assert_eq!(st.header(), nonce());
    let first = vec![1u8; CHUNK_SIZE];
    let mut body = st.seal(&first, false).unwrap();
    assert_eq!(body.len(), SEALED_SIZE);
    let tail = st.seal(b"tail", true).unwrap();
    assert_eq!(tail.len(), 4 + TAG_LEN);
    body.extend(tail);
    let mut expected = first.clone();
    expected.extend_from_slice(b"tail");
    assert_eq!(open_with_key(&key(), &nonce(), &body).unwrap(), expected);
}

#[test]
fn recovery_rejects_short_streams() {
    let mut rs = RecoveryStream::new(b"pw".to_vec());
    assert_eq!(rs.write(&[0u8; 10]).unwrap(), Vec::<u8>::new());
    assert!(rs.close().is_err());
    assert!(rs.is_closed());
    assert_eq!(rs.write(&[1]), Err(LocalNodeError::StreamClosed));
    assert!(decrypt(b"pw", &[0u8; NONCE_LEN - 1]).is_err());
    assert!(decrypt(b"pw", &[]).is_err());
}

#[test]
fn derive_key_rejects_short_verifier() {
    assert_eq!(derive_key(b"short", b"pw"), Err(LocalNodeError::KeyDerivation));
}
