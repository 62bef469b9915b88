use hbak::catalogue::LatestSnapshots;
use hmac::Mac;
use hbak::config::RemoteNodeAuth;
use hbak::error::{NetworkError, RemoteError};
use hbak::identity::{Snapshot, Volume};
use hbak::message::{ClientAuth, CryptoMessage, Hello, ServerAuth, StreamMessage, SyncInfo};
use hbak::session::{
    client_verdict, AuthConn, AuthServ, Receiver, RxStep, Transmitter, Transport,
};

fn rfc4231_mac() -> Vec<u8> {
    vec![
        0x5b, 0xdc, 0xc1, 0x46, 0xbf, 0x60, 0x75, 0x4e, 0x6a, 0x04, 0x24, 0x26, 0x08, 0x95, 0x75,
        0xc7, 0x5a, 0x00, 0x3f, 0x08, 0x9d, 0x27, 0x39, 0x83, 0x9d, 0xec, 0x58, 0xb9, 0x64, 0xec,
        0x38, 0x43,
    ]
}

fn mac(key: &[u8], data: &[u8]) -> Vec<u8> {
    let mut m = <hmac::Hmac<sha2::Sha256> as Mac>::new_from_slice(key).unwrap();
    m.update(data);
    m.finalize().into_bytes().to_vec()
}

fn grant_a(key: Vec<u8>) -> RemoteNodeAuth {
    RemoteNodeAuth {
        node_name: "A".to_string(),
        verifier: vec![5; 32],
        key,
        push: vec![Volume::try_from("A_home").unwrap()],
        pull: vec![],
    }
}

fn snap(text: &str) -> Snapshot {
    Snapshot::try_from(text).unwrap()
}

#[test]
fn client_accepts_valid_server_proof() {
    let sa = ServerAuth {
        verifier: vec![5; 32],
        challenge: b"what do ya want for nothing?".to_vec(),
        proof: rfc4231_mac(),
    };
    let (reply, outcome) = client_verdict(b"Jefe", b"what do ya want for nothing?", &sa);
    assert_eq!(outcome, Ok(()));
    assert_eq!(reply, Some(CryptoMessage::ClientAuth(Ok(ClientAuth { proof: rfc4231_mac() }))));
}

#[test]
fn client_rejects_substituted_server_proof() {
    let mut proof = rfc4231_mac();
    proof[0] ^= 0xff;
    let sa = ServerAuth { verifier: vec![5; 32], challenge: vec![1; 32], proof };
    let (reply, outcome) = client_verdict(b"Jefe", b"what do ya want for nothing?", &sa);
    assert_eq!(outcome, Err(NetworkError::RemoteError(RemoteError::Unauthorized)));
    assert_eq!(reply, Some(CryptoMessage::ClientAuth(Err(RemoteError::AccessDenied))));
}

#[test]
fn client_handshake_illegal_and_refused() {
    let mut c = AuthConn::with_randomness(
        "A".to_string(),
        "B".to_string(),
        b"pw".to_vec(),
        vec![1; 32],
        vec![2; 19],
    );
    match c.hello() {
        CryptoMessage::Hello(h) => {
            assert_eq!(h.node_name, "A");
            assert_eq!(h.challenge, vec![1; 32]);
            assert_eq!(h.nonce, vec![2; 19]);
        },
        other => panic!("unexpected {:?}", other),
    }
    let (reply, outcome) = c.on_server_auth(CryptoMessage::Encrypt(Ok(())));
    assert_eq!(reply, Some(CryptoMessage::ClientAuth(Err(RemoteError::IllegalTransition))));
    assert_eq!(outcome, Err(NetworkError::IllegalTransition));

    let mut c = AuthConn::new("A".to_string(), "B".to_string(), b"pw".to_vec());
    c.hello();
    let (reply, outcome) = c.on_server_auth(CryptoMessage::ServerAuth(Err(RemoteError::AccessDenied)));
    assert_eq!(reply, None);
    assert_eq!(outcome, Err(NetworkError::RemoteError(RemoteError::AccessDenied)));
}

fn hello_from(name: &str) -> CryptoMessage {
    CryptoMessage::Hello(Hello {
        node_name: name.to_string(),
        challenge: b"what do ya want for nothing?".to_vec(),
        nonce: vec![9; 19],
    })
}

#[test]
fn server_handshake_succeeds_with_valid_proof() {
    let key = vec![4u8; 32];
    let grants = vec![grant_a(key.clone())];
    let server_challenge = vec![3u8; 32];
    let mut s = AuthServ::with_challenge(server_challenge.clone());
    let (reply, outcome) = s.on_hello(hello_from("A"), &grants);
    assert_eq!(outcome, Ok(()));
    assert_eq!(
        reply,
        Some(CryptoMessage::ServerAuth(Ok(ServerAuth {
            verifier: vec![5; 32],
            challenge: server_challenge.clone(),
            proof: mac(&key, b"what do ya want for nothing?"),
        })))
    );
    let (reply, outcome) = s.on_client_auth(CryptoMessage::ClientAuth(Ok(ClientAuth {
        proof: mac(&key, &server_challenge),
    })));
    assert_eq!(reply, Some(CryptoMessage::Encrypt(Ok(()))));
    let (conn, g) = outcome.unwrap();
    assert_eq!(conn.remote_node_name(), "A");
    assert_eq!(g, grants[0]);
}

#[test]
fn server_rejects_key_of_wrong_length() {
    let grants = vec![grant_a(b"Jefe".to_vec())];
    let mut s = AuthServ::with_challenge(b"what do ya want for nothing?".to_vec());
    let (reply, outcome) = s.on_hello(hello_from("A"), &grants);
    assert_eq!(outcome, Ok(()));
    assert_eq!(
        reply,
        Some(CryptoMessage::ServerAuth(Ok(ServerAuth {
            verifier: vec![5; 32],
            challenge: b"what do ya want for nothing?".to_vec(),
            proof: rfc4231_mac(),
        })))
    );
    let (reply, outcome) = s.on_client_auth(CryptoMessage::ClientAuth(Ok(ClientAuth {
        proof: rfc4231_mac(),
    })));
    assert_eq!(reply, Some(CryptoMessage::Encrypt(Err(RemoteError::IllegalTransition))));
    assert_eq!(outcome.err(), Some(NetworkError::Crypto));
}

#[test]
fn server_rejects_substituted_client_proof() {
    let grants = vec![grant_a(vec![4; 32])];
    let mut s = AuthServ::new();
    s.on_hello(hello_from("A"), &grants);
    let (reply, outcome) = s.on_client_auth(CryptoMessage::ClientAuth(Ok(ClientAuth {
        proof: vec![0; 32],
    })));
    assert_eq!(reply, Some(CryptoMessage::Encrypt(Err(RemoteError::AccessDenied))));
    assert_eq!(outcome.err(), Some(NetworkError::RemoteError(RemoteError::Unauthorized)));
}

#[test]
fn server_fails_unauthorized_when_client_refuses() {
    let grants = vec![grant_a(vec![4; 32])];
    let mut s = AuthServ::new();
    s.on_hello(hello_from("A"), &grants);
    let (reply, outcome) = s.on_client_auth(CryptoMessage::ClientAuth(Err(RemoteError::AccessDenied)));
    assert_eq!(reply, None);
    assert_eq!(outcome.err(), Some(NetworkError::RemoteError(RemoteError::Unauthorized)));
}

#[test]
fn server_rejects_unknown_node() {
    let grants = vec![grant_a(vec![4; 32])];
    let mut s = AuthServ::new();
    let (reply, outcome) = s.on_hello(hello_from("Z"), &grants);
    assert_eq!(reply, Some(CryptoMessage::ServerAuth(Err(RemoteError::AccessDenied))));
    assert_eq!(outcome, Err(NetworkError::RemoteError(RemoteError::Unauthorized)));
}

#[test]
fn server_illegal_transitions() {
    let grants = vec![grant_a(vec![4; 32])];
    let mut s = AuthServ::new();
    let (reply, outcome) = s.on_hello(CryptoMessage::Encrypt(Ok(())), &grants);
    assert_eq!(reply, Some(CryptoMessage::ServerAuth(Err(RemoteError::IllegalTransition))));
    assert_eq!(outcome, Err(NetworkError::IllegalTransition));

    let mut s = AuthServ::new();
    s.on_hello(hello_from("A"), &grants);
    let (reply, outcome) = s.on_client_auth(hello_from("A"));
    assert_eq!(reply, Some(CryptoMessage::Encrypt(Err(RemoteError::IllegalTransition))));
    assert_eq!(outcome.err(), Some(NetworkError::IllegalTransition));
}

fn idle_session() -> hbak::session::StreamConn<hbak::session::Idle> {
    let key = vec![4u8; 32];
    let grants = vec![grant_a(key.clone())];
    let mut s = AuthServ::with_challenge(vec![3u8; 32]);
    s.on_hello(hello_from("A"), &grants);
    let (_, outcome) = s.on_client_auth(CryptoMessage::ClientAuth(Ok(ClientAuth {
        proof: mac(&key, &[3u8; 32]),
    })));
    outcome.unwrap().0
}

#[test]
fn meta_sync_accepts_sync_info_only() {
    let info = SyncInfo {
        volumes: vec![(Volume::try_from("A_home").unwrap(), LatestSnapshots::none())],
    };
    let (active, got) = match idle_session().meta_sync(StreamMessage::SyncInfo(info.clone())) {
        Ok(x) => x,
        Err(_) => panic!("catalogue exchange refused"),
    };
    assert_eq!(got, info);
    assert_eq!(active.remote_node_name(), "A");

    match idle_session().meta_sync(StreamMessage::Done) {
        Ok(_) => panic!("accepted an illegal message"),
        Err((idle, reply, e)) => {
            assert_eq!(reply, StreamMessage::Error(RemoteError::IllegalTransition));
            assert_eq!(e, NetworkError::IllegalTransition);
            assert_eq!(idle.remote_node_name(), "A");
        }
    }
}

#[test]
fn transport_round_trip_in_order() {
    let mut a = Transport::new(vec![7; 32], vec![8; 19]).unwrap();
    let mut b = Transport::new(vec![7; 32], vec![8; 19]).unwrap();
    let c1 = a.seal(b"first").unwrap();
    let c2 = a.seal(b"second").unwrap();
    assert_ne!(c1[..5].to_vec(), b"first".to_vec());
    assert_eq!(b.open(&c1).unwrap(), b"first".to_vec());
    assert_eq!(b.open(&c2).unwrap(), b"second".to_vec());
    let mut c = Transport::new(vec![7; 32], vec![8; 19]).unwrap();
    assert_eq!(c.open(&c2), Err(NetworkError::Crypto));
    let mut tampered = c1.clone();
    tampered[0] ^= 1;
    let mut d = Transport::new(vec![7; 32], vec![8; 19]).unwrap();
    assert_eq!(d.open(&tampered), Err(NetworkError::Crypto));
    assert!(Transport::new(vec![7; 31], vec![8; 19]).is_err());
    assert!(Transport::new(vec![7; 32], vec![8; 18]).is_err());
}

#[test]
fn receiver_full_blob() {
    let mut rx = Receiver::new();
    let s = snap("A_home_full_20240101000000");
    let step = rx.on_message(StreamMessage::Replicate(hbak::message::Target::from(s.clone())));
    assert!(matches!(step, RxStep::Accept(ref x) if *x == s));
    assert_eq!(rx.on_accept(Ok(())), (StreamMessage::Stream(Ok(())), Ok(())));
    let step = rx.on_message(StreamMessage::Chunk(vec![1, 2, 3]));
    assert!(matches!(step, RxStep::Write(ref b) if *b == vec![1, 2, 3]));
    let step = rx.on_message(StreamMessage::Replicate(hbak::message::Target::from(s.clone())));
    assert!(matches!(
        step,
        RxStep::Reply(StreamMessage::Stream(Err(RemoteError::AlreadyStreaming)))
    ));
    let step = rx.on_message(StreamMessage::End(Ok(())));
    assert!(matches!(step, RxStep::Finalize(ref x) if *x == s));
    assert_eq!(rx.on_finalized(Ok(())), None);
    let step = rx.on_message(StreamMessage::Chunk(vec![4]));
    assert!(matches!(step, RxStep::Reply(StreamMessage::Error(RemoteError::NotStreaming))));
    let step = rx.on_message(StreamMessage::End(Ok(())));
    assert!(matches!(step, RxStep::Reply(StreamMessage::Error(RemoteError::NotStreaming))));
    let step = rx.on_message(StreamMessage::Done);
    assert!(matches!(step, RxStep::PeerDone));
}

#[test]
fn receiver_rejections_are_fatal() {
    let mut rx = Receiver::new();
    let s = snap("A_home_full_20240101000000");
    rx.on_message(StreamMessage::Replicate(hbak::message::Target::from(s)));
    assert_eq!(
        rx.on_accept(Err(RemoteError::Immutable)),
        (
            StreamMessage::Stream(Err(RemoteError::Immutable)),
            Err(NetworkError::RemoteError(RemoteError::Immutable))
        )
    );
    let mut rx = Receiver::new();
    let step = rx.on_message(StreamMessage::SyncInfo(SyncInfo { volumes: vec![] }));
    assert!(matches!(
        step,
        RxStep::Fail(
            Some(StreamMessage::Error(RemoteError::IllegalTransition)),
            NetworkError::IllegalTransition
        )
    ));
    let mut rx = Receiver::new();
    let step = rx.on_message(StreamMessage::Stream(Err(RemoteError::Immutable)));
    assert!(matches!(
        step,
        RxStep::Fail(None, NetworkError::RemoteError(RemoteError::Immutable))
    ));
    let mut rx = Receiver::new();
    assert_eq!(
        rx.on_write_failed(),
        (StreamMessage::Error(RemoteError::RxError), NetworkError::RemoteError(RemoteError::RxError))
    );
}

#[test]
fn transmitter_sends_done_once_at_the_end() {
    let batch = vec![snap("A_home_full_20240101000000"), snap("A_home_incr_20240102000000")];
    let mut tx = Transmitter::new(batch.clone());
    for s in &batch {
        match tx.announce() {
            StreamMessage::Replicate(t) => assert_eq!(t.snapshot, *s),
            other => panic!("unexpected {:?}", other),
        }
        tx.on_ready();
        assert_eq!(tx.chunk(vec![1, 2]), StreamMessage::Chunk(vec![1, 2]));
        assert_eq!(tx.chunk(vec![]), StreamMessage::End(Ok(())));
    }
    assert_eq!(tx.announce(), StreamMessage::Done);
}

#[test]
fn transmitter_read_failure() {
    let mut tx = Transmitter::new(vec![snap("A_home_full_20240101000000")]);
    tx.announce();
    tx.on_ready();
    assert_eq!(tx.read_failed(), StreamMessage::End(Err(RemoteError::TxError)));
    let mut empty = Transmitter::new(vec![]);
    assert_eq!(empty.announce(), StreamMessage::Done);
}
