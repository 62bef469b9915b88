use vstd::prelude::*;

use std::marker::PhantomData;

use crate::config::{volumes, RemoteNodeAuth};
use crate::crypto::{
    argon2_accepts, ct_eq, derive_key, derived_key, hash_hmac, hmac_sha256, open_chunk, opened, random_bytes,
    seal_chunk, sealed, KEY_LEN, NONCE_LEN, VERIFIER_LEN,
};
use crate::error::{LocalNodeError, NetworkError, RemoteError};
use crate::identity::{str_eq, Snapshot, SnapshotView};
use crate::message::{ClientAuth, CryptoMessage, Hello, ServerAuth, StreamMessage, SyncInfo, Target};

verus! {

/// The authenticated-encryption state of an established connection: one STREAM per
/// direction under the shared key and nonce, each message one chunk.
pub struct Transport {
    key: Vec<u8>,
    nonce: Vec<u8>,
    send_position: u32,
    recv_position: u32,
}

impl Transport {
    pub closed spec fn key(&self) -> Seq<u8> {
        self.key@
    }

    pub closed spec fn nonce(&self) -> Seq<u8> {
        self.nonce@
    }

    /// How many messages were sealed.
    pub closed spec fn sent(&self) -> int {
        self.send_position as int
    }

    /// How many messages were opened.
    pub closed spec fn received(&self) -> int {
        self.recv_position as int
    }

    pub closed spec fn wf(&self) -> bool {
        self.key@.len() == KEY_LEN && self.nonce@.len() == NONCE_LEN
    }

    /// A transport with the shared key and nonce; fails unless they have the lengths
    /// the cipher takes.
    pub fn new(key: Vec<u8>, nonce: Vec<u8>) -> (r: Result<Transport, NetworkError>)
        ensures
            key@.len() == KEY_LEN && nonce@.len() == NONCE_LEN <==> r is Ok,
            r matches Ok(t) ==> t.wf() && t.key() == key@ && t.nonce() == nonce@ && t.sent() == 0
                && t.received() == 0,
            r matches Err(e) ==> e == NetworkError::Crypto,
    {
        if key.len() != KEY_LEN || nonce.len() != NONCE_LEN {
            return Err(NetworkError::Crypto);
        }
        Ok(Transport { key, nonce, send_position: 0, recv_position: 0 })
    }

    /// Seals the next outgoing message.
    pub fn seal(&mut self, plain: &[u8]) -> (r: Result<Vec<u8>, NetworkError>)
        requires
            old(self).wf(),
        ensures
            final(self).wf(),
            final(self).key() == old(self).key(),
            final(self).nonce() == old(self).nonce(),
            final(self).received() == old(self).received(),
            match r {
                Ok(c) => c@ == sealed(old(self).key(), old(self).nonce(), old(self).sent(), false, plain@)
                    && final(self).sent() == old(self).sent() + 1,
                Err(e) => e == NetworkError::Crypto && final(self).sent() == old(self).sent() && (
                old(self).sent() == u32::MAX || plain@.len() >= 64 * u32::MAX),
            },
    {
        if self.send_position == u32::MAX {
            return Err(NetworkError::Crypto);
        }
        match seal_chunk(self.key.as_slice(), self.nonce.as_slice(), self.send_position, false, plain) {
            Ok(c) => {
                self.send_position = self.send_position + 1;
                Ok(c)
            },
            Err(_) => Err(NetworkError::Crypto),
        }
    }

    /// Opens the next incoming message; fails if it does not authenticate at its position.
    pub fn open(&mut self, cipher: &[u8]) -> (r: Result<Vec<u8>, NetworkError>)
        requires
            old(self).wf(),
        ensures
            final(self).wf(),
            final(self).key() == old(self).key(),
            final(self).nonce() == old(self).nonce(),
            final(self).sent() == old(self).sent(),
            match r {
                Ok(p) => opened(old(self).key(), old(self).nonce(), old(self).received(), false, cipher@)
                    == Some(p@) && final(self).received() == old(self).received() + 1,
                Err(e) => e == NetworkError::Crypto && final(self).received() == old(self).received()
                    && (old(self).received() == u32::MAX || opened(
                    old(self).key(),
                    old(self).nonce(),
                    old(self).received(),
                    false,
                    cipher@,
                ) is None),
            },
    {
        if self.recv_position == u32::MAX {
            return Err(NetworkError::Crypto);
        }
        match open_chunk(self.key.as_slice(), self.nonce.as_slice(), self.recv_position, false, cipher) {
            Ok(p) => {
                self.recv_position = self.recv_position + 1;
                Ok(p)
            },
            Err(_) => Err(NetworkError::Crypto),
        }
    }
}

/// Where a handshake stands.
#[derive(Clone, Copy, Debug, PartialEq, Eq, Structural)]
pub enum HandshakePhase {
    /// Nothing sent or received yet.
    Start,
    /// Waiting for the peer's proof (client: `ServerAuth`; server: `ClientAuth`).
    AwaitProof,
    /// Waiting for the server's `Encrypt` (client only).
    AwaitEncrypt,
    /// Authenticated; the transport is established.
    Secured,
    /// The handshake failed; nothing further may happen.
    Failed,
}

/// The client side of the mutual challenge/response handshake.
pub struct AuthConn {
    node_name: String,
    remote_node_name: String,
    passphrase: Vec<u8>,
    challenge: Vec<u8>,
    nonce: Vec<u8>,
    key: Vec<u8>,
    phase: HandshakePhase,
}

impl AuthConn {
    pub closed spec fn phase(&self) -> HandshakePhase {
        self.phase
    }

    pub closed spec fn challenge(&self) -> Seq<u8> {
        self.challenge@
    }

    pub closed spec fn nonce(&self) -> Seq<u8> {
        self.nonce@
    }

    pub closed spec fn passphrase(&self) -> Seq<u8> {
        self.passphrase@
    }

    pub closed spec fn node_name(&self) -> Seq<char> {
        self.node_name@
    }

    /// The key derived from the server's verifier, once its proof was accepted.
    pub closed spec fn key(&self) -> Seq<u8> {
        self.key@
    }

    /// A client handshake with the given challenge and transport nonce.
    pub fn with_randomness(
        node_name: String,
        remote_node_name: String,
        passphrase: Vec<u8>,
        challenge: Vec<u8>,
        nonce: Vec<u8>,
    ) -> (r: AuthConn)
        ensures
            r.phase() == HandshakePhase::Start,
            r.challenge() == challenge@,
            r.nonce() == nonce@,
            r.passphrase() == passphrase@,
            r.node_name() == node_name@,
    {
        AuthConn {
            node_name,
            remote_node_name,
            passphrase,
            challenge,
            nonce,
            key: Vec::new(),
            phase: HandshakePhase::Start,
        }
    }

    /// A client handshake with a fresh 32-byte challenge and 19-byte nonce.
    pub fn new(node_name: String, remote_node_name: String, passphrase: Vec<u8>) -> (r: AuthConn)
        ensures
            r.phase() == HandshakePhase::Start,
            r.challenge().len() == VERIFIER_LEN,
            r.nonce().len() == NONCE_LEN,
            r.passphrase() == passphrase@,
            r.node_name() == node_name@,
    {
        let challenge = random_bytes(VERIFIER_LEN);
        let nonce = random_bytes(NONCE_LEN);
        Self::with_randomness(node_name, remote_node_name, passphrase, challenge, nonce)
    }

    /// The `Hello` that opens the handshake.
    pub fn hello(&mut self) -> (r: CryptoMessage)
        requires
            old(self).phase() == HandshakePhase::Start,
        ensures
            final(self).phase() == HandshakePhase::AwaitProof,
            final(self).challenge() == old(self).challenge(),
            final(self).nonce() == old(self).nonce(),
            final(self).passphrase() == old(self).passphrase(),
            r matches CryptoMessage::Hello(h) && h.node_name@ == old(self).node_name()
                && h.challenge@ == old(self).challenge() && h.nonce@ == old(self).nonce(),
    {
        self.phase = HandshakePhase::AwaitProof;
        CryptoMessage::Hello(
            Hello {
                node_name: self.node_name.clone(),
                challenge: self.challenge.clone(),
                nonce: self.nonce.clone(),
            },
        )
    }

    /// Handles the server's proof and challenge; see `client_verdict`. The key is derived
    /// from the server's verifier and the passphrase.
    pub fn on_server_auth(&mut self, msg: CryptoMessage) -> (r: (Option<CryptoMessage>, Result<(), NetworkError>))
        requires
            old(self).phase() == HandshakePhase::AwaitProof,
        ensures
            final(self).challenge() == old(self).challenge(),
            final(self).nonce() == old(self).nonce(),
            final(self).passphrase() == old(self).passphrase(),
            r.1 is Ok <==> final(self).phase() == HandshakePhase::AwaitEncrypt,
            r.1 is Err ==> final(self).phase() == HandshakePhase::Failed,
            match msg {
                CryptoMessage::ServerAuth(Ok(sa)) => if argon2_accepts(
                    old(self).passphrase(),
                    sa.verifier@,
                ) {
                    &&& final(self).key() == derived_key(sa.verifier@, old(self).passphrase())
                    &&& final(self).key().len() == KEY_LEN
                    &&& client_verdict_spec(final(self).key(), old(self).challenge(), sa, r)
                } else {
                    r == (None::<CryptoMessage>, Err::<(), NetworkError>(
                        NetworkError::LocalError(LocalNodeError::KeyDerivation),
                    ))
                },
                CryptoMessage::ServerAuth(Err(e)) => r == (None::<CryptoMessage>, Err::<
                    (),
                    NetworkError,
                >(NetworkError::RemoteError(e))),
                _ => r == (Some(CryptoMessage::ClientAuth(Err(RemoteError::IllegalTransition))), Err::<
                    (),
                    NetworkError,
                >(NetworkError::IllegalTransition)),
            },
    {
        match msg {
            CryptoMessage::ServerAuth(Ok(sa)) => {
                match derive_key(sa.verifier.as_slice(), self.passphrase.as_slice()) {
                    Err(_) => {
                        self.phase = HandshakePhase::Failed;
                        (None, Err(NetworkError::LocalError(LocalNodeError::KeyDerivation)))
                    },
                    Ok(key) => {
                        let r = client_verdict(key.as_slice(), self.challenge.as_slice(), &sa);
                        self.key = key;
                        if r.1.is_ok() {
                            self.phase = HandshakePhase::AwaitEncrypt;
                        } else {
                            self.phase = HandshakePhase::Failed;
                        }
                        r
                    },
                }
            },
            CryptoMessage::ServerAuth(Err(e)) => {
                self.phase = HandshakePhase::Failed;
                (None, Err(NetworkError::RemoteError(e)))
            },
            _ => {
                self.phase = HandshakePhase::Failed;
                (
                    Some(CryptoMessage::ClientAuth(Err(RemoteError::IllegalTransition))),
                    Err(NetworkError::IllegalTransition),
                )
            },
        }
    }

    /// Handles the server's switch to encryption: on `Encrypt(Ok)` the connection becomes
    /// an idle stream session under the derived key and the client's nonce.
    pub fn on_encrypt(&mut self, msg: CryptoMessage) -> (r: (Option<CryptoMessage>, Result<
        StreamConn<Idle>,
        NetworkError,
    >))
        requires
            old(self).phase() == HandshakePhase::AwaitEncrypt,
        ensures
            r.1 is Ok <==> final(self).phase() == HandshakePhase::Secured,
            r.1 is Err ==> final(self).phase() == HandshakePhase::Failed,
            match msg {
                CryptoMessage::Encrypt(Ok(())) => r.0 is None && (old(self).key().len() == KEY_LEN
                    && old(self).nonce().len() == NONCE_LEN ==> r.1 is Ok) && match r.1 {
                    Ok(c) => c.link().key() == old(self).key() && c.link().nonce() == old(self).nonce()
                        && c.link().sent() == 0 && c.link().received() == 0 && c.link().wf(),
                    Err(e) => e == NetworkError::Crypto,
                },
                CryptoMessage::Encrypt(Err(e)) => r.0 is None && (r.1 matches Err(x) && x
                    == NetworkError::RemoteError(e)),
                _ => r.0 == Some(CryptoMessage::Error(RemoteError::IllegalTransition)) && (r.1 matches Err(
                    x,
                ) && x == NetworkError::IllegalTransition),
            },
    {
        match msg {
            CryptoMessage::Encrypt(Ok(())) => {
                match Transport::new(self.key.clone(), self.nonce.clone()) {
                    Ok(t) => {
                        self.phase = HandshakePhase::Secured;
                        (None, Ok(StreamConn::from_transport(t, self.remote_node_name.clone())))
                    },
                    Err(e) => {
                        self.phase = HandshakePhase::Failed;
                        (None, Err(e))
                    },
                }
            },
            CryptoMessage::Encrypt(Err(e)) => {
                self.phase = HandshakePhase::Failed;
                (None, Err(NetworkError::RemoteError(e)))
            },
            _ => {
                self.phase = HandshakePhase::Failed;
                (Some(CryptoMessage::Error(RemoteError::IllegalTransition)), Err(NetworkError::IllegalTransition))
            },
        }
    }
}

/// The client's answer to a server's proof under the derived key: its own proof for
/// the server's challenge if the server proved the key for the client's challenge;
/// `ClientAuth(Err(AccessDenied))` and `Unauthorized` otherwise.
pub open spec fn client_verdict_spec(
    key: Seq<u8>,
    challenge: Seq<u8>,
    sa: ServerAuth,
    r: (Option<CryptoMessage>, Result<(), NetworkError>),
) -> bool {
    if sa.proof@ == hmac_sha256(key, challenge) {
        r.1 is Ok && (r.0 matches Some(CryptoMessage::ClientAuth(Ok(ca))) && ca.proof@ == hmac_sha256(
            key,
            sa.challenge@,
        ))
    } else {
        r == (Some(CryptoMessage::ClientAuth(Err(RemoteError::AccessDenied))), Err::<(), NetworkError>(
            NetworkError::RemoteError(RemoteError::Unauthorized),
        ))
    }
}

/// Checks a server's proof under the derived key in constant time; see `client_verdict_spec`.
pub fn client_verdict(key: &[u8], challenge: &[u8], sa: &ServerAuth) -> (r: (
    Option<CryptoMessage>,
    Result<(), NetworkError>,
))
    ensures
        client_verdict_spec(key@, challenge@, *sa, r),
{
    let expected = hash_hmac(key, challenge);
    if ct_eq(sa.proof.as_slice(), expected.as_slice()) {
        let proof = hash_hmac(key, sa.challenge.as_slice());
        (Some(CryptoMessage::ClientAuth(Ok(ClientAuth { proof }))), Ok(()))
    } else {
        (
            Some(CryptoMessage::ClientAuth(Err(RemoteError::AccessDenied))),
            Err(NetworkError::RemoteError(RemoteError::Unauthorized)),
        )
    }
}

/// Marks the phases of a stream session.
pub trait Sealed {}

/// A phase of a stream session.
pub trait Phase: Sealed {}

/// The phase before the catalogue exchange: no transmission is allowed.
pub struct Idle;

/// The phase after the catalogue exchange: blobs may flow both ways.
pub struct Active;

impl Sealed for Idle {}

impl Sealed for Active {}

impl Phase for Idle {}

impl Phase for Active {}

/// An authenticated, encrypted session with a peer, in phase `P`.
pub struct StreamConn<P: Phase> {
    transport: Transport,
    remote_node_name: String,
    phase: PhantomData<P>,
}

impl<P: Phase> StreamConn<P> {
    /// The encryption state of the session.
    pub closed spec fn link(&self) -> Transport {
        self.transport
    }

    pub closed spec fn remote(&self) -> Seq<char> {
        self.remote_node_name@
    }

    /// Returns the name of the remote node.
    pub fn remote_node_name(&self) -> (r: &str)
        ensures
            r@ == self.remote(),
    {
        self.remote_node_name.as_str()
    }

    /// Seals the next outgoing message of the session.
    pub fn seal(&mut self, plain: &[u8]) -> (r: Result<Vec<u8>, NetworkError>)
        requires
            old(self).link().wf(),
        ensures
            final(self).link().wf(),
            final(self).remote() == old(self).remote(),
            final(self).link().key() == old(self).link().key(),
            final(self).link().nonce() == old(self).link().nonce(),
            final(self).link().received() == old(self).link().received(),
            match r {
                Ok(c) => c@ == sealed(old(self).link().key(), old(self).link().nonce(), old(self).link().sent(), false, plain@)
                    && final(self).link().sent() == old(self).link().sent() + 1,
                Err(e) => e == NetworkError::Crypto && final(self).link().sent() == old(self).link().sent()
                    && (old(self).link().sent() == u32::MAX || plain@.len() >= 64 * u32::MAX),
            },
    {
        self.transport.seal(plain)
    }

    /// Opens the next incoming message of the session.
    pub fn open(&mut self, cipher: &[u8]) -> (r: Result<Vec<u8>, NetworkError>)
        requires
            old(self).link().wf(),
        ensures
            final(self).link().wf(),
            final(self).remote() == old(self).remote(),
            final(self).link().key() == old(self).link().key(),
            final(self).link().nonce() == old(self).link().nonce(),
            final(self).link().sent() == old(self).link().sent(),
            match r {
                Ok(p) => opened(old(self).link().key(), old(self).link().nonce(), old(self).link().received(), false, cipher@)
                    == Some(p@) && final(self).link().received() == old(self).link().received() + 1,
                Err(e) => e == NetworkError::Crypto && final(self).link().received() == old(self).link().received()
                    && (old(self).link().received() == u32::MAX || opened(
                    old(self).link().key(),
                    old(self).link().nonce(),
                    old(self).link().received(),
                    false,
                    cipher@,
                ) is None),
            },
    {
        self.transport.open(cipher)
    }
}

impl StreamConn<Idle> {
    /// An idle session over an established transport.
    pub fn from_transport(transport: Transport, remote_node_name: String) -> (r: StreamConn<Idle>)
        ensures
            r.link() == transport,
            r.remote() == remote_node_name@,
    {
        StreamConn { transport, remote_node_name, phase: PhantomData }
    }
}


/// The index of the first grant for a node name.
pub open spec fn grant_of(grants: Seq<RemoteNodeAuth>, name: Seq<char>) -> Option<int> {
    if exists|i: int| 0 <= i < grants.len() && (#[trigger] grants[i]).node_name@ == name {
        Some(
            choose|i: int|
                0 <= i < grants.len() && (#[trigger] grants[i]).node_name@ == name && forall|j: int|
                    0 <= j < i ==> (#[trigger] grants[j]).node_name@ != name,
        )
    } else {
        None
    }
}

/// The server side of the mutual challenge/response handshake.
pub struct AuthServ {
    challenge: Vec<u8>,
    key: Vec<u8>,
    nonce: Vec<u8>,
    grant: Option<RemoteNodeAuth>,
    phase: HandshakePhase,
}

impl AuthServ {
    pub closed spec fn phase(&self) -> HandshakePhase {
        self.phase
    }

    pub closed spec fn challenge(&self) -> Seq<u8> {
        self.challenge@
    }

    /// The shared key of the admitted peer.
    pub closed spec fn key(&self) -> Seq<u8> {
        self.key@
    }

    /// The transport nonce the peer chose.
    pub closed spec fn nonce(&self) -> Seq<u8> {
        self.nonce@
    }

    pub closed spec fn grant(&self) -> Option<RemoteNodeAuth> {
        self.grant
    }

    /// A server handshake with the given challenge.
    pub fn with_challenge(challenge: Vec<u8>) -> (r: AuthServ)
        ensures
            r.phase() == HandshakePhase::Start,
            r.challenge() == challenge@,
    {
        AuthServ {
            challenge,
            key: Vec::new(),
            nonce: Vec::new(),
            grant: None,
            phase: HandshakePhase::Start,
        }
    }

    /// A server handshake with a fresh 32-byte challenge.
    pub fn new() -> (r: AuthServ)
        ensures
            r.phase() == HandshakePhase::Start,
            r.challenge().len() == VERIFIER_LEN,
    {
        Self::with_challenge(random_bytes(VERIFIER_LEN))
    }

    /// Handles the client's `Hello`: a peer with a grant gets the grant's verifier, the
    /// server's challenge and the proof of the grant's key for the client's challenge;
    /// an unknown peer gets `ServerAuth(Err(AccessDenied))` and the handshake fails
    /// with `Unauthorized`.
    pub fn on_hello(&mut self, msg: CryptoMessage, grants: &Vec<RemoteNodeAuth>) -> (r: (
        Option<CryptoMessage>,
        Result<(), NetworkError>,
    ))
        requires
            old(self).phase() == HandshakePhase::Start,
        ensures
            final(self).challenge() == old(self).challenge(),
            r.1 is Ok <==> final(self).phase() == HandshakePhase::AwaitProof,
            r.1 is Err ==> final(self).phase() == HandshakePhase::Failed,
            match msg {
                CryptoMessage::Hello(h) => match grant_of(grants@, h.node_name@) {
                    Some(i) => {
                        &&& r.1 is Ok
                        &&& final(self).key() == grants@[i].key@
                        &&& final(self).nonce() == h.nonce@
                        &&& final(self).grant() matches Some(g) && g.node_name@ == h.node_name@
                            && volumes(g.push@) == volumes(grants@[i].push@) && volumes(g.pull@)
                            == volumes(grants@[i].pull@)
                        &&& r.0 matches Some(CryptoMessage::ServerAuth(Ok(sa))) && sa.verifier@
                            == grants@[i].verifier@ && sa.challenge@ == old(self).challenge()
                            && sa.proof@ == hmac_sha256(grants@[i].key@, h.challenge@)
                    },
                    None => r == (Some(CryptoMessage::ServerAuth(Err(RemoteError::AccessDenied))), Err::<
                        (),
                        NetworkError,
                    >(NetworkError::RemoteError(RemoteError::Unauthorized))),
                },
                _ => r == (Some(CryptoMessage::ServerAuth(Err(RemoteError::IllegalTransition))), Err::<
                    (),
                    NetworkError,
                >(NetworkError::IllegalTransition)),
            },
    {
        match msg {
            CryptoMessage::Hello(h) => {
                let mut i: usize = 0;
                while i < grants.len() && grants[i].node_name != h.node_name
                    invariant
                        i <= grants.len(),
                        forall|j: int| 0 <= j < i ==> (#[trigger] grants@[j]).node_name@ != h.node_name@,
                    decreases grants.len() - i,
                {
                    i = i + 1;
                }
                if i == grants.len() {
                    self.phase = HandshakePhase::Failed;
                    return (
                        Some(CryptoMessage::ServerAuth(Err(RemoteError::AccessDenied))),
                        Err(NetworkError::RemoteError(RemoteError::Unauthorized)),
                    );
                }
                proof {
                    assert(grants@[i as int].node_name@ == h.node_name@);
                    let k = grant_of(grants@, h.node_name@)->Some_0;
                    if k < i {
                    } else if k > i {
                    }
                    assert(k == i);
                }
                let g = grants[i].cloned();
                let proof = hash_hmac(g.key.as_slice(), h.challenge.as_slice());
                let reply = CryptoMessage::ServerAuth(
                    Ok(
                        ServerAuth {
                            verifier: g.verifier.clone(),
                            challenge: self.challenge.clone(),
                            proof,
                        },
                    ),
                );
                self.key = g.key.clone();
                self.nonce = h.nonce;
                self.grant = Some(g);
                self.phase = HandshakePhase::AwaitProof;
                (Some(reply), Ok(()))
            },
            _ => {
                self.phase = HandshakePhase::Failed;
                (
                    Some(CryptoMessage::ServerAuth(Err(RemoteError::IllegalTransition))),
                    Err(NetworkError::IllegalTransition),
                )
            },
        }
    }

    /// Handles the client's proof: if it proves the shared key for the server's challenge
    /// (compared in constant time), `Encrypt(Ok)` and an idle stream session with the
    /// peer's grant; otherwise `Encrypt(Err(AccessDenied))` and `Unauthorized`.
    pub fn on_client_auth(&mut self, msg: CryptoMessage) -> (r: (Option<CryptoMessage>, Result<
        (StreamConn<Idle>, RemoteNodeAuth),
        NetworkError,
    >))
        requires
            old(self).phase() == HandshakePhase::AwaitProof,
            old(self).grant() is Some,
        ensures
            r.1 is Ok <==> final(self).phase() == HandshakePhase::Secured,
            r.1 is Err ==> final(self).phase() == HandshakePhase::Failed,
            match msg {
                CryptoMessage::ClientAuth(Ok(ca)) => if ca.proof@ == hmac_sha256(
                    old(self).key(),
                    old(self).challenge(),
                ) {
                    match r.1 {
                        Ok((c, g)) => {
                            &&& r.0 == Some(CryptoMessage::Encrypt(Ok(())))
                            &&& c.link().wf()
                            &&& c.link().key() == old(self).key()
                            &&& c.link().nonce() == old(self).nonce()
                            &&& c.link().sent() == 0 && c.link().received() == 0
                            &&& c.remote() == old(self).grant()->Some_0.node_name@
                            &&& g.node_name@ == old(self).grant()->Some_0.node_name@
                            &&& g.verifier@ == old(self).grant()->Some_0.verifier@
                            &&& g.key@ == old(self).grant()->Some_0.key@
                            &&& volumes(g.push@) == volumes(old(self).grant()->Some_0.push@)
                            &&& volumes(g.pull@) == volumes(old(self).grant()->Some_0.pull@)
                        },
                        Err(e) => e == NetworkError::Crypto && r.0 == Some(
                            CryptoMessage::Encrypt(Err(RemoteError::IllegalTransition)),
                        ) && !(old(self).key().len() == KEY_LEN && old(self).nonce().len()
                            == NONCE_LEN),
                    }
                } else {
                    r.0 == Some(CryptoMessage::Encrypt(Err(RemoteError::AccessDenied)))
                        && (r.1 matches Err(e) && e == NetworkError::RemoteError(RemoteError::Unauthorized))
                },
                CryptoMessage::ClientAuth(Err(_)) => r.0 is None && (r.1 matches Err(x) && x
                    == NetworkError::RemoteError(RemoteError::Unauthorized)),
                _ => r.0 == Some(CryptoMessage::Encrypt(Err(RemoteError::IllegalTransition)))
                    && (r.1 matches Err(x) && x == NetworkError::IllegalTransition),
            },
    {
        match msg {
            CryptoMessage::ClientAuth(Ok(ca)) => {
                let expected = hash_hmac(self.key.as_slice(), self.challenge.as_slice());
                if !ct_eq(ca.proof.as_slice(), expected.as_slice()) {
                    self.phase = HandshakePhase::Failed;
                    return (
                        Some(CryptoMessage::Encrypt(Err(RemoteError::AccessDenied))),
                        Err(NetworkError::RemoteError(RemoteError::Unauthorized)),
                    );
                }
                let g = match &self.grant {
                    Some(g) => g.cloned(),
                    None => {
                        self.phase = HandshakePhase::Failed;
                        return (None, Err(NetworkError::IllegalTransition));
                    },
                };
                match Transport::new(self.key.clone(), self.nonce.clone()) {
                    Ok(t) => {
                        self.phase = HandshakePhase::Secured;
                        let name = g.node_name.clone();
                        (Some(CryptoMessage::Encrypt(Ok(()))), Ok((StreamConn::from_transport(t, name), g)))
                    },
                    Err(e) => {
                        self.phase = HandshakePhase::Failed;
                        (Some(CryptoMessage::Encrypt(Err(RemoteError::IllegalTransition))), Err(e))
                    },
                }
            },
            CryptoMessage::ClientAuth(Err(_)) => {
                self.phase = HandshakePhase::Failed;
                (None, Err(NetworkError::RemoteError(RemoteError::Unauthorized)))
            },
            _ => {
                self.phase = HandshakePhase::Failed;
                (
                    Some(CryptoMessage::Encrypt(Err(RemoteError::IllegalTransition))),
                    Err(NetworkError::IllegalTransition),
                )
            },
        }
    }
}


impl StreamConn<Idle> {
    /// Completes the catalogue exchange with the peer's first message: its `SyncInfo`
    /// makes the session active; anything else fails with `IllegalTransition`, handing
    /// the idle session back to send the `Error(IllegalTransition)` reply.
    pub fn meta_sync(self, inbound: StreamMessage) -> (r: Result<
        (StreamConn<Active>, SyncInfo),
        (StreamConn<Idle>, StreamMessage, NetworkError),
    >)
        ensures
            match inbound {
                StreamMessage::SyncInfo(i) => r matches Ok((c, j)) && c.link() == self.link()
                    && c.remote() == self.remote() && j == i,
                _ => r matches Err((c, reply, e)) && c.link() == self.link() && c.remote()
                    == self.remote() && reply == StreamMessage::Error(RemoteError::IllegalTransition)
                    && e == NetworkError::IllegalTransition,
            },
    {
        match inbound {
            StreamMessage::SyncInfo(info) => {
                let conn = StreamConn {
                    transport: self.transport,
                    remote_node_name: self.remote_node_name,
                    phase: PhantomData,
                };
                Ok((conn, info))
            },
            _ => Err(
                (
                    self,
                    StreamMessage::Error(RemoteError::IllegalTransition),
                    NetworkError::IllegalTransition,
                ),
            ),
        }
    }
}

/// What the receive side of an active session does next.
#[derive(Debug)]
pub enum RxStep {
    /// Nothing.
    Continue,
    /// Send the reply and go on.
    Reply(StreamMessage),
    /// Ask for a sink for the announced snapshot, then report with `on_accept`.
    Accept(Snapshot),
    /// Write the bytes to the open sink; report a failure with `on_write_failed`.
    Write(Vec<u8>),
    /// Close the sink and finalize the snapshot, then report with `on_finalized`.
    Finalize(Snapshot),
    /// The peer accepted our announced blob: the transmitter may stream it.
    PeerReady,
    /// The peer has no more blobs.
    PeerDone,
    /// Send the reply, if any, and end the session with the error.
    Fail(Option<StreamMessage>, NetworkError),
}

/// Where the receive side of an active session stands.
#[derive(Clone, Copy, Debug, PartialEq, Eq, Structural)]
pub enum RxPhase {
    /// Waiting for the next message.
    Listening,
    /// Waiting for the sink of an announced snapshot.
    Accepting,
    /// The peer sent `Done`.
    Finished,
    /// The session failed.
    Failed,
}

/// The receive side of an active session.
pub struct Receiver {
    current: Option<Snapshot>,
    announced: Option<Snapshot>,
    phase: RxPhase,
}

impl Receiver {
    pub closed spec fn phase(&self) -> RxPhase {
        self.phase
    }

    /// The snapshot whose blob is being received, if any.
    pub closed spec fn current(&self) -> Option<SnapshotView> {
        match self.current {
            Some(s) => Some(s@),
            None => None,
        }
    }

    /// The snapshot announced and waiting for a sink, if any.
    pub closed spec fn announced(&self) -> Option<SnapshotView> {
        match self.announced {
            Some(s) => Some(s@),
            None => None,
        }
    }

    /// A receive side with no open sink.
    pub fn new() -> (r: Receiver)
        ensures
            r.phase() == RxPhase::Listening,
            r.current() is None,
    {
        Receiver { current: None, announced: None, phase: RxPhase::Listening }
    }

    /// Decides what an inbound message leads to.
    pub fn on_message(&mut self, msg: StreamMessage) -> (r: RxStep)
        requires
            old(self).phase() == RxPhase::Listening,
        ensures
            match msg {
                StreamMessage::Stream(Ok(())) => r is PeerReady && *final(self) == *old(self),
                StreamMessage::Stream(Err(e)) => r == RxStep::Fail(None, NetworkError::RemoteError(e))
                    && final(self).phase() == RxPhase::Failed,
                StreamMessage::Replicate(t) => if old(self).current() is None {
                    r == RxStep::Accept(t.snapshot) && final(self).phase() == RxPhase::Accepting
                        && final(self).announced() == Some(t.snapshot@) && final(self).current() is None
                } else {
                    r == RxStep::Reply(StreamMessage::Stream(Err(RemoteError::AlreadyStreaming)))
                        && *final(self) == *old(self)
                },
                StreamMessage::Chunk(b) => if old(self).current() is Some {
                    r == RxStep::Write(b) && *final(self) == *old(self)
                } else {
                    r == RxStep::Reply(StreamMessage::Error(RemoteError::NotStreaming)) && *final(self)
                        == *old(self)
                },
                StreamMessage::End(Ok(())) => match old(self).current() {
                    Some(s) => (r matches RxStep::Finalize(x) && x@ == s) && final(self).current() is None
                        && final(self).phase() == RxPhase::Listening,
                    None => r == RxStep::Reply(StreamMessage::Error(RemoteError::NotStreaming))
                        && *final(self) == *old(self),
                },
                StreamMessage::End(Err(e)) => r == RxStep::Fail(None, NetworkError::RemoteError(e))
                    && final(self).phase() == RxPhase::Failed,
                StreamMessage::Done => r is PeerDone && final(self).phase() == RxPhase::Finished,
                StreamMessage::Error(e) => r == RxStep::Fail(None, NetworkError::RemoteError(e))
                    && final(self).phase() == RxPhase::Failed,
                StreamMessage::SyncInfo(_) => r == RxStep::Fail(
                    Some(StreamMessage::Error(RemoteError::IllegalTransition)),
                    NetworkError::IllegalTransition,
                ) && final(self).phase() == RxPhase::Failed,
            },
    {
        match msg {
            StreamMessage::Stream(Ok(())) => RxStep::PeerReady,
            StreamMessage::Stream(Err(e)) => {
                self.phase = RxPhase::Failed;
                RxStep::Fail(None, NetworkError::RemoteError(e))
            },
            StreamMessage::Replicate(t) => {
                if self.current.is_none() {
                    self.announced = Some(t.snapshot.cloned());
                    self.phase = RxPhase::Accepting;
                    RxStep::Accept(t.snapshot)
                } else {
                    RxStep::Reply(StreamMessage::Stream(Err(RemoteError::AlreadyStreaming)))
                }
            },
            StreamMessage::Chunk(b) => {
                if self.current.is_some() {
                    RxStep::Write(b)
                } else {
                    RxStep::Reply(StreamMessage::Error(RemoteError::NotStreaming))
                }
            },
            StreamMessage::End(Ok(())) => {
                match self.current.take() {
                    Some(s) => RxStep::Finalize(s),
                    None => RxStep::Reply(StreamMessage::Error(RemoteError::NotStreaming)),
                }
            },
            StreamMessage::End(Err(e)) => {
                self.phase = RxPhase::Failed;
                RxStep::Fail(None, NetworkError::RemoteError(e))
            },
            StreamMessage::Done => {
                self.phase = RxPhase::Finished;
                RxStep::PeerDone
            },
            StreamMessage::Error(e) => {
                self.phase = RxPhase::Failed;
                RxStep::Fail(None, NetworkError::RemoteError(e))
            },
            StreamMessage::SyncInfo(_) => {
                self.phase = RxPhase::Failed;
                RxStep::Fail(
                    Some(StreamMessage::Error(RemoteError::IllegalTransition)),
                    NetworkError::IllegalTransition,
                )
            },
        }
    }

    /// Reports the acceptor's answer for the announced snapshot: with a sink the blob
    /// is received (`Stream(Ok)`); a refusal is sent back and ends the session.
    pub fn on_accept(&mut self, result: Result<(), RemoteError>) -> (r: (StreamMessage, Result<(), NetworkError>))
        requires
            old(self).phase() == RxPhase::Accepting,
        ensures
            match result {
                Ok(()) => r == (StreamMessage::Stream(Ok(())), Ok::<(), NetworkError>(()))
                    && final(self).phase() == RxPhase::Listening && final(self).current()
                    == old(self).announced(),
                Err(e) => r == (StreamMessage::Stream(Err(e)), Err::<(), NetworkError>(
                    NetworkError::RemoteError(e),
                )) && final(self).phase() == RxPhase::Failed,
            },
    {
        match result {
            Ok(()) => {
                self.current = self.announced.take();
                self.phase = RxPhase::Listening;
                (StreamMessage::Stream(Ok(())), Ok(()))
            },
            Err(e) => {
                self.phase = RxPhase::Failed;
                (StreamMessage::Stream(Err(e)), Err(NetworkError::RemoteError(e)))
            },
        }
    }

    /// Reports that writing to the sink failed: `Error(RxError)` is sent and the
    /// session ends.
    pub fn on_write_failed(&mut self) -> (r: (StreamMessage, NetworkError))
        ensures
            r == (StreamMessage::Error(RemoteError::RxError), NetworkError::RemoteError(RemoteError::RxError)),
            final(self).phase() == RxPhase::Failed,
    {
        self.phase = RxPhase::Failed;
        (StreamMessage::Error(RemoteError::RxError), NetworkError::RemoteError(RemoteError::RxError))
    }

    /// Reports the outcome of finalizing a received blob; a failure is sent to the peer
    /// and ends the session.
    pub fn on_finalized(&mut self, result: Result<(), RemoteError>) -> (r: Option<(StreamMessage, NetworkError)>)
        requires
            old(self).phase() == RxPhase::Listening,
        ensures
            match result {
                Ok(()) => r is None && *final(self) == *old(self),
                Err(e) => r == Some((StreamMessage::Error(e), NetworkError::RemoteError(e)))
                    && final(self).phase() == RxPhase::Failed,
            },
    {
        match result {
            Ok(()) => None,
            Err(e) => {
                self.phase = RxPhase::Failed;
                Some((StreamMessage::Error(e), NetworkError::RemoteError(e)))
            },
        }
    }
}


/// Where the transmit side of an active session stands.
#[derive(Clone, Copy, Debug, PartialEq, Eq, Structural)]
pub enum TxPhase {
    /// Ready to announce the next blob, or `Done` after the last.
    Announcing,
    /// Waiting for the peer to accept the announced blob.
    AwaitingReady,
    /// Sending the chunks of the announced blob.
    Streaming,
    /// `Done` was sent; nothing follows it.
    Done,
    /// The transmission failed.
    Failed,
}

/// The kind of a message the transmit side sent.
pub enum Sent {
    Replicate,
    Chunk,
    End,
    Done,
}

/// Whether `Done` occurs in a record of sent messages only as its last entry.
pub open spec fn done_last(log: Seq<Sent>) -> bool {
    forall|i: int| 0 <= i < log.len() && (#[trigger] log[i]) is Done ==> i == log.len() - 1
}

/// Shutdown ordering: a transmit side sends `Done` at most once, and nothing after it;
/// once it has sent `Done` it is finished.
pub proof fn lemma_done_is_final(t: Transmitter)
    requires
        t.wf(),
    ensures
        forall|i: int| 0 <= i < t.sent().len() && (#[trigger] t.sent()[i]) is Done ==> i == t.sent().len() - 1,
        t.phase() == TxPhase::Done <==> (t.sent().len() > 0 && t.sent().last() is Done),
{
}

/// The transmit side of an active session: announces each blob of its batch, streams
/// it once the peer accepts, and sends `Done` after the last.
pub struct Transmitter {
    batch: Vec<Snapshot>,
    next: usize,
    phase: TxPhase,
    log: Ghost<Seq<Sent>>,
}

impl Transmitter {
    pub closed spec fn phase(&self) -> TxPhase {
        self.phase
    }

    /// The kinds of the messages sent so far, in order.
    pub closed spec fn sent(&self) -> Seq<Sent> {
        self.log@
    }

    /// The snapshots still to be announced.
    pub closed spec fn remaining(&self) -> Seq<SnapshotView> {
        crate::catalogue::views(self.batch@).subrange(self.next as int, self.batch@.len() as int)
    }

    pub closed spec fn wf(&self) -> bool {
        &&& self.next <= self.batch@.len()
        &&& (self.phase == TxPhase::AwaitingReady || self.phase == TxPhase::Streaming) ==> self.next
            < self.batch@.len()
        &&& done_last(self.log@)
        &&& (self.phase == TxPhase::Done) == (self.log@.len() > 0 && self.log@.last() is Done)
    }

    /// A transmit side for a batch of snapshots.
    pub fn new(batch: Vec<Snapshot>) -> (r: Transmitter)
        ensures
            r.wf(),
            r.phase() == TxPhase::Announcing,
            r.sent() == Seq::<Sent>::empty(),
            r.remaining() == crate::catalogue::views(batch@),
    {
        let t = Transmitter { batch, next: 0, phase: TxPhase::Announcing, log: Ghost(Seq::empty()) };
        assert(t.remaining() =~= crate::catalogue::views(t.batch@));
        assert(done_last(t.log@));
        t
    }

    /// The next announcement: `Replicate` of the next snapshot, or `Done` after the last.
    pub fn announce(&mut self) -> (r: StreamMessage)
        requires
            old(self).wf(),
            old(self).phase() == TxPhase::Announcing,
        ensures
            final(self).wf(),
            old(self).remaining().len() == 0 ==> r is Done && final(self).phase() == TxPhase::Done
                && final(self).sent() == old(self).sent().push(Sent::Done),
            old(self).remaining().len() > 0 ==> (r matches StreamMessage::Replicate(t)
                && t.snapshot@ == old(self).remaining()[0]) && final(self).phase()
                == TxPhase::AwaitingReady && final(self).sent() == old(self).sent().push(
                Sent::Replicate,
            ) && final(self).remaining() == old(self).remaining(),
    {
        if self.next < self.batch.len() {
            let s = self.batch[self.next].cloned();
            assert(old(self).remaining()[0] == self.batch@[self.next as int]@);
            self.phase = TxPhase::AwaitingReady;
            self.log = Ghost(self.log@.push(Sent::Replicate));
            StreamMessage::Replicate(Target::from(s))
        } else {
            self.phase = TxPhase::Done;
            self.log = Ghost(self.log@.push(Sent::Done));
            StreamMessage::Done
        }
    }

    /// The peer accepted the announced blob.
    pub fn on_ready(&mut self)
        requires
            old(self).wf(),
            old(self).phase() == TxPhase::AwaitingReady,
        ensures
            final(self).wf(),
            final(self).phase() == TxPhase::Streaming,
            final(self).sent() == old(self).sent(),
            final(self).remaining() == old(self).remaining(),
    {
        self.phase = TxPhase::Streaming;
    }

    /// The next message of the blob being streamed, from the next piece read from it:
    /// `Chunk` of a non-empty piece; `End(Ok)` at the end of the blob, which moves on
    /// to the next snapshot.
    pub fn chunk(&mut self, data: Vec<u8>) -> (r: StreamMessage)
        requires
            old(self).wf(),
            old(self).phase() == TxPhase::Streaming,
        ensures
            final(self).wf(),
            data@.len() > 0 ==> r == StreamMessage::Chunk(data) && final(self).phase() == TxPhase::Streaming
                && final(self).sent() == old(self).sent().push(Sent::Chunk) && final(self).remaining()
                == old(self).remaining(),
            data@.len() == 0 ==> r == StreamMessage::End(Ok(())) && final(self).phase()
                == TxPhase::Announcing && final(self).sent() == old(self).sent().push(Sent::End)
                && final(self).remaining() == old(self).remaining().drop_first(),
    {
        if data.len() > 0 {
            self.log = Ghost(self.log@.push(Sent::Chunk));
            StreamMessage::Chunk(data)
        } else {
            let n = self.batch.len();
            assert(self.next < n);
            self.next = self.next + 1;
            self.log = Ghost(self.log@.push(Sent::End));
            self.phase = TxPhase::Announcing;
            assert(self.remaining() =~= old(self).remaining().drop_first());
            StreamMessage::End(Ok(()))
        }
    }

    /// Reading the blob failed: `End(Err(TxError))` is sent and the transmission fails.
    pub fn read_failed(&mut self) -> (r: StreamMessage)
        requires
            old(self).wf(),
            old(self).phase() == TxPhase::Streaming,
        ensures
            final(self).wf(),
            r == StreamMessage::End(Err(RemoteError::TxError)),
            final(self).phase() == TxPhase::Failed,
            final(self).sent() == old(self).sent().push(Sent::End),
    {
        self.log = Ghost(self.log@.push(Sent::End));
        self.phase = TxPhase::Failed;
        StreamMessage::End(Err(RemoteError::TxError))
    }
}

} // verus!
