use vstd::prelude::*;

use crate::catalogue::LatestSnapshots;
use crate::error::RemoteError;
use crate::identity::{Snapshot, Volume, VolumeView};

verus! {

/// Starts the authentication; sent by the client.
#[derive(Clone, Debug, PartialEq, Eq)]
pub struct Hello {
    /// The name of the client node.
    pub node_name: String,
    /// A random challenge for the server's proof.
    pub challenge: Vec<u8>,
    /// A random nonce for transport encryption.
    pub nonce: Vec<u8>,
}

/// The server's proof and challenge; sent by the server.
#[derive(Clone, Debug, PartialEq, Eq)]
pub struct ServerAuth {
    /// The salt the client derives the shared key with.
    pub verifier: Vec<u8>,
    /// A random challenge for the client's proof.
    pub challenge: Vec<u8>,
    /// HMAC(key, client challenge).
    pub proof: Vec<u8>,
}

/// The client's proof; sent by the client.
#[derive(Clone, Debug, PartialEq, Eq)]
pub struct ClientAuth {
    /// HMAC(key, server challenge).
    pub proof: Vec<u8>,
}

/// A plaintext message of the authentication handshake.
#[derive(Debug, PartialEq, Eq)]
pub enum CryptoMessage {
    /// Starts the authentication process; sent by the client.
    Hello(Hello),
    /// Server identity proof and challenge; sent by the server.
    ServerAuth(Result<ServerAuth, RemoteError>),
    /// Client identity proof; sent by the client.
    ClientAuth(Result<ClientAuth, RemoteError>),
    /// Authentication succeeded and further traffic is encrypted; sent by the server.
    Encrypt(Result<(), RemoteError>),
    /// A terminal protocol error.
    Error(RemoteError),
}

/// The catalogue tips of the volumes that a side accepts.
#[derive(Clone, Debug, PartialEq, Eq)]
pub struct SyncInfo {
    /// Each accepted volume with its tips; every volume appears once.
    pub volumes: Vec<(Volume, LatestSnapshots)>,
}

/// The volume and tips of each entry of a catalogue exchange.
pub open spec fn entries(v: Seq<(Volume, LatestSnapshots)>) -> Seq<(VolumeView, LatestSnapshots)> {
    v.map_values(|e: (Volume, LatestSnapshots)| (e.0@, e.1))
}

/// Announces the snapshot whose blob follows.
#[derive(Clone, Debug, PartialEq, Eq)]
pub struct Target {
    /// The snapshot to stream.
    pub snapshot: Snapshot,
}

impl Target {
    /// The announcement of a snapshot.
    pub fn from(snapshot: Snapshot) -> (r: Target)
        ensures
            r.snapshot == snapshot,
    {
        Target { snapshot }
    }
}

/// A sealed message of the streaming session.
#[derive(Debug, PartialEq, Eq)]
pub enum StreamMessage {
    /// Catalogue tips; sent once by each side.
    SyncInfo(SyncInfo),
    /// Announces an upcoming blob.
    Replicate(Target),
    /// The peer's acceptance or rejection of a `Replicate`.
    Stream(Result<(), RemoteError>),
    /// An opaque segment of the blob.
    Chunk(Vec<u8>),
    /// The blob is complete, or failed.
    End(Result<(), RemoteError>),
    /// The sender has no more blobs.
    Done,
    /// A terminal protocol error.
    Error(RemoteError),
}


/// Length of the size header of a frame.
pub const HEADER_LEN: usize = 8;

pub open spec fn pow256(w: nat) -> nat
    decreases w,
{
    if w == 0 {
        1
    } else {
        256 * pow256((w - 1) as nat)
    }
}

/// The `w` little-endian bytes of `n`.
pub open spec fn le_bytes(n: nat, w: nat) -> Seq<u8>
    decreases w,
{
    if w == 0 {
        Seq::empty()
    } else {
        seq![(n % 256) as u8] + le_bytes(n / 256, (w - 1) as nat)
    }
}

/// The number that little-endian bytes denote.
pub open spec fn le_value(s: Seq<u8>) -> nat
    decreases s.len(),
{
    if s.len() == 0 {
        0
    } else {
        s[0] as nat + 256 * le_value(s.drop_first())
    }
}

/// A frame: the payload's length as a little-endian `u64`, then the payload.
pub open spec fn frame(payload: Seq<u8>) -> Seq<u8> {
    le_bytes(payload.len(), HEADER_LEN as nat) + payload
}

/// Reading back little-endian bytes of a number that fits gives the number.
pub proof fn lemma_le_round_trip(n: nat, w: nat)
    requires
        n < pow256(w),
    ensures
        le_bytes(n, w).len() == w,
        le_value(le_bytes(n, w)) == n,
    decreases w,
{
    if w > 0 {
        let p = pow256((w - 1) as nat);
        assert(n / 256 < p) by (nonlinear_arith)
            requires
                n < 256 * p,
        ;
        lemma_le_round_trip(n / 256, (w - 1) as nat);
        let s = le_bytes(n, w);
        assert(s.drop_first() =~= le_bytes(n / 256, (w - 1) as nat));
        assert(n == n % 256 + 256 * (n / 256)) by (nonlinear_arith);
    }
}

/// The size header of a frame read back gives the payload length.
pub proof fn lemma_frame_header(payload: Seq<u8>)
    requires
        payload.len() <= u64::MAX,
    ensures
        frame(payload).subrange(0, HEADER_LEN as int).len() == HEADER_LEN,
        le_value(frame(payload).subrange(0, HEADER_LEN as int)) == payload.len(),
        frame(payload).subrange(HEADER_LEN as int, frame(payload).len() as int) == payload,
{
    reveal_with_fuel(pow256, 9);
    lemma_le_round_trip(payload.len(), HEADER_LEN as nat);
    let f = frame(payload);
    assert(f.subrange(0, HEADER_LEN as int) =~= le_bytes(payload.len(), HEADER_LEN as nat));
    assert(f.subrange(HEADER_LEN as int, f.len() as int) =~= payload);
}

/// Frames a payload for the wire.
pub fn encode_frame(payload: &[u8]) -> (r: Vec<u8>)
    ensures
        r@ == frame(payload@),
{
    let mut out: Vec<u8> = Vec::new();
    let mut v: u64 = payload.len() as u64;
    let mut k: usize = 0;
    assert(le_bytes(payload@.len(), 8) =~= out@ + le_bytes(v as nat, 8));
    while k < HEADER_LEN
        invariant
            k <= HEADER_LEN,
            out@ + le_bytes(v as nat, (HEADER_LEN - k) as nat) == le_bytes(payload@.len(), 8),
        decreases HEADER_LEN - k,
    {
        let ghost rest = le_bytes(v as nat, (HEADER_LEN - k) as nat);
        assert(rest =~= seq![(v % 256) as u8] + le_bytes((v / 256) as nat, (HEADER_LEN - k - 1) as nat));
        out.push((v % 256) as u8);
        v = v / 256;
        k = k + 1;
        assert(out@ + le_bytes(v as nat, (HEADER_LEN - k) as nat) =~= le_bytes(payload@.len(), 8));
    }
    assert(out@ =~= le_bytes(payload@.len(), 8));
    let mut i: usize = 0;
    let ghost head = out@;
    while i < payload.len()
        invariant
            i <= payload@.len(),
            out@ == head + payload@.subrange(0, i as int),
        decreases payload@.len() - i,
    {
        out.push(payload[i]);
        i = i + 1;
        assert(out@ =~= head + payload@.subrange(0, i as int));
    }
    assert(payload@.subrange(0, i as int) =~= payload@);
    out
}

/// The payload length that a frame's size header announces.
pub fn frame_length(header: &[u8]) -> (r: u64)
    requires
        header@.len() == HEADER_LEN,
    ensures
        r as nat == le_value(header@),
{
    let mut acc: u64 = 0;
    let mut i: usize = HEADER_LEN;
    proof {
        reveal_with_fuel(pow256, 9);
        assert(header@.subrange(8, 8) =~= Seq::<u8>::empty());
    }
    while i > 0
        invariant
            i <= HEADER_LEN,
            header@.len() == HEADER_LEN,
            acc as nat == le_value(header@.subrange(i as int, HEADER_LEN as int)),
            acc < pow256((HEADER_LEN - i) as nat),
            pow256(8) == 18446744073709551616,
        decreases i,
    {
        let b = header[i - 1];
        let ghost tail = header@.subrange(i as int, 8);
        let ghost cur = header@.subrange(i - 1, 8);
        assert(cur.drop_first() =~= tail);
        assert(cur[0] == b);
        let ghost p = pow256((HEADER_LEN - i) as nat);
        assert(pow256((HEADER_LEN - i + 1) as nat) == 256 * p);
        assert(p <= pow256(7)) by {
            lemma_pow256_mono((HEADER_LEN - i) as nat, 7);
        }
        assert(acc * 256 + b < 256 * p) by (nonlinear_arith)
            requires
                acc < p,
                b < 256,
        ;
        assert(256 * pow256(7) == pow256(8));
        acc = acc * 256 + b as u64;
        i = i - 1;
    }
    assert(header@.subrange(0, 8) =~= header@);
    acc
}

proof fn lemma_pow256_mono(a: nat, b: nat)
    requires
        a <= b,
    ensures
        pow256(a) <= pow256(b),
    decreases b - a,
{
    if a < b {
        lemma_pow256_mono(a, (b - 1) as nat);
    }
}

} // verus!
