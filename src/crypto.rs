use vstd::prelude::*;

use chacha20poly1305::aead::generic_array::GenericArray;
use chacha20poly1305::aead::stream::{NewStream, StreamBE32, StreamPrimitive};
use chacha20poly1305::aead::{AeadCore, OsRng};
use chacha20poly1305::consts::U19;
use chacha20poly1305::{ChaChaPoly1305, Key, XChaCha20Poly1305};
use hmac::{Hmac, Mac};
use rand::Rng;
use subtle::ConstantTimeEq;

use crate::error::LocalNodeError;

verus! {

#[verifier::external_type_specification]
#[verifier::external_body]
pub struct ExArgon2Error(argon2::Error);

#[verifier::external_type_specification]
#[verifier::external_body]
pub struct ExAeadError(chacha20poly1305::aead::Error);

/// Length of keys and of authentication proofs.
pub const KEY_LEN: usize = 32;
/// Length of the salt a peer's key is derived with, and of challenges.
pub const VERIFIER_LEN: usize = 32;
/// Length of a stream nonce.
pub const NONCE_LEN: usize = 19;
/// Length of the authentication tag of a sealed chunk.
pub const TAG_LEN: usize = 16;
/// Plaintext bytes per sealed chunk (4 MiB).
pub const CHUNK_SIZE: usize = 4194304;
/// Bytes per sealed chunk on the wire: a chunk and its tag.
pub const SEALED_SIZE: usize = 4194320;

/// The 32-byte Argon2id (m = 524288 KiB, t = 32, p = 128) hash of a passphrase with a salt.
pub uninterp spec fn argon2id_key(passphrase: Seq<u8>, salt: Seq<u8>) -> Seq<u8>;

/// Whether Argon2id takes a passphrase and salt: the salt has 8 to `u32::MAX` bytes and
/// the passphrase at most `u32::MAX`.
pub open spec fn argon2_accepts(passphrase: Seq<u8>, salt: Seq<u8>) -> bool {
    8 <= salt.len() <= u32::MAX && passphrase.len() <= u32::MAX
}

/// The HMAC-SHA256 of `data` under `key`.
pub uninterp spec fn hmac_sha256(key: Seq<u8>, data: Seq<u8>) -> Seq<u8>;

/// The sealed form of a chunk of a STREAM (XChaCha20-Poly1305, big-endian 32-bit
/// counter) at a position, with the last-chunk flag.
pub uninterp spec fn sealed(
    key: Seq<u8>,
    nonce: Seq<u8>,
    position: int,
    last: bool,
    plain: Seq<u8>,
) -> Seq<u8>;

/// The plaintext of a sealed chunk of a STREAM at a position, with the last-chunk
/// flag, or none if it does not authenticate.
pub uninterp spec fn opened(
    key: Seq<u8>,
    nonce: Seq<u8>,
    position: int,
    last: bool,
    cipher: Seq<u8>,
) -> Option<Seq<u8>>;

/// Relies on `argon2::Argon2::hash_password_into` with Argon2id, version 0x13 and
/// parameters m = 524288, t = 32, p = 128, output length 32: the output is determined
/// by passphrase and salt; the call fails exactly on a salt shorter than 8 bytes or
/// longer than `u32::MAX` bytes, or a passphrase longer than `u32::MAX` bytes.
#[verifier::external_body]
fn hash_argon2id(passphrase: &[u8], salt: &[u8]) -> (r: Result<Vec<u8>, argon2::Error>)
    ensures
        r matches Ok(k) ==> k@ == argon2id_key(passphrase@, salt@) && k@.len() == KEY_LEN,
        r is Ok <==> argon2_accepts(passphrase@, salt@),
{
    let mut okm = vec![0u8; 32];
    let params = argon2::Params::new(524288, 32, 128, Some(32))?;
    argon2::Argon2::new(argon2::Algorithm::Argon2id, argon2::Version::V0x13, params)
        .hash_password_into(passphrase, salt, &mut okm)?;
    Ok(okm)
}

/// Relies on `hmac::Hmac<sha2::Sha256>`: a 32-byte MAC; keys of any length are accepted.
#[verifier::external_body]
pub(crate) fn hash_hmac(secret: &[u8], data: &[u8]) -> (r: Vec<u8>)
    ensures
        r@ == hmac_sha256(secret@, data@),
        r@.len() == KEY_LEN,
{
    let mut mac = <Hmac<sha2::Sha256> as Mac>::new_from_slice(secret).unwrap();
    mac.update(data);
    mac.finalize().into_bytes().to_vec()
}

/// Relies on `rand::thread_rng`: `n` bytes from the thread-local generator.
#[verifier::external_body]
pub(crate) fn random_bytes(n: usize) -> (r: Vec<u8>)
    ensures
        r@.len() == n,
{
    rand::thread_rng().sample_iter(&rand::distributions::Standard).take(n).collect()
}

/// Relies on `AeadCore::generate_nonce` of `ChaChaPoly1305<chacha20::XChaCha20, U19>`
/// with the operating system's generator: a fresh 19-byte stream nonce.
#[verifier::external_body]
fn stream_nonce() -> (r: Vec<u8>)
    ensures
        r@.len() == NONCE_LEN,
{
    ChaChaPoly1305::<chacha20::XChaCha20, U19>::generate_nonce(&mut OsRng).to_vec()
}

/// Relies on `subtle::ConstantTimeEq` for slices: true exactly when both have the same
/// length and the same bytes, compared in time independent of the contents.
#[verifier::external_body]
pub(crate) fn ct_eq(a: &[u8], b: &[u8]) -> (r: bool)
    ensures
        r == (a@ == b@),
{
    a.ct_eq(b).into()
}

/// Relies on `StreamBE32::<XChaCha20Poly1305>::encrypt` of the aead crate: the chunk
/// followed by its 16-byte tag, which opens to the chunk again at the same position
/// and flag; it fails only for messages of `64 * u32::MAX` bytes or more.
#[verifier::external_body]
pub(crate) fn seal_chunk(key: &[u8], nonce: &[u8], position: u32, last: bool, plain: &[u8]) -> (r: Result<
    Vec<u8>,
    chacha20poly1305::aead::Error,
>)
    requires
        key@.len() == KEY_LEN,
        nonce@.len() == NONCE_LEN,
    ensures
        r matches Ok(c) ==> c@ == sealed(key@, nonce@, position as int, last, plain@),
        r matches Ok(c) ==> c@.len() == plain@.len() + TAG_LEN,
        r matches Ok(c) ==> opened(key@, nonce@, position as int, last, c@) == Some(plain@),
        plain@.len() < 64 * u32::MAX ==> r is Ok,
{
    StreamBE32::<XChaCha20Poly1305>::new(Key::from_slice(key), GenericArray::from_slice(nonce))
        .encrypt(position, last, plain)
}

/// Relies on `StreamBE32::<XChaCha20Poly1305>::decrypt` of the aead crate: the
/// plaintext of an authentic sealed chunk, an error otherwise; input shorter than a
/// tag is always rejected.
#[verifier::external_body]
pub(crate) fn open_chunk(key: &[u8], nonce: &[u8], position: u32, last: bool, cipher: &[u8]) -> (r: Result<
    Vec<u8>,
    chacha20poly1305::aead::Error,
>)
    requires
        key@.len() == KEY_LEN,
        nonce@.len() == NONCE_LEN,
    ensures
        match r {
            Ok(p) => opened(key@, nonce@, position as int, last, cipher@) == Some(p@),
            Err(_) => opened(key@, nonce@, position as int, last, cipher@) is None,
        },
        cipher@.len() < TAG_LEN ==> r is Err,
{
    StreamBE32::<XChaCha20Poly1305>::new(Key::from_slice(key), GenericArray::from_slice(nonce))
        .decrypt(position, last, cipher)
}

/// The key of a peer with a verifier and passphrase: the HMAC under the Argon2id
/// hash of passphrase and verifier, of the verifier.
pub open spec fn derived_key(verifier: Seq<u8>, passphrase: Seq<u8>) -> Seq<u8> {
    hmac_sha256(argon2id_key(passphrase, verifier), verifier)
}

/// Converts a verifier and passphrase into the key for node authentication.
pub fn derive_key(verifier: &[u8], passphrase: &[u8]) -> (r: Result<Vec<u8>, LocalNodeError>)
    ensures
        r matches Ok(k) ==> k@ == derived_key(verifier@, passphrase@) && k@.len() == KEY_LEN,
        r matches Err(e) ==> e == LocalNodeError::KeyDerivation,
        r is Ok <==> argon2_accepts(passphrase@, verifier@),
{
    match hash_argon2id(passphrase, verifier) {
        Ok(material) => Ok(hash_hmac(material.as_slice(), verifier)),
        Err(_) => Err(LocalNodeError::KeyDerivation),
    }
}

/// Pairs a verifier with the key derived from it and a passphrase, in this order.
pub fn hash_passphrase_with(passphrase: &[u8], verifier: Vec<u8>) -> (r: Result<
    (Vec<u8>, Vec<u8>),
    LocalNodeError,
>)
    ensures
        r matches Ok((v, k)) ==> v@ == verifier@ && k@ == derived_key(verifier@, passphrase@)
            && k@.len() == KEY_LEN,
        r matches Err(e) ==> e == LocalNodeError::KeyDerivation,
        r is Ok <==> argon2_accepts(passphrase@, verifier@),
{
    let key = derive_key(verifier.as_slice(), passphrase)?;
    Ok((verifier, key))
}

/// Converts a passphrase into a fresh random 32-byte verifier and the key derived with
/// it, in this order; see `hash_passphrase_with`.
pub fn hash_passphrase(passphrase: &[u8]) -> (r: Result<(Vec<u8>, Vec<u8>), LocalNodeError>)
    ensures
        r matches Ok((v, k)) ==> v@.len() == VERIFIER_LEN && k@ == derived_key(v@, passphrase@),
        r matches Err(e) ==> e == LocalNodeError::KeyDerivation,
        r is Ok <==> passphrase@.len() <= u32::MAX,
{
    let verifier = random_bytes(VERIFIER_LEN);
    hash_passphrase_with(passphrase, verifier)
}


/// The `i`-th sealed chunk of a stream body.
pub open spec fn chunk_at(body: Seq<u8>, i: int) -> Seq<u8> {
    body.subrange(i * SEALED_SIZE as int, (i + 1) * SEALED_SIZE as int)
}

/// The plaintext of the first `n` chunks of a body, opened as chunks that are not last.
pub open spec fn opened_prefix(key: Seq<u8>, nonce: Seq<u8>, body: Seq<u8>, n: nat) -> Option<
    Seq<u8>,
>
    decreases n,
{
    if n == 0 {
        Some(Seq::empty())
    } else {
        match opened_prefix(key, nonce, body, (n - 1) as nat) {
            None => None,
            Some(p) => match opened(key, nonce, n - 1, false, chunk_at(body, n - 1)) {
                None => None,
                Some(q) => Some(p + q),
            },
        }
    }
}

/// How many chunks of a body of `len` bytes precede its last chunk.
pub open spec fn full_chunks(len: int) -> int {
    if len <= 0 {
        0
    } else {
        (len - 1) / SEALED_SIZE as int
    }
}

/// The plaintext of a stream body: every chunk but the last opened as not last, the
/// remaining bytes (at most one sealed chunk) opened as the last chunk.
pub open spec fn open_body(key: Seq<u8>, nonce: Seq<u8>, body: Seq<u8>) -> Option<Seq<u8>> {
    let n = full_chunks(body.len() as int);
    if n > u32::MAX {
        None
    } else {
        match opened_prefix(key, nonce, body, n as nat) {
            None => None,
            Some(p) => match opened(
                key,
                nonce,
                n,
                true,
                body.subrange(n * SEALED_SIZE as int, body.len() as int),
            ) {
                None => None,
                Some(q) => Some(p + q),
            },
        }
    }
}

/// The plaintext of an encrypted stream: a nonce, then a body sealed with the key
/// derived from passphrase and nonce.
pub open spec fn stream_plain(passphrase: Seq<u8>, ct: Seq<u8>) -> Option<Seq<u8>> {
    if ct.len() < NONCE_LEN {
        None
    } else {
        let nonce = ct.subrange(0, NONCE_LEN as int);
        open_body(argon2id_key(passphrase, nonce), nonce, ct.subrange(NONCE_LEN as int, ct.len() as int))
    }
}

/// The plaintext of the chunks of an encrypted stream that are known not to be the
/// last one, from the bytes received so far.
pub open spec fn stream_progress(passphrase: Seq<u8>, ct: Seq<u8>) -> Option<Seq<u8>> {
    if ct.len() < NONCE_LEN {
        Some(Seq::empty())
    } else {
        let nonce = ct.subrange(0, NONCE_LEN as int);
        let body = ct.subrange(NONCE_LEN as int, ct.len() as int);
        let n = full_chunks(body.len() as int);
        if n > u32::MAX {
            None
        } else {
            opened_prefix(argon2id_key(passphrase, nonce), nonce, body, n as nat)
        }
    }
}

/// The opened prefix depends on the bytes of its chunks alone.
pub proof fn lemma_prefix_stable(key: Seq<u8>, nonce: Seq<u8>, b1: Seq<u8>, b2: Seq<u8>, n: nat)
    requires
        n * SEALED_SIZE <= b1.len(),
        n * SEALED_SIZE <= b2.len(),
        b1.subrange(0, n * SEALED_SIZE as int) == b2.subrange(0, n * SEALED_SIZE as int),
    ensures
        opened_prefix(key, nonce, b1, n) == opened_prefix(key, nonce, b2, n),
    decreases n,
{
    if n > 0 {
        let m = (n - 1) as nat;
        let s = SEALED_SIZE as int;
        assert(b1.subrange(0, m * s) =~= b1.subrange(0, n * s).subrange(0, m * s));
        assert(b2.subrange(0, m * s) =~= b2.subrange(0, n * s).subrange(0, m * s));
        lemma_prefix_stable(key, nonce, b1, b2, m);
        assert(chunk_at(b1, m as int) =~= b1.subrange(0, n * s).subrange(m * s, n * s));
        assert(chunk_at(b2, m as int) =~= b2.subrange(0, n * s).subrange(m * s, n * s));
    }
}

fn push_all(v: &mut Vec<u8>, b: &[u8])
    ensures
        final(v)@ == old(v)@ + b@,
{
    let mut i: usize = 0;
    while i < b.len()
        invariant
            i <= b@.len(),
            v@ == old(v)@ + b@.subrange(0, i as int),
        decreases b.len() - i,
    {
        v.push(b[i]);
        i = i + 1;
        assert(v@ =~= old(v)@ + b@.subrange(0, i as int));
    }
    assert(b@.subrange(0, i as int) =~= b@);
}

/// A decrypting sink: it absorbs an encrypted stream (nonce, then sealed chunks) and
/// hands out the plaintext of each chunk once a later byte shows it is not the last.
pub struct RecoveryStream {
    passphrase: Vec<u8>,
    key: Vec<u8>,
    nonce: Vec<u8>,
    pending: Vec<u8>,
    position: u32,
    closed: bool,
    input: Ghost<Seq<u8>>,
    output: Ghost<Seq<u8>>,
}

impl RecoveryStream {
    /// All bytes written so far.
    pub closed spec fn input(&self) -> Seq<u8> {
        self.input@
    }

    /// All plaintext handed out so far.
    pub closed spec fn output(&self) -> Seq<u8> {
        self.output@
    }

    pub closed spec fn passphrase(&self) -> Seq<u8> {
        self.passphrase@
    }

    pub closed spec fn is_closed_spec(&self) -> bool {
        self.closed
    }

    pub closed spec fn wf(&self) -> bool {
        let s = SEALED_SIZE as int;
        if self.closed {
            true
        } else if self.key@.len() == 0 {
            &&& self.input@ == self.pending@
            &&& self.pending@.len() < NONCE_LEN
            &&& self.output@ == Seq::<u8>::empty()
            &&& self.position == 0
        } else {
            let body = self.input@.subrange(NONCE_LEN as int, self.input@.len() as int);
            &&& self.key@.len() == KEY_LEN
            &&& self.nonce@.len() == NONCE_LEN
            &&& self.key@ == argon2id_key(self.passphrase@, self.nonce@)
            &&& self.input@.len() == NONCE_LEN + self.position * s + self.pending@.len()
            &&& self.input@.subrange(0, NONCE_LEN as int) == self.nonce@
            &&& body.subrange(self.position * s, body.len() as int) == self.pending@
            &&& self.pending@.len() <= s
            &&& self.position > 0 ==> self.pending@.len() >= 1
            &&& opened_prefix(self.key@, self.nonce@, body, self.position as nat) == Some(
                self.output@,
            )
        }
    }

    /// A sink for a stream encrypted with `passphrase`.
    pub fn new(passphrase: Vec<u8>) -> (r: RecoveryStream)
        ensures
            r.wf(),
            r.passphrase() == passphrase@,
            r.input() == Seq::<u8>::empty(),
            r.output() == Seq::<u8>::empty(),
            !r.is_closed_spec(),
    {
        RecoveryStream {
            passphrase,
            key: Vec::new(),
            nonce: Vec::new(),
            pending: Vec::new(),
            position: 0,
            closed: false,
            input: Ghost(Seq::empty()),
            output: Ghost(Seq::empty()),
        }
    }

    /// Reports whether the stream is closed.
    pub fn is_closed(&self) -> (r: bool)
        ensures
            r == self.is_closed_spec(),
    {
        self.closed
    }

    /// Absorbs ciphertext bytes and returns the plaintext of the chunks they complete.
    pub fn write(&mut self, bytes: &[u8]) -> (r: Result<Vec<u8>, LocalNodeError>)
        requires
            old(self).wf(),
        ensures
            final(self).wf(),
            final(self).passphrase() == old(self).passphrase(),
            match r {
                Ok(p) => {
                    &&& !old(self).is_closed_spec()
                    &&& !final(self).is_closed_spec()
                    &&& final(self).input() == old(self).input() + bytes@
                    &&& final(self).output() == old(self).output() + p@
                    &&& stream_progress(final(self).passphrase(), final(self).input()) == Some(
                        final(self).output(),
                    )
                },
                Err(e) => {
                    &&& final(self).is_closed_spec()
                    &&& old(self).is_closed_spec() ==> e == LocalNodeError::StreamClosed
                    &&& !old(self).is_closed_spec() ==> ((e == LocalNodeError::KeyDerivation
                        && old(self).passphrase().len() > u32::MAX) || (e == LocalNodeError::Crypto
                        && stream_progress(old(self).passphrase(), old(self).input() + bytes@)
                        is None))
                },
            },
            !old(self).is_closed_spec() && old(self).passphrase().len() <= u32::MAX
                && stream_progress(old(self).passphrase(), old(self).input() + bytes@) is Some
                ==> r is Ok,
    {
        if self.closed {
            return Err(LocalNodeError::StreamClosed);
        }
        let ghost s = SEALED_SIZE as int;
        let ghost out0 = self.output@;
        push_all(&mut self.pending, bytes);
        self.input = Ghost(self.input@ + bytes@);
        let ghost input = self.input@;
        let ghost had_key = self.key@.len() > 0;
        if self.key.len() == 0 {
            if self.pending.len() < NONCE_LEN {
                return Ok(Vec::new());
            }
            let rest = self.pending.split_off(NONCE_LEN);
            let mut nonce: Vec<u8> = Vec::new();
            push_all(&mut nonce, self.pending.as_slice());
            match hash_argon2id(self.passphrase.as_slice(), nonce.as_slice()) {
                Err(_) => {
                    self.closed = true;
                    return Err(LocalNodeError::KeyDerivation);
                },
                Ok(k) => {
                    self.key = k;
                },
            }
            self.nonce = nonce;
            self.pending = rest;
            assert(input.subrange(NONCE_LEN as int, input.len() as int).subrange(0, input.len() - NONCE_LEN) =~= self.pending@);
        }
        let ghost body = input.subrange(NONCE_LEN as int, input.len() as int);
        proof {
            if had_key {
                let ib = old(self).input();
                let old_body = ib.subrange(NONCE_LEN as int, ib.len() as int);
                let k = self.position * s;
                assert(body.subrange(0, k) =~= old_body.subrange(0, k));
                lemma_prefix_stable(self.key@, self.nonce@, old_body, body, self.position as nat);
            }
        }
        let mut out: Vec<u8> = Vec::new();
        assert(self.output@ =~= out0 + out@);
        while self.pending.len() > SEALED_SIZE
            invariant
                !self.closed,
                !old(self).is_closed_spec(),
                s == SEALED_SIZE as int,
                self.input@ == input,
                body == input.subrange(NONCE_LEN as int, input.len() as int),
                input == old(self).input() + bytes@,
                self.passphrase@ == old(self).passphrase(),
                self.key@.len() == KEY_LEN,
                self.nonce@.len() == NONCE_LEN,
                self.key@ == argon2id_key(self.passphrase@, self.nonce@),
                input.len() == NONCE_LEN + self.position * s + self.pending@.len(),
                input.subrange(0, NONCE_LEN as int) == self.nonce@,
                body.subrange(self.position * s, body.len() as int) == self.pending@,
                self.position > 0 ==> self.pending@.len() >= 1,
                opened_prefix(self.key@, self.nonce@, body, self.position as nat) == Some(
                    self.output@,
                ),
                self.output@ == out0 + out@,
            decreases self.pending@.len(),
        {
            if self.position == u32::MAX {
                proof {
                    self.lemma_many_chunks(body);
                }
                self.closed = true;
                return Err(LocalNodeError::Crypto);
            }
            let rest = self.pending.split_off(SEALED_SIZE);
            assert(chunk_at(body, self.position as int) =~= self.pending@) by {
                assert(body.subrange(self.position * s, body.len() as int).subrange(0, s)
                    =~= chunk_at(body, self.position as int));
            }
            match open_chunk(
                self.key.as_slice(),
                self.nonce.as_slice(),
                self.position,
                false,
                self.pending.as_slice(),
            ) {
                Err(_) => {
                    proof {
                        self.lemma_failed_chunk(body, old(self).passphrase(), input);
                    }
                    self.closed = true;
                    return Err(LocalNodeError::Crypto);
                },
                Ok(p) => {
                    push_all(&mut out, p.as_slice());
                    self.output = Ghost(self.output@ + p@);
                    self.pending = rest;
                    self.position = self.position + 1;
                    assert(body.subrange(self.position * s, body.len() as int) =~= self.pending@);
                    assert(self.output@ =~= out0 + out@);
                },
            }
        }
        proof {
            self.lemma_progress(body, input);
        }
        Ok(out)
    }

    proof fn lemma_many_chunks(&self, body: Seq<u8>)
        requires
            self.pending@.len() > SEALED_SIZE,
            self.position == u32::MAX,
            body.len() == self.position * SEALED_SIZE + self.pending@.len(),
        ensures
            full_chunks(body.len() as int) > u32::MAX,
    {
        let s = SEALED_SIZE as int;
        let q = (body.len() - 1) / s;
        let r = (body.len() - 1) % s;
        vstd::arithmetic::div_mod::lemma_fundamental_div_mod(body.len() - 1, s);
        assert(q > u32::MAX) by (nonlinear_arith)
            requires
                body.len() - 1 == q * s + r,
                0 <= r < s,
                body.len() > (u32::MAX + 1) * s,
                s > 0,
        ;
    }

    proof fn lemma_failed_chunk(&self, body: Seq<u8>, passphrase: Seq<u8>, input: Seq<u8>)
        requires
            self.pending@.len() == SEALED_SIZE,
            body.len() >= (self.position + 1) * SEALED_SIZE + 1,
            opened_prefix(self.key@, self.nonce@, body, self.position as nat) is Some,
            opened(self.key@, self.nonce@, self.position as int, false, chunk_at(body, self.position as int)) is None,
            self.key@ == argon2id_key(passphrase, self.nonce@),
            input.len() >= NONCE_LEN,
            input.subrange(0, NONCE_LEN as int) == self.nonce@,
            body == input.subrange(NONCE_LEN as int, input.len() as int),
        ensures
            stream_progress(passphrase, input) is None,
    {
        let s = SEALED_SIZE as int;
        let n = full_chunks(body.len() as int);
        let q = (body.len() - 1) / s;
        let r = (body.len() - 1) % s;
        vstd::arithmetic::div_mod::lemma_fundamental_div_mod(body.len() - 1, s);
        assert(q >= self.position + 1) by (nonlinear_arith)
            requires
                body.len() - 1 == q * s + r,
                0 <= r < s,
                body.len() - 1 >= (self.position + 1) * s,
                s > 0,
        ;
        if n <= u32::MAX {
            lemma_prefix_none(self.key@, self.nonce@, body, (self.position + 1) as nat, n as nat);
        }
    }

    proof fn lemma_progress(&self, body: Seq<u8>, input: Seq<u8>)
        requires
            self.pending@.len() <= SEALED_SIZE,
            self.position > 0 ==> self.pending@.len() >= 1,
            body.len() == self.position * SEALED_SIZE + self.pending@.len(),
            input.len() >= NONCE_LEN,
            input.subrange(0, NONCE_LEN as int) == self.nonce@,
            body == input.subrange(NONCE_LEN as int, input.len() as int),
            self.key@ == argon2id_key(self.passphrase@, self.nonce@),
            opened_prefix(self.key@, self.nonce@, body, self.position as nat) == Some(self.output@),
        ensures
            full_chunks(body.len() as int) == self.position,
            stream_progress(self.passphrase@, input) == Some(self.output@),
    {
        lemma_full_chunks(self.position as int, self.pending@.len() as int);
    }

    /// Ends the stream: opens the remaining bytes as the last chunk and returns their
    /// plaintext. Succeeds exactly when the whole input is an authentic stream.
    pub fn close(&mut self) -> (r: Result<Vec<u8>, LocalNodeError>)
        requires
            old(self).wf(),
        ensures
            final(self).wf(),
            final(self).is_closed_spec(),
            match r {
                Ok(p) => !old(self).is_closed_spec() && stream_plain(
                    old(self).passphrase(),
                    old(self).input(),
                ) == Some(old(self).output() + p@),
                Err(_) => old(self).is_closed_spec() || stream_plain(
                    old(self).passphrase(),
                    old(self).input(),
                ) is None,
            },
            old(self).input().len() < NONCE_LEN + TAG_LEN ==> r is Err,
            !old(self).is_closed_spec() && stream_plain(old(self).passphrase(), old(self).input())
                is Some ==> r is Ok,
    {
        if self.closed {
            return Err(LocalNodeError::StreamClosed);
        }
        self.closed = true;
        if self.key.len() == 0 {
            return Err(LocalNodeError::Crypto);
        }
        let ghost input = self.input@;
        let ghost body = input.subrange(NONCE_LEN as int, input.len() as int);
        proof {
            lemma_full_chunks(self.position as int, self.pending@.len() as int);
            assert(body.subrange(self.position * SEALED_SIZE as int, body.len() as int) == self.pending@);
            if input.len() < NONCE_LEN + TAG_LEN && self.position > 0 {
                assert(self.position * SEALED_SIZE >= SEALED_SIZE) by (nonlinear_arith)
                    requires
                        self.position > 0,
                ;
            }
        }
        match open_chunk(
            self.key.as_slice(),
            self.nonce.as_slice(),
            self.position,
            true,
            self.pending.as_slice(),
        ) {
            Ok(p) => Ok(p),
            Err(_) => Err(LocalNodeError::Crypto),
        }
    }
}


pub proof fn lemma_full_chunks(position: int, pending: int)
    requires
        position >= 0,
        0 <= pending <= SEALED_SIZE,
        position > 0 ==> pending >= 1,
    ensures
        full_chunks(position * SEALED_SIZE + pending) == position,
{
    let s = SEALED_SIZE as int;
    if position * s + pending > 0 {
        assert(pending >= 1) by (nonlinear_arith)
            requires
                position * s + pending > 0,
                position > 0 ==> pending >= 1,
                position >= 0,
                pending >= 0,
        ;
        vstd::arithmetic::div_mod::lemma_fundamental_div_mod_converse(
            position * s + pending - 1,
            s,
            position,
            pending - 1,
        );
    } else {
        assert(position == 0) by (nonlinear_arith)
            requires
                position * s + pending <= 0,
                position >= 0,
                pending >= 0,
                s > 0,
        ;
    }
}

pub proof fn lemma_prefix_none(key: Seq<u8>, nonce: Seq<u8>, body: Seq<u8>, m: nat, n: nat)
    requires
        m <= n,
        opened_prefix(key, nonce, body, m) is None,
    ensures
        opened_prefix(key, nonce, body, n) is None,
    decreases n - m,
{
    if m < n {
        lemma_prefix_none(key, nonce, body, m, (n - 1) as nat);
    }
}


/// Copies the bytes of `b` between `from` and `to`.
fn copy_range(b: &[u8], from: usize, to: usize) -> (r: Vec<u8>)
    requires
        from <= to <= b@.len(),
    ensures
        r@ == b@.subrange(from as int, to as int),
{
    let mut r: Vec<u8> = Vec::new();
    let mut i = from;
    while i < to
        invariant
            from <= i <= to <= b@.len(),
            r@ == b@.subrange(from as int, i as int),
        decreases to - i,
    {
        r.push(b[i]);
        i = i + 1;
        assert(r@ =~= b@.subrange(from as int, i as int));
    }
    r
}

/// An encrypting source: a nonce, then the plaintext sealed chunk by chunk under a
/// key; the last chunk carries the last-chunk flag.
pub struct SnapshotStream {
    key: Vec<u8>,
    nonce: Vec<u8>,
    position: u32,
    finished: bool,
    plain: Ghost<Seq<u8>>,
    body: Ghost<Seq<u8>>,
}

impl SnapshotStream {
    pub closed spec fn key(&self) -> Seq<u8> {
        self.key@
    }

    pub closed spec fn nonce(&self) -> Seq<u8> {
        self.nonce@
    }

    /// The sealed chunks produced so far.
    pub closed spec fn body(&self) -> Seq<u8> {
        self.body@
    }

    /// The encrypted stream produced so far: the nonce and the sealed chunks.
    pub open spec fn ciphertext(&self) -> Seq<u8> {
        self.nonce() + self.body()
    }

    /// The plaintext sealed so far.
    pub closed spec fn plaintext(&self) -> Seq<u8> {
        self.plain@
    }

    pub closed spec fn is_finished(&self) -> bool {
        self.finished
    }

    pub closed spec fn wf(&self) -> bool {
        &&& self.key@.len() == KEY_LEN
        &&& self.nonce@.len() == NONCE_LEN
        &&& if self.finished {
            open_body(self.key@, self.nonce@, self.body@) == Some(self.plain@)
        } else {
            &&& self.body@.len() == self.position * SEALED_SIZE
            &&& opened_prefix(self.key@, self.nonce@, self.body@, self.position as nat) == Some(
                self.plain@,
            )
        }
    }

    /// A stream under a key and nonce.
    pub fn with_key(key: Vec<u8>, nonce: Vec<u8>) -> (r: SnapshotStream)
        requires
            key@.len() == KEY_LEN,
            nonce@.len() == NONCE_LEN,
        ensures
            r.wf(),
            !r.is_finished(),
            r.key() == key@,
            r.nonce() == nonce@,
            r.body() == Seq::<u8>::empty(),
            r.plaintext() == Seq::<u8>::empty(),
    {
        SnapshotStream {
            key,
            nonce,
            position: 0,
            finished: false,
            plain: Ghost(Seq::empty()),
            body: Ghost(Seq::empty()),
        }
    }

    /// A stream for `passphrase` with the given nonce: the key is derived from both.
    pub fn with_nonce(passphrase: &[u8], nonce: Vec<u8>) -> (r: Result<SnapshotStream, LocalNodeError>)
        requires
            nonce@.len() == NONCE_LEN,
        ensures
            match r {
                Ok(st) => {
                    &&& st.wf()
                    &&& !st.is_finished()
                    &&& st.key() == argon2id_key(passphrase@, nonce@)
                    &&& st.nonce() == nonce@
                    &&& st.body() == Seq::<u8>::empty()
                    &&& st.plaintext() == Seq::<u8>::empty()
                },
                Err(e) => e == LocalNodeError::KeyDerivation,
            },
            r is Ok <==> passphrase@.len() <= u32::MAX,
    {
        match hash_argon2id(passphrase, nonce.as_slice()) {
            Err(_) => Err(LocalNodeError::KeyDerivation),
            Ok(key) => Ok(Self::with_key(key, nonce)),
        }
    }

    /// A stream for `passphrase` with a fresh random nonce.
    pub fn new(passphrase: &[u8]) -> (r: Result<SnapshotStream, LocalNodeError>)
        ensures
            match r {
                Ok(st) => {
                    &&& st.wf()
                    &&& !st.is_finished()
                    &&& st.key() == argon2id_key(passphrase@, st.nonce())
                    &&& st.nonce().len() == NONCE_LEN
                    &&& st.body() == Seq::<u8>::empty()
                    &&& st.plaintext() == Seq::<u8>::empty()
                },
                Err(e) => e == LocalNodeError::KeyDerivation,
            },
            r is Ok <==> passphrase@.len() <= u32::MAX,
    {
        let nonce = stream_nonce();
        Self::with_nonce(passphrase, nonce)
    }

    /// The nonce that the stream starts with.
    pub fn header(&self) -> (r: Vec<u8>)
        requires
            self.wf(),
        ensures
            r@ == self.nonce(),
    {
        copy_range(self.nonce.as_slice(), 0, NONCE_LEN)
    }

    /// Seals the next chunk of plaintext: a full chunk, or the last one of at most a
    /// full chunk's size. Returns the sealed bytes that follow in the stream.
    pub fn seal(&mut self, chunk: &[u8], last: bool) -> (r: Result<Vec<u8>, LocalNodeError>)
        requires
            old(self).wf(),
            !old(self).is_finished(),
            chunk@.len() <= CHUNK_SIZE,
            !last ==> chunk@.len() == CHUNK_SIZE,
        ensures
            final(self).wf(),
            final(self).key() == old(self).key(),
            final(self).nonce() == old(self).nonce(),
            match r {
                Ok(c) => {
                    &&& c@.len() == chunk@.len() + TAG_LEN
                    &&& final(self).body() == old(self).body() + c@
                    &&& final(self).plaintext() == old(self).plaintext() + chunk@
                    &&& final(self).is_finished() == last
                    &&& last ==> open_body(final(self).key(), final(self).nonce(), final(self).body())
                        == Some(final(self).plaintext())
                },
                Err(e) => e == LocalNodeError::Crypto && !last && !final(self).is_finished()
                    && final(self).body() == old(self).body() && final(self).plaintext() == old(
                    self,
                ).plaintext() && old(self).body().len() == u32::MAX * SEALED_SIZE,
            },
            last || old(self).body().len() < u32::MAX * SEALED_SIZE ==> r is Ok,
    {
        if !last && self.position == u32::MAX {
            return Err(LocalNodeError::Crypto);
        }
        let ghost s = SEALED_SIZE as int;
        let ghost body0 = self.body@;
        let c = match seal_chunk(
            self.key.as_slice(),
            self.nonce.as_slice(),
            self.position,
            last,
            chunk,
        ) {
            Ok(c) => c,
            Err(_) => {
                return Err(LocalNodeError::Crypto);
            },
        };
        let ghost body1 = body0 + c@;
        proof {
            assert(body1.subrange(0, self.position * s) =~= body0.subrange(0, self.position * s));
            assert(body0.subrange(0, self.position * s) =~= body0);
            lemma_prefix_stable(self.key@, self.nonce@, body0, body1, self.position as nat);
            assert(body1.subrange(self.position * s, body1.len() as int) =~= c@);
            if last {
                lemma_full_chunks(self.position as int, c@.len() as int);
            } else {
                assert(chunk_at(body1, self.position as int) =~= c@);
            }
        }
        self.body = Ghost(body1);
        self.plain = Ghost(self.plain@ + chunk@);
        if last {
            self.finished = true;
        } else {
            self.position = self.position + 1;
        }
        Ok(c)
    }
}

/// The number of sealed chunks of a body for `n` plaintext bytes: full chunks and a
/// last, possibly empty, chunk.
pub open spec fn chunk_count(n: int) -> int {
    if n <= 0 {
        1
    } else {
        (n - 1) / CHUNK_SIZE as int + 1
    }
}

/// The length of a sealed body for `n` plaintext bytes: each chunk carries a tag.
pub open spec fn sealed_len(n: int) -> int {
    n + TAG_LEN * chunk_count(n)
}

/// Seals `plain` as a stream body under a key and nonce: full chunks, then a last chunk.
pub fn seal_with_key(key: &[u8], nonce: &[u8], plain: &[u8]) -> (r: Result<Vec<u8>, LocalNodeError>)
    requires
        key@.len() == KEY_LEN,
        nonce@.len() == NONCE_LEN,
    ensures
        r matches Ok(c) ==> open_body(key@, nonce@, c@) == Some(plain@),
        r matches Ok(c) ==> c@.len() == sealed_len(plain@.len() as int),
        r matches Err(e) ==> e == LocalNodeError::Crypto,
        plain@.len() <= u32::MAX * CHUNK_SIZE ==> r is Ok,
{
    let mut st = SnapshotStream::with_key(copy_range(key, 0, KEY_LEN), copy_range(nonce, 0, NONCE_LEN));
    assert(key@.subrange(0, KEY_LEN as int) =~= key@);
    assert(nonce@.subrange(0, NONCE_LEN as int) =~= nonce@);
    let mut out: Vec<u8> = Vec::new();
    let mut i: usize = 0;
    let ghost mut k: int = 0;
    while plain.len() - i > CHUNK_SIZE
        invariant
            i <= plain@.len(),
            st.wf(),
            !st.is_finished(),
            st.key() == key@,
            st.nonce() == nonce@,
            st.plaintext() == plain@.subrange(0, i as int),
            out@ == st.body(),
            k >= 0,
            i == k * CHUNK_SIZE,
            k > 0 ==> i < plain@.len(),
            out@.len() == k * SEALED_SIZE,
        decreases plain@.len() - i,
    {
        proof {
            if plain@.len() <= u32::MAX * CHUNK_SIZE {
                assert(k * SEALED_SIZE < u32::MAX * SEALED_SIZE) by (nonlinear_arith)
                    requires
                        k * CHUNK_SIZE + CHUNK_SIZE < plain@.len(),
                        plain@.len() <= u32::MAX * CHUNK_SIZE,
                        k >= 0,
                ;
            }
        }
        let chunk = copy_range(plain, i, i + CHUNK_SIZE);
        let c = st.seal(chunk.as_slice(), false)?;
        push_all(&mut out, c.as_slice());
        i = i + CHUNK_SIZE;
        proof {
            k = k + 1;
            assert(out@.len() == k * SEALED_SIZE) by (nonlinear_arith)
                requires
                    out@.len() == (k - 1) * SEALED_SIZE + SEALED_SIZE,
            ;
        }
        assert(st.plaintext() =~= plain@.subrange(0, i as int));
    }
    let chunk = copy_range(plain, i, plain.len());
    let c = st.seal(chunk.as_slice(), true)?;
    push_all(&mut out, c.as_slice());
    assert(st.plaintext() =~= plain@);
    proof {
        let n = plain@.len() as int;
        if n > 0 {
            vstd::arithmetic::div_mod::lemma_fundamental_div_mod_converse(
                n - 1,
                CHUNK_SIZE as int,
                k,
                n - 1 - k * CHUNK_SIZE,
            );
        }
        assert(chunk_count(n) == k + 1);
        assert(k * 4194320 == k * 4194304 + 16 * k) by (nonlinear_arith);
        assert(out@.len() == sealed_len(n));
    }
    Ok(out)
}

/// Opens a stream body under a key and nonce; fails unless it is authentic.
pub fn open_with_key(key: &[u8], nonce: &[u8], body: &[u8]) -> (r: Result<Vec<u8>, LocalNodeError>)
    requires
        key@.len() == KEY_LEN,
        nonce@.len() == NONCE_LEN,
    ensures
        match open_body(key@, nonce@, body@) {
            Some(p) => r matches Ok(q) && q@ == p,
            None => r matches Err(e) && e == LocalNodeError::Crypto,
        },
{
    let len = body.len();
    let n: usize = if len == 0 {
        0
    } else {
        (len - 1) / SEALED_SIZE
    };
    if n > u32::MAX as usize {
        return Err(LocalNodeError::Crypto);
    }
    proof {
        let s = SEALED_SIZE as int;
        if len > 0 {
            vstd::arithmetic::div_mod::lemma_fundamental_div_mod(len - 1, s);
            assert(n * s <= len) by (nonlinear_arith)
                requires
                    n == (len - 1) / s,
                    len - 1 == s * ((len - 1) / s) + (len - 1) % s,
                    0 <= (len - 1) % s,
                    len >= 1,
            ;
        }
    }
    let mut out: Vec<u8> = Vec::new();
    let mut k: usize = 0;
    while k < n
        invariant
            key@.len() == KEY_LEN,
            nonce@.len() == NONCE_LEN,
            k <= n <= u32::MAX,
            n == full_chunks(len as int),
            len == body@.len(),
            n * SEALED_SIZE <= len,
            opened_prefix(key@, nonce@, body@, k as nat) == Some(out@),
        decreases n - k,
    {
        assert((k + 1) * SEALED_SIZE <= n * SEALED_SIZE) by (nonlinear_arith)
            requires
                k < n,
        ;
        let chunk = copy_range(body, k * SEALED_SIZE, (k + 1) * SEALED_SIZE);
        match open_chunk(key, nonce, k as u32, false, chunk.as_slice()) {
            Ok(p) => {
                push_all(&mut out, p.as_slice());
            },
            Err(_) => {
                proof {
                    lemma_prefix_none(key@, nonce@, body@, (k + 1) as nat, n as nat);
                }
                return Err(LocalNodeError::Crypto);
            },
        }
        k = k + 1;
    }
    let rest = copy_range(body, n * SEALED_SIZE, len);
    match open_chunk(key, nonce, n as u32, true, rest.as_slice()) {
        Ok(p) => {
            push_all(&mut out, p.as_slice());
            Ok(out)
        },
        Err(_) => Err(LocalNodeError::Crypto),
    }
}

/// Encrypts `plain` under `passphrase` as one stream: a fresh nonce, then the body
/// sealed under the key derived from passphrase and nonce.
pub fn encrypt(passphrase: &[u8], plain: &[u8]) -> (r: Result<Vec<u8>, LocalNodeError>)
    ensures
        r matches Ok(c) ==> stream_plain(passphrase@, c@) == Some(plain@),
        r matches Ok(c) ==> c@.len() == NONCE_LEN + sealed_len(plain@.len() as int),
        r matches Err(e) ==> e == LocalNodeError::KeyDerivation || e == LocalNodeError::Crypto,
        passphrase@.len() <= u32::MAX && plain@.len() <= u32::MAX * CHUNK_SIZE ==> r is Ok,
{
    let st = SnapshotStream::new(passphrase)?;
    let mut out = st.header();
    let body = seal_with_key(st.key.as_slice(), st.nonce.as_slice(), plain)?;
    let ghost nonce = out@;
    push_all(&mut out, body.as_slice());
    proof {
        assert(out@.subrange(0, NONCE_LEN as int) =~= nonce);
        assert(out@.subrange(NONCE_LEN as int, out@.len() as int) =~= body@);
    }
    Ok(out)
}

/// Decrypts a stream encrypted under `passphrase`; fails unless the whole input is
/// an authentic stream.
pub fn decrypt(passphrase: &[u8], ct: &[u8]) -> (r: Result<Vec<u8>, LocalNodeError>)
    ensures
        r matches Ok(p) ==> stream_plain(passphrase@, ct@) == Some(p@),
        stream_plain(passphrase@, ct@) is None ==> r is Err,
        passphrase@.len() <= u32::MAX && stream_plain(passphrase@, ct@) is Some ==> r is Ok,
        ct@.len() < NONCE_LEN + TAG_LEN ==> r is Err,
{
    let mut pass: Vec<u8> = Vec::new();
    push_all(&mut pass, passphrase);
    let mut rs = RecoveryStream::new(pass);
    let mut out = rs.write(ct)?;
    assert(rs.input() =~= ct@);
    assert(rs.output() =~= out@);
    let tail = rs.close()?;
    push_all(&mut out, tail.as_slice());
    Ok(out)
}

} // verus!
