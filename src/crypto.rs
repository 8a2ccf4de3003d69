use vstd::prelude::*;
use vstd::slice::slice_subrange;
use crate::bytes::append_bytes;
use crate::file_transfer::{sha256, sha256_of};
use crate::message::random_array;
use chacha20poly1305::aead::{Aead, KeyInit};

verus! {

/// The X25519 public key of a secret scalar.
pub uninterp spec fn x25519_public_of(secret: Seq<u8>) -> Seq<u8>;

/// The raw X25519 agreement of a secret scalar with a public key.
pub uninterp spec fn x25519_shared_of(secret: Seq<u8>, their_public: Seq<u8>) -> Seq<u8>;

/// ChaCha20-Poly1305 ciphertext with tag, under a key and nonce, no
/// associated data.
pub uninterp spec fn seal_of(key: Seq<u8>, nonce: Seq<u8>, plaintext: Seq<u8>) -> Seq<u8>;

/// ChaCha20-Poly1305 opening: the plaintext, or `None` when the tag does not
/// authenticate the ciphertext under the key and nonce.
pub uninterp spec fn open_of(key: Seq<u8>, nonce: Seq<u8>, ciphertext: Seq<u8>) -> Option<Seq<u8>>;

/// Relies on x25519-dalek's `StaticSecret::random_from_rng` with rand's
/// `OsRng`: a fresh random secret scalar; nothing is promised of it.
#[verifier::external_body]
fn x25519_random_secret() -> (r: [u8; 32]) {
    x25519_dalek::StaticSecret::random_from_rng(rand::rngs::OsRng).to_bytes()
}

/// Relies on x25519-dalek's `PublicKey::from(&StaticSecret)`: the public key
/// of the secret, a function of the secret bytes alone.
#[verifier::external_body]
fn x25519_public(secret: &[u8; 32]) -> (r: [u8; 32])
    ensures
        r@ == x25519_public_of(secret@),
{
    x25519_dalek::PublicKey::from(&x25519_dalek::StaticSecret::from(*secret)).to_bytes()
}

/// Relies on x25519-dalek's `StaticSecret::diffie_hellman`: the shared
/// secret depends on the two inputs alone, and two parties that each combine
/// their secret with the other's public key obtain the same bytes.
#[verifier::external_body]
fn x25519_shared(secret: &[u8; 32], their_public: &[u8; 32]) -> (r: [u8; 32])
    ensures
        r@ == x25519_shared_of(secret@, their_public@),
        forall|other: Seq<u8>| other.len() == 32 && their_public@ == x25519_public_of(other)
            ==> r@ == #[trigger] x25519_shared_of(other, x25519_public_of(secret@)),
{
    let s = x25519_dalek::StaticSecret::from(*secret);
    *s.diffie_hellman(&x25519_dalek::PublicKey::from(*their_public)).as_bytes()
}

/// Relies on chacha20poly1305's `ChaCha20Poly1305::encrypt` with a 32-byte
/// key: the ciphertext depends on key, nonce and plaintext alone, and opening
/// it with the same key and nonce gives the plaintext back. The crate fails
/// only on plaintexts of 64 * (2^32 - 1) bytes or more.
#[verifier::external_body]
fn chacha_seal(key: &[u8; 32], nonce: &[u8; 12], plaintext: &[u8]) -> (r: Option<Vec<u8>>)
    ensures
        plaintext@.len() < MAX_PLAINTEXT ==> r is Some,
        r matches Some(c) ==> c@ == seal_of(key@, nonce@, plaintext@),
        r matches Some(c) ==> open_of(key@, nonce@, c@) == Some(plaintext@),
{
    let cipher = chacha20poly1305::ChaCha20Poly1305::new(chacha20poly1305::Key::from_slice(key));
    cipher.encrypt(chacha20poly1305::Nonce::from_slice(nonce), plaintext).ok()
}

/// Relies on chacha20poly1305's `ChaCha20Poly1305::decrypt` with a 32-byte
/// key: the plaintext when the tag authenticates, an error otherwise, and an
/// error for input shorter than the 16-byte tag.
#[verifier::external_body]
fn chacha_open(key: &[u8; 32], nonce: &[u8], ciphertext: &[u8]) -> (r: Option<Vec<u8>>)
    requires
        nonce@.len() == 12,
    ensures
        ciphertext@.len() < 16 ==> r is None,
        match r {
            Some(p) => open_of(key@, nonce@, ciphertext@) == Some(p@),
            None => open_of(key@, nonce@, ciphertext@) is None,
        },
{
    let cipher = chacha20poly1305::ChaCha20Poly1305::new(chacha20poly1305::Key::from_slice(key));
    cipher.decrypt(chacha20poly1305::Nonce::from_slice(nonce), ciphertext).ok()
}

/// Plaintexts shorter than this many bytes (64-byte blocks below 2^32 - 1)
/// are always accepted by the cipher.
pub const MAX_PLAINTEXT: u64 = 274877906880;

/// Why an encryption or decryption failed.
#[derive(Debug, Clone, Copy, PartialEq, Eq, Structural)]
pub enum CryptoError {
    /// The input is shorter than the 12-byte nonce.
    InvalidCiphertext,
    /// The tag does not authenticate the data under the key.
    AuthFailure,
    /// The cipher refused the plaintext (beyond its length limit).
    EncryptionFailed,
}

/// The envelope of a sealed message: nonce, then ciphertext with tag.
pub open spec fn envelope(key: Seq<u8>, nonce: Seq<u8>, plaintext: Seq<u8>) -> Seq<u8> {
    nonce + seal_of(key, nonce, plaintext)
}

/// What opening an envelope gives: its first 12 bytes are the nonce.
pub open spec fn open_envelope(key: Seq<u8>, data: Seq<u8>) -> Result<Seq<u8>, CryptoError> {
    if data.len() < 12 {
        Err(CryptoError::InvalidCiphertext)
    } else {
        match open_of(key, data.subrange(0, 12), data.subrange(12, data.len() as int)) {
            Some(p) => Ok(p),
            None => Err(CryptoError::AuthFailure),
        }
    }
}

/// The session key two peers share: SHA-256 of the raw agreement.
pub open spec fn session_key_of(secret: Seq<u8>, their_public: Seq<u8>) -> Seq<u8> {
    sha256_of(x25519_shared_of(secret, their_public))
}

/// Seals `plaintext` under `key` with a fresh random nonce.
pub fn encrypt_with_key(key: &[u8; 32], plaintext: &[u8]) -> (r: Result<Vec<u8>, CryptoError>)
    ensures
        r matches Ok(c) ==> exists|nonce: Seq<u8>| nonce.len() == 12 && c@ == #[trigger] envelope(key@, nonce, plaintext@),
        r matches Ok(c) ==> open_envelope(key@, c@) == Ok::<Seq<u8>, CryptoError>(plaintext@),
        r is Err ==> r == Err::<Vec<u8>, CryptoError>(CryptoError::EncryptionFailed),
        plaintext@.len() < MAX_PLAINTEXT ==> r is Ok,
{
    let nonce: [u8; 12] = random_array::<12>();
    match chacha_seal(key, &nonce, plaintext) {
        None => Err(CryptoError::EncryptionFailed),
        Some(ct) => {
            let mut out: Vec<u8> = Vec::new();
            append_bytes(&mut out, &nonce);
            append_bytes(&mut out, ct.as_slice());
            assert(out@ == envelope(key@, nonce@, plaintext@));
            assert(out@.subrange(0, 12) =~= nonce@);
            assert(out@.subrange(12, out@.len() as int) =~= ct@);
            Ok(out)
        },
    }
}

/// Opens an envelope sealed under `key`.
pub fn decrypt_with_key(key: &[u8; 32], data: &[u8]) -> (r: Result<Vec<u8>, CryptoError>)
    ensures
        match r {
            Ok(p) => open_envelope(key@, data@) == Ok::<Seq<u8>, CryptoError>(p@),
            Err(e) => open_envelope(key@, data@) == Err::<Seq<u8>, CryptoError>(e),
        },
        data@.len() < 28 ==> r is Err,
{
    if data.len() < 12 {
        return Err(CryptoError::InvalidCiphertext);
    }
    let nonce = slice_subrange(data, 0, 12);
    let body = slice_subrange(data, 12, data.len());
    match chacha_open(key, nonce, body) {
        Some(p) => Ok(p),
        None => Err(CryptoError::AuthFailure),
    }
}

/// An ephemeral key-agreement pair: the secret scalar and its public key.
pub fn generate_x25519_keypair() -> (r: ([u8; 32], [u8; 32]))
    ensures
        r.1@ == x25519_public_of(r.0@),
{
    let secret = x25519_random_secret();
    let public = x25519_public(&secret);
    (secret, public)
}

/// A session with one peer: the symmetric key and our public key.
#[derive(Debug, Clone, Copy)]
pub struct SessionKeys {
    pub shared_key: [u8; 32],
    pub our_public: [u8; 32],
}

impl SessionKeys {
    /// The session derived from our secret and the peer's public key: the
    /// key is the SHA-256 digest of the X25519 agreement.
    pub fn from_exchange(our_secret: &[u8; 32], their_public: &[u8; 32]) -> (r: Self)
        ensures
            r.shared_key@ == session_key_of(our_secret@, their_public@),
            r.our_public@ == x25519_public_of(our_secret@),
            forall|other: Seq<u8>| other.len() == 32 && their_public@ == x25519_public_of(other)
                ==> r.shared_key@ == #[trigger] session_key_of(other, x25519_public_of(our_secret@)),
    {
        let shared = x25519_shared(our_secret, their_public);
        let derived = sha256(&shared);
        SessionKeys { shared_key: derived, our_public: x25519_public(our_secret) }
    }

    /// Seals `plaintext` under the session key with a fresh random nonce.
    pub fn encrypt(&self, plaintext: &[u8]) -> (r: Result<Vec<u8>, CryptoError>)
        ensures
            r matches Ok(c) ==> exists|nonce: Seq<u8>| nonce.len() == 12 && c@ == #[trigger] envelope(self.shared_key@, nonce, plaintext@),
            r matches Ok(c) ==> open_envelope(self.shared_key@, c@) == Ok::<Seq<u8>, CryptoError>(plaintext@),
            r is Err ==> r == Err::<Vec<u8>, CryptoError>(CryptoError::EncryptionFailed),
            plaintext@.len() < MAX_PLAINTEXT ==> r is Ok,
    {
        encrypt_with_key(&self.shared_key, plaintext)
    }

    /// Opens an envelope sealed under the session key.
    pub fn decrypt(&self, data: &[u8]) -> (r: Result<Vec<u8>, CryptoError>)
        ensures
            match r {
                Ok(p) => open_envelope(self.shared_key@, data@) == Ok::<Seq<u8>, CryptoError>(p@),
                Err(e) => open_envelope(self.shared_key@, data@) == Err::<Seq<u8>, CryptoError>(e),
            },
            data@.len() < 28 ==> r is Err,
    {
        decrypt_with_key(&self.shared_key, data)
    }
}

} // verus!
