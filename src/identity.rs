use vstd::prelude::*;
use vstd::slice::slice_subrange;
use ed25519_dalek::{Signer, Verifier};

verus! {

/// The Ed25519 verification key of a 32-byte secret key.
pub uninterp spec fn ed25519_public_of(secret: Seq<u8>) -> Seq<u8>;

/// The Ed25519 signature of a message under a secret key (deterministic).
pub uninterp spec fn ed25519_signature_of(secret: Seq<u8>, message: Seq<u8>) -> Seq<u8>;

/// Whether a signature verifies for a message under a verification key.
pub uninterp spec fn ed25519_valid(public: Seq<u8>, message: Seq<u8>, signature: Seq<u8>) -> bool;

/// Relies on ed25519-dalek's `SigningKey::generate` with rand's `OsRng`: a
/// fresh random secret key; nothing is promised of it.
#[verifier::external_body]
fn ed25519_random_secret() -> (r: [u8; 32]) {
    ed25519_dalek::SigningKey::generate(&mut rand::rngs::OsRng).to_bytes()
}

/// Relies on ed25519-dalek's `SigningKey::verifying_key`: the verification
/// key depends on the secret bytes alone.
#[verifier::external_body]
fn ed25519_public(secret: &[u8; 32]) -> (r: [u8; 32])
    ensures
        r@ == ed25519_public_of(secret@),
{
    ed25519_dalek::SigningKey::from_bytes(secret).verifying_key().to_bytes()
}

/// Relies on ed25519-dalek's `SigningKey::sign`: Ed25519 signing is
/// deterministic, so the signature depends on key and message alone.
#[verifier::external_body]
fn ed25519_sign(secret: &[u8; 32], message: &[u8]) -> (r: [u8; 64])
    ensures
        r@ == ed25519_signature_of(secret@, message@),
{
    ed25519_dalek::SigningKey::from_bytes(secret).sign(message).to_bytes()
}

/// Relies on ed25519-dalek's `VerifyingKey::from_bytes` and
/// `VerifyingKey::verify`: a signature made with the secret key of the
/// verification key, over the same message, verifies.
#[verifier::external_body]
fn ed25519_verify(public: &[u8; 32], message: &[u8], signature: &[u8; 64]) -> (r: bool)
    ensures
        r == ed25519_valid(public@, message@, signature@),
        forall|secret: Seq<u8>| public@ == ed25519_public_of(secret)
            && signature@ == #[trigger] ed25519_signature_of(secret, message@) ==> r,
{
    match ed25519_dalek::VerifyingKey::from_bytes(public) {
        Ok(k) => k.verify(message, &ed25519_dalek::Signature::from_bytes(signature)).is_ok(),
        Err(_) => false,
    }
}

/// Lower-case hexadecimal digit of a value below 16.
pub open spec fn hex_digit(n: u8) -> char {
    if n == 0 { '0' } else if n == 1 { '1' } else if n == 2 { '2' } else if n == 3 { '3' }
    else if n == 4 { '4' } else if n == 5 { '5' } else if n == 6 { '6' } else if n == 7 { '7' }
    else if n == 8 { '8' } else if n == 9 { '9' } else if n == 10 { 'a' } else if n == 11 { 'b' }
    else if n == 12 { 'c' } else if n == 13 { 'd' } else if n == 14 { 'e' } else { 'f' }
}

/// Lower-case hexadecimal text of a byte string, two digits per byte.
pub open spec fn hex_of(b: Seq<u8>) -> Seq<char>
    decreases b.len(),
{
    if b.len() == 0 {
        Seq::empty()
    } else {
        hex_of(b.drop_last()) + seq![hex_digit(b.last() / 16), hex_digit(b.last() % 16)]
    }
}

/// Relies on hex's `encode`: two lower-case hexadecimal digits per byte,
/// high nibble first.
#[verifier::external_body]
pub(crate) fn hex_encode(b: &[u8]) -> (r: String)
    ensures
        r@ == hex_of(b@),
{
    hex::encode(b)
}

/// Why a persisted key could not be adopted.
#[derive(Debug, Clone, Copy, PartialEq, Eq, Structural)]
pub enum IdentityError {
    /// The key file does not hold exactly 32 bytes.
    InvalidLength,
    /// The signature does not verify.
    BadSignature,
}

/// A node's identity: an Ed25519 key pair whose verification key is the
/// node identifier.
#[derive(Clone)]
pub struct NodeIdentity {
    /// The secret signing key, as persisted in the key file.
    pub secret: [u8; 32],
    pub node_id: [u8; 32],
    pub display_name: String,
}

impl NodeIdentity {
    /// The secret key.
    pub open spec fn secret_key(&self) -> Seq<u8> {
        self.secret@
    }

    /// The node identifier.
    pub open spec fn id_key(&self) -> Seq<u8> {
        self.node_id@
    }

    /// The display name.
    pub open spec fn name(&self) -> Seq<char> {
        self.display_name@
    }

    /// A new random identity.
    pub fn generate(display_name: String) -> (r: Self)
        ensures
            r.id_key() == ed25519_public_of(r.secret_key()),
            r.name() == display_name@,
    {
        let secret = ed25519_random_secret();
        let node_id = ed25519_public(&secret);
        NodeIdentity { secret, node_id, display_name }
    }

    /// Adopts the content of a key file: exactly 32 secret bytes.
    pub fn from_key_bytes(bytes: &[u8], display_name: String) -> (r: Result<Self, IdentityError>)
        ensures
            bytes@.len() != 32 <==> r is Err,
            r matches Ok(id) ==> id.id_key() == ed25519_public_of(bytes@) && id.secret_key() == bytes@
                && id.name() == display_name@,
    {
        if bytes.len() != 32 {
            return Err(IdentityError::InvalidLength);
        }
        let mut secret = [0u8; 32];
        let mut i: usize = 0;
        while i < 32
            invariant
                0 <= i <= 32,
                bytes@.len() == 32,
                secret@.len() == 32,
                forall|j: int| 0 <= j < i ==> secret@[j] == bytes@[j],
            decreases 32 - i,
        {
            secret[i] = bytes[i];
            i = i + 1;
        }
        assert(secret@ =~= bytes@);
        let node_id = ed25519_public(&secret);
        Ok(NodeIdentity { secret, node_id, display_name })
    }

    /// The 32 secret bytes, as persisted in the key file.
    pub fn secret_bytes(&self) -> (r: [u8; 32])
        ensures
            r@ == self.secret_key(),
    {
        self.secret
    }

    /// The node identifier in hexadecimal.
    pub fn node_id_hex(&self) -> (r: String)
        ensures
            r@ == hex_of(self.id_key()),
    {
        hex_encode(&self.node_id)
    }

    /// The first four bytes of the identifier in hexadecimal (eight digits).
    pub fn node_id_short(&self) -> (r: String)
        ensures
            r@ == hex_of(self.id_key().subrange(0, 4)),
    {
        hex_encode(slice_subrange(&self.node_id, 0, 4))
    }

    /// Signs `message` with the secret key.
    pub fn sign(&self, message: &[u8]) -> (r: [u8; 64])
        ensures
            r@ == ed25519_signature_of(self.secret_key(), message@),
    {
        ed25519_sign(&self.secret, message)
    }

    /// Checks a signature against a verification key; a signature made by
    /// `sign` of the matching identity over the same message passes.
    pub fn verify(public_key: &[u8; 32], message: &[u8], signature: &[u8; 64]) -> (r: Result<(), IdentityError>)
        ensures
            r is Ok == ed25519_valid(public_key@, message@, signature@),
            forall|secret: Seq<u8>| public_key@ == ed25519_public_of(secret)
                && signature@ == #[trigger] ed25519_signature_of(secret, message@) ==> r is Ok,
    {
        if ed25519_verify(public_key, message, signature) {
            Ok(())
        } else {
            Err(IdentityError::BadSignature)
        }
    }

    /// The verification key, which is the node identifier.
    pub fn verifying_key_bytes(&self) -> (r: [u8; 32])
        ensures
            r@ == self.id_key(),
    {
        self.node_id
    }
}

} // verus!
