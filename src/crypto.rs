//! Keys, signatures and their text encoding.
//!
//! Everything here is held as plain bytes. The outside crates that do the
//! work (`ed25519_dalek` for signatures, `base64` for text) are reached only
//! through the small functions below, whose results are named by spec
//! functions without a body.
use ed25519_dalek::{Signer, Verifier};
use vstd::prelude::*;
use vstd::utf8::encode_utf8;

verus! {

/// Length of a signature.
pub const SIGNATURE_LENGTH: usize = 64;

/// The standard base64 text of some bytes.
pub uninterp spec fn base64_text(bytes: Seq<u8>) -> Seq<char>;

/// The bytes that a standard base64 text stands for, if it is well formed.
pub uninterp spec fn base64_bytes(text: Seq<u8>) -> Option<Seq<u8>>;

/// The ed25519 public key derived from a secret key.
pub uninterp spec fn ed25519_public(secret: Seq<u8>) -> Seq<u8>;

/// The (deterministic) ed25519 signature of a message under a secret key.
pub uninterp spec fn ed25519_signature(secret: Seq<u8>, message: Seq<u8>) -> Seq<u8>;

/// Whether 32 bytes are the compressed form of a point on the curve.
pub uninterp spec fn ed25519_point(key: Seq<u8>) -> bool;

/// Whether a signature of a message checks out under a public key.
pub uninterp spec fn ed25519_verifies(key: Seq<u8>, message: Seq<u8>, signature: Seq<u8>) -> bool;

/// A character of the standard base64 alphabet, padding included.
pub open spec fn is_base64_char(c: char) -> bool {
    ('A' <= c && c <= 'Z') || ('a' <= c && c <= 'z') || ('0' <= c && c <= '9') || c == '+'
        || c == '/' || c == '='
}

/// What a signature needs to be read as one: 64 bytes whose scalar half has
/// its three highest bits clear.
pub open spec fn signature_shape(b: Seq<u8>) -> bool {
    b.len() == 64 && b[63] & 0xe0u8 == 0
}

/// Relies on `base64::encode` (standard alphabet with padding): its text uses
/// only that alphabet and decodes back to the same bytes.
#[verifier::external_body]
pub(crate) fn base64_encode(bytes: &[u8]) -> (r: String)
    ensures
        r@ == base64_text(bytes@),
        forall|i: int| 0 <= i < r@.len() ==> is_base64_char(#[trigger] r@[i]),
        base64_bytes(encode_utf8(r@)) == Some(bytes@),
{
    base64::encode(bytes)
}

/// Relies on `base64::decode` (standard alphabet with padding), whose result
/// depends on the text alone.
#[verifier::external_body]
pub(crate) fn base64_decode(text: &[u8]) -> (r: Option<Vec<u8>>)
    ensures
        r is None ==> base64_bytes(text@) is None,
        r matches Some(v) ==> base64_bytes(text@) == Some(v@),
{
    base64::decode(text).ok()
}

/// Relies on `ed25519_dalek::SecretKey::from_bytes`, which accepts any 32
/// bytes, and on `PublicKey::from(&SecretKey)` for the derivation; the bytes
/// of a public key read back with `PublicKey::from_bytes` (as the crate's
/// documentation shows).
#[verifier::external_body]
fn derive_public(secret: &[u8; 32]) -> (r: Option<[u8; 32]>)
    ensures
        r is Some,
        r->0@ == ed25519_public(secret@),
        ed25519_point(r->0@),
{
    match ed25519_dalek::SecretKey::from_bytes(secret) {
        Ok(sk) => Some(ed25519_dalek::PublicKey::from(&sk).to_bytes()),
        Err(_) => None,
    }
}

/// Relies on `ed25519_dalek::Keypair::sign` over a key pair whose public half
/// is derived from the secret: signing is deterministic, the signature passes
/// `ed25519::Signature::from_bytes` (its conversion unwraps that call), and it
/// verifies under the public key (as the crate's documentation shows).
#[verifier::external_body]
fn sign_with(secret: &[u8; 32], message: &[u8]) -> (r: Option<Vec<u8>>)
    ensures
        r is Some,
        r->0@ == ed25519_signature(secret@, message@),
        signature_shape(r->0@),
        ed25519_verifies(ed25519_public(secret@), message@, r->0@),
{
    match ed25519_dalek::SecretKey::from_bytes(secret) {
        Ok(sk) => {
            let public = ed25519_dalek::PublicKey::from(&sk);
            let pair = ed25519_dalek::Keypair { secret: sk, public };
            Some(pair.sign(message).to_bytes().to_vec())
        },
        Err(_) => None,
    }
}

/// Relies on `ed25519_dalek::PublicKey::from_bytes`: it accepts exactly the
/// 32-byte strings that decompress to a curve point.
#[verifier::external_body]
pub(crate) fn public_key_accepted(key: &[u8]) -> (r: bool)
    ensures
        r == (key@.len() == 32 && ed25519_point(key@)),
{
    ed25519_dalek::PublicKey::from_bytes(key).is_ok()
}

/// Relies on `ed25519_dalek::PublicKey::verify`, after reading the key with
/// `PublicKey::from_bytes` and the signature with `Signature::from_bytes`
/// (either failing counts as a signature that does not check out).
#[verifier::external_body]
pub(crate) fn verify_signature(key: &[u8], message: &[u8], signature: &[u8]) -> (r: bool)
    ensures
        r == ed25519_verifies(key@, message@, signature@),
{
    match (ed25519_dalek::PublicKey::from_bytes(key), ed25519_dalek::Signature::from_bytes(signature)) {
        (Ok(k), Ok(s)) => k.verify(message, &s).is_ok(),
        _ => false,
    }
}

/// Relies on `ed25519_dalek::Keypair::generate` with the operating system's
/// random source; nothing is known of the bytes.
#[verifier::external_body]
fn random_secret() -> (r: [u8; 32]) {
    ed25519_dalek::Keypair::generate(&mut rand::rngs::OsRng).secret.to_bytes()
}

/// Whether `b` can be read as a signature (as `ed25519::Signature::from_bytes`
/// decides: 64 bytes, three highest bits of the last one clear).
pub fn is_signature_shape(b: &[u8]) -> (r: bool)
    ensures
        r == signature_shape(b@),
{
    b.len() == SIGNATURE_LENGTH && b[63] & 0xe0u8 == 0
}

/// A secret signing key.
pub struct PrivateKey {
    pub bytes: [u8; 32],
}

/// A secret key together with the public key derived from it.
pub struct KeyPair {
    secret: PrivateKey,
    public: [u8; 32],
}

impl KeyPair {
    #[verifier::type_invariant]
    spec fn matched(&self) -> bool {
        &&& self.public@ == ed25519_public(self.secret.bytes@)
        &&& ed25519_point(self.public@)
    }

    /// The secret key's bytes.
    pub closed spec fn secret_bytes(&self) -> Seq<u8> {
        self.secret.bytes@
    }

    /// The public key's bytes, derived from the secret.
    pub open spec fn public_bytes(&self) -> Seq<u8> {
        ed25519_public(self.secret_bytes())
    }

    /// The key pair of a secret key.
    pub fn from_secret(secret: PrivateKey) -> (r: KeyPair)
        ensures
            r.secret_bytes() == secret.bytes@,
    {
        let public = derive_public(&secret.bytes).unwrap();
        KeyPair { secret, public }
    }

    /// A new key pair from the operating system's random source.
    pub fn generate() -> KeyPair {
        KeyPair::from_secret(PrivateKey { bytes: random_secret() })
    }

    /// The secret key.
    pub fn secret(&self) -> (r: &PrivateKey)
        ensures
            r.bytes@ == self.secret_bytes(),
    {
        &self.secret
    }

    /// The public key.
    pub fn public(&self) -> (r: [u8; 32])
        ensures
            r@ == self.public_bytes(),
            ed25519_point(r@),
    {
        proof {
            use_type_invariant(self);
        }
        self.public
    }

    /// The signature of `message` under this key pair; it checks out under
    /// the pair's public key, which is a valid key.
    pub fn sign(&self, message: &[u8]) -> (r: Vec<u8>)
        ensures
            r@ == ed25519_signature(self.secret_bytes(), message@),
            signature_shape(r@),
            ed25519_verifies(self.public_bytes(), message@, r@),
            self.public_bytes().len() == 32,
            ed25519_point(self.public_bytes()),
    {
        proof {
            use_type_invariant(self);
        }
        sign_with(&self.secret.bytes, message).unwrap()
    }

    /// The public key as base64 text.
    pub fn public_text(&self) -> (r: String)
        ensures
            r@ == base64_text(self.public_bytes()),
            base64_bytes(encode_utf8(r@)) == Some(self.public_bytes()),
    {
        let p = self.public();
        base64_encode(p.as_slice())
    }
}

} // verus!
