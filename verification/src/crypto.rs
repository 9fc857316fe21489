//! Hashing and signatures: BLAKE3 content addresses and strict ed25519.

use vstd::prelude::*;

use crate::ids::Id;

verus! {

/// The 32-byte BLAKE3 digest of `data`.
pub uninterp spec fn blake3_digest(data: Seq<u8>) -> Seq<u8>;

/// The ed25519 public key of a secret key.
pub uninterp spec fn ed25519_public(secret: Seq<u8>) -> Seq<u8>;

/// The ed25519 signature that a secret key makes on a message.
pub uninterp spec fn ed25519_signature(secret: Seq<u8>, message: Seq<u8>) -> Seq<u8>;

/// Whether strict ed25519 verification accepts a signature on a message under
/// a public key; bytes that are no public key accept nothing.
pub uninterp spec fn ed25519_accepts(key: Seq<u8>, message: Seq<u8>, signature: Seq<u8>) -> bool;

/// The encoding of the neutral element of the curve.
pub open spec fn neutral_point() -> Seq<u8> {
    Seq::new(32, |i: int| if i == 0 { 1u8 } else { 0u8 })
}

/// Calls `blake3::hash`: the digest of the whole input.
#[verifier::external_body]
pub(crate) fn content_hash(data: &[u8]) -> (r: Id)
    ensures
        r@ == blake3_digest(data@),
{
    *blake3::hash(data).as_bytes()
}

/// Calls `ed25519_dalek::SigningKey::verifying_key`: the public key that belongs
/// to a secret key.
#[verifier::external_body]
fn public_of(secret: &[u8; 32]) -> (r: Id)
    ensures
        r@ == ed25519_public(secret@),
{
    ed25519_dalek::SigningKey::from_bytes(secret).verifying_key().to_bytes()
}

/// Calls the signing method of `ed25519_dalek::SigningKey`, which is
/// deterministic. Strict verification under the key's own public key accepts
/// the signature unless the point in its first half is the neutral element,
/// which strict verification turns away as a point of small order.
#[verifier::external_body]
fn signature_of(secret: &[u8; 32], message: &[u8]) -> (r: [u8; 64])
    ensures
        r@ == ed25519_signature(secret@, message@),
        r@.take(32) != neutral_point() ==> ed25519_accepts(ed25519_public(secret@), message@, r@),
{
    ed25519_dalek::Signer::sign(&ed25519_dalek::SigningKey::from_bytes(secret), message).to_bytes()
}

/// Calls `ed25519_dalek::VerifyingKey::verify_strict` on the key that the 32
/// bytes decode to; where they decode to none, the answer is no.
#[verifier::external_body]
pub(crate) fn verify_strict(key: &Id, message: &[u8], signature: &[u8; 64]) -> (r: bool)
    ensures
        r == ed25519_accepts(key@, message@, signature@),
{
    match ed25519_dalek::VerifyingKey::from_bytes(key) {
        Ok(vk) => vk.verify_strict(message, &ed25519_dalek::Signature::from_bytes(signature)).is_ok(),
        Err(_) => false,
    }
}

/// A secret signing key: a member's device key, or the originator master key.
pub struct SigningKey {
    secret: [u8; 32],
}

impl View for SigningKey {
    type V = Seq<u8>;

    closed spec fn view(&self) -> Seq<u8> {
        self.secret@
    }
}

impl SigningKey {
    /// The key with the given secret bytes.
    pub fn from_bytes(secret: &[u8; 32]) -> (r: SigningKey)
        ensures
            r@ == secret@,
    {
        SigningKey { secret: *secret }
    }

    /// The public key, which is also the id of the holder.
    pub fn verifying_key(&self) -> (r: Id)
        ensures
            r@ == ed25519_public(self@),
    {
        public_of(&self.secret)
    }

    /// The signature of this key on `message`. It is accepted under the key's
    /// own public key, unless its first half encodes the neutral element.
    pub fn sign(&self, message: &[u8]) -> (r: [u8; 64])
        ensures
            r@ == ed25519_signature(self@, message@),
            r@.take(32) != neutral_point() ==> ed25519_accepts(ed25519_public(self@), message@, r@),
    {
        signature_of(&self.secret, message)
    }
}

// ---------------------------------------------------------------------------
// Laws
// ---------------------------------------------------------------------------

/// A key is its secret bytes: the public key and the signatures of a key made from
/// given bytes are those of the bytes, and a signature is good for that public key
/// and that message, unless the point in it is the neutral one.
pub proof fn law_keys_are_their_secret_bytes(
    secret: &[u8; 32],
    key: &SigningKey,
    id: Id,
    message: &[u8],
    signature: [u8; 64],
)
    requires
        call_ensures(SigningKey::from_bytes, (secret,), *key),
        call_ensures(SigningKey::verifying_key, (key,), id),
        call_ensures(SigningKey::sign, (key, message), signature),
    ensures
        id@ == ed25519_public(secret@),
        signature@ == ed25519_signature(secret@, message@),
        signature@.take(32) != neutral_point() ==> ed25519_accepts(id@, message@, signature@),
{
}

} // verus!
