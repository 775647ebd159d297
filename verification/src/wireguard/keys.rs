use vstd::prelude::*;
use rand::rngs::OsRng;
use x25519_dalek::{PublicKey, StaticSecret};

use crate::wireguard::encoding::{
    base64_encode, base64_standard, is_key_text, lemma_base64_injective, lemma_key_text,
};
use crate::wireguard::types::WireGuardKeyPair;

verus! {

/// The X25519 public key (the clamped secret times the base point) of a
/// 32-byte secret, as computed by `x25519_dalek`.
pub uninterp spec fn x25519_public_key(secret: Seq<u8>) -> Seq<u8>;

/// Calls `StaticSecret::random_from_rng` with the operating system's random
/// source and takes the secret's bytes. The bytes are random: nothing is
/// stated of them.
#[verifier::external_body]
fn random_secret_bytes() -> (secret: [u8; 32])
{
    StaticSecret::random_from_rng(OsRng).to_bytes()
}

/// Calls `PublicKey::from(&StaticSecret)` on the secret built from `secret`
/// and takes the public key's bytes. The result is named by
/// `x25519_public_key`, a function of the secret alone.
#[verifier::external_body]
fn x25519_public_from_secret(secret: [u8; 32]) -> (public: [u8; 32])
    ensures
        public@ == x25519_public_key(secret@),
{
    PublicKey::from(&StaticSecret::from(secret)).to_bytes()
}

/// The key pair that the secret `secret` determines: both halves Base64-encoded.
pub open spec fn keypair_of(secret: Seq<u8>) -> (Seq<char>, Seq<char>) {
    (base64_standard(secret), base64_standard(x25519_public_key(secret)))
}

/// The WireGuard key pair of the given 32-byte X25519 secret.
pub fn keypair_from_secret(secret: [u8; 32]) -> (pair: WireGuardKeyPair)
    ensures
        pair.private_key@ == keypair_of(secret@).0,
        pair.public_key@ == keypair_of(secret@).1,
        pair.private_key@ == base64_standard(secret@),
        pair.public_key@ == base64_standard(x25519_public_key(secret@)),
        x25519_public_key(secret@).len() == 32,
        is_key_text(pair.private_key@),
        is_key_text(pair.public_key@),
{
    let public = x25519_public_from_secret(secret);
    proof {
        lemma_key_text(secret@);
        lemma_key_text(public@);
    }
    WireGuardKeyPair {
        private_key: base64_encode(secret.as_slice()),
        public_key: base64_encode(public.as_slice()),
    }
}

/// Generates a fresh WireGuard-compatible X25519 key pair from the operating
/// system's random source.
pub fn generate_keypair() -> (pair: WireGuardKeyPair)
    ensures
        exists|secret: Seq<u8>|
            secret.len() == 32 && x25519_public_key(secret).len() == 32 && pair.private_key@
                == #[trigger] keypair_of(secret).0 && pair.public_key@ == keypair_of(secret).1,
        exists|secret: Seq<u8>|
            secret.len() == 32 && pair.private_key@ == #[trigger] base64_standard(secret)
                && pair.public_key@ == base64_standard(x25519_public_key(secret)),
        is_key_text(pair.private_key@),
        is_key_text(pair.public_key@),
{
    let secret = random_secret_bytes();
    let pair = keypair_from_secret(secret);
    assert(secret@.len() == 32);
    assert(pair.private_key@ == base64_standard(secret@));
    pair
}

/// The two halves of a key pair belong together: whatever 32 bytes a
/// private key text encodes, the public key text is the Base64 of the X25519
/// public key of exactly those bytes.
pub proof fn lemma_public_half_of_private_half(secret: Seq<u8>, encoded: Seq<u8>)
    requires
        keypair_of(secret).0 == base64_standard(encoded),
    ensures
        encoded == secret,
        keypair_of(secret).1 == base64_standard(x25519_public_key(encoded)),
{
    lemma_base64_injective(secret, encoded);
}

} // verus!
