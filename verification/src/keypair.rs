//! A user's keys: a key pair for key agreement, and the symmetric key that
//! the user's profile is encrypted under.

use crate::crypto::{random_bytes, x25519, x25519_bytes};
use vstd::prelude::*;

verus! {

/// The keys of one user.
pub struct UserKeyPair {
    /// The secret half of the key-agreement pair. It serves one agreement.
    pub secret_key: [u8; 32],
    /// The public half of the key-agreement pair.
    pub public_key: [u8; 32],
    /// The profile key: 32 random bytes, independent of the pair.
    pub symmetric_key: [u8; 32],
}

impl UserKeyPair {
    /// Fresh keys: a random key-agreement pair and a random profile key.
    /// The public key is what the secret key makes of the base point.
    pub fn new() -> (r: Self)
        ensures
            r.public_key@ == public_key_of(r.secret_key@),
    {
        let secret_key: [u8; 32] = random_bytes::<32>();
        let base: [u8; 32] = base_point();
        let public_key = x25519_bytes(&secret_key, &base);
        let symmetric_key: [u8; 32] = random_bytes::<32>();
        UserKeyPair { secret_key, public_key, symmetric_key }
    }

    /// The 32-byte secret that this user shares with the owner of
    /// `other_public`: what this user's secret key makes of `other_public`.
    /// It uses the pair up.
    pub fn derive_shared_secret(self, other_public: &[u8; 32]) -> (r: [u8; 32])
        ensures
            r@ == shared_secret_of(self.secret_key@, other_public@),
    {
        x25519_bytes(&self.secret_key, other_public)
    }
}

/// The base point of X25519: nine, followed by zeros.
pub open spec fn base_point_bytes() -> Seq<u8> {
    Seq::new(
        32,
        |i: int|
            if i == 0 {
                9u8
            } else {
                0u8
            },
    )
}

/// The public key that belongs to the secret key `secret`.
pub open spec fn public_key_of(secret: Seq<u8>) -> Seq<u8> {
    x25519(secret, base_point_bytes())
}

/// The secret that the holder of `secret` shares with the owner of the
/// public key `other_public`.
pub open spec fn shared_secret_of(secret: Seq<u8>, other_public: Seq<u8>) -> Seq<u8> {
    x25519(secret, other_public)
}

/// The base point of X25519.
pub fn base_point() -> (r: [u8; 32])
    ensures
        r@ == base_point_bytes(),
{
    let mut point: [u8; 32] = [0u8; 32];
    point[0] = 9;
    assert(point@ =~= base_point_bytes());
    point
}

} // verus!
