//! The cryptographic primitives that the ledger and the profiles rest on.
//!
//! Hashing, authenticated encryption, randomness and key agreement are done
//! by outside crates. Each call stands in one small function whose contract
//! is taken on trust; everything built on top of them is proved.

use aes_gcm::aead::Aead;
use aes_gcm::{Aes256Gcm, KeyInit, Nonce};
use rand::rngs::OsRng;
use rand::seq::SliceRandom;
use rand::RngCore;
use sha3::{Digest, Sha3_256};
use vstd::prelude::*;

verus! {

/// Length of a symmetric key in bytes.
pub const KEY_LEN: usize = 32;

/// Length of the nonce that precedes every ciphertext.
pub const NONCE_LEN: usize = 12;

/// Length of the authentication tag that ends every ciphertext.
pub const TAG_LEN: usize = 16;

/// The longest plaintext that the cipher accepts, in bytes.
pub const MAX_PLAINTEXT_LEN: u64 = 0x10_0000_0000;

/// The SHA3-256 digest of `data`.
pub uninterp spec fn sha3_256(data: Seq<u8>) -> Seq<u8>;

/// The AES-256-GCM ciphertext, tag included, of `plaintext` under `key`
/// and `nonce`, with no associated data.
pub uninterp spec fn aes_gcm_seal(key: Seq<u8>, nonce: Seq<u8>, plaintext: Seq<u8>) -> Seq<u8>;

/// The X25519 function: what the scalar `k` makes of the point `u`.
pub uninterp spec fn x25519(k: Seq<u8>, u: Seq<u8>) -> Seq<u8>;

/// The plaintext that AES-256-GCM recovers from `ciphertext` under `key`
/// and `nonce`, or `None` where it rejects the ciphertext.
pub uninterp spec fn aes_gcm_open(key: Seq<u8>, nonce: Seq<u8>, ciphertext: Seq<u8>) -> Option<
    Seq<u8>,
>;

/// `aes_gcm::Error`: the cipher's error, which says nothing of its cause.
#[verifier::external_type_specification]
#[verifier::external_body]
pub struct ExAeadError(aes_gcm::Error);

/// `sha3::Sha3_256::digest`: the result is the SHA3-256 digest of `data`,
/// a function of `data` alone.
#[verifier::external_body]
pub(crate) fn sha3_256_digest(data: &[u8]) -> (r: [u8; 32])
    ensures
        r@ == sha3_256(data@),
{
    Sha3_256::digest(data).into()
}

/// The lower-case hexadecimal digit for `n`, where `n < 16`.
pub open spec fn hex_digit(n: u8) -> char {
    if n < 10 {
        ((48 + n) as u8) as char
    } else {
        ((87 + n) as u8) as char
    }
}

/// The lower-case hexadecimal text of `data`: two digits per byte, the high
/// half first.
pub open spec fn hex_string(data: Seq<u8>) -> Seq<char> {
    Seq::new(
        2 * data.len(),
        |i: int|
            hex_digit(
                if i % 2 == 0 {
                    data[i / 2] / 16
                } else {
                    data[i / 2] % 16
                },
            ),
    )
}

/// `hex::encode`: two lower-case hexadecimal digits for each byte of
/// `data`, in order, the high half of a byte first.
#[verifier::external_body]
pub(crate) fn hex_encode(data: &[u8]) -> (r: String)
    ensures
        r@ == hex_string(data@),
{
    hex::encode(data)
}

/// `Aes256Gcm::encrypt` with no associated data. It fails exactly when the
/// plaintext is longer than the cipher's limit. Otherwise the result is a
/// function of key, nonce and plaintext, it is one tag longer than the
/// plaintext, and decryption under the same key and nonce gives the
/// plaintext back.
#[verifier::external_body]
pub(crate) fn aead_encrypt(key: &[u8; 32], nonce: &[u8; 12], plaintext: &[u8]) -> (r: Result<
    Vec<u8>,
    aes_gcm::Error,
>)
    ensures
        r is Ok <==> plaintext@.len() <= MAX_PLAINTEXT_LEN,
        r matches Ok(c) ==> c@ == aes_gcm_seal(key@, nonce@, plaintext@),
        r matches Ok(c) ==> c@.len() == plaintext@.len() + TAG_LEN,
        r matches Ok(c) ==> aes_gcm_open(key@, nonce@, c@) == Some(plaintext@),
{
    Aes256Gcm::new(key.into()).encrypt(Nonce::from_slice(nonce), plaintext)
}

/// `Aes256Gcm::decrypt` with no associated data. Whether it succeeds, and
/// with which plaintext, is a function of key, nonce and ciphertext. A
/// ciphertext shorter than a tag is always rejected.
#[verifier::external_body]
pub(crate) fn aead_decrypt(key: &[u8; 32], nonce: &[u8; 12], ciphertext: &[u8]) -> (r: Result<
    Vec<u8>,
    aes_gcm::Error,
>)
    ensures
        r matches Ok(p) ==> aes_gcm_open(key@, nonce@, ciphertext@) == Some(p@),
        r is Err ==> aes_gcm_open(key@, nonce@, ciphertext@) is None,
        ciphertext@.len() < TAG_LEN ==> r is Err,
{
    Aes256Gcm::new(key.into()).decrypt(Nonce::from_slice(nonce), ciphertext)
}

/// `OsRng.fill_bytes`: `N` bytes from the operating system's generator.
/// Nothing is known of them.
#[verifier::external_body]
pub(crate) fn random_bytes<const N: usize>() -> [u8; N] {
    let mut bytes = [0u8; N];
    OsRng.fill_bytes(&mut bytes);
    bytes
}

/// `SliceRandom::choose` with the thread's generator: `None` for an empty
/// slice, otherwise one of its elements.
#[verifier::external_body]
pub(crate) fn choose_one<T>(items: &[T]) -> (r: Option<&T>)
    ensures
        r is None <==> items@.len() == 0,
        r matches Some(x) ==> items@.contains(*x),
{
    items.choose(&mut rand::thread_rng())
}

/// `x25519_dalek::x25519`, the X25519 function on bytes: the scalar `k`
/// applied to the point `u`. The result is a function of `k` and `u` alone.
#[verifier::external_body]
pub(crate) fn x25519_bytes(k: &[u8; 32], u: &[u8; 32]) -> (r: [u8; 32])
    ensures
        r@ == x25519(k@, u@),
{
    x25519_dalek::x25519(*k, *u)
}

/// A nonce followed by the ciphertext made with it.
pub open spec fn sealed_with(key: Seq<u8>, nonce: Seq<u8>, plaintext: Seq<u8>) -> Seq<u8> {
    nonce + aes_gcm_seal(key, nonce, plaintext)
}

/// The plaintext inside `sealed` for the holder of `key`: `None` where
/// `sealed` is too short to hold a nonce, or where the cipher rejects what
/// follows the nonce.
pub open spec fn unsealed(key: Seq<u8>, sealed: Seq<u8>) -> Option<Seq<u8>> {
    if sealed.len() < NONCE_LEN {
        None
    } else {
        aes_gcm_open(
            key,
            sealed.subrange(0, NONCE_LEN as int),
            sealed.subrange(NONCE_LEN as int, sealed.len() as int),
        )
    }
}

/// Encrypts `plaintext` under `key` and the given nonce, and puts the nonce
/// in front.
pub fn seal_with_nonce(key: &[u8; 32], nonce: &[u8; 12], plaintext: &[u8]) -> (r: Vec<u8>)
    requires
        plaintext@.len() <= MAX_PLAINTEXT_LEN,
    ensures
        r@ == sealed_with(key@, nonce@, plaintext@),
        r@.len() == NONCE_LEN + plaintext@.len() + TAG_LEN,
        unsealed(key@, r@) == Some(plaintext@),
{
    let mut out: Vec<u8> = Vec::new();
    crate::codec::put_raw(&mut out, nonce.as_slice());
    match aead_encrypt(key, nonce, plaintext) {
        Ok(ciphertext) => {
            crate::codec::put_raw(&mut out, ciphertext.as_slice());
            proof {
                assert(out@.subrange(0, NONCE_LEN as int) =~= nonce@);
                assert(out@.subrange(NONCE_LEN as int, out@.len() as int) =~= ciphertext@);
            }
        },
        Err(_) => {},
    }
    out
}

/// Encrypts `plaintext` under `key` with a fresh random nonce, and puts the
/// nonce in front.
pub fn seal(key: &[u8; 32], plaintext: &[u8]) -> (r: Vec<u8>)
    requires
        plaintext@.len() <= MAX_PLAINTEXT_LEN,
    ensures
        exists|nonce: Seq<u8>|
            nonce.len() == NONCE_LEN && r@ == #[trigger] sealed_with(key@, nonce, plaintext@),
        r@.len() == NONCE_LEN + plaintext@.len() + TAG_LEN,
        unsealed(key@, r@) == Some(plaintext@),
{
    let nonce: [u8; 12] = random_bytes::<12>();
    seal_with_nonce(key, &nonce, plaintext)
}

/// Decrypts what `seal` made.
pub fn open_sealed(key: &[u8; 32], sealed: &[u8]) -> (r: Option<Vec<u8>>)
    ensures
        match r {
            Some(p) => unsealed(key@, sealed@) == Some(p@),
            None => unsealed(key@, sealed@) is None,
        },
{
    if sealed.len() < NONCE_LEN {
        return None;
    }
    let mut nonce: [u8; 12] = [0u8; 12];
    let mut i: usize = 0;
    while i < NONCE_LEN
        invariant
            i <= NONCE_LEN <= sealed.len(),
            forall|j: int| 0 <= j < i ==> nonce@[j] == sealed@[j],
        decreases NONCE_LEN - i,
    {
        nonce[i] = sealed[i];
        i += 1;
    }
    let body = vstd::slice::slice_subrange(sealed, NONCE_LEN, sealed.len());
    proof {
        assert(nonce@ =~= sealed@.subrange(0, NONCE_LEN as int));
    }
    match aead_decrypt(key, &nonce, body) {
        Ok(plaintext) => Some(plaintext),
        Err(_) => None,
    }
}

/// Whether `hash` begins with `digits` zero digits.
pub open spec fn has_zero_prefix(hash: Seq<char>, digits: nat) -> bool {
    digits <= hash.len() && forall|i: int| 0 <= i < digits ==> hash[i] == '0'
}

/// Whether the hexadecimal text of `digest` begins with `digits` zeros.
pub fn digest_has_zero_prefix(digest: &[u8; 32], digits: usize) -> (r: bool)
    ensures
        r == has_zero_prefix(hex_string(digest@), digits as nat),
{
    if digits > 64 {
        return false;
    }
    let mut i: usize = 0;
    while i < digits
        invariant
            i <= digits <= 64,
            forall|j: int| 0 <= j < i ==> hex_string(digest@)[j] == '0',
        decreases digits - i,
    {
        let byte: u8 = digest[i / 2];
        let half: u8 = if i % 2 == 0 {
            byte / 16
        } else {
            byte % 16
        };
        assert(hex_string(digest@)[i as int] == hex_digit(half));
        if half != 0 {
            return false;
        }
        i += 1;
    }
    true
}

} // verus!
