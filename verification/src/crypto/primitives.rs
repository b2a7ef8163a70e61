//! Thin, trusted bindings to the hash, MAC, KDF, AEAD, curve and randomness
//! crates.  Every binding below makes exactly one outside call (plus the type
//! conversions that the call needs); everything around them is verified code.

use vstd::prelude::*;
use aes_gcm::aead::AeadInPlace;
use aes_gcm::aead::NewAead;
use hmac::Mac;
use rand::Rng;
use rand::RngCore;
use sha2::Digest;
use crate::crypto::kyber_x25519::basepoint;

verus! {

// ---------------------------------------------------------------------------
// Names for deterministic outside results
// ---------------------------------------------------------------------------

/// SHA-256 digest of `data`, as computed by `sha2::Sha256`.
pub uninterp spec fn sha256_output(data: Seq<u8>) -> Seq<u8>;

/// HMAC-SHA256 tag of `data` under `key`, as computed by `hmac::Hmac<Sha256>`.
pub uninterp spec fn hmac_sha256_output(key: Seq<u8>, data: Seq<u8>) -> Seq<u8>;

/// The first `len` bytes of HKDF-SHA256 output (`hkdf::Hkdf<Sha256>`):
/// extract with `salt` (absent salt as the crate treats it) and `ikm`,
/// then expand with `info`.
pub uninterp spec fn hkdf_sha256_output(
    salt: Option<Seq<u8>>,
    ikm: Seq<u8>,
    info: Seq<u8>,
    len: nat,
) -> Seq<u8>;

/// AES-256-GCM sealing of `plaintext` (`aes_gcm::Aes256Gcm`): the ciphertext
/// followed by the 16-byte authentication tag.
pub uninterp spec fn aes256gcm_seal_output(
    key: Seq<u8>,
    nonce: Seq<u8>,
    aad: Seq<u8>,
    plaintext: Seq<u8>,
) -> Seq<u8>;

/// AES-256-GCM opening (`aes_gcm::Aes256Gcm`) of a ciphertext body with a
/// detached 16-byte tag: the plaintext, or `None` when authentication fails.
pub uninterp spec fn aes256gcm_open_output(
    key: Seq<u8>,
    nonce: Seq<u8>,
    aad: Seq<u8>,
    body: Seq<u8>,
    tag: Seq<u8>,
) -> Option<Seq<u8>>;

/// `curve25519_dalek`: the scalar `Scalar::from_bytes_mod_order(scalar)` times
/// the Montgomery point with u-coordinate `point`, encoded as 32 bytes.
pub uninterp spec fn montgomery_mul_output(scalar: Seq<u8>, point: Seq<u8>) -> Seq<u8>;

/// `curve25519_dalek`: for a 32-byte `seed`, the reduced scalar
/// `Scalar::from_bytes_mod_order(seed)` (as bytes) and the compressed Edwards
/// point `scalar * B`.
pub uninterp spec fn ed25519_from_seed_output(seed: Seq<u8>) -> (Seq<u8>, Seq<u8>);

/// Largest plaintext (and associated data) length that `aes-gcm` 0.9 accepts.
pub open spec fn aead_max_len() -> nat {
    0x10_0000_0000
}

// ---------------------------------------------------------------------------
// Hash and MAC
// ---------------------------------------------------------------------------

/// `sha2::Sha256::digest`.  Claimed: the result is the named digest of the
/// input (a SHA-256 digest is 32 bytes, which the array type states).
#[verifier::external_body]
pub(crate) fn sha256(data: &[u8]) -> (digest: [u8; 32])
    ensures
        digest@ == sha256_output(data@),
{
    sha2::Sha256::digest(data).into()
}

/// `hmac::Hmac::<Sha256>` keyed with `key` over `data` (new_from_slice, update,
/// finalize).  `new_from_slice` accepts every key length for HMAC, so the
/// `expect` never fires.  Claimed: the tag is the named HMAC output.
#[verifier::external_body]
pub(crate) fn hmac_sha256(key: &[u8; 32], data: &[u8]) -> (tag: [u8; 32])
    ensures
        tag@ == hmac_sha256_output(key@, data@),
{
    let mut mac = <hmac::Hmac<sha2::Sha256> as Mac>::new_from_slice(key).expect(
        "HMAC accepts any key size",
    );
    mac.update(data);
    mac.finalize().into_bytes().into()
}

pub open spec fn opt_slice_view(o: Option<&[u8]>) -> Option<Seq<u8>> {
    match o {
        Some(s) => Some(s@),
        None => None,
    }
}

/// `hkdf::Hkdf::<Sha256>::new(salt, ikm)` followed by `expand(info, okm)` into a
/// buffer of `len` zero bytes.  `expand` fails only for `len > 255 * 32`, which
/// `requires` rules out.  Claimed: the buffer holds the named HKDF output, of
/// length `len`.
#[verifier::external_body]
pub(crate) fn hkdf_sha256(salt: Option<&[u8]>, ikm: &[u8], info: &[u8], len: usize) -> (okm: Vec<u8>)
    requires
        len <= 8160,
    ensures
        okm@ == hkdf_sha256_output(opt_slice_view(salt), ikm@, info@, len as nat),
        okm@.len() == len,
{
    let hk = hkdf::Hkdf::<sha2::Sha256>::new(salt, ikm);
    let mut okm = vec![0u8; len];
    let _ = hk.expand(info, &mut okm);
    okm
}

// ---------------------------------------------------------------------------
// AEAD
// ---------------------------------------------------------------------------

/// `aes_gcm::Aes256Gcm::encrypt_in_place_detached` on a copy of `plaintext`.
/// The crate refuses only inputs longer than 2^36 bytes, which `requires` rules
/// out.  Claimed: ciphertext followed by tag is the named sealing output, and
/// GCM ciphertext is as long as the plaintext.
#[verifier::external_body]
pub(crate) fn aes256gcm_seal(key: &[u8; 32], nonce: &[u8; 12], aad: &[u8], plaintext: &[u8]) -> (r: (
    Vec<u8>,
    [u8; 16],
))
    requires
        plaintext@.len() <= aead_max_len(),
        aad@.len() <= aead_max_len(),
    ensures
        r.0@ + r.1@ == aes256gcm_seal_output(key@, nonce@, aad@, plaintext@),
        r.0@.len() == plaintext@.len(),
{
    let cipher = aes_gcm::Aes256Gcm::new(aes_gcm::Key::from_slice(key));
    let mut buffer = plaintext.to_vec();
    let tag = cipher.encrypt_in_place_detached(aes_gcm::Nonce::from_slice(nonce), aad, &mut buffer)
        .expect("input lengths are within the AES-GCM limits");
    (buffer, tag.into())
}

/// `aes_gcm::Aes256Gcm::decrypt_in_place_detached` on a copy of `body` with the
/// detached `tag`; an error becomes `None`.  Claimed: the result is the named
/// opening output, and (AEAD correctness, as the crate documents it) opening
/// what sealing produced under the same key, nonce and associated data gives
/// back the plaintext.  Nothing is claimed about inputs that sealing did not
/// produce beyond the name.
#[verifier::external_body]
pub(crate) fn aes256gcm_open(
    key: &[u8; 32],
    nonce: &[u8; 12],
    aad: &[u8],
    body: &[u8],
    tag: &[u8; 16],
) -> (opened: Option<Vec<u8>>)
    ensures
        opened_view(opened) == aes256gcm_open_output(key@, nonce@, aad@, body@, tag@),
        forall|pt: Seq<u8>|
            pt.len() <= aead_max_len() && aad@.len() <= aead_max_len()
                && #[trigger] aes256gcm_seal_output(key@, nonce@, aad@, pt) == body@ + tag@
                ==> opened_view(opened) == Some(pt),
{
    let cipher = aes_gcm::Aes256Gcm::new(aes_gcm::Key::from_slice(key));
    let mut buffer = body.to_vec();
    match cipher.decrypt_in_place_detached(
        aes_gcm::Nonce::from_slice(nonce),
        aad,
        &mut buffer,
        aes_gcm::Tag::from_slice(tag),
    ) {
        Ok(()) => Some(buffer),
        Err(_) => None,
    }
}

pub open spec fn opened_view(o: Option<Vec<u8>>) -> Option<Seq<u8>> {
    match o {
        Some(v) => Some(v@),
        None => None,
    }
}

// ---------------------------------------------------------------------------
// Curve arithmetic
// ---------------------------------------------------------------------------

/// `curve25519_dalek`: `Scalar::from_bytes_mod_order(scalar) *
/// MontgomeryPoint(point)`, then `to_bytes`.  Claimed: the named product,
/// and, when the point is another scalar times the base point (u = 9, a
/// point of prime order, so reducing either scalar mod the group order
/// changes nothing), that the product is the same as that other scalar
/// times our scalar times the base point: scalar multiplication commutes,
/// which is what makes Diffie-Hellman agree.
#[verifier::external_body]
pub(crate) fn montgomery_mul(scalar: &[u8; 32], point: &[u8; 32]) -> (r: [u8; 32])
    ensures
        r@ == montgomery_mul_output(scalar@, point@),
        forall|other: Seq<u8>|
            other.len() == 32 && #[trigger] montgomery_mul_output(other, basepoint()) == point@
                ==> r@ == montgomery_mul_output(other, montgomery_mul_output(scalar@, basepoint())),
{
    let s = curve25519_dalek::scalar::Scalar::from_bytes_mod_order(*scalar);
    (s * curve25519_dalek::montgomery::MontgomeryPoint(*point)).to_bytes()
}

/// `curve25519_dalek`: `Scalar::from_bytes_mod_order(seed)` and
/// `EdwardsPoint::mul_base(&scalar).compress()`.  Claimed: the named pair
/// (scalar bytes, compressed public point).
#[verifier::external_body]
pub(crate) fn ed25519_from_seed(seed: &[u8; 32]) -> (r: ([u8; 32], [u8; 32]))
    ensures
        (r.0@, r.1@) == ed25519_from_seed_output(seed@),
{
    let scalar = curve25519_dalek::scalar::Scalar::from_bytes_mod_order(*seed);
    let point = curve25519_dalek::edwards::EdwardsPoint::mul_base(&scalar);
    (scalar.to_bytes(), point.compress().to_bytes())
}

// ---------------------------------------------------------------------------
// Randomness (results depend on chance: only their shape is claimed)
// ---------------------------------------------------------------------------

/// `rand::thread_rng().fill_bytes` on a buffer of `len` bytes.  Claimed: the
/// length only.
#[verifier::external_body]
pub(crate) fn random_bytes(len: usize) -> (bytes: Vec<u8>)
    ensures
        bytes@.len() == len,
{
    let mut bytes = vec![0u8; len];
    rand::thread_rng().fill_bytes(&mut bytes);
    bytes
}

/// `rand::thread_rng().gen_range(lo..=hi)` on `usize`; it panics on an empty
/// range, which `requires` rules out.  Claimed: the value lies in the range.
#[verifier::external_body]
pub(crate) fn random_usize_inclusive(lo: usize, hi: usize) -> (r: usize)
    requires
        lo <= hi,
    ensures
        lo <= r <= hi,
{
    rand::thread_rng().gen_range(lo..=hi)
}

/// `rand::thread_rng().gen_range(lo..=hi)` on `i32`; it panics on an empty
/// range, which `requires` rules out.  Claimed: the value lies in the range.
#[verifier::external_body]
pub(crate) fn random_i32_inclusive(lo: i32, hi: i32) -> (r: i32)
    requires
        lo <= hi,
    ensures
        lo <= r <= hi,
{
    rand::thread_rng().gen_range(lo..=hi)
}

} // verus!
