//! The cryptography behind an image signature: SHA-256 and ECDSA over P-256.

use p256::ecdsa::signature::hazmat::PrehashVerifier;
use p256::ecdsa::Signature;
use p256::ecdsa::VerifyingKey;
use p256::elliptic_curve::scalar::IsHigh;
use sha2::Digest;
use sha2::Sha256;
use vstd::prelude::*;

verus! {

/// The order of the P-256 group.
pub open spec fn p256_order() -> int {
    0xffffffff00000000ffffffffffffffffbce6faada7179e84f3b9cac2fc632551int
}

/// The field prime of the P-256 curve.
pub open spec fn p256_prime() -> int {
    0xffffffff00000001000000000000000000000000ffffffffffffffffffffffffint
}

/// The constant term of the P-256 curve equation.
pub open spec fn p256_b() -> int {
    0x5ac635d8aa3a93e7b3ebbd55769886bc651d06b0cc53b0f63bce3c3e27d2604bint
}

/// The big-endian number that `bytes` spells.
pub open spec fn be_number(bytes: Seq<u8>) -> int
    decreases bytes.len(),
{
    if bytes.len() == 0 {
        0
    } else {
        be_number(bytes.drop_last()) * 0x100 + bytes.last()
    }
}

/// `bytes` is the uncompressed SEC1 encoding `0x04 || X || Y` of a point on the
/// P-256 curve `y^2 = x^3 - 3x + b`.
pub open spec fn is_uncompressed_point(bytes: Seq<u8>) -> bool {
    let x = be_number(bytes.subrange(1, 33));
    let y = be_number(bytes.subrange(33, 65));
    &&& bytes.len() == 65
    &&& bytes[0] == 4
    &&& x < p256_prime()
    &&& y < p256_prime()
    &&& (y * y - (x * x * x - 3 * x + p256_b())) % p256_prime() == 0
}

/// The `r` scalar of an `r || s` signature.
pub open spec fn sig_r(sig: Seq<u8>) -> int {
    be_number(sig.subrange(0, 32))
}

/// The `s` scalar of an `r || s` signature.
pub open spec fn sig_s(sig: Seq<u8>) -> int {
    be_number(sig.subrange(32, 64))
}

/// `sig` is a pair of 32-byte scalars, each in `[1, order - 1]`.
pub open spec fn is_scalar_pair(sig: Seq<u8>) -> bool {
    &&& sig.len() == 64
    &&& 0 < sig_r(sig) < p256_order()
    &&& 0 < sig_s(sig) < p256_order()
}

/// The `s` scalar lies in the upper half of the group order.
pub open spec fn has_high_s(sig: Seq<u8>) -> bool {
    sig_s(sig) > p256_order() / 2
}

/// The SHA-256 digest of a byte string, as `sha2` computes it.
pub uninterp spec fn sha256(bytes: Seq<u8>) -> Seq<u8>;

/// Whether ECDSA over P-256 accepts the signature `sig` on the 32-byte prehash
/// `digest` under the SEC1 public key `key`, as `p256` decides it.
pub uninterp spec fn ecdsa_accepts(key: Seq<u8>, digest: Seq<u8>, sig: Seq<u8>) -> bool;

/// The bytes a hasher has taken in so far.
pub uninterp spec fn hashed_bytes(hasher: Sha256) -> Seq<u8>;

/// A message this long no longer has a SHA-256 digest: its length in bits does
/// not fit the 64-bit length field.
pub const MAX_HASHED_LEN: u64 = 0x2000_0000_0000_0000;

/// The streaming SHA-256 state `sha2::Sha256`.
#[verifier::external_type_specification]
#[verifier::external_body]
pub struct ExSha256(Sha256);

/// `sha2::Sha256::new`: a hasher that has taken in nothing.
#[verifier::external_body]
pub(crate) fn hasher_new() -> (hasher: Sha256)
    ensures
        hashed_bytes(hasher) == Seq::<u8>::empty(),
{
    Sha256::new()
}

/// `sha2::Digest::update`: appends `piece` to what the hasher has taken in.
#[verifier::external_body]
pub(crate) fn hasher_update(hasher: &mut Sha256, piece: &[u8])
    requires
        hashed_bytes(*old(hasher)).len() + piece@.len() < MAX_HASHED_LEN,
    ensures
        hashed_bytes(*final(hasher)) == hashed_bytes(*old(hasher)) + piece@,
{
    hasher.update(piece);
}

/// `sha2::Digest::finalize`: the digest of what the hasher has taken in.
#[verifier::external_body]
pub(crate) fn hasher_finish(hasher: Sha256) -> (digest: [u8; 32])
    requires
        hashed_bytes(hasher).len() < MAX_HASHED_LEN,
    ensures
        digest@ == sha256(hashed_bytes(hasher)),
{
    hasher.finalize().into()
}

/// `p256::ecdsa::VerifyingKey::from_sec1_bytes` on 65 bytes: it accepts exactly
/// the uncompressed encodings of points on the curve.
#[verifier::external_body]
pub(crate) fn sec1_key_parses(bytes: &[u8; 65]) -> (parses: bool)
    ensures
        parses == is_uncompressed_point(bytes@),
{
    VerifyingKey::from_sec1_bytes(bytes).is_ok()
}

/// `p256::ecdsa::Signature::from_slice` on 64 bytes: it accepts exactly the pairs
/// of non-zero scalars below the group order.
#[verifier::external_body]
pub(crate) fn signature_parses(sig: &[u8; 64]) -> (parses: bool)
    ensures
        parses == is_scalar_pair(sig@),
{
    Signature::from_slice(sig).is_ok()
}

/// `p256`'s `IsHigh::is_high` on the `s` scalar of a well-formed signature:
/// whether it exceeds half of the group order.
#[verifier::external_body]
pub(crate) fn signature_s_is_high(sig: &[u8; 64]) -> (high: bool)
    requires
        is_scalar_pair(sig@),
    ensures
        high == has_high_s(sig@),
{
    match Signature::from_slice(sig) {
        Ok(signature) => bool::from(signature.s().is_high()),
        Err(_) => false,
    }
}

/// `p256`'s `PrehashVerifier::verify_prehash` on a 32-byte digest: whether the
/// signature verifies under the key. The verdict is a function of the three byte
/// strings alone, and is named, not restated.
#[verifier::external_body]
pub(crate) fn ecdsa_verify(key: &[u8; 65], digest: &[u8; 32], sig: &[u8; 64]) -> (accepted: bool)
    requires
        is_uncompressed_point(key@),
        is_scalar_pair(sig@),
    ensures
        accepted == ecdsa_accepts(key@, digest@, sig@),
{
    match (VerifyingKey::from_sec1_bytes(key), Signature::from_slice(sig)) {
        (Ok(verifier), Ok(signature)) => verifier.verify_prehash(digest, &signature).is_ok(),
        _ => false,
    }
}

} // verus!
