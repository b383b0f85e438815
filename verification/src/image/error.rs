//! Fail-closed error of the signed firmware-image verifier.

use vstd::prelude::*;

verus! {

/// Why an image failed verification.
///
/// The checks run in a fixed order (see [`crate::image::verify::image_check`]),
/// so the first anomaly wins. A variant says what was wrong without leaking a
/// field of the image that is not authenticated yet.
#[derive(Debug, Clone, Copy, PartialEq, Eq, Structural)]
pub enum VerifyError {
    /// The segments hold fewer bytes than a header plus a signature.
    TooShort,
    /// The leading magic tag is not the image tag.
    BadMagic,
    /// The header schema version is not the one this parser understands.
    UnsupportedFormatVersion,
    /// The algorithm byte is not ECDSA P-256 over SHA-256.
    UnsupportedAlgorithm,
    /// The total length is not header plus declared payload plus signature.
    LengthMismatch,
    /// A reserved header byte is not zero.
    ReservedNotZero,
    /// The root key is not an uncompressed SEC1 point on the P-256 curve.
    BadRootKey,
    /// The signature's `s` scalar sits in the upper half of the curve order.
    NonCanonicalSignature,
    /// The signature is no pair of scalars in range, or does not verify.
    BadSignature,
}

} // verus!
