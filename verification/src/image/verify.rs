//! Verifier of segmented signed images.
//!
//! The whole image is attacker-controlled until its signature verifies. The root
//! public key is the only trust input and is a caller argument. No field inside
//! the signed region is exposed before the signature check passes.

use vstd::prelude::*;

use crate::image::crypto::ecdsa_accepts;
use crate::image::crypto::ecdsa_verify;
use crate::image::crypto::has_high_s;
use crate::image::crypto::is_scalar_pair;
use crate::image::crypto::is_uncompressed_point;
use crate::image::crypto::p256_order;
use crate::image::crypto::sec1_key_parses;
use crate::image::crypto::sha256;
use crate::image::crypto::sig_r;
use crate::image::crypto::sig_s;
use crate::image::crypto::signature_parses;
use crate::image::crypto::signature_s_is_high;
use crate::image::error::VerifyError;
use crate::image::format::le16;
use crate::image::format::le32;
use crate::image::format::read_u16_le;
use crate::image::format::read_u32_le;
use crate::image::format::ImageVersion;
use crate::image::format::ALG_ECDSA_P256_SHA256;
use crate::image::format::FORMAT_VERSION;
use crate::image::format::HEADER_LEN;
use crate::image::format::MAGIC;
use crate::image::format::OFF_ALGORITHM;
use crate::image::format::OFF_FORMAT_VERSION;
use crate::image::format::OFF_MAGIC;
use crate::image::format::OFF_PAYLOAD_LEN;
use crate::image::format::OFF_RESERVED;
use crate::image::format::OFF_SECURITY_COUNTER;
use crate::image::format::OFF_VERSION_BUILD;
use crate::image::format::OFF_VERSION_MAJOR;
use crate::image::format::OFF_VERSION_MINOR;
use crate::image::format::OFF_VERSION_REVISION;
use crate::image::format::ROOT_KEY_LEN;
use crate::image::format::SIG_LEN;
use crate::image::segments::concat;
use crate::image::segments::copy_out;
use crate::image::segments::for_each_prefix_piece;
use crate::image::segments::join;
use crate::image::segments::pieces_from;
use crate::image::segments::total_len;
use crate::image::segments::Digester;
use crate::image::segments::PayloadSegments;
use crate::image::segments::PieceSink;

verus! {

/// A pinned ECDSA P-256 root public key.
///
/// Held as the 65-byte uncompressed SEC1 point. Only [`RootKey::from_bytes`]
/// builds one, and it rejects anything that is no point on the curve, so holding
/// a `RootKey` means the point is validated.
pub struct RootKey {
    bytes: [u8; ROOT_KEY_LEN],
}

impl View for RootKey {
    type V = Seq<u8>;

    closed spec fn view(&self) -> Seq<u8> {
        self.bytes@
    }
}

impl RootKey {
    #[verifier::type_invariant]
    spec fn on_curve(&self) -> bool {
        is_uncompressed_point(self.bytes@)
    }

    /// Builds a root key from its 65-byte uncompressed SEC1 encoding.
    ///
    /// Any other byte string is refused with [`VerifyError::BadRootKey`]: a wrong
    /// tag byte, a coordinate outside the field, a point off the curve.
    pub fn from_bytes(bytes: [u8; ROOT_KEY_LEN]) -> (r: Result<RootKey, VerifyError>)
        ensures
            match r {
                Ok(key) => is_uncompressed_point(bytes@) && key@ == bytes@,
                Err(e) => !is_uncompressed_point(bytes@) && e == VerifyError::BadRootKey,
            },
    {
        if sec1_key_parses(&bytes) {
            Ok(RootKey { bytes })
        } else {
            Err(VerifyError::BadRootKey)
        }
    }

    /// Every root key there is encodes a point on the curve.
    pub fn encoding(&self) -> (bytes: &[u8; ROOT_KEY_LEN])
        ensures
            bytes@ == self@,
            is_uncompressed_point(self@),
    {
        proof {
            use_type_invariant(self);
        }
        &self.bytes
    }
}

impl Clone for RootKey {
    fn clone(&self) -> (copy: RootKey)
        ensures
            copy@ == self@,
    {
        proof {
            use_type_invariant(self);
        }
        RootKey { bytes: self.bytes }
    }
}

/// The fields of an image header that a parsed image carries.
#[derive(Debug, Clone, Copy, PartialEq, Eq, Structural)]
pub struct HeaderFields {
    /// The firmware version.
    pub version: ImageVersion,
    /// The monotonic anti-rollback counter.
    pub security_counter: u32,
    /// The declared payload length in bytes.
    pub payload_len: u32,
}

/// The fields that the 24 header bytes spell.
pub open spec fn header_fields(header: Seq<u8>) -> HeaderFields {
    HeaderFields {
        version: ImageVersion {
            major: header[OFF_VERSION_MAJOR as int],
            minor: header[OFF_VERSION_MINOR as int],
            revision: le16(header, OFF_VERSION_REVISION as int) as u16,
            build: le32(header, OFF_VERSION_BUILD as int) as u32,
        },
        security_counter: le32(header, OFF_SECURITY_COUNTER as int) as u32,
        payload_len: le32(header, OFF_PAYLOAD_LEN as int) as u32,
    }
}

/// The verdict on a header inside an image of `total` bytes: the first anomaly in
/// the fixed order magic, schema, algorithm, reserved bytes, length.
pub open spec fn header_check(header: Seq<u8>, total: int) -> Result<HeaderFields, VerifyError> {
    if header.subrange(OFF_MAGIC as int, OFF_MAGIC + 4) != MAGIC@ {
        Err(VerifyError::BadMagic)
    } else if header[OFF_FORMAT_VERSION as int] != FORMAT_VERSION {
        Err(VerifyError::UnsupportedFormatVersion)
    } else if header[OFF_ALGORITHM as int] != ALG_ECDSA_P256_SHA256 {
        Err(VerifyError::UnsupportedAlgorithm)
    } else if header[OFF_RESERVED as int] != 0 || header[OFF_RESERVED + 1] != 0 {
        Err(VerifyError::ReservedNotZero)
    } else if total != HEADER_LEN + le32(header, OFF_PAYLOAD_LEN as int) + SIG_LEN {
        Err(VerifyError::LengthMismatch)
    } else {
        Ok(header_fields(header))
    }
}

/// The verdict on a signature: well-formed, canonical, accepted, in that order.
pub open spec fn signature_check(well_formed: bool, high_s: bool, accepted: bool) -> Result<
    (),
    VerifyError,
> {
    if !well_formed {
        Err(VerifyError::BadSignature)
    } else if high_s {
        Err(VerifyError::NonCanonicalSignature)
    } else if !accepted {
        Err(VerifyError::BadSignature)
    } else {
        Ok(())
    }
}

/// The signed region of an image: everything before the trailing signature.
pub open spec fn signed_part(image: Seq<u8>) -> Seq<u8> {
    image.take(image.len() - SIG_LEN)
}

/// The trailing signature of an image.
pub open spec fn signature_part(image: Seq<u8>) -> Seq<u8> {
    image.skip(image.len() - SIG_LEN)
}

/// The payload of an image: what lies between header and signature.
pub open spec fn payload_part(image: Seq<u8>) -> Seq<u8> {
    image.subrange(HEADER_LEN as int, image.len() - SIG_LEN)
}

/// The verdict on a whole image under the root key with encoding `key`.
///
/// Fails at the first anomaly, in this order: too short, header, signature.
pub open spec fn image_check(image: Seq<u8>, key: Seq<u8>) -> Result<HeaderFields, VerifyError> {
    if image.len() < HEADER_LEN + SIG_LEN {
        Err(VerifyError::TooShort)
    } else {
        match header_check(image.take(HEADER_LEN as int), image.len() as int) {
            Err(e) => Err(e),
            Ok(fields) => {
                let sig = signature_part(image);
                match signature_check(
                    is_scalar_pair(sig),
                    has_high_s(sig),
                    ecdsa_accepts(key, sha256(signed_part(image)), sig),
                ) {
                    Err(e) => Err(e),
                    Ok(()) => Ok(fields),
                }
            },
        }
    }
}

/// A verified image view, handed out only after the signature verified.
///
/// The payload is exposed as borrowed segments, never copied.
#[derive(Debug, Clone, Copy, PartialEq, Eq)]
pub struct VerifiedImage<'a> {
    image_version: ImageVersion,
    security_counter: u32,
    segments: &'a [&'a [u8]],
    payload_start: usize,
    payload_len: usize,
}

impl<'a> VerifiedImage<'a> {
    /// The segments of the image.
    pub closed spec fn parts(&self) -> Seq<&'a [u8]> {
        self.segments@
    }

    /// The bytes of the image.
    pub open spec fn bytes(&self) -> Seq<u8> {
        concat(self.parts())
    }

    /// The header fields.
    pub closed spec fn fields(&self) -> HeaderFields {
        HeaderFields {
            version: self.image_version,
            security_counter: self.security_counter,
            payload_len: self.payload_len as u32,
        }
    }

    /// The payload lies between header and signature.
    #[verifier::type_invariant]
    spec fn framed(&self) -> bool {
        &&& self.payload_start == HEADER_LEN
        &&& self.payload_len <= u32::MAX
        &&& concat(self.segments@).len() == HEADER_LEN + self.payload_len + SIG_LEN
    }

    /// The firmware version from the signed header.
    pub fn image_version(&self) -> (version: ImageVersion)
        ensures
            version == self.fields().version,
    {
        self.image_version
    }

    /// The monotonic anti-rollback counter from the signed header.
    pub fn security_counter(&self) -> (counter: u32)
        ensures
            counter == self.fields().security_counter,
    {
        self.security_counter
    }

    /// The payload length in bytes, as declared by the signed header.
    pub fn payload_len(&self) -> (len: usize)
        ensures
            len == self.fields().payload_len,
            len == payload_part(self.bytes()).len(),
    {
        proof {
            use_type_invariant(self);
        }
        self.payload_len
    }

    /// The verified payload, as borrowed pieces in logical order.
    pub fn payload_segments(&self) -> (pieces: PayloadSegments<'a>)
        ensures
            pieces.pieces() == pieces_from(
                self.parts(),
                0,
                HEADER_LEN as int,
                self.fields().payload_len as int,
            ),
            join(pieces.pieces()) == payload_part(self.bytes()),
            forall|i: int|
                0 <= i < pieces.pieces().len() ==> (#[trigger] pieces.pieces()[i]).len() > 0,
    {
        proof {
            use_type_invariant(self);
        }
        PayloadSegments::new(self.segments, self.payload_start, self.payload_len)
    }
}

/// Judges the 24 header bytes of an image that is `total` bytes long.
pub fn check_header(header: &[u8; HEADER_LEN], total: usize) -> (r: Result<
    HeaderFields,
    VerifyError,
>)
    ensures
        r == header_check(header@, total as int),
{
    let bytes: &[u8] = header;
    assert(header@.subrange(OFF_MAGIC as int, OFF_MAGIC + 4) =~= seq![
        header@[0],
        header@[1],
        header@[2],
        header@[3],
    ]);
    assert(MAGIC@ =~= seq![MAGIC@[0], MAGIC@[1], MAGIC@[2], MAGIC@[3]]);
    if bytes[OFF_MAGIC] != MAGIC[0] || bytes[OFF_MAGIC + 1] != MAGIC[1] || bytes[OFF_MAGIC + 2]
        != MAGIC[2] || bytes[OFF_MAGIC + 3] != MAGIC[3] {
        proof {
            let tag = header@.subrange(OFF_MAGIC as int, OFF_MAGIC + 4);
            assert(tag[0] != MAGIC@[0] || tag[1] != MAGIC@[1] || tag[2] != MAGIC@[2] || tag[3]
                != MAGIC@[3]);
        }
        return Err(VerifyError::BadMagic);
    }
    if bytes[OFF_FORMAT_VERSION] != FORMAT_VERSION {
        return Err(VerifyError::UnsupportedFormatVersion);
    }
    if bytes[OFF_ALGORITHM] != ALG_ECDSA_P256_SHA256 {
        return Err(VerifyError::UnsupportedAlgorithm);
    }
    let version = ImageVersion {
        major: bytes[OFF_VERSION_MAJOR],
        minor: bytes[OFF_VERSION_MINOR],
        revision: read_u16_le(bytes, OFF_VERSION_REVISION),
        build: read_u32_le(bytes, OFF_VERSION_BUILD),
    };
    let security_counter: u32 = read_u32_le(bytes, OFF_SECURITY_COUNTER);
    let payload_len: u32 = read_u32_le(bytes, OFF_PAYLOAD_LEN);
    if bytes[OFF_RESERVED] != 0 || bytes[OFF_RESERVED + 1] != 0 {
        return Err(VerifyError::ReservedNotZero);
    }
    let signed_len: usize = match HEADER_LEN.checked_add(payload_len as usize) {
        Some(len) => len,
        None => return Err(VerifyError::LengthMismatch),
    };
    let total_len: usize = match signed_len.checked_add(SIG_LEN) {
        Some(len) => len,
        None => return Err(VerifyError::LengthMismatch),
    };
    if total != total_len {
        return Err(VerifyError::LengthMismatch);
    }
    Ok(HeaderFields { version, security_counter, payload_len })
}

/// Concludes on a signature from what the cryptography said of it.
pub fn signature_verdict(well_formed: bool, high_s: bool, accepted: bool) -> (r: Result<
    (),
    VerifyError,
>)
    ensures
        r == signature_check(well_formed, high_s, accepted),
{
    if !well_formed {
        return Err(VerifyError::BadSignature);
    }
    if high_s {
        return Err(VerifyError::NonCanonicalSignature);
    }
    if !accepted {
        return Err(VerifyError::BadSignature);
    }
    Ok(())
}

/// Verifies a segmented signed firmware image against a pinned root key.
///
/// Any segmentation is legal: an empty list, empty segments, a header or a
/// signature straddling a boundary. Only the low-s signature encoding is
/// accepted, so each payload has exactly one accepted byte string per signature
/// nonce.
///
/// The digest is streamed over the segments: only the header and the signature
/// are copied.
pub fn verify_image<'a>(image: &'a [&'a [u8]], root_key: &RootKey) -> (r: Result<
    VerifiedImage<'a>,
    VerifyError,
>)
    ensures
        concat(image@).len() > usize::MAX ==> r == Err::<VerifiedImage, _>(
            VerifyError::LengthMismatch,
        ),
        concat(image@).len() <= usize::MAX ==> match r {
            Ok(verified) => {
                &&& verified.parts() == image@
                &&& verified.bytes() == concat(image@)
                &&& image_check(concat(image@), root_key@) == Ok::<HeaderFields, VerifyError>(
                    verified.fields(),
                )
            },
            Err(e) => image_check(concat(image@), root_key@) == Err::<HeaderFields, VerifyError>(e),
        },
{
    let ghost all = concat(image@);
    let total: usize = match total_len(image) {
        Ok(total) => total,
        Err(e) => return Err(e),
    };
    if total < HEADER_LEN + SIG_LEN {
        return Err(VerifyError::TooShort);
    }
    // Only the header and the signature are copied out, because each may straddle
    // a segment boundary.
    let mut header: [u8; HEADER_LEN] = [0u8; HEADER_LEN];
    match copy_out(image, 0, &mut header) {
        Ok(()) => {},
        Err(e) => return Err(e),
    }
    assert(header@ =~= all.take(HEADER_LEN as int));
    let fields = match check_header(&header, total) {
        Ok(fields) => fields,
        Err(e) => return Err(e),
    };
    let signed_len: usize = total - SIG_LEN;
    let mut sig: [u8; SIG_LEN] = [0u8; SIG_LEN];
    match copy_out(image, signed_len, &mut sig) {
        Ok(()) => {},
        Err(e) => return Err(e),
    }
    assert(sig@ =~= signature_part(all));
    assert(signed_part(all) =~= all.take(signed_len as int));
    let well_formed: bool = signature_parses(&sig);
    let high_s: bool = well_formed && signature_s_is_high(&sig);
    let mut accepted: bool = false;
    if well_formed && !high_s {
        let mut digester = Digester::new();
        match for_each_prefix_piece(image, signed_len, &mut digester) {
            Ok(()) => {},
            Err(e) => return Err(e),
        }
        proof {
            let fed = pieces_from(image@, 0, 0, signed_len as int);
            assert(Seq::<Seq<u8>>::empty() + fed =~= fed);
        }
        let digest: [u8; 32] = digester.finish();
        accepted = ecdsa_verify(root_key.encoding(), &digest, &sig);
    }
    match signature_verdict(well_formed, high_s, accepted) {
        Ok(()) => {},
        Err(e) => return Err(e),
    }
    Ok(
        VerifiedImage {
            image_version: fields.version,
            security_counter: fields.security_counter,
            segments: image,
            payload_start: HEADER_LEN,
            payload_len: fields.payload_len as usize,
        },
    )
}

/// Verification sees the bytes of an image, never how they are cut: two segment
/// lists with the same concatenation get the same verdict.
pub proof fn verdict_ignores_segmentation(a: Seq<&[u8]>, b: Seq<&[u8]>, key: Seq<u8>)
    requires
        concat(a) == concat(b),
    ensures
        image_check(concat(a), key) == image_check(concat(b), key),
{
}

/// Cutting one segment in two, at any offset, leaves the image unchanged.
pub proof fn splitting_a_segment_keeps_the_bytes(
    before: Seq<&[u8]>,
    whole: &[u8],
    head: &[u8],
    tail: &[u8],
)
    requires
        whole@ == head@ + tail@,
    ensures
        concat(before.push(whole)) == concat(before.push(head).push(tail)),
{
    assert(before.push(whole).drop_last() =~= before);
    assert(before.push(head).drop_last() =~= before);
    assert(before.push(head).push(tail).drop_last() =~= before.push(head));
    assert(concat(before.push(head)) == concat(before) + head@);
    assert((concat(before) + head@) + tail@ =~= concat(before) + (head@ + tail@));
}

/// An empty segment anywhere in the list adds nothing to the image.
pub proof fn empty_segments_add_nothing(before: Seq<&[u8]>, hole: &[u8], after: Seq<&[u8]>)
    requires
        hole@.len() == 0,
    ensures
        concat(before.push(hole) + after) == concat(before + after),
    decreases after.len(),
{
    if after.len() == 0 {
        assert(before.push(hole) + after =~= before.push(hole));
        assert(before + after =~= before);
        assert(before.push(hole).drop_last() =~= before);
        assert(concat(before) + hole@ =~= concat(before));
    } else {
        let init = after.drop_last();
        empty_segments_add_nothing(before, hole, init);
        assert((before.push(hole) + after).drop_last() =~= before.push(hole) + init);
        assert((before + after).drop_last() =~= before + init);
    }
}

/// An accepted image is exactly header, declared payload and signature: nothing
/// is missing and nothing trails.
pub proof fn accepted_images_have_the_declared_length(image: Seq<u8>, key: Seq<u8>)
    requires
        image_check(image, key) is Ok,
    ensures
        image.len() == HEADER_LEN + image_check(image, key)->Ok_0.payload_len + SIG_LEN,
        payload_part(image).len() == image_check(image, key)->Ok_0.payload_len,
        image =~= image.take(HEADER_LEN as int) + payload_part(image) + signature_part(image),
{
}

/// Of the two encodings `(r, s)` and `(r, n - s)` of one signature at most one is
/// accepted, whatever the key and the digest: the twin of an accepted image is refused
/// as not canonical.
pub proof fn signature_malleability_is_closed(image: Seq<u8>, twin: Seq<u8>, key: Seq<u8>)
    requires
        image_check(image, key) is Ok,
        twin.len() == image.len(),
        signed_part(twin) == signed_part(image),
        sig_r(signature_part(twin)) == sig_r(signature_part(image)),
        sig_s(signature_part(twin)) == p256_order() - sig_s(signature_part(image)),
    ensures
        image_check(twin, key) == Err::<HeaderFields, VerifyError>(
            VerifyError::NonCanonicalSignature,
        ),
{
    assert(twin.take(HEADER_LEN as int) =~= signed_part(twin).take(HEADER_LEN as int));
    assert(image.take(HEADER_LEN as int) =~= signed_part(image).take(HEADER_LEN as int));
}

} // verus!
