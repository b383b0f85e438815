//! What holds of a signed image, stated over its bytes.
//!
//! An image is a header of 24 bytes, the payload and a signature of 64 bytes. The laws
//! name each byte by its place, so they can be held against the layout in
//! [`crate::image::format`] line by line.

use vstd::prelude::*;

use crate::image::crypto::be_number;
use crate::image::crypto::ecdsa_accepts;
use crate::image::crypto::is_uncompressed_point;
use crate::image::crypto::sha256;
use crate::image::encode::encodes;
use crate::image::error::VerifyError;
use crate::image::format::le16;
use crate::image::format::le32;
use crate::image::format::ImageVersion;
use crate::image::segments::concat;
use crate::image::segments::join;
use crate::image::segments::lemma_pieces_join;
use crate::image::segments::pieces_from;
use crate::image::verify::header_check;
use crate::image::verify::image_check;
use crate::image::verify::payload_part;
use crate::image::verify::signature_part;
use crate::image::verify::signed_part;
use crate::image::verify::HeaderFields;

verus! {

/// Half of the group order, rounded down: the largest `s` of a canonical signature.
pub open spec fn half_order() -> int {
    0x7fffffff800000007fffffffffffffffde737d56d38bcf4279dce5617e3192a8int
}

/// Every authentic image is accepted, whatever its length: header, payload and
/// signature, where the header carries the tag, the schema, the algorithm and the
/// length of the payload, and where the signature is a pair of scalars in range, the
/// second in the lower half, that ECDSA accepts on the digest of header and payload.
/// The fields are those that the header spells.
pub proof fn an_authentic_image_is_accepted(
    header: Seq<u8>,
    payload: Seq<u8>,
    sig: Seq<u8>,
    key: Seq<u8>,
)
    requires
        header.len() == 24,
        header[0] == 0x50 && header[1] == 0x4B && header[2] == 0x49 && header[3] == 0x4D,
        header[4] == 1,
        header[5] == 2,
        header[22] == 0 && header[23] == 0,
        payload.len() == header[18] + 0x100 * header[19] + 0x1_0000 * header[20] + 0x100_0000
            * header[21],
        sig.len() == 64,
        0 < be_number(sig.subrange(0, 32)) <= 2 * half_order(),
        0 < be_number(sig.subrange(32, 64)) <= half_order(),
        ecdsa_accepts(key, sha256(header + payload), sig),
    ensures
        image_check(header + payload + sig, key) matches Ok(fields) && {
            &&& fields.payload_len == payload.len()
            &&& fields.security_counter == header[14] + 0x100 * header[15] + 0x1_0000 * header[16]
                + 0x100_0000 * header[17]
            &&& fields.version.major == header[6]
            &&& fields.version.minor == header[7]
            &&& fields.version.revision == header[8] + 0x100 * header[9]
            &&& fields.version.build == header[10] + 0x100 * header[11] + 0x1_0000 * header[12]
                + 0x100_0000 * header[13]
        },
{
    let image = header + payload + sig;
    assert(image.take(24) =~= header);
    assert(header.subrange(0, 4) =~= seq![0x50u8, 0x4Bu8, 0x49u8, 0x4Du8]);
    assert(crate::image::format::MAGIC@ =~= seq![0x50u8, 0x4Bu8, 0x49u8, 0x4Du8]);
    assert(image.skip(image.len() - 64) =~= sig);
    assert(image.take(image.len() - 64) =~= header + payload);
}

/// Only an authentic image is accepted: what the verifier lets through has the tag, the
/// schema, the algorithm, no reserved byte, exactly the declared length, and a canonical
/// signature that ECDSA accepts on the digest of everything before it.
pub proof fn an_accepted_image_is_authentic(image: Seq<u8>, key: Seq<u8>)
    requires
        image_check(image, key) is Ok,
    ensures
        ({
            let sig = image.subrange(image.len() - 64, image.len() as int);
            &&& image.len() >= 88
            &&& image[0] == 0x50 && image[1] == 0x4B && image[2] == 0x49 && image[3] == 0x4D
            &&& image[4] == 1
            &&& image[5] == 2
            &&& image[22] == 0 && image[23] == 0
            &&& image.len() == 88 + image[18] + 0x100 * image[19] + 0x1_0000 * image[20]
                + 0x100_0000 * image[21]
            &&& 0 < be_number(sig.subrange(0, 32)) <= 2 * half_order()
            &&& 0 < be_number(sig.subrange(32, 64)) <= half_order()
            &&& ecdsa_accepts(key, sha256(image.subrange(0, image.len() - 64)), sig)
        }),
        image_check(image, key) matches Ok(fields) && {
            &&& fields.payload_len == image.len() - 88
            &&& fields.security_counter == image[14] + 0x100 * image[15] + 0x1_0000 * image[16]
                + 0x100_0000 * image[17]
            &&& fields.version.major == image[6]
            &&& fields.version.minor == image[7]
            &&& fields.version.revision == image[8] + 0x100 * image[9]
            &&& fields.version.build == image[10] + 0x100 * image[11] + 0x1_0000 * image[12]
                + 0x100_0000 * image[13]
        },
{
    let header = image.take(24);
    let tag = header.subrange(0, 4);
    assert(tag == crate::image::format::MAGIC@);
    assert(tag[0] == image[0] && tag[1] == image[1] && tag[2] == image[2] && tag[3] == image[3]);
    assert(image.skip(image.len() - 64) =~= image.subrange(
        image.len() - 64,
        image.len() as int,
    ));
    assert(image.take(image.len() - 64) =~= image.subrange(0, image.len() - 64));
}

/// A refusal names the first anomaly: each error comes for its own reason, and only
/// where nothing before it was wrong.
pub proof fn a_refusal_names_the_first_anomaly(image: Seq<u8>, key: Seq<u8>)
    ensures
        ({
            let verdict = image_check(image, key);
            let long = image.len() >= 88;
            let tagged = image[0] == 0x50 && image[1] == 0x4B && image[2] == 0x49 && image[3]
                == 0x4D;
            let zeroed = image[22] == 0 && image[23] == 0;
            let framed = image.len() == 88 + image[18] + 0x100 * image[19] + 0x1_0000 * image[20]
                + 0x100_0000 * image[21];
            let parsed = long && tagged && image[4] == 1 && image[5] == 2 && zeroed && framed;
            let sig = image.subrange(image.len() - 64, image.len() as int);
            let r = be_number(sig.subrange(0, 32));
            let s = be_number(sig.subrange(32, 64));
            let order = 2 * half_order() + 1;
            let scalars = 0 < r < order && 0 < s < order;
            let genuine = ecdsa_accepts(key, sha256(image.subrange(0, image.len() - 64)), sig);
            &&& verdict == Err::<HeaderFields, VerifyError>(VerifyError::TooShort) <==> !long
            &&& verdict == Err::<HeaderFields, VerifyError>(VerifyError::BadMagic) <==> long
                && !tagged
            &&& verdict == Err::<HeaderFields, VerifyError>(VerifyError::UnsupportedFormatVersion)
                <==> long && tagged && image[4] != 1
            &&& verdict == Err::<HeaderFields, VerifyError>(VerifyError::UnsupportedAlgorithm)
                <==> long && tagged && image[4] == 1 && image[5] != 2
            &&& verdict == Err::<HeaderFields, VerifyError>(VerifyError::ReservedNotZero) <==> long
                && tagged && image[4] == 1 && image[5] == 2 && !zeroed
            &&& verdict == Err::<HeaderFields, VerifyError>(VerifyError::LengthMismatch) <==> long
                && tagged && image[4] == 1 && image[5] == 2 && zeroed && !framed
            &&& verdict == Err::<HeaderFields, VerifyError>(VerifyError::NonCanonicalSignature)
                <==> parsed && scalars && s > half_order()
            &&& verdict == Err::<HeaderFields, VerifyError>(VerifyError::BadSignature) <==> parsed
                && (!scalars || s <= half_order() && !genuine)
            &&& verdict is Ok <==> parsed && scalars && s <= half_order() && genuine
        }),
{
    if image.len() >= 88 {
        let header = image.take(24);
        let tag = header.subrange(0, 4);
        assert(tag[0] == image[0] && tag[1] == image[1] && tag[2] == image[2] && tag[3]
            == image[3]);
        assert(crate::image::format::MAGIC@ =~= seq![0x50u8, 0x4Bu8, 0x49u8, 0x4Du8]);
        if image[0] == 0x50 && image[1] == 0x4B && image[2] == 0x49 && image[3] == 0x4D {
            assert(tag =~= crate::image::format::MAGIC@);
        }
        assert(image.skip(image.len() - 64) =~= image.subrange(
            image.len() - 64,
            image.len() as int,
        ));
        assert(image.take(image.len() - 64) =~= image.subrange(0, image.len() - 64));
    }
}

/// The check of a header alone refuses it for the same reasons, in the same order, and
/// accepts it in an image of exactly the length it declares.
pub proof fn a_header_is_checked_in_order(header: Seq<u8>, total: int)
    requires
        header.len() == 24,
    ensures
        ({
            let verdict = header_check(header, total);
            let tagged = header[0] == 0x50 && header[1] == 0x4B && header[2] == 0x49 && header[3]
                == 0x4D;
            let known = tagged && header[4] == 1 && header[5] == 2;
            let zeroed = header[22] == 0 && header[23] == 0;
            let declared = header[18] + 0x100 * header[19] + 0x1_0000 * header[20] + 0x100_0000
                * header[21];
            &&& !tagged ==> verdict == Err::<HeaderFields, VerifyError>(VerifyError::BadMagic)
            &&& tagged && header[4] != 1 ==> verdict == Err::<HeaderFields, VerifyError>(
                VerifyError::UnsupportedFormatVersion,
            )
            &&& tagged && header[4] == 1 && header[5] != 2 ==> verdict == Err::<
                HeaderFields,
                VerifyError,
            >(VerifyError::UnsupportedAlgorithm)
            &&& known && !zeroed ==> verdict == Err::<HeaderFields, VerifyError>(
                VerifyError::ReservedNotZero,
            )
            &&& known && zeroed && total != 88 + declared ==> verdict == Err::<
                HeaderFields,
                VerifyError,
            >(VerifyError::LengthMismatch)
            &&& known && zeroed && total == 88 + declared ==> {
                &&& verdict matches Ok(fields)
                &&& fields.payload_len == declared
                &&& fields.security_counter == header[14] + 0x100 * header[15] + 0x1_0000
                    * header[16] + 0x100_0000 * header[17]
                &&& fields.version.major == header[6]
                &&& fields.version.minor == header[7]
                &&& fields.version.revision == header[8] + 0x100 * header[9]
                &&& fields.version.build == header[10] + 0x100 * header[11] + 0x1_0000 * header[12]
                    + 0x100_0000 * header[13]
            }
        }),
{
    let tag = header.subrange(0, 4);
    assert(tag[0] == header[0] && tag[1] == header[1] && tag[2] == header[2] && tag[3]
        == header[3]);
    assert(crate::image::format::MAGIC@ =~= seq![0x50u8, 0x4Bu8, 0x49u8, 0x4Du8]);
    if header[0] == 0x50 && header[1] == 0x4B && header[2] == 0x49 && header[3] == 0x4D {
        assert(tag =~= crate::image::format::MAGIC@);
    }
}

/// An encoded header spells its fields at their places, in little-endian order, under
/// the tag "PKIM", schema 1 and algorithm 2, and closes with two zero bytes.
pub proof fn an_encoded_header_spells_its_fields(
    header: Seq<u8>,
    version: ImageVersion,
    security_counter: u32,
    payload_len: u32,
)
    requires
        encodes(header, version, security_counter, payload_len),
    ensures
        header.len() == 24,
        header[0] == 0x50 && header[1] == 0x4B && header[2] == 0x49 && header[3] == 0x4D,
        header[4] == 1,
        header[5] == 2,
        header[6] == version.major,
        header[7] == version.minor,
        header[8] + 0x100 * header[9] == version.revision,
        header[10] + 0x100 * header[11] + 0x1_0000 * header[12] + 0x100_0000 * header[13]
            == version.build,
        header[14] + 0x100 * header[15] + 0x1_0000 * header[16] + 0x100_0000 * header[17]
            == security_counter,
        header[18] + 0x100 * header[19] + 0x1_0000 * header[20] + 0x100_0000 * header[21]
            == payload_len,
        header[22] == 0 && header[23] == 0,
{
    let tag = header.subrange(0, 4);
    assert(tag == crate::image::format::MAGIC@);
    assert(tag[0] == header[0] && tag[1] == header[1] && tag[2] == header[2] && tag[3]
        == header[3]);
}

/// A file that the encoder starts and the root key signs is accepted, whatever the
/// payload, and gives back the version and the counter that were encoded.
pub proof fn an_encoded_and_signed_image_is_accepted(
    header: Seq<u8>,
    version: ImageVersion,
    security_counter: u32,
    payload: Seq<u8>,
    sig: Seq<u8>,
    key: Seq<u8>,
)
    requires
        payload.len() <= u32::MAX,
        encodes(header, version, security_counter, payload.len() as u32),
        sig.len() == 64,
        0 < be_number(sig.subrange(0, 32)) <= 2 * half_order(),
        0 < be_number(sig.subrange(32, 64)) <= half_order(),
        ecdsa_accepts(key, sha256(header + payload), sig),
    ensures
        image_check(header + payload + sig, key) == Ok::<HeaderFields, VerifyError>(
            HeaderFields { version, security_counter, payload_len: payload.len() as u32 },
        ),
{
    an_encoded_header_spells_its_fields(header, version, security_counter, payload.len() as u32);
    an_authentic_image_is_accepted(header, payload, sig, key);
}

/// The parts of an image are what stands between its cuts.
pub proof fn an_image_falls_into_its_parts(header: Seq<u8>, payload: Seq<u8>, sig: Seq<u8>)
    requires
        header.len() == 24,
        sig.len() == 64,
    ensures
        payload_part(header + payload + sig) == payload,
        signature_part(header + payload + sig) == sig,
        signed_part(header + payload + sig) == header + payload,
{
    let image = header + payload + sig;
    assert(payload_part(image) =~= payload);
    assert(signature_part(image) =~= sig);
    assert(signed_part(image) =~= header + payload);
}

/// Any byte that is not signature is signed: a change of it changes what is hashed.
pub proof fn every_byte_before_the_signature_is_signed(a: Seq<u8>, b: Seq<u8>, i: int)
    requires
        a.len() == b.len() >= 64,
        0 <= i < a.len() - 64,
        a[i] != b[i],
    ensures
        signed_part(a) != signed_part(b),
        signed_part(a).len() == a.len() - 64,
        signed_part(a)[i] == a[i],
{
    assert(signed_part(a)[i] == a[i]);
    assert(signed_part(b)[i] == b[i]);
}

/// The bytes of a segment list: none for the empty list, and each segment follows those
/// before it.
pub proof fn segments_follow_one_another(segs: Seq<&[u8]>, next: &[u8])
    ensures
        concat(Seq::<&[u8]>::empty()).len() == 0,
        concat(segs.push(next)) == concat(segs) + next@,
{
    assert(segs.push(next).drop_last() =~= segs);
}

/// Numbers are spelled with the low byte first.
pub proof fn numbers_are_little_endian(bytes: Seq<u8>, at: int)
    ensures
        le16(bytes, at) == bytes[at] + 0x100 * bytes[at + 1],
        le32(bytes, at) == bytes[at] + 0x100 * bytes[at + 1] + 0x1_0000 * bytes[at + 2]
            + 0x100_0000 * bytes[at + 3],
        bytes[at] == 0xFF && bytes[at + 1] == 0xFF && bytes[at + 2] == 0xFF && bytes[at + 3] == 0xFF
            ==> le32(bytes, at) == 0xFFFF_FFFF,
{
}

/// Scalars and coordinates are spelled with the high byte first.
pub proof fn scalars_are_big_endian(bytes: Seq<u8>, next: u8)
    ensures
        be_number(Seq::<u8>::empty()) == 0,
        be_number(bytes.push(next)) == 256 * be_number(bytes) + next,
{
    assert(bytes.push(next).drop_last() =~= bytes);
}

/// A root key is the uncompressed encoding of a point on the curve, and no other bytes
/// are one.
pub proof fn a_root_key_is_a_point_on_the_curve(bytes: Seq<u8>)
    ensures
        ({
            let p = 0xffffffff00000001000000000000000000000000ffffffffffffffffffffffffint;
            let b = 0x5ac635d8aa3a93e7b3ebbd55769886bc651d06b0cc53b0f63bce3c3e27d2604bint;
            let x = be_number(bytes.subrange(1, 33));
            let y = be_number(bytes.subrange(33, 65));
            is_uncompressed_point(bytes) <==> {
                &&& bytes.len() == 65
                &&& bytes[0] == 0x04
                &&& x < p
                &&& y < p
                &&& (y * y - (x * x * x - 3 * x + b)) % p == 0
            }
        }),
{
}

/// The payload that an accepted image hands out is the file between header and
/// signature, byte for byte, however the file was cut.
pub proof fn the_payload_pieces_join_to_the_payload(
    segs: Seq<&[u8]>,
    header: Seq<u8>,
    payload: Seq<u8>,
    sig: Seq<u8>,
)
    requires
        header.len() == 24,
        sig.len() == 64,
        concat(segs) == header + payload + sig,
    ensures
        join(pieces_from(segs, 0, 24, payload.len() as int)) == payload,
{
    crate::image::segments::one_piece_per_segment_in_order(segs, 24, payload.len() as int);
    lemma_range_join(segs, 0, 24, payload.len() as int);
    assert(concat(segs.take(0)) =~= Seq::<u8>::empty());
    assert((header + payload + sig).subrange(24int, 24int + payload.len()) =~= payload);
}

/// The pieces of a range that the segments hold join to the range.
proof fn lemma_range_join(segs: Seq<&[u8]>, seg: int, off: int, len: int)
    requires
        0 <= seg <= segs.len(),
        0 <= off,
        0 <= len,
        concat(segs.take(seg)).len() + off + len <= concat(segs).len(),
    ensures
        ({
            let pos = concat(segs.take(seg)).len() + off;
            join(pieces_from(segs, seg, off, len)) == concat(segs).subrange(pos, pos + len)
        }),
    decreases segs.len() - seg,
{
    let pos = concat(segs.take(seg)).len() + off;
    if seg == segs.len() {
        assert(segs.take(seg) =~= segs);
        assert(concat(segs).subrange(pos, pos + len) =~= Seq::<u8>::empty());
    } else {
        crate::image::segments::lemma_segment_at(segs, seg);
        if off <= segs[seg]@.len() {
            lemma_pieces_join(segs, seg, off, len);
        } else if len == 0 {
            assert(concat(segs).subrange(pos, pos + len) =~= Seq::<u8>::empty());
        } else {
            lemma_range_join(segs, seg + 1, off - segs[seg]@.len(), len);
        }
    }
}

} // verus!
