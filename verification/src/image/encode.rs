//! Header encoder of the signed firmware-image format.

use vstd::prelude::*;

use crate::image::error::VerifyError;
use crate::image::format::le16;
use crate::image::format::le32;
use crate::image::format::to_le_bytes;
use crate::image::format::ImageVersion;
use crate::image::format::ALG_ECDSA_P256_SHA256;
use crate::image::format::FORMAT_VERSION;
use crate::image::format::HEADER_LEN;
use crate::image::format::MAGIC;
use crate::image::format::OFF_ALGORITHM;
use crate::image::format::OFF_FORMAT_VERSION;
use crate::image::format::OFF_MAGIC;
use crate::image::format::OFF_PAYLOAD_LEN;
use crate::image::format::OFF_RESERVED;
use crate::image::format::OFF_SECURITY_COUNTER;
use crate::image::format::OFF_VERSION_BUILD;
use crate::image::format::OFF_VERSION_MAJOR;
use crate::image::format::OFF_VERSION_MINOR;
use crate::image::format::OFF_VERSION_REVISION;
use crate::image::format::SIG_LEN;
use crate::image::verify::header_check;
use crate::image::verify::header_fields;
use crate::image::verify::HeaderFields;

verus! {

/// `header` spells the given fields under the fixed tag, schema and algorithm.
pub open spec fn encodes(
    header: Seq<u8>,
    version: ImageVersion,
    security_counter: u32,
    payload_len: u32,
) -> bool {
    &&& header.len() == HEADER_LEN
    &&& header.subrange(OFF_MAGIC as int, OFF_MAGIC + 4) == MAGIC@
    &&& header[OFF_FORMAT_VERSION as int] == FORMAT_VERSION
    &&& header[OFF_ALGORITHM as int] == ALG_ECDSA_P256_SHA256
    &&& header[OFF_VERSION_MAJOR as int] == version.major
    &&& header[OFF_VERSION_MINOR as int] == version.minor
    &&& le16(header, OFF_VERSION_REVISION as int) == version.revision
    &&& le32(header, OFF_VERSION_BUILD as int) == version.build
    &&& le32(header, OFF_SECURITY_COUNTER as int) == security_counter
    &&& le32(header, OFF_PAYLOAD_LEN as int) == payload_len
    &&& header[OFF_RESERVED as int] == 0
    &&& header[OFF_RESERVED + 1] == 0
}

/// Encodes the fixed-size header of a signed image.
///
/// The caller signs `header || payload` and appends the signature to obtain a
/// complete image.
pub fn encode_header(version: ImageVersion, security_counter: u32, payload_len: u32) -> (header: [u8; HEADER_LEN])
    ensures
        encodes(header@, version, security_counter, payload_len),
{
    let revision: [u8; 4] = to_le_bytes(version.revision as u32);
    let build: [u8; 4] = to_le_bytes(version.build);
    let counter: [u8; 4] = to_le_bytes(security_counter);
    let length: [u8; 4] = to_le_bytes(payload_len);
    let header: [u8; HEADER_LEN] = [
        MAGIC[0],
        MAGIC[1],
        MAGIC[2],
        MAGIC[3],
        FORMAT_VERSION,
        ALG_ECDSA_P256_SHA256,
        version.major,
        version.minor,
        revision[0],
        revision[1],
        build[0],
        build[1],
        build[2],
        build[3],
        counter[0],
        counter[1],
        counter[2],
        counter[3],
        length[0],
        length[1],
        length[2],
        length[3],
        0,
        0,
    ];
    assert(header@.subrange(OFF_MAGIC as int, OFF_MAGIC + 4) =~= MAGIC@);
    header
}

/// What the encoder writes, the parser reads back: in an image of the declared
/// length the header check accepts the header and returns the encoded fields.
pub proof fn encoded_headers_parse_back(
    header: Seq<u8>,
    version: ImageVersion,
    security_counter: u32,
    payload_len: u32,
)
    requires
        encodes(header, version, security_counter, payload_len),
    ensures
        header_fields(header) == (HeaderFields { version, security_counter, payload_len }),
        header_check(header, HEADER_LEN + payload_len + SIG_LEN) == Ok::<HeaderFields, VerifyError>(
            HeaderFields { version, security_counter, payload_len },
        ),
{
}

/// A 16-bit number has one little-endian spelling.
proof fn lemma_le16_injective(a: Seq<u8>, b: Seq<u8>, off: int)
    requires
        le16(a, off) == le16(b, off),
    ensures
        a[off] == b[off],
        a[off + 1] == b[off + 1],
{
    assert(a[off] == le16(a, off) % 0x100);
    assert(b[off] == le16(b, off) % 0x100);
}

/// A 32-bit number has one little-endian spelling.
proof fn lemma_le32_injective(a: Seq<u8>, b: Seq<u8>, off: int)
    requires
        le32(a, off) == le32(b, off),
    ensures
        a[off] == b[off],
        a[off + 1] == b[off + 1],
        a[off + 2] == b[off + 2],
        a[off + 3] == b[off + 3],
{
    let low_a = le16(a, off);
    let low_b = le16(b, off);
    let high_a = le16(a, off + 2);
    let high_b = le16(b, off + 2);
    assert(le32(a, off) == low_a + 0x1_0000 * high_a);
    assert(le32(b, off) == low_b + 0x1_0000 * high_b);
    assert(low_a == low_b && high_a == high_b);
    lemma_le16_injective(a, b, off);
    lemma_le16_injective(a, b, off + 2);
}

/// A header has one encoding: two byte strings that spell the same fields are
/// equal.
pub proof fn encoding_is_unique(
    a: Seq<u8>,
    b: Seq<u8>,
    version: ImageVersion,
    security_counter: u32,
    payload_len: u32,
)
    requires
        encodes(a, version, security_counter, payload_len),
        encodes(b, version, security_counter, payload_len),
    ensures
        a == b,
{
    lemma_le16_injective(a, b, OFF_VERSION_REVISION as int);
    lemma_le32_injective(a, b, OFF_VERSION_BUILD as int);
    lemma_le32_injective(a, b, OFF_SECURITY_COUNTER as int);
    lemma_le32_injective(a, b, OFF_PAYLOAD_LEN as int);
    let tag_a = a.subrange(0, 4);
    let tag_b = b.subrange(0, 4);
    assert(forall|i: int| 0 <= i < 4 ==> a[i] == #[trigger] tag_a[i]);
    assert(forall|i: int| 0 <= i < 4 ==> b[i] == #[trigger] tag_b[i]);
    assert(tag_a[0] == tag_b[0] && tag_a[1] == tag_b[1] && tag_a[2] == tag_b[2] && tag_a[3]
        == tag_b[3]);
    assert(a =~= b);
}

} // verus!
