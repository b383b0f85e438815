//! On-wire layout of the signed firmware image.
//!
//! ```text
//!   HEADER (24 bytes) || PAYLOAD (payload_len bytes) || SIGNATURE (64 bytes)
//! ```
//!
//! The signature covers exactly `HEADER || PAYLOAD`. All multi-byte header
//! fields are little-endian:
//!
//! ```text
//!   off  size  field
//!     0     4  magic "PKIM"
//!     4     1  header schema version
//!     5     1  signature algorithm id
//!     6     1  firmware version, major
//!     7     1  firmware version, minor
//!     8     2  firmware version, revision
//!    10     4  firmware version, build
//!    14     4  security counter
//!    18     4  payload length
//!    22     2  reserved, zero
//! ```

use vstd::prelude::*;

verus! {

/// The fixed tag of a signed image, ASCII "PKIM".
pub const MAGIC: [u8; 4] = [0x50, 0x4B, 0x49, 0x4D];

/// The only header schema version the parser understands.
pub const FORMAT_VERSION: u8 = 1;

/// The only accepted algorithm id: ECDSA P-256 over SHA-256.
pub const ALG_ECDSA_P256_SHA256: u8 = 0x02;

/// Length of the header in bytes.
pub const HEADER_LEN: usize = 24;

/// Length of the trailing `r || s` signature in bytes.
pub const SIG_LEN: usize = 64;

/// Length of a root public key in bytes: an uncompressed SEC1 point.
pub const ROOT_KEY_LEN: usize = 65;

/// Offset of the magic tag.
pub const OFF_MAGIC: usize = 0;
/// Offset of the header schema version.
pub const OFF_FORMAT_VERSION: usize = 4;
/// Offset of the algorithm id.
pub const OFF_ALGORITHM: usize = 5;
/// Offset of the major version.
pub const OFF_VERSION_MAJOR: usize = 6;
/// Offset of the minor version.
pub const OFF_VERSION_MINOR: usize = 7;
/// Offset of the revision.
pub const OFF_VERSION_REVISION: usize = 8;
/// Offset of the build number.
pub const OFF_VERSION_BUILD: usize = 10;
/// Offset of the anti-rollback counter.
pub const OFF_SECURITY_COUNTER: usize = 14;
/// Offset of the payload length.
pub const OFF_PAYLOAD_LEN: usize = 18;
/// Offset of the two reserved bytes, which close the header.
pub const OFF_RESERVED: usize = 22;

/// The firmware version carried in the header.
#[derive(Debug, Clone, Copy, PartialEq, Eq, Structural)]
pub struct ImageVersion {
    /// Major component.
    pub major: u8,
    /// Minor component.
    pub minor: u8,
    /// Revision component.
    pub revision: u16,
    /// Build component.
    pub build: u32,
}

/// The little-endian 16-bit number at `off`.
pub open spec fn le16(bytes: Seq<u8>, off: int) -> int {
    bytes[off] + 0x100 * bytes[off + 1]
}

/// The little-endian 32-bit number at `off`.
pub open spec fn le32(bytes: Seq<u8>, off: int) -> int {
    bytes[off] + 0x100 * bytes[off + 1] + 0x1_0000 * bytes[off + 2] + 0x100_0000 * bytes[off + 3]
}

/// Reads the little-endian 16-bit number at `off`.
pub fn read_u16_le(bytes: &[u8], off: usize) -> (value: u16)
    requires
        off + 2 <= bytes@.len(),
    ensures
        value == le16(bytes@, off as int),
{
    bytes[off] as u16 + 0x100 * (bytes[off + 1] as u16)
}

/// Reads the little-endian 32-bit number at `off`.
pub fn read_u32_le(bytes: &[u8], off: usize) -> (value: u32)
    requires
        off + 4 <= bytes@.len(),
    ensures
        value == le32(bytes@, off as int),
{
    bytes[off] as u32 + 0x100 * (bytes[off + 1] as u32) + 0x1_0000 * (bytes[off + 2] as u32)
        + 0x100_0000 * (bytes[off + 3] as u32)
}

/// Spells `value` in four little-endian bytes.
pub fn to_le_bytes(value: u32) -> (bytes: [u8; 4])
    ensures
        le32(bytes@, 0) == value,
        value <= u16::MAX ==> le16(bytes@, 0) == value,
{
    let high: u32 = value / 0x1_0000;
    let low: u32 = value % 0x1_0000;
    [(low % 0x100) as u8, (low / 0x100) as u8, (high % 0x100) as u8, (high / 0x100) as u8]
}

} // verus!
