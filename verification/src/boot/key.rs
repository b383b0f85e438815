//! The pinned product root key.
//!
//! The one trust anchor that every firmware image is verified against. There is no
//! development key to fall back to.

use vstd::prelude::*;

use crate::image::crypto::is_uncompressed_point;
use crate::image::error::VerifyError;
use crate::image::format::ROOT_KEY_LEN;
use crate::image::verify::RootKey;

verus! {

/// The pinned root public key, an uncompressed point.
pub const PROD_ROOT_KEY_SEC1: [u8; ROOT_KEY_LEN] = [
    0x04, 0xdd, 0x0a, 0x85, 0xa4, 0x3d, 0x1f, 0x56, 0xa9, 0x72, 0x53, 0xd3, 0xd4, 0xe0, 0xf3, 0xcd,
    0x22, 0x9e, 0xcb, 0x6b, 0xdf, 0x0b, 0x63, 0x82, 0x02, 0x90, 0x5e, 0x0d, 0xa9, 0x06, 0xde, 0x5d,
    0xe8, 0x48, 0xaf, 0x17, 0x4f, 0x37, 0x90, 0xbc, 0xcb, 0x9b, 0x57, 0xa2, 0x59, 0x80, 0x7a, 0x09,
    0x5f, 0x83, 0xab, 0x34, 0x84, 0xdd, 0x31, 0x88, 0x96, 0x0f, 0x4c, 0xc3, 0xc9, 0x4d, 0x33, 0xf2,
    0xb8,
];

/// Builds the pinned product root key. A corrupt key is an error, never a fallback.
pub fn product_root_key() -> (r: Result<RootKey, VerifyError>)
    ensures
        match r {
            Ok(key) => is_uncompressed_point(PROD_ROOT_KEY_SEC1@) && key@ == PROD_ROOT_KEY_SEC1@,
            Err(e) => !is_uncompressed_point(PROD_ROOT_KEY_SEC1@) && e == VerifyError::BadRootKey,
        },
{
    RootKey::from_bytes(PROD_ROOT_KEY_SEC1)
}

} // verus!
