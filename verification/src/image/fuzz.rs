//! Fuzzing entry over the verifier, under a fixed test key.

use vstd::prelude::*;
use vstd::slice::slice_subrange;

use crate::image::format::ROOT_KEY_LEN;
use crate::image::verify::RootKey;

verus! {

/// The public key of the all-`0x01` private scalar, a publicly known value.
/// Test only: it must never be a trust anchor of a product.
pub const FUZZ_ROOT_KEY_TEST_ONLY: [u8; ROOT_KEY_LEN] = [
    0x04, 0x6f, 0xf0, 0x3b, 0x94, 0x92, 0x41, 0xce, 0x1d, 0xad, 0xd4, 0x35, 0x19, 0xe6, 0x96, 0x0e,
    0x0a, 0x85, 0xb4, 0x1a, 0x69, 0xa0, 0x5c, 0x32, 0x81, 0x03, 0xaa, 0x2b, 0xce, 0x15, 0x94, 0xca,
    0x16, 0x3c, 0x4f, 0x75, 0x3a, 0x55, 0xbf, 0x01, 0xdc, 0x53, 0xf6, 0xc0, 0xb0, 0xc7, 0xee, 0xe7,
    0x8b, 0x40, 0xc6, 0xff, 0x7d, 0x25, 0xa9, 0x6e, 0x22, 0x82, 0xb9, 0x89, 0xce, 0xf7, 0x1c, 0x14,
    0x4a,
];

/// Drives the verifier over arbitrary bytes.
///
/// The first two bytes choose two cut points, so that header and signature are
/// driven across segment boundaries and empty segments are reached. The same
/// bytes also go through the one-segment shape.
pub fn verify_image(data: &[u8]) {
    let root = match RootKey::from_bytes(FUZZ_ROOT_KEY_TEST_ONLY) {
        Ok(key) => key,
        Err(_) => return ,
    };
    if data.len() < 2 {
        // No control bytes: the empty list, and one segment of what there is.
        let none: [&[u8]; 0] = [];
        let _ = crate::image::verify::verify_image(&none, &root);
        let one: [&[u8]; 1] = [data];
        let _ = crate::image::verify::verify_image(&one, &root);
        return ;
    }
    let body: &[u8] = slice_subrange(data, 2, data.len());
    let one: [&[u8]; 1] = [body];
    let _ = crate::image::verify::verify_image(&one, &root);
    // `first` lands anywhere in [0, len], `second` anywhere in [first, len].
    let span: usize = body.len() + 1;
    let first: usize = (data[0] as usize) % span;
    let second: usize = first + (data[1] as usize) % (span - first);
    let head: &[u8] = slice_subrange(body, 0, first);
    let middle: &[u8] = slice_subrange(body, first, second);
    let tail: &[u8] = slice_subrange(body, second, body.len());
    let three: [&[u8]; 3] = [head, middle, tail];
    let _ = crate::image::verify::verify_image(&three, &root);
}

} // verus!
