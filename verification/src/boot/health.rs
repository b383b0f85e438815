//! The health of the image in a bank.
//!
//! The boot stage reads the bank it is about to boot as the updater wrote it: the
//! descriptor with header and signature, then the payload across the secure and the
//! non-secure band. Any anomaly rejects the image.

use vstd::prelude::*;
use vstd::slice::slice_subrange;

use crate::image::format::le32;
use crate::image::format::read_u32_le;
use crate::image::format::HEADER_LEN;
use crate::image::format::SIG_LEN;
use crate::image::segments::concat;
use crate::image::segments::lemma_concat_four;
use crate::image::verify::image_check;
use crate::image::verify::verify_image;
use crate::image::verify::RootKey;

verus! {

/// Offset of the payload length in the header. It is read before the signature
/// verifies, to cut the bands: the signature binds the true length, so a wrong one
/// is rejected.
pub const OFF_PAYLOAD_LEN_FOR_TEST: usize = 18;

/// The verified health of an image.
#[derive(Debug, Clone, Copy, PartialEq, Eq, Structural)]
pub enum ImageHealth {
    /// The image did not verify, or was malformed.
    Rejected,
    /// The signature verified.
    Verified {
        /// The signed anti-rollback counter.
        security_counter: u32,
    },
}

/// The file that a descriptor and two payload bands hold, for a payload of
/// `payload_len` bytes.
pub open spec fn carved(
    descriptor: Seq<u8>,
    secure: Seq<u8>,
    ns: Seq<u8>,
    payload_len: int,
) -> Seq<u8> {
    descriptor.take(HEADER_LEN as int) + (secure + ns).take(payload_len) + descriptor.subrange(
        HEADER_LEN as int,
        HEADER_LEN + SIG_LEN,
    )
}

/// The health of the image that a descriptor and two payload bands hold.
pub open spec fn image_health(
    descriptor: Seq<u8>,
    secure: Seq<u8>,
    ns: Seq<u8>,
    key: Seq<u8>,
) -> ImageHealth {
    let payload_len = le32(descriptor, OFF_PAYLOAD_LEN_FOR_TEST as int);
    if descriptor.len() < HEADER_LEN + SIG_LEN {
        ImageHealth::Rejected
    } else if payload_len > secure.len() + ns.len() || HEADER_LEN + payload_len + SIG_LEN
        > usize::MAX {
        ImageHealth::Rejected
    } else {
        match image_check(carved(descriptor, secure, ns, payload_len), key) {
            Ok(fields) => ImageHealth::Verified { security_counter: fields.security_counter },
            Err(_) => ImageHealth::Rejected,
        }
    }
}

/// Assesses the image that a descriptor and two payload bands hold.
pub fn assess(
    descriptor: &[u8],
    secure_band: &[u8],
    ns_band: &[u8],
    root_key: &RootKey,
) -> (r: ImageHealth)
    ensures
        r == image_health(descriptor@, secure_band@, ns_band@, root_key@),
{
    if descriptor.len() < HEADER_LEN + SIG_LEN {
        return ImageHealth::Rejected;
    }
    let header: &[u8] = slice_subrange(descriptor, 0, HEADER_LEN);
    let sig: &[u8] = slice_subrange(descriptor, HEADER_LEN, HEADER_LEN + SIG_LEN);
    let payload_len: usize = read_u32_le(header, OFF_PAYLOAD_LEN_FOR_TEST) as usize;
    // Cut the payload as the updater does: the secure band first.
    let secure_take: usize = if payload_len < secure_band.len() {
        payload_len
    } else {
        secure_band.len()
    };
    let ns_take: usize = payload_len - secure_take;
    if ns_take > ns_band.len() {
        return ImageHealth::Rejected;
    }
    let secure_seg: &[u8] = slice_subrange(secure_band, 0, secure_take);
    let ns_seg: &[u8] = slice_subrange(ns_band, 0, ns_take);
    let segments: [&[u8]; 4] = [header, secure_seg, ns_seg, sig];
    proof {
        lemma_concat_four(segments@);
        assert(secure_seg@ + ns_seg@ =~= (secure_band@ + ns_band@).take(payload_len as int));
        assert(concat(segments@) =~= carved(
            descriptor@,
            secure_band@,
            ns_band@,
            payload_len as int,
        ));
    }
    match verify_image(&segments, root_key) {
        Ok(verified) => ImageHealth::Verified { security_counter: verified.security_counter() },
        Err(_) => ImageHealth::Rejected,
    }
}

} // verus!
