//! The Non-Secure-Callable veneer window.
//!
//! The secure-gateway veneers stand at the top of the secure application band.

use vstd::prelude::*;

verus! {

/// The length of the veneer window in bytes: 64 gateways of 8 bytes each.
pub const NSC_VENEER_LEN: u32 = 512;

/// The first byte behind the secure application band.
pub const SECURE_APP_BAND_END: u32 = 0x0C02_8000;

/// The first byte of the veneer window.
pub const NSC_VENEER_BASE: u32 = SECURE_APP_BAND_END - NSC_VENEER_LEN;

/// The last byte of the veneer window.
pub const NSC_VENEER_LIMIT: u32 = SECURE_APP_BAND_END - 1;

/// The window suits the granule of the security attribution unit: 32 bytes, with a
/// limit that names the last byte.
pub proof fn the_window_suits_the_granule()
    ensures
        NSC_VENEER_BASE % 32 == 0,
        NSC_VENEER_LIMIT % 32 == 31,
        NSC_VENEER_LIMIT - NSC_VENEER_BASE + 1 == NSC_VENEER_LEN,
{
}

} // verus!
