//! The secure-watermark check.
//!
//! The secure image is protected by the flash watermarks alone. A part whose
//! watermarks do not make exactly the pages of the layout secure must not boot.

use vstd::prelude::*;

verus! {

/// The expected first secure page.
pub const EXPECTED_PSTRT: u8 = 0;

/// The expected last secure page.
pub const EXPECTED_PEND: u8 = 19;

/// The page-index bits of a watermark field on a part with 32 pages a bank.
const PAGE_FIELD_MASK: u32 = 0x1F;

/// The shift of the end field in a watermark word.
const PEND_SHIFT: u32 = 16;

/// The secure watermark of one bank, as inclusive page bounds.
#[derive(Debug, Clone, Copy, PartialEq, Eq, Structural)]
pub struct SecwmWindow {
    /// The first secure page.
    pub start: u8,
    /// The last secure page.
    pub end: u8,
}

/// The watermarks of both banks.
#[derive(Debug, Clone, Copy, PartialEq, Eq, Structural)]
pub struct SecwmReadback {
    /// The watermark of physical Bank 1.
    pub bank1: SecwmWindow,
    /// The watermark of physical Bank 2.
    pub bank2: SecwmWindow,
}

/// The bounds that a watermark word encodes: the start in bits 0 to 4, the end in
/// bits 16 to 20.
pub open spec fn window_of(word: u32) -> SecwmWindow {
    SecwmWindow { start: (word % 32) as u8, end: (word / 0x1_0000 % 32) as u8 }
}

/// Both watermarks are those of the layout.
pub open spec fn secwm_matches(readback: SecwmReadback) -> bool {
    &&& readback.bank1.start == EXPECTED_PSTRT && readback.bank1.end == EXPECTED_PEND
    &&& readback.bank2.start == EXPECTED_PSTRT && readback.bank2.end == EXPECTED_PEND
}

/// Decodes a watermark word.
pub fn decode_window(word: u32) -> (r: SecwmWindow)
    ensures
        r == window_of(word),
{
    assert(word & PAGE_FIELD_MASK == word % 32) by (bit_vector);
    assert((word >> PEND_SHIFT) & PAGE_FIELD_MASK == word / 0x1_0000 % 32) by (bit_vector);
    let start: u8 = (word & PAGE_FIELD_MASK) as u8;
    let end: u8 = ((word >> PEND_SHIFT) & PAGE_FIELD_MASK) as u8;
    SecwmWindow { start, end }
}

/// Whether both watermarks are those of the layout. Any deviation fails.
pub fn secwm_ok(readback: &SecwmReadback) -> (r: bool)
    ensures
        r == secwm_matches(*readback),
{
    window_ok(&readback.bank1) && window_ok(&readback.bank2)
}

/// Whether one watermark is that of the layout.
fn window_ok(window: &SecwmWindow) -> (r: bool)
    ensures
        r == (window.start == EXPECTED_PSTRT && window.end == EXPECTED_PEND),
{
    window.start == EXPECTED_PSTRT && window.end == EXPECTED_PEND
}

} // verus!
