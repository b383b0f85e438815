//! What the core's special registers mean.

use vstd::prelude::*;

verus! {

/// Whether a PRIMASK word leaves the maskable interrupts enabled: its lowest bit is
/// clear. The other bits are reserved.
pub fn interrupts_enabled_from_primask(primask: u32) -> (r: bool)
    ensures
        r == (primask % 2 == 0),
{
    assert(primask & 1 == primask % 2) by (bit_vector);
    primask & 1 == 0
}

} // verus!
