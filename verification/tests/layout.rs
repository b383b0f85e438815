//! The veneer window and the interrupt mask.

use patina_key::arch::interrupts_enabled_from_primask;
use patina_key::layout::NSC_VENEER_BASE;
use patina_key::layout::NSC_VENEER_LEN;
use patina_key::layout::NSC_VENEER_LIMIT;

/// One secure gateway in bytes: the gateway instruction and the branch.
const GATEWAY_BYTES: u32 = 8;
/// The gateways that are declared in total.
const WORST_CASE_GATEWAYS: u32 = 8;

#[test]
fn nsc_window_is_pinned() {
    assert_eq!(NSC_VENEER_BASE, 0x0C02_7E00);
    assert_eq!(NSC_VENEER_LIMIT, 0x0C02_7FFF);
    assert_eq!(NSC_VENEER_LEN, 512);
}

#[test]
fn nsc_window_matches_the_sau_granule() {
    assert_eq!(NSC_VENEER_BASE & 0x1F, 0);
    assert_eq!(NSC_VENEER_LIMIT & 0x1F, 0x1F);
    assert_eq!(NSC_VENEER_LIMIT - NSC_VENEER_BASE + 1, NSC_VENEER_LEN);
}

#[test]
fn nsc_window_holds_the_worst_case_gateway_count() {
    let worst_case = WORST_CASE_GATEWAYS * GATEWAY_BYTES;
    assert!(
        NSC_VENEER_LEN >= worst_case,
        "the NSC window must hold every gateway the build can emit"
    );
}

#[test]
fn primask_bit0_clear_reports_interrupts_enabled() {
    assert!(interrupts_enabled_from_primask(0));
}

#[test]
fn primask_bit0_set_reports_interrupts_masked() {
    assert!(!interrupts_enabled_from_primask(1));
}

#[test]
fn primask_polarity_ignores_the_reserved_bits() {
    assert!(interrupts_enabled_from_primask(0xFFFF_FFFE));
    assert!(!interrupts_enabled_from_primask(u32::MAX));
}
