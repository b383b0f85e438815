//! The boot decision.
//!
//! [`decide`] maps the running bank, the pending record, the anti-rollback counter
//! and the health of the running image to exactly one decision. With no swap
//! pending the running bank is confirmed. With the armed bank running a confirm is
//! owed, or a revert. With the other bank running the swap never took effect, or
//! was already reverted.

use vstd::prelude::*;

use crate::boot::health::ImageHealth;
use crate::update::seam::BankId;
use crate::update::seam::PendingFlag;

verus! {

/// Why the boot stage refuses to hand off: no image is booted, no swap is armed.
#[derive(Debug, Clone, Copy, PartialEq, Eq, Structural)]
pub enum WedgeReason {
    /// The running bank did not verify and there is no bank to fall back to.
    NoBootableImage,
    /// The running bank verified, below the anti-rollback floor.
    RolledBack,
    /// The watermarks do not match the layout.
    SecwmMismatch,
    /// A record or a register was unreadable, or the partition was not sane.
    Unreadable,
}

/// The bookkeeping before a hand-off, applied in field order.
#[derive(Debug, Clone, Copy, PartialEq, Eq, Structural)]
pub struct BootPlan {
    /// Clear the outcome record: a fresh confirm supersedes an older revert.
    pub clear_outcome: bool,
    /// Clear the pending record: no confirm is owed any more.
    pub clear_pending: bool,
    /// Raise the anti-rollback counter to this value, last.
    pub advance_nvcnt: Option<u32>,
}

impl Default for BootPlan {
    fn default() -> (r: BootPlan)
        ensures
            !r.clear_outcome,
            !r.clear_pending,
            r.advance_nvcnt is None,
    {
        BootPlan { clear_outcome: false, clear_pending: false, advance_nvcnt: None }
    }
}

/// What the boot stage does.
#[derive(Debug, Clone, Copy, PartialEq, Eq, Structural)]
pub enum BootDecision {
    /// Hand off to the running bank after the plan.
    Boot(BootPlan),
    /// Arm the swap back and record the revert. Never raises the counter.
    Revert,
    /// Halt.
    Wedge(WedgeReason),
}

/// The counter of an image that verified at or above the floor.
pub open spec fn bootable(health: ImageHealth, nvcnt: u32) -> Option<u32> {
    match health {
        ImageHealth::Verified { security_counter } => if security_counter >= nvcnt {
            Some(security_counter)
        } else {
            None
        },
        ImageHealth::Rejected => None,
    }
}

/// Why an image is not bootable.
pub open spec fn wedge_of(health: ImageHealth) -> WedgeReason {
    match health {
        ImageHealth::Rejected => WedgeReason::NoBootableImage,
        ImageHealth::Verified { .. } => WedgeReason::RolledBack,
    }
}

/// The counter to advance to, where the stored one lags.
pub open spec fn owed(counter: u32, nvcnt: u32) -> Option<u32> {
    if counter > nvcnt {
        Some(counter)
    } else {
        None
    }
}

/// The boot decision.
pub open spec fn decision(
    running: BankId,
    pending: PendingFlag,
    nvcnt: u32,
    health: ImageHealth,
) -> BootDecision {
    let confirm_owed = pending == PendingFlag::Armed(running);
    match bootable(health, nvcnt) {
        Some(counter) => BootDecision::Boot(
            BootPlan {
                clear_outcome: confirm_owed,
                clear_pending: pending is Armed,
                advance_nvcnt: if confirm_owed {
                    Some(counter)
                } else {
                    owed(counter, nvcnt)
                },
            },
        ),
        None => if confirm_owed {
            BootDecision::Revert
        } else {
            BootDecision::Wedge(wedge_of(health))
        },
    }
}

/// The advance owed when a verified image boots: a confirmed bank above the stored
/// counter means that a confirm was cut before its last step.
fn advance_owed(security_counter: u32, nvcnt: u32) -> (r: Option<u32>)
    ensures
        r == owed(security_counter, nvcnt),
{
    if security_counter > nvcnt {
        Some(security_counter)
    } else {
        None
    }
}

/// Decides what the boot stage does.
pub fn decide(running: BankId, pending: PendingFlag, nvcnt: u32, health: ImageHealth) -> (r:
    BootDecision)
    ensures
        r == decision(running, pending, nvcnt, health),
{
    match pending {
        PendingFlag::Clear => decide_no_pending(Ghost(running), nvcnt, health),
        PendingFlag::Armed(target) => if running == target {
            decide_swap_applied(Ghost(running), nvcnt, health)
        } else {
            decide_swap_never_applied(Ghost(running), Ghost(target), nvcnt, health)
        },
    }
}

/// No swap pending: the running bank is the confirmed bank.
fn decide_no_pending(
    Ghost(running): Ghost<BankId>,
    nvcnt: u32,
    health: ImageHealth,
) -> (r: BootDecision)
    ensures
        r == decision(running, PendingFlag::Clear, nvcnt, health),
{
    match health {
        ImageHealth::Rejected => BootDecision::Wedge(WedgeReason::NoBootableImage),
        ImageHealth::Verified { security_counter } => if security_counter < nvcnt {
            BootDecision::Wedge(WedgeReason::RolledBack)
        } else {
            BootDecision::Boot(
                BootPlan {
                    clear_outcome: false,
                    clear_pending: false,
                    advance_nvcnt: advance_owed(security_counter, nvcnt),
                },
            )
        },
    }
}

/// The armed bank runs: a confirm is owed, or a revert. The revert never raises the
/// counter, so the old image is not read as a downgrade.
fn decide_swap_applied(
    Ghost(running): Ghost<BankId>,
    nvcnt: u32,
    health: ImageHealth,
) -> (r: BootDecision)
    ensures
        r == decision(running, PendingFlag::Armed(running), nvcnt, health),
{
    match health {
        ImageHealth::Rejected => BootDecision::Revert,
        ImageHealth::Verified { security_counter } => if security_counter < nvcnt {
            BootDecision::Revert
        } else {
            BootDecision::Boot(
                BootPlan {
                    clear_outcome: true,
                    clear_pending: true,
                    advance_nvcnt: Some(security_counter),
                },
            )
        },
    }
}

/// The other bank runs: the stale record is cleared, the outcome is kept.
fn decide_swap_never_applied(
    Ghost(running): Ghost<BankId>,
    Ghost(target): Ghost<BankId>,
    nvcnt: u32,
    health: ImageHealth,
) -> (r: BootDecision)
    requires
        running != target,
    ensures
        r == decision(running, PendingFlag::Armed(target), nvcnt, health),
{
    match health {
        ImageHealth::Rejected => BootDecision::Wedge(WedgeReason::NoBootableImage),
        ImageHealth::Verified { security_counter } => if security_counter < nvcnt {
            BootDecision::Wedge(WedgeReason::RolledBack)
        } else {
            BootDecision::Boot(
                BootPlan {
                    clear_outcome: false,
                    clear_pending: true,
                    advance_nvcnt: advance_owed(security_counter, nvcnt),
                },
            )
        },
    }
}

} // verus!
