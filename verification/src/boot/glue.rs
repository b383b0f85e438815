//! The boot flow: read the seam, decide, apply, and report the hand-off.

use vstd::prelude::*;

use crate::boot::decision::decide;
use crate::boot::decision::decision;
use crate::boot::decision::BootDecision;
use crate::boot::decision::BootPlan;
use crate::boot::decision::WedgeReason;
use crate::boot::health::assess;
use crate::boot::health::image_health;
use crate::boot::health::ImageHealth;
use crate::boot::seam::bump_step;
use crate::boot::seam::outcome_step;
use crate::boot::seam::pending_step;
use crate::boot::seam::revert_arm_step;
use crate::boot::seam::BootCall;
use crate::boot::seam::BootFlash;
use crate::boot::seam::BootView;
use crate::boot::secwm::secwm_matches;
use crate::boot::secwm::secwm_ok;
use crate::image::verify::RootKey;
use crate::update::seam::other;
use crate::update::seam::BankId;
use crate::update::seam::FlashError;
use crate::update::seam::PendingFlag;
use crate::update::seam::UpdateOutcome;

verus! {

/// What the boot stage decided, for the entry to carry out.
#[derive(Debug, Clone, Copy, PartialEq, Eq, Structural)]
pub enum BootOutcome {
    /// Hand off to the secure application of the running bank.
    HandOff(BankId),
    /// The revert was armed. On the part the option load has reset it.
    Reverted,
    /// Halt.
    Wedge(WedgeReason),
}

/// The health of the running image.
pub open spec fn running_health(view: BootView, key: Seq<u8>) -> ImageHealth {
    image_health(view.descriptor, view.secure, view.ns, key)
}

/// The decision on what a seam shows.
pub open spec fn boot_decision(view: BootView, key: Seq<u8>) -> BootDecision {
    decision(view.running, view.pending, view.nvcnt, running_health(view, key))
}

/// The view after the partition and the watermarks were read.
pub open spec fn after_checks(pre: BootView) -> BootView {
    pre.answered(BootCall::RequirePartition(Ok(()))).answered(BootCall::ReadSecwm(Ok(pre.secwm)))
}

/// The view after the running bank was read too.
pub open spec fn after_running(pre: BootView) -> BootView {
    after_checks(pre).answered(BootCall::RunningBank(Ok(pre.running)))
}

/// The view after the pending record was read too.
pub open spec fn after_pending(pre: BootView) -> BootView {
    after_running(pre).answered(BootCall::PendingRead(Ok(pre.pending)))
}

/// The view after every read.
pub open spec fn after_reads(pre: BootView) -> BootView {
    after_pending(pre).answered(BootCall::NvcntRead(Ok(pre.nvcnt)))
}

/// A read failed: the flow stopped there, and nothing changed. The records are read
/// only where the watermarks are those of the layout.
pub open spec fn read_failed(pre: BootView, post: BootView) -> bool {
    let last = post.calls.last();
    ||| last matches BootCall::RequirePartition(r) && r is Err && post == pre.answered(last)
    ||| {
        &&& pre.partition
        &&& last matches BootCall::ReadSecwm(r) && r is Err && post == pre.answered(
            BootCall::RequirePartition(Ok(())),
        ).answered(last)
    }
    ||| {
        &&& pre.partition && secwm_matches(pre.secwm)
        &&& last matches BootCall::RunningBank(r) && r is Err && post == after_checks(pre).answered(
            last,
        )
    }
    ||| {
        &&& pre.partition && secwm_matches(pre.secwm)
        &&& last matches BootCall::PendingRead(r) && r is Err && post == after_running(pre).answered(
            last,
        )
    }
    ||| {
        &&& pre.partition && secwm_matches(pre.secwm)
        &&& last matches BootCall::NvcntRead(r) && r is Err && post == after_pending(pre).answered(
            last,
        )
    }
}

/// The view once a plan has cleared the outcome, where it does.
pub open spec fn outcome_cleared(pre: BootView, plan: BootPlan) -> BootView {
    if plan.clear_outcome {
        (BootView { outcome: UpdateOutcome::Clear, ..pre }).answered(
            BootCall::OutcomeClear(Ok(())),
        )
    } else {
        pre
    }
}

/// The view once a plan has cleared the pending record too, where it does.
pub open spec fn pending_cleared(pre: BootView, plan: BootPlan) -> BootView {
    let mid = outcome_cleared(pre, plan);
    if plan.clear_pending {
        (BootView { pending: PendingFlag::Clear, ..mid }).answered(
            BootCall::PendingWrite(PendingFlag::Clear, Ok(())),
        )
    } else {
        mid
    }
}

/// The bookkeeping of a plan: outcome, pending record, and last the counter. It
/// stops at the first step that fails.
pub open spec fn plan_step(
    pre: BootView,
    plan: BootPlan,
    post: BootView,
    r: Result<(), FlashError>,
) -> bool {
    match r {
        Ok(()) => match plan.advance_nvcnt {
            Some(value) => bump_step(pending_cleared(pre, plan), value, post, Ok(())),
            None => post == pending_cleared(pre, plan),
        },
        Err(e) => {
            ||| plan.clear_outcome && outcome_step(
                pre,
                UpdateOutcome::Clear,
                post,
                Err(e),
                BootCall::OutcomeClear(Err(e)),
            )
            ||| plan.clear_pending && pending_step(
                outcome_cleared(pre, plan),
                PendingFlag::Clear,
                post,
                Err(e),
            )
            ||| plan.advance_nvcnt matches Some(value) && bump_step(
                pending_cleared(pre, plan),
                value,
                post,
                Err(e),
            )
        },
    }
}

/// The bookkeeping of a revert: the outcome is recorded, then the swap is armed.
pub open spec fn revert_plan_step(pre: BootView, post: BootView, r: Result<(), FlashError>) -> bool {
    let noted = (BootView { outcome: UpdateOutcome::AutoReverted, ..pre }).answered(
        BootCall::OutcomeWrite(UpdateOutcome::AutoReverted, Ok(())),
    );
    match r {
        Ok(()) => revert_arm_step(noted, post, Ok(())),
        Err(e) => {
            ||| outcome_step(
                pre,
                UpdateOutcome::AutoReverted,
                post,
                Err(e),
                BootCall::OutcomeWrite(UpdateOutcome::AutoReverted, Err(e)),
            )
            ||| revert_arm_step(noted, post, Err(e))
        },
    }
}

/// One pass of the boot flow. A failing read or a wrong watermark wedges before an
/// image is trusted. A verified image boots even where its bookkeeping fails: the
/// next boot retries.
pub open spec fn run_step(pre: BootView, key: Seq<u8>, post: BootView, r: BootOutcome) -> bool {
    if r == BootOutcome::Wedge(WedgeReason::Unreadable) {
        read_failed(pre, post)
    } else if r == BootOutcome::Wedge(WedgeReason::SecwmMismatch) {
        pre.partition && !secwm_matches(pre.secwm) && post == after_checks(pre)
    } else {
        &&& pre.partition && secwm_matches(pre.secwm)
        &&& match boot_decision(pre, key) {
            BootDecision::Boot(plan) => {
                &&& r == BootOutcome::HandOff(pre.running)
                &&& exists|a: Result<(), FlashError>| #[trigger]
                    plan_step(after_reads(pre), plan, post, a)
            },
            BootDecision::Revert => {
                &&& r == BootOutcome::Reverted
                &&& exists|a: Result<(), FlashError>| #[trigger]
                    revert_plan_step(after_reads(pre), post, a)
            },
            BootDecision::Wedge(reason) => {
                &&& r == BootOutcome::Wedge(reason)
                &&& post == after_reads(pre)
            },
        }
    }
}

/// The outcome of a pass in which every read succeeds.
pub open spec fn steady_outcome(view: BootView, key: Seq<u8>) -> BootOutcome {
    if !view.partition {
        BootOutcome::Wedge(WedgeReason::Unreadable)
    } else if !secwm_matches(view.secwm) {
        BootOutcome::Wedge(WedgeReason::SecwmMismatch)
    } else {
        match boot_decision(view, key) {
            BootDecision::Boot(_) => BootOutcome::HandOff(view.running),
            BootDecision::Revert => BootOutcome::Reverted,
            BootDecision::Wedge(reason) => BootOutcome::Wedge(reason),
        }
    }
}

/// The counter once a plan has been applied.
pub open spec fn raised(plan: BootPlan, nvcnt: u32) -> u32 {
    match plan.advance_nvcnt {
        Some(value) => value,
        None => nvcnt,
    }
}

/// Runs the boot decision over the seam and applies its bookkeeping.
pub fn run<F>(flash: &mut F, root_key: &RootKey) -> (r: BootOutcome) where F: BootFlash
    requires
        old(flash).boot_wf(),
    ensures
        final(flash).boot_wf(),
        run_step(old(flash).boot(), root_key@, final(flash).boot(), r),
        old(flash).steady() ==> r == steady_outcome(old(flash).boot(), root_key@),
        old(flash).steady() && r is HandOff ==> {
            let plan = boot_decision(old(flash).boot(), root_key@)->Boot_0;
            let done = pending_cleared(after_reads(old(flash).boot()), plan);
            &&& final(flash).boot().pending == done.pending
            &&& final(flash).boot().outcome == done.outcome
            &&& old(flash).boot().room ==> final(flash).boot().nvcnt == raised(
                plan,
                old(flash).boot().nvcnt,
            )
        },
        final(flash).boot().nvcnt == old(flash).boot().nvcnt || {
            &&& r is HandOff
            &&& final(flash).boot().nvcnt == raised(
                boot_decision(old(flash).boot(), root_key@)->Boot_0,
                old(flash).boot().nvcnt,
            )
        },
        old(flash).steady() && r is Reverted ==> {
            &&& final(flash).boot().outcome == UpdateOutcome::AutoReverted
            &&& final(flash).boot().next == other(old(flash).boot().running)
        },
{
    match flash.require_partition() {
        Ok(u) => {
            assert(u == ());
        },
        Err(_) => return BootOutcome::Wedge(WedgeReason::Unreadable),
    }
    match flash.read_secwm() {
        Ok(readback) => {
            if !secwm_ok(&readback) {
                return BootOutcome::Wedge(WedgeReason::SecwmMismatch);
            }
        },
        Err(_) => return BootOutcome::Wedge(WedgeReason::Unreadable),
    }
    let running: BankId = match flash.running_bank() {
        Ok(bank) => bank,
        Err(_) => return BootOutcome::Wedge(WedgeReason::Unreadable),
    };
    let pending: PendingFlag = match flash.pending_read() {
        Ok(flag) => flag,
        Err(_) => return BootOutcome::Wedge(WedgeReason::Unreadable),
    };
    let nvcnt: u32 = match flash.nvcnt_read() {
        Ok(value) => value,
        Err(_) => return BootOutcome::Wedge(WedgeReason::Unreadable),
    };
    let health: ImageHealth = assess_running(flash, root_key);
    assert(flash.boot() == after_reads(old(flash).boot()));
    match decide(running, pending, nvcnt, health) {
        BootDecision::Boot(plan) => {
            let a = apply_plan(flash, &plan);
            assert(plan_step(after_reads(old(flash).boot()), plan, flash.boot(), a));
            BootOutcome::HandOff(running)
        },
        BootDecision::Revert => {
            let a = apply_revert(flash);
            assert(revert_plan_step(after_reads(old(flash).boot()), flash.boot(), a));
            BootOutcome::Reverted
        },
        BootDecision::Wedge(reason) => BootOutcome::Wedge(reason),
    }
}

/// Assesses the image of the running bank.
pub fn assess_running<F>(flash: &F, root_key: &RootKey) -> (r: ImageHealth) where F: BootFlash
    requires
        flash.boot_wf(),
    ensures
        r == running_health(flash.boot(), root_key@),
{
    let descriptor: &[u8] = flash.active_descriptor();
    let secure_band: &[u8] = flash.active_secure_band();
    let ns_band: &[u8] = flash.active_ns_band();
    assess(descriptor, secure_band, ns_band, root_key)
}

/// Applies a plan in its order, and stops at the first failure.
pub fn apply_plan<F>(flash: &mut F, plan: &BootPlan) -> (r: Result<(), FlashError>) where
    F: BootFlash,
    requires
        old(flash).boot_wf(),
    ensures
        final(flash).boot_wf(),
        plan_step(old(flash).boot(), *plan, final(flash).boot(), r),
        old(flash).steady() && old(flash).boot().partition ==> match plan.advance_nvcnt {
            Some(value) => {
                &&& bump_step(
                    pending_cleared(old(flash).boot(), *plan),
                    value,
                    final(flash).boot(),
                    r,
                )
                &&& value == old(flash).boot().nvcnt || value > old(flash).boot().nvcnt
                    && old(flash).boot().room ==> r is Ok
            },
            None => r is Ok,
        },
{
    if plan.clear_outcome {
        match flash.update_outcome_clear() {
            Ok(u) => {
                assert(u == ());
            },
            Err(e) => return Err(e),
        }
    }
    if plan.clear_pending {
        match flash.pending_write(PendingFlag::Clear) {
            Ok(u) => {
                assert(u == ());
            },
            Err(e) => return Err(e),
        }
    }
    match plan.advance_nvcnt {
        Some(value) => match flash.nvcnt_bump(value) {
            Ok(u) => {
                assert(u == ());
                Ok(())
            },
            Err(e) => Err(e),
        },
        None => Ok(()),
    }
}

/// Records the revert, then arms the swap back. The counter is never touched.
pub fn apply_revert<F>(flash: &mut F) -> (r: Result<(), FlashError>) where F: BootFlash
    requires
        old(flash).boot_wf(),
    ensures
        final(flash).boot_wf(),
        revert_plan_step(old(flash).boot(), final(flash).boot(), r),
        old(flash).steady() && old(flash).boot().partition ==> r is Ok,
{
    match flash.update_outcome_write(UpdateOutcome::AutoReverted) {
        Ok(u) => {
            assert(u == ());
        },
        Err(e) => return Err(e),
    }
    match flash.revert_swap() {
        Ok(u) => {
            assert(u == ());
            Ok(())
        },
        Err(e) => Err(e),
    }
}

} // verus!
