//! What holds of the boot stage as a whole.
//!
//! The laws are stated over [`run_step`], which every pass of the boot flow meets,
//! and over the decision.

use vstd::prelude::*;

use crate::boot::decision::bootable;
use crate::boot::decision::decision;
use crate::boot::decision::BootDecision;
use crate::boot::decision::BootPlan;
use crate::boot::decision::WedgeReason;
use crate::boot::glue::after_reads;
use crate::boot::glue::boot_decision;
use crate::boot::glue::pending_cleared;
use crate::boot::glue::plan_step;
use crate::boot::glue::raised;
use crate::boot::glue::revert_plan_step;
use crate::boot::glue::run_step;
use crate::boot::glue::running_health;
use crate::boot::glue::steady_outcome;
use crate::boot::glue::BootOutcome;
use crate::boot::health::carved;
use crate::boot::health::image_health;
use crate::boot::health::ImageHealth;
use crate::boot::seam::bump_step;
use crate::boot::seam::outcome_step;
use crate::boot::seam::pending_step;
use crate::boot::seam::revert_arm_step;
use crate::boot::seam::BootCall;
use crate::boot::seam::BootView;
use crate::boot::secwm::secwm_matches;
use crate::boot::secwm::window_of;
use crate::boot::secwm::SecwmReadback;
use crate::boot::secwm::SecwmWindow;
use crate::image::format::le32;
use crate::image::laws::an_accepted_image_is_authentic;
use crate::image::verify::image_check;
use crate::update::machine::accept_step;
use crate::update::machine::stored_file;
use crate::update::machine::UpdateState;
use crate::update::machine::UpdateView;
use crate::update::machine::FRAME_LEN;
use crate::update::seam::other;
use crate::update::seam::BankId;
use crate::update::seam::FlashError;
use crate::update::seam::PendingFlag;
use crate::update::seam::UpdateOutcome;

verus! {

/// With the armed bank running, an image that did not verify, or verified below the
/// stored counter, is reverted, whatever the counter: the old bank is intact, so the
/// device never halts here.
pub proof fn an_unbootable_new_bank_is_reverted(running: BankId, nvcnt: u32, health: ImageHealth)
    requires
        health == ImageHealth::Rejected || (health matches ImageHealth::Verified {
            security_counter,
        } && security_counter < nvcnt),
    ensures
        decision(running, PendingFlag::Armed(running), nvcnt, health) == BootDecision::Revert,
{
}

/// An image that verified at or above the stored counter boots, whatever the records
/// say. A pending record is cleared. The outcome is cleared where the armed bank runs,
/// and the counter is raised to that of the image where it is owed.
pub proof fn an_image_at_or_above_the_floor_boots(
    running: BankId,
    pending: PendingFlag,
    nvcnt: u32,
    counter: u32,
)
    requires
        counter >= nvcnt,
    ensures
        decision(
            running,
            pending,
            nvcnt,
            ImageHealth::Verified { security_counter: counter },
        ) matches BootDecision::Boot(plan) && {
            &&& plan.clear_pending <==> pending != PendingFlag::Clear
            &&& plan.clear_outcome <==> pending == PendingFlag::Armed(running)
            &&& pending == PendingFlag::Armed(running) ==> plan.advance_nvcnt == Some(counter)
            &&& pending != PendingFlag::Armed(running) && counter > nvcnt ==> plan.advance_nvcnt
                == Some(counter)
            &&& pending != PendingFlag::Armed(running) && counter == nvcnt ==> plan.advance_nvcnt
                == None::<u32>
        },
{
}

/// Without a swap to take back, an image that cannot boot halts the device, and the
/// reason tells a bad image from an old one.
pub proof fn an_unbootable_confirmed_bank_wedges(
    running: BankId,
    pending: PendingFlag,
    nvcnt: u32,
    counter: u32,
)
    requires
        pending == PendingFlag::Clear || pending == PendingFlag::Armed(
            if running == BankId::Bank1 {
                BankId::Bank2
            } else {
                BankId::Bank1
            },
        ),
    ensures
        decision(running, pending, nvcnt, ImageHealth::Rejected) == BootDecision::Wedge(
            WedgeReason::NoBootableImage,
        ),
        counter < nvcnt ==> decision(
            running,
            pending,
            nvcnt,
            ImageHealth::Verified { security_counter: counter },
        ) == BootDecision::Wedge(WedgeReason::RolledBack),
{
}

/// A hand-off, and a revert too, happens only where the watermark of either bank starts
/// at page 0 and ends at page 19, in the dual-bank secure posture.
pub proof fn nothing_boots_past_a_wrong_watermark(
    pre: BootView,
    key: Seq<u8>,
    post: BootView,
    r: BootOutcome,
)
    requires
        run_step(pre, key, post, r),
        r is HandOff || r == BootOutcome::Reverted,
    ensures
        pre.partition,
        pre.secwm.bank1.start == 0,
        pre.secwm.bank1.end == 19,
        pre.secwm.bank2.start == 0,
        pre.secwm.bank2.end == 19,
{
}

/// The watermark check passes exactly where all four bounds are right, and is decided
/// for each bank alone.
pub proof fn both_banks_are_checked(readback: SecwmReadback, other_end: u8)
    ensures
        secwm_matches(readback) <==> {
            &&& readback.bank1.start == 0
            &&& readback.bank1.end == 19
            &&& readback.bank2.start == 0
            &&& readback.bank2.end == 19
        },
        secwm_matches(readback) && other_end != 19 ==> {
            &&& !secwm_matches(
                SecwmReadback {
                    bank1: SecwmWindow { end: other_end, ..readback.bank1 },
                    ..readback
                },
            )
            &&& !secwm_matches(
                SecwmReadback {
                    bank2: SecwmWindow { end: other_end, ..readback.bank2 },
                    ..readback
                },
            )
        },
{
}

/// A watermark word carries the first page in its bits 0 to 4 and the last in its bits
/// 16 to 20. The other bits do not matter.
pub proof fn a_watermark_word_carries_two_pages(
    start: u32,
    low: u32,
    end: u32,
    high: u32,
    word: u32,
)
    requires
        start < 32,
        end < 32,
        low < 2048,
        high < 2048,
        word == start + 32 * low + 0x1_0000 * end + 0x20_0000 * high,
    ensures
        window_of(word).start == start,
        window_of(word).end == end,
{
    assert(word % 32 == start) by (nonlinear_arith)
        requires
            start < 32,
            word == start + 32 * low + 0x1_0000 * end + 0x20_0000 * high,
    ;
    let rest = end + 32 * high;
    assert(word / 0x1_0000 == rest) by (nonlinear_arith)
        requires
            start < 32,
            low < 2048,
            rest == end + 32 * high,
            word == start + 32 * low + 0x1_0000 * end + 0x20_0000 * high,
    ;
    assert(rest % 32 == end) by (nonlinear_arith)
        requires
            end < 32,
            rest == end + 32 * high,
    ;
}

/// What one pass reports says what it found: a hand-off goes to the running bank and
/// means a verified image at or above the stored counter; a revert means that the armed
/// bank runs an image that is neither; each halt has its own reason.
pub proof fn the_outcome_of_a_pass_tells_what_was_found(
    pre: BootView,
    key: Seq<u8>,
    post: BootView,
    r: BootOutcome,
)
    requires
        run_step(pre, key, post, r),
    ensures
        ({
            let health = image_health(pre.descriptor, pre.secure, pre.ns, key);
            let fresh = health matches ImageHealth::Verified { security_counter }
                && security_counter >= pre.nvcnt;
            let stale = health matches ImageHealth::Verified { security_counter }
                && security_counter < pre.nvcnt;
            let confined = {
                &&& pre.secwm.bank1.start == 0 && pre.secwm.bank1.end == 19
                &&& pre.secwm.bank2.start == 0 && pre.secwm.bank2.end == 19
            };
            match r {
                BootOutcome::HandOff(bank) => bank == pre.running && confined && fresh,
                BootOutcome::Reverted => {
                    &&& confined && !fresh
                    &&& pre.pending == PendingFlag::Armed(pre.running)
                },
                BootOutcome::Wedge(WedgeReason::NoBootableImage) => {
                    &&& confined && health == ImageHealth::Rejected
                    &&& pre.pending != PendingFlag::Armed(pre.running)
                },
                BootOutcome::Wedge(WedgeReason::RolledBack) => {
                    &&& confined && stale
                    &&& pre.pending != PendingFlag::Armed(pre.running)
                },
                BootOutcome::Wedge(WedgeReason::SecwmMismatch) => pre.partition && !confined,
                BootOutcome::Wedge(WedgeReason::Unreadable) => {
                    &&& post.calls.len() > pre.calls.len()
                    &&& match post.calls.last() {
                        BootCall::RequirePartition(a) => a is Err,
                        BootCall::ReadSecwm(a) => a is Err && pre.partition,
                        BootCall::RunningBank(a) => a is Err && pre.partition && confined,
                        BootCall::PendingRead(a) => a is Err && pre.partition && confined,
                        BootCall::NvcntRead(a) => a is Err && pre.partition && confined,
                        _ => false,
                    }
                },
            }
        }),
{
}

/// What a pass in which every read succeeds must report, case by case.
pub proof fn a_steady_pass_reports_what_it_must(view: BootView, key: Seq<u8>, counter: u32)
    ensures
        ({
            let health = image_health(view.descriptor, view.secure, view.ns, key);
            let confined = {
                &&& view.secwm.bank1.start == 0 && view.secwm.bank1.end == 19
                &&& view.secwm.bank2.start == 0 && view.secwm.bank2.end == 19
            };
            let sane = view.partition && confined;
            let verified = health == (ImageHealth::Verified { security_counter: counter });
            let armed = view.pending == PendingFlag::Armed(view.running);
            let r = steady_outcome(view, key);
            &&& !view.partition ==> r == BootOutcome::Wedge(WedgeReason::Unreadable)
            &&& view.partition && !confined ==> r == BootOutcome::Wedge(
                WedgeReason::SecwmMismatch,
            )
            &&& sane && verified && counter >= view.nvcnt ==> r == BootOutcome::HandOff(
                view.running,
            )
            &&& sane && verified && counter < view.nvcnt && armed ==> r == BootOutcome::Reverted
            &&& sane && verified && counter < view.nvcnt && !armed ==> r == BootOutcome::Wedge(
                WedgeReason::RolledBack,
            )
            &&& sane && health == ImageHealth::Rejected && armed ==> r == BootOutcome::Reverted
            &&& sane && health == ImageHealth::Rejected && !armed ==> r == BootOutcome::Wedge(
                WedgeReason::NoBootableImage,
            )
        }),
{
}

/// A bank that holds header, payload and signature, each at its place, is as healthy as
/// the file they make: the descriptor starts with the header and the signature, the two
/// bands with the payload, and the header declares the payload's length.
pub proof fn a_bank_is_as_healthy_as_its_file(
    header: Seq<u8>,
    payload: Seq<u8>,
    sig: Seq<u8>,
    descriptor_tail: Seq<u8>,
    band_tail: Seq<u8>,
    secure: Seq<u8>,
    ns: Seq<u8>,
    key: Seq<u8>,
)
    requires
        header.len() == 24,
        sig.len() == 64,
        secure + ns == payload + band_tail,
        payload.len() == header[18] + 0x100 * header[19] + 0x1_0000 * header[20] + 0x100_0000
            * header[21],
        88 + payload.len() <= usize::MAX,
    ensures
        ({
            let descriptor = header + sig + descriptor_tail;
            match image_check(header + payload + sig, key) {
                Ok(fields) => image_health(descriptor, secure, ns, key) == (
                ImageHealth::Verified { security_counter: fields.security_counter }),
                Err(_) => image_health(descriptor, secure, ns, key) == ImageHealth::Rejected,
            }
        }),
{
    let descriptor = header + sig + descriptor_tail;
    let n = payload.len() as int;
    assert(le32(descriptor, 18) == n);
    assert((secure + ns).take(n) =~= payload);
    assert((secure + ns).len() == payload.len() + band_tail.len());
    assert(descriptor.take(24) =~= header);
    assert(descriptor.subrange(24, 88) =~= sig);
}

/// A bank is rejected where the descriptor cannot hold a header and a signature, or the
/// header declares more payload than the two bands hold.
pub proof fn a_bank_that_cannot_hold_its_file_is_rejected(
    descriptor: Seq<u8>,
    secure: Seq<u8>,
    ns: Seq<u8>,
    key: Seq<u8>,
)
    requires
        descriptor.len() < 88 || descriptor[18] + 0x100 * descriptor[19] + 0x1_0000 * descriptor[20]
            + 0x100_0000 * descriptor[21] > secure.len() + ns.len(),
    ensures
        image_health(descriptor, secure, ns, key) == ImageHealth::Rejected,
{
}

/// A healthy bank holds an accepted file: the first 24 bytes of the descriptor, as much
/// of the bands as they declare, and the next 64 bytes of the descriptor.
pub proof fn a_healthy_bank_holds_an_accepted_file(
    descriptor: Seq<u8>,
    secure: Seq<u8>,
    ns: Seq<u8>,
    key: Seq<u8>,
    counter: u32,
)
    requires
        image_health(descriptor, secure, ns, key) == (ImageHealth::Verified {
            security_counter: counter,
        }),
    ensures
        ({
            let n = descriptor[18] + 0x100 * descriptor[19] + 0x1_0000 * descriptor[20]
                + 0x100_0000 * descriptor[21];
            &&& descriptor.len() >= 88
            &&& n <= secure.len() + ns.len()
            &&& image_check(
                descriptor.subrange(0, 24) + (secure + ns).subrange(0, n) + descriptor.subrange(
                    24,
                    88,
                ),
                key,
            ) matches Ok(fields) && fields.security_counter == counter
            &&& counter == descriptor[14] + 0x100 * descriptor[15] + 0x1_0000 * descriptor[16]
                + 0x100_0000 * descriptor[17]
        }),
{
    let n = descriptor[18] + 0x100 * descriptor[19] + 0x1_0000 * descriptor[20] + 0x100_0000
        * descriptor[21];
    let file = descriptor.subrange(0, 24) + (secure + ns).subrange(0, n) + descriptor.subrange(
        24,
        88,
    );
    assert(carved(descriptor, secure, ns, n) =~= file);
    an_accepted_image_is_authentic(file, key);
}

/// A plan that was carried out did what it lists and nothing else: the outcome, the
/// record, and the counter, in this order.
pub proof fn a_plan_is_carried_out_as_listed(pre: BootView, plan: BootPlan, post: BootView)
    requires
        plan_step(pre, plan, post, Ok(())),
    ensures
        plan.clear_outcome ==> post.outcome == UpdateOutcome::Clear,
        !plan.clear_outcome ==> post.outcome == pre.outcome,
        plan.clear_pending ==> post.pending == PendingFlag::Clear,
        !plan.clear_pending ==> post.pending == pre.pending,
        plan.advance_nvcnt matches Some(value) ==> post.nvcnt == value && value >= pre.nvcnt,
        plan.advance_nvcnt is None ==> post.nvcnt == pre.nvcnt && post.room == pre.room,
        post.next == pre.next,
        post.running == pre.running,
        post.descriptor == pre.descriptor,
        post.secure == pre.secure,
        post.ns == pre.ns,
        post.secwm == pre.secwm,
        post.partition == pre.partition,
        plan.clear_outcome && plan.clear_pending ==> (plan.advance_nvcnt matches Some(value)
            ==> post.calls == pre.calls.push(BootCall::OutcomeClear(Ok(()))).push(
            BootCall::PendingWrite(PendingFlag::Clear, Ok(())),
        ).push(BootCall::NvcntBump(value, Ok(())))),
        !plan.clear_outcome && !plan.clear_pending && plan.advance_nvcnt is None ==> post == pre,
{
}

/// A plan that failed left every later step undone: the counter is raised only with the
/// record cleared, and no swap is armed.
pub proof fn a_failed_plan_stops_where_it_failed(
    pre: BootView,
    plan: BootPlan,
    post: BootView,
    e: FlashError,
)
    requires
        plan_step(pre, plan, post, Err(e)),
    ensures
        post.next == pre.next,
        post.running == pre.running,
        post.nvcnt >= pre.nvcnt,
        post.nvcnt != pre.nvcnt ==> plan.advance_nvcnt == Some(post.nvcnt) && post.calls.last()
            == BootCall::NvcntBump(post.nvcnt, Err(e)),
        post.nvcnt != pre.nvcnt && plan.clear_pending ==> post.pending == PendingFlag::Clear,
        post.pending == pre.pending || post.pending == PendingFlag::Clear,
        post.outcome == pre.outcome || post.outcome == UpdateOutcome::Clear,
        match post.calls.last() {
            BootCall::OutcomeClear(a) => plan.clear_outcome && a == Err::<(), FlashError>(e),
            BootCall::PendingWrite(flag, a) => {
                plan.clear_pending && flag == PendingFlag::Clear && a == Err::<(), FlashError>(e)
            },
            BootCall::NvcntBump(value, a) => {
                plan.advance_nvcnt == Some(value) && a == Err::<(), FlashError>(e)
            },
            _ => false,
        },
{
}

/// A revert that was carried out records the outcome first, arms the other bank for the
/// next reset, and leaves the counter and the pending record alone.
pub proof fn a_revert_is_carried_out(pre: BootView, post: BootView)
    requires
        revert_plan_step(pre, post, Ok(())),
    ensures
        post.outcome == UpdateOutcome::AutoReverted,
        post.next != pre.running,
        post.nvcnt == pre.nvcnt,
        post.pending == pre.pending,
        post.running == pre.running,
        post.descriptor == pre.descriptor,
        post.secure == pre.secure,
        post.ns == pre.ns,
        post.calls == pre.calls.push(
            BootCall::OutcomeWrite(UpdateOutcome::AutoReverted, Ok(())),
        ).push(BootCall::RevertSwap(Ok(()))),
{
}

/// A revert that failed raised no counter, and armed the other bank or none. Where the
/// swap was asked for, the outcome had been recorded.
pub proof fn a_failed_revert_raises_nothing(pre: BootView, post: BootView, e: FlashError)
    requires
        revert_plan_step(pre, post, Err(e)),
    ensures
        post.nvcnt == pre.nvcnt,
        post.running == pre.running,
        post.next == pre.next || post.next != pre.running,
        post.next != pre.next ==> post.outcome == UpdateOutcome::AutoReverted && post.pending
            == pre.pending,
        match post.calls.last() {
            BootCall::OutcomeWrite(outcome, a) => {
                &&& outcome == UpdateOutcome::AutoReverted && a == Err::<(), FlashError>(e)
                &&& post.next == pre.next
            },
            BootCall::RevertSwap(a) => {
                a == Err::<(), FlashError>(e) && post.outcome == UpdateOutcome::AutoReverted
            },
            _ => false,
        },
{
}

/// Before it decides, a pass reads the posture, the watermarks, the running bank, the
/// record and the counter, in this order, and changes nothing by it.
pub proof fn a_pass_reads_before_it_decides(pre: BootView)
    ensures
        after_reads(pre).calls == pre.calls.push(BootCall::RequirePartition(Ok(()))).push(
            BootCall::ReadSecwm(Ok(pre.secwm)),
        ).push(BootCall::RunningBank(Ok(pre.running))).push(
            BootCall::PendingRead(Ok(pre.pending)),
        ).push(BootCall::NvcntRead(Ok(pre.nvcnt))),
        after_reads(pre) == (BootView { calls: after_reads(pre).calls, ..pre }),
{
}

/// What the bookkeeping of a plan aims at.
pub proof fn a_plan_aims_at_what_it_lists(pre: BootView, plan: BootPlan, nvcnt: u32)
    ensures
        plan.clear_outcome ==> pending_cleared(pre, plan).outcome == UpdateOutcome::Clear,
        !plan.clear_outcome ==> pending_cleared(pre, plan).outcome == pre.outcome,
        plan.clear_pending ==> pending_cleared(pre, plan).pending == PendingFlag::Clear,
        !plan.clear_pending ==> pending_cleared(pre, plan).pending == pre.pending,
        pending_cleared(pre, plan).nvcnt == pre.nvcnt,
        pending_cleared(pre, plan).next == pre.next,
        plan.advance_nvcnt == Some(raised(plan, nvcnt)) || plan.advance_nvcnt is None && raised(
            plan,
            nvcnt,
        ) == nvcnt,
{
}

/// The records that the boot stage writes read back as written, and a write of one
/// leaves the other, the counter and the swap alone.
pub proof fn a_boot_record_reads_back(
    pre: BootView,
    outcome: UpdateOutcome,
    flag: PendingFlag,
    value: u32,
    post: BootView,
    r: Result<(), FlashError>,
    call: BootCall,
)
    ensures
        outcome_step(pre, outcome, post, Ok(()), call) ==> {
            &&& post.outcome == outcome && post.pending == pre.pending
            &&& post.nvcnt == pre.nvcnt && post.next == pre.next && post.running == pre.running
        },
        pending_step(pre, flag, post, Ok(())) ==> {
            &&& post.pending == flag && post.outcome == pre.outcome
            &&& post.nvcnt == pre.nvcnt && post.next == pre.next && post.running == pre.running
        },
        bump_step(pre, value, post, Ok(())) ==> {
            &&& post.nvcnt == value && value >= pre.nvcnt
            &&& post.pending == pre.pending && post.outcome == pre.outcome && post.next == pre.next
        },
        bump_step(pre, value, post, r) ==> {
            &&& value < pre.nvcnt ==> r is Err && post.nvcnt == pre.nvcnt
            &&& value == pre.nvcnt ==> post.nvcnt == pre.nvcnt && post.room == pre.room
        },
        revert_arm_step(pre, post, Ok(())) ==> {
            &&& post.next != pre.running && post.running == pre.running
            &&& post.nvcnt == pre.nvcnt && post.pending == pre.pending && post.outcome
                == pre.outcome
        },
{
}

/// A revert is decided only with the armed bank running, on an image that did not
/// verify or is below the floor.
pub proof fn a_revert_is_justified(
    running: BankId,
    pending: PendingFlag,
    nvcnt: u32,
    health: ImageHealth,
)
    requires
        decision(running, pending, nvcnt, health) == BootDecision::Revert,
    ensures
        pending == PendingFlag::Armed(running),
        bootable(health, nvcnt) is None,
{
}

/// The counter is only ever advanced to the counter of the verified running image,
/// which is not below it.
pub proof fn an_advance_is_justified(
    running: BankId,
    pending: PendingFlag,
    nvcnt: u32,
    health: ImageHealth,
    plan: BootPlan,
    value: u32,
)
    requires
        decision(running, pending, nvcnt, health) == BootDecision::Boot(plan),
        plan.advance_nvcnt == Some(value),
    ensures
        health == (ImageHealth::Verified { security_counter: value }),
        value >= nvcnt,
{
}

/// No pass both arms a revert and raises the counter, whatever fails in it: a bank
/// cannot gain a floor and then be reverted away.
pub proof fn a_pass_never_both_reverts_and_raises(
    pre: BootView,
    key: Seq<u8>,
    post: BootView,
    r: BootOutcome,
)
    requires
        run_step(pre, key, post, r),
    ensures
        post.nvcnt >= pre.nvcnt,
        post.next != pre.next ==> r == BootOutcome::Reverted && post.nvcnt == pre.nvcnt,
        post.nvcnt != pre.nvcnt ==> {
            &&& r == BootOutcome::HandOff(pre.running)
            &&& post.next == pre.next
            &&& running_health(pre, key) == (ImageHealth::Verified { security_counter: post.nvcnt })
        },
{
}

/// A hand-off goes to the running bank, and only with sane isolation and a verified
/// image at or above the floor.
pub proof fn only_a_verified_image_is_handed_off(
    pre: BootView,
    key: Seq<u8>,
    post: BootView,
    bank: BankId,
)
    requires
        run_step(pre, key, post, BootOutcome::HandOff(bank)),
    ensures
        bank == pre.running,
        pre.partition,
        secwm_matches(pre.secwm),
        bootable(running_health(pre, key), pre.nvcnt) is Some,
{
}

/// A wedge changes nothing: no record, no counter, no swap.
pub proof fn a_wedge_changes_nothing(
    pre: BootView,
    key: Seq<u8>,
    post: BootView,
    r: BootOutcome,
)
    requires
        run_step(pre, key, post, r),
        r is Wedge,
    ensures
        post == (BootView { calls: post.calls, ..pre }),
{
}

/// A confirmed image at the stored counter boots without a single write.
pub proof fn a_steady_boot_writes_nothing(
    pre: BootView,
    key: Seq<u8>,
    post: BootView,
    bank: BankId,
)
    requires
        run_step(pre, key, post, BootOutcome::HandOff(bank)),
        pre.pending == PendingFlag::Clear,
        running_health(pre, key) == (ImageHealth::Verified { security_counter: pre.nvcnt }),
    ensures
        post == after_reads(pre),
{
}

/// The counter is raised last: whenever a confirm has raised it, the pending record
/// is clear.
pub proof fn a_confirm_raises_the_counter_last(
    pre: BootView,
    key: Seq<u8>,
    post: BootView,
    r: BootOutcome,
)
    requires
        run_step(pre, key, post, r),
        post.nvcnt != pre.nvcnt,
    ensures
        post.pending == PendingFlag::Clear,
{
}

/// A confirm that was cut or failed anywhere is completed by the next pass in which
/// nothing fails: the new bank boots, no confirm is owed, and the counter is that of
/// its image.
pub proof fn a_cut_confirm_is_completed(
    pre: BootView,
    key: Seq<u8>,
    counter: u32,
    plan: BootPlan,
    cut: Result<(), FlashError>,
    mid: BootView,
    post: BootView,
)
    requires
        pre.pending == PendingFlag::Armed(pre.running),
        bootable(running_health(pre, key), pre.nvcnt) == Some(counter),
        boot_decision(pre, key) == BootDecision::Boot(plan),
        plan_step(after_reads(pre), plan, mid, cut),
        boot_decision(mid, key) is Boot,
        plan_step(after_reads(mid), boot_decision(mid, key)->Boot_0, post, Ok(())),
    ensures
        post.running == pre.running,
        post.pending == PendingFlag::Clear,
        post.nvcnt == counter,
{
}

/// After a confirm that was cut or failed anywhere the next pass still boots the new
/// bank.
pub proof fn a_cut_confirm_still_boots(
    pre: BootView,
    key: Seq<u8>,
    plan: BootPlan,
    cut: Result<(), FlashError>,
    mid: BootView,
)
    requires
        pre.pending == PendingFlag::Armed(pre.running),
        boot_decision(pre, key) == BootDecision::Boot(plan),
        plan_step(after_reads(pre), plan, mid, cut),
    ensures
        boot_decision(mid, key) is Boot,
        mid.running == pre.running,
        mid.next == pre.next,
{
}

/// What the pass after a cut confirm decides is the rest of the confirm: it leaves no
/// confirm owed, and the counter at that of the image.
pub proof fn a_cut_confirm_leaves_the_rest_to_do(
    pre: BootView,
    key: Seq<u8>,
    counter: u32,
    plan: BootPlan,
    cut: Result<(), FlashError>,
    mid: BootView,
)
    requires
        pre.pending == PendingFlag::Armed(pre.running),
        bootable(running_health(pre, key), pre.nvcnt) == Some(counter),
        boot_decision(pre, key) == BootDecision::Boot(plan),
        plan_step(after_reads(pre), plan, mid, cut),
    ensures
        boot_decision(mid, key) matches BootDecision::Boot(rest) && {
            &&& pending_cleared(after_reads(mid), rest).pending == PendingFlag::Clear
            &&& raised(rest, mid.nvcnt) == counter
        },
        mid.nvcnt != pre.nvcnt ==> mid.pending == PendingFlag::Clear,
{
}

/// A revert whose steps each took effect or did not is decided again, until the swap
/// takes effect. A torn outcome write that loses the pending record is left out: no
/// revert is owed any more where the record is gone.
pub proof fn a_cut_revert_is_repeated(
    pre: BootView,
    key: Seq<u8>,
    cut: Result<(), FlashError>,
    mid: BootView,
)
    requires
        boot_decision(pre, key) == BootDecision::Revert,
        revert_plan_step(after_reads(pre), mid, cut),
        mid.pending == pre.pending,
    ensures
        boot_decision(mid, key) == BootDecision::Revert,
        mid.nvcnt == pre.nvcnt,
{
}

/// Once a revert took effect, the old bank boots: the stale record is cleared, the
/// outcome stays visible, and the counter moves at most to that of the old image.
pub proof fn a_reverted_bank_boots(
    back: BootView,
    key: Seq<u8>,
    counter: u32,
    post: BootView,
)
    requires
        back.pending == PendingFlag::Armed(other(back.running)),
        bootable(running_health(back, key), back.nvcnt) == Some(counter),
        boot_decision(back, key) is Boot ==> plan_step(
            after_reads(back),
            boot_decision(back, key)->Boot_0,
            post,
            Ok(()),
        ),
    ensures
        boot_decision(back, key) is Boot,
        post.pending == PendingFlag::Clear,
        post.outcome == back.outcome,
        post.nvcnt == back.nvcnt || post.nvcnt == counter,
        counter == back.nvcnt ==> post.nvcnt == back.nvcnt,
{
}

/// What the update machine accepted is what the boot stage verifies: the bank that
/// it filled is healthy, with the counter of the accepted file.
pub proof fn an_accepted_file_is_healthy(pre: UpdateView, post: UpdateView)
    requires
        pre.mode == UpdateState::ReceivingChunks,
        accept_step(pre, post, Ok(())),
        pre.received.len() <= usize::MAX,
        post.seam.wf(),
        pre.received.len() <= FRAME_LEN + post.seam.payload().len(),
    ensures
        image_check(pre.received, pre.key) matches Ok(fields) && image_health(
            post.seam.descriptor,
            post.seam.secure,
            post.seam.ns,
            pre.key,
        ) == (ImageHealth::Verified { security_counter: fields.security_counter })
            && fields.security_counter >= pre.seam.nvcnt,
{
    let file = pre.received;
    let seam = post.seam;
    let payload_len = file.len() - FRAME_LEN;
    assert(stored_file(seam, payload_len) == file);
    let head = seam.descriptor.take(24);
    assert(file.take(24) =~= head) by {
        assert(file.take(24) =~= stored_file(seam, payload_len).take(24));
        assert(stored_file(seam, payload_len).take(24) =~= head);
    }
    assert(carved(seam.descriptor, seam.secure, seam.ns, payload_len) == file);
}

/// An accepted update that was swapped in with its record is confirmed by the first
/// boot.
pub proof fn a_swapped_in_update_is_confirmed(
    pre: UpdateView,
    post: UpdateView,
    view: BootView,
    counter: u32,
)
    requires
        pre.mode == UpdateState::ReceivingChunks,
        accept_step(pre, post, Ok(())),
        pre.received.len() <= usize::MAX,
        post.seam.wf(),
        pre.received.len() <= FRAME_LEN + post.seam.payload().len(),
        image_check(pre.received, pre.key) matches Ok(fields) && fields.security_counter == counter,
        view.descriptor == post.seam.descriptor,
        view.secure == post.seam.secure,
        view.ns == post.seam.ns,
        view.nvcnt == post.seam.nvcnt,
        view.running == post.seam.target,
        view.pending == PendingFlag::Armed(post.seam.target),
    ensures
        boot_decision(view, pre.key) == BootDecision::Boot(
            BootPlan {
                clear_outcome: true,
                clear_pending: true,
                advance_nvcnt: Some(counter),
            },
        ),
{
    an_accepted_file_is_healthy(pre, post);
}

} // verus!
