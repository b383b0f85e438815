//! The seam the boot stage drives.
//!
//! It mirrors the records and the swap of the update seam, but reads the image of
//! the running bank.

use vstd::prelude::*;

use crate::boot::secwm::SecwmReadback;
use crate::update::seam::other;
use crate::update::seam::BankId;
use crate::update::seam::FlashError;
use crate::update::seam::PendingFlag;
use crate::update::seam::UpdateOutcome;

verus! {

/// A call that a boot seam has answered, with its arguments and its answer.
pub ghost enum BootCall {
    RequirePartition(Result<(), FlashError>),
    ReadSecwm(Result<SecwmReadback, FlashError>),
    RunningBank(Result<BankId, FlashError>),
    PendingRead(Result<PendingFlag, FlashError>),
    NvcntRead(Result<u32, FlashError>),
    OutcomeClear(Result<(), FlashError>),
    OutcomeWrite(UpdateOutcome, Result<(), FlashError>),
    PendingWrite(PendingFlag, Result<(), FlashError>),
    NvcntBump(u32, Result<(), FlashError>),
    RevertSwap(Result<(), FlashError>),
}

/// What a boot seam shows.
#[verifier::ext_equal]
pub ghost struct BootView {
    /// The image descriptor of the running bank.
    pub descriptor: Seq<u8>,
    /// The secure payload band of the running bank.
    pub secure: Seq<u8>,
    /// The non-secure payload band of the running bank.
    pub ns: Seq<u8>,
    /// Whether the part is in the dual-bank secure posture.
    pub partition: bool,
    /// The secure watermarks.
    pub secwm: SecwmReadback,
    /// The bank the firmware runs from.
    pub running: BankId,
    /// The bank the next reset boots.
    pub next: BankId,
    /// The pending-confirm record.
    pub pending: PendingFlag,
    /// The monotone anti-rollback counter.
    pub nvcnt: u32,
    /// The update-outcome record.
    pub outcome: UpdateOutcome,
    /// Whether the counter store has room for one more value.
    pub room: bool,
    /// The calls answered so far.
    pub calls: Seq<BootCall>,
}

impl BootView {
    /// The same view after answering one more call.
    pub open spec fn answered(self, call: BootCall) -> BootView {
        BootView { calls: self.calls.push(call), ..self }
    }
}

/// A write of the outcome record. One that fails may lose both records, which share
/// a store.
pub open spec fn outcome_step(
    pre: BootView,
    outcome: UpdateOutcome,
    post: BootView,
    r: Result<(), FlashError>,
    call: BootCall,
) -> bool {
    &&& post == (BootView { pending: post.pending, outcome: post.outcome, ..pre }).answered(call)
    &&& post.pending == pre.pending || post.pending == PendingFlag::Clear
    &&& post.outcome == pre.outcome || post.outcome == outcome || post.outcome
        == UpdateOutcome::Clear
    &&& r is Ok ==> post.outcome == outcome && post.pending == pre.pending
}

/// A write of the pending record, the mirror of [`outcome_step`].
pub open spec fn pending_step(
    pre: BootView,
    flag: PendingFlag,
    post: BootView,
    r: Result<(), FlashError>,
) -> bool {
    &&& post == (BootView { pending: post.pending, outcome: post.outcome, ..pre }).answered(
        BootCall::PendingWrite(flag, r),
    )
    &&& post.pending == pre.pending || post.pending == flag || post.pending == PendingFlag::Clear
    &&& post.outcome == pre.outcome || post.outcome == UpdateOutcome::Clear
    &&& r is Ok ==> post.pending == flag && post.outcome == pre.outcome
}

/// A bump of the monotone counter to `value`. An equal value spends no room.
pub open spec fn bump_step(
    pre: BootView,
    value: u32,
    post: BootView,
    r: Result<(), FlashError>,
) -> bool {
    &&& post == (BootView { nvcnt: post.nvcnt, room: post.room, ..pre }).answered(
        BootCall::NvcntBump(value, r),
    )
    &&& post.nvcnt == pre.nvcnt || post.nvcnt == value
    &&& post.nvcnt >= pre.nvcnt
    &&& value < pre.nvcnt ==> r is Err
    &&& r is Ok ==> post.nvcnt == value
    &&& value == pre.nvcnt ==> post.room == pre.room
}

/// An arm of the swap toward the other bank, for the next reset.
pub open spec fn revert_arm_step(pre: BootView, post: BootView, r: Result<(), FlashError>) -> bool {
    &&& post == (BootView { next: post.next, ..pre }).answered(BootCall::RevertSwap(r))
    &&& post.next == pre.next || post.next == other(pre.running)
    &&& r is Ok ==> post.next == other(pre.running)
}

/// The only path from the boot stage to flash, to the records and to the swap.
pub trait BootFlash {
    /// What the seam shows.
    spec fn boot(&self) -> BootView;

    /// The seam's own invariant.
    spec fn boot_wf(&self) -> bool;

    /// No fault is to come: every read succeeds, and every record write.
    spec fn steady(&self) -> bool;

    /// Asserts the dual-bank secure posture.
    fn require_partition(&mut self) -> (r: Result<(), FlashError>)
        requires
            old(self).boot_wf(),
        ensures
            final(self).boot_wf(),
            final(self).boot() == old(self).boot().answered(BootCall::RequirePartition(r)),
            r is Ok ==> old(self).boot().partition,
            old(self).steady() ==> final(self).steady() && (r is Ok <==> old(self).boot().partition),
    ;

    /// Reads the secure watermarks.
    fn read_secwm(&mut self) -> (r: Result<SecwmReadback, FlashError>)
        requires
            old(self).boot_wf(),
        ensures
            final(self).boot_wf(),
            final(self).boot() == old(self).boot().answered(BootCall::ReadSecwm(r)),
            r matches Ok(readback) ==> readback == old(self).boot().secwm,
            old(self).steady() ==> final(self).steady() && r is Ok,
    ;

    /// Reports the bank the firmware runs from.
    fn running_bank(&mut self) -> (r: Result<BankId, FlashError>)
        requires
            old(self).boot_wf(),
        ensures
            final(self).boot_wf(),
            final(self).boot() == old(self).boot().answered(BootCall::RunningBank(r)),
            r matches Ok(bank) ==> bank == old(self).boot().running,
            old(self).steady() ==> final(self).steady() && r is Ok,
    ;

    /// Reads the pending record.
    fn pending_read(&mut self) -> (r: Result<PendingFlag, FlashError>)
        requires
            old(self).boot_wf(),
        ensures
            final(self).boot_wf(),
            final(self).boot() == old(self).boot().answered(BootCall::PendingRead(r)),
            r matches Ok(flag) ==> flag == old(self).boot().pending,
            old(self).steady() ==> final(self).steady() && r is Ok,
    ;

    /// Reads the anti-rollback counter.
    fn nvcnt_read(&mut self) -> (r: Result<u32, FlashError>)
        requires
            old(self).boot_wf(),
        ensures
            final(self).boot_wf(),
            final(self).boot() == old(self).boot().answered(BootCall::NvcntRead(r)),
            r matches Ok(value) ==> value == old(self).boot().nvcnt,
            old(self).steady() ==> final(self).steady() && r is Ok,
    ;

    /// Borrows the image descriptor of the running bank.
    fn active_descriptor(&self) -> (bytes: &[u8])
        requires
            self.boot_wf(),
        ensures
            bytes@ == self.boot().descriptor,
    ;

    /// Borrows the secure payload band of the running bank.
    fn active_secure_band(&self) -> (bytes: &[u8])
        requires
            self.boot_wf(),
        ensures
            bytes@ == self.boot().secure,
    ;

    /// Borrows the non-secure payload band of the running bank.
    fn active_ns_band(&self) -> (bytes: &[u8])
        requires
            self.boot_wf(),
        ensures
            bytes@ == self.boot().ns,
    ;

    /// Clears the outcome record.
    fn update_outcome_clear(&mut self) -> (r: Result<(), FlashError>)
        requires
            old(self).boot_wf(),
        ensures
            final(self).boot_wf(),
            outcome_step(
                old(self).boot(),
                UpdateOutcome::Clear,
                final(self).boot(),
                r,
                BootCall::OutcomeClear(r),
            ),
            old(self).steady() && old(self).boot().partition ==> final(self).steady() && r is Ok,
    ;

    /// Writes the outcome record.
    fn update_outcome_write(&mut self, outcome: UpdateOutcome) -> (r: Result<(), FlashError>)
        requires
            old(self).boot_wf(),
        ensures
            final(self).boot_wf(),
            outcome_step(
                old(self).boot(),
                outcome,
                final(self).boot(),
                r,
                BootCall::OutcomeWrite(outcome, r),
            ),
            old(self).steady() && old(self).boot().partition ==> final(self).steady() && r is Ok,
    ;

    /// Writes the pending record.
    fn pending_write(&mut self, flag: PendingFlag) -> (r: Result<(), FlashError>)
        requires
            old(self).boot_wf(),
        ensures
            final(self).boot_wf(),
            pending_step(old(self).boot(), flag, final(self).boot(), r),
            old(self).steady() && old(self).boot().partition ==> final(self).steady() && r is Ok,
    ;

    /// Bumps the anti-rollback counter to `value`. An equal value is a no-op.
    fn nvcnt_bump(&mut self, value: u32) -> (r: Result<(), FlashError>)
        requires
            old(self).boot_wf(),
        ensures
            final(self).boot_wf(),
            bump_step(old(self).boot(), value, final(self).boot(), r),
            old(self).steady() && old(self).boot().partition ==> final(self).steady() && (value
                == old(self).boot().nvcnt || value > old(self).boot().nvcnt
                && old(self).boot().room ==> r is Ok),
    ;

    /// Arms the swap back toward the other bank. On the part this resets.
    fn revert_swap(&mut self) -> (r: Result<(), FlashError>)
        requires
            old(self).boot_wf(),
        ensures
            final(self).boot_wf(),
            revert_arm_step(old(self).boot(), final(self).boot(), r),
            old(self).steady() && old(self).boot().partition ==> final(self).steady() && r is Ok,
    ;
}

} // verus!
