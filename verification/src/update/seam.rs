//! The seams the update machine drives.
//!
//! Every irreversible operation on the device's own firmware is reachable only
//! through a named method of [`FlashSeam`]. [`SeCounterSeam`] is the second
//! anti-rollback gate, on the secure element.
//!
//! A seam is specified by what it shows: the state of the inactive bank and of
//! the persistent records ([`SeamView`]), and the list of calls it has answered.
//! A call that returns `Ok` took effect exactly. A call that returns an error
//! took effect in part at most: it may have been cut anywhere, but it touched
//! only what it names.

use vstd::prelude::*;

use crate::image::format::HEADER_LEN;
use crate::image::format::SIG_LEN;

verus! {

/// A page index inside the payload band of the inactive bank.
pub type PageIndex = u16;

/// The page width the update machine and the flash seam agree on.
pub const PAGE_LEN: usize = 256;

/// The value of a flash byte after an erase.
pub const ERASED: u8 = 0xFF;

/// An error of the [`FlashSeam`].
#[derive(Debug, Clone, Copy, PartialEq, Eq, Structural)]
pub enum FlashError {
    /// A page index fell outside the inactive bank.
    OutOfRange,
    /// A write or erase did not take effect.
    WriteFailed,
    /// The monotone flash counter cannot be bumped (burn budget reached).
    CounterExhausted,
    /// The flash controller reported a fault.
    Hardware,
}

/// An error of the [`SeCounterSeam`].
#[derive(Debug, Clone, Copy, PartialEq, Eq, Structural)]
pub enum SeCounterError {
    /// The secure-element channel was not up or dropped mid-call.
    Unavailable,
    /// The counter reached its floor and cannot decrement further.
    Exhausted,
}

/// Which physical bank the firmware runs from.
#[derive(Debug, Clone, Copy, PartialEq, Eq, Structural)]
pub enum BankId {
    /// Bank 1.
    Bank1,
    /// Bank 2.
    Bank2,
}

/// The persistent record that a swap is awaiting confirmation.
///
/// It survives the reset that the swap commits on, and names the bank the
/// running firmware must be, so that a boot can prove that the swap took effect
/// before it owes a confirm.
#[derive(Debug, Clone, Copy, PartialEq, Eq, Structural)]
pub enum PendingFlag {
    /// No swap is awaiting confirmation. The running bank is confirmed.
    Clear,
    /// A swap was armed toward the given bank.
    Armed(BankId),
}

/// The persistent outcome of the last update attempt.
#[derive(Debug, Clone, Copy, PartialEq, Eq, Structural)]
pub enum UpdateOutcome {
    /// No outcome recorded.
    Clear,
    /// The boot stage reverted the last update by itself.
    AutoReverted,
}

/// The other bank of the two.
pub open spec fn other(bank: BankId) -> BankId {
    match bank {
        BankId::Bank1 => BankId::Bank2,
        BankId::Bank2 => BankId::Bank1,
    }
}

/// The other bank of the two-bank map.
pub fn other_bank(bank: BankId) -> (r: BankId)
    ensures
        r == other(bank),
        r != bank,
{
    match bank {
        BankId::Bank1 => BankId::Bank2,
        BankId::Bank2 => BankId::Bank1,
    }
}

/// Where the faults of a seam are scripted: the call that is forced to fail.
#[derive(Debug, Clone, Copy, PartialEq, Eq, Structural)]
pub enum FaultPoint {
    /// No injected fault.
    Off,
    /// [`FlashSeam::erase_inactive`] fails.
    Erase,
    /// [`FlashSeam::write_inactive_page`] or [`FlashSeam::write_descriptor`] fails.
    WritePage,
    /// [`FlashSeam::commit_swap`] fails.
    Commit,
    /// [`FlashSeam::revert_swap`] fails.
    Revert,
    /// [`FlashSeam::nvcnt_bump`] fails.
    NvcntBump,
    /// [`FlashSeam::pending_write`] fails.
    PendingWrite,
    /// [`FlashSeam::boot_count_advance`] fails.
    BootCount,
}

impl Default for FaultPoint {
    fn default() -> (r: FaultPoint)
        ensures
            r == FaultPoint::Off,
    {
        FaultPoint::Off
    }
}

/// A call that a flash seam has answered, with its arguments and its answer.
pub ghost enum SeamCall {
    Erase(Result<(), FlashError>),
    WritePage(PageIndex, Seq<u8>, Result<(), FlashError>),
    WriteDescriptor(Seq<u8>, Result<(), FlashError>),
    RunningBank(Result<BankId, FlashError>),
    TargetBank(Result<BankId, FlashError>),
    CommitSwap(Result<(), FlashError>),
    RevertSwap(Result<(), FlashError>),
    NvcntRead(Result<u32, FlashError>),
    NvcntBump(u32, Result<(), FlashError>),
    PendingRead(Result<PendingFlag, FlashError>),
    PendingWrite(PendingFlag, Result<(), FlashError>),
    BootCountRead(Result<u32, FlashError>),
    BootCountAdvance(Result<(), FlashError>),
    OutcomeRead(Result<UpdateOutcome, FlashError>),
    OutcomeWrite(UpdateOutcome, Result<(), FlashError>),
    OutcomeClear(Result<(), FlashError>),
}

/// What a flash seam shows.
#[verifier::ext_equal]
pub ghost struct SeamView {
    /// The image descriptor of the inactive bank.
    pub descriptor: Seq<u8>,
    /// The secure payload band of the inactive bank.
    pub secure: Seq<u8>,
    /// The non-secure payload band of the inactive bank.
    pub ns: Seq<u8>,
    /// The bank the firmware runs from.
    pub running: BankId,
    /// The bank a swap would make bootable.
    pub target: BankId,
    /// The bank the next reset boots.
    pub next: BankId,
    /// The pending-confirm record.
    pub pending: PendingFlag,
    /// The monotone anti-rollback counter.
    pub nvcnt: u32,
    /// The boot-count confirmation countdown.
    pub boot_count: u32,
    /// The update-outcome record.
    pub outcome: UpdateOutcome,
    /// Whether a descriptor can be programmed: its store is blank as far as one
    /// reaches.
    pub vacant: bool,
    /// Whether the counter store has room for one more value.
    pub room: bool,
    /// Whether the boot-count store has room for one more tick.
    pub ticks: bool,
    /// The fault to come, where the faults of the seam are scripted: the next call it
    /// names fails, and no other call does. `None` where faults come from outside.
    pub script: Option<FaultPoint>,
    /// The calls answered so far.
    pub calls: Seq<SeamCall>,
}

impl SeamView {
    /// The payload band: the secure part, then the non-secure part.
    pub open spec fn payload(self) -> Seq<u8> {
        self.secure + self.ns
    }

    /// The descriptor holds a header and a signature, and a page index addresses
    /// every page of the payload band.
    pub open spec fn wf(self) -> bool {
        &&& self.descriptor.len() >= HEADER_LEN + SIG_LEN
        &&& self.payload().len() % PAGE_LEN as nat == 0
        &&& self.payload().len() <= 0x1_0000 * PAGE_LEN
    }

    /// The same view after answering one more call.
    pub open spec fn answered(self, call: SeamCall) -> SeamView {
        SeamView { calls: self.calls.push(call), ..self }
    }
}

/// What a script makes of a call that `point` names, and that fails on its own with
/// `own`. A fault fires once, and a call that fails changes nothing.
pub open spec fn script_step(
    pre: SeamView,
    point: FaultPoint,
    fault: FlashError,
    own: Option<FlashError>,
    post: SeamView,
    r: Result<(), FlashError>,
    call: SeamCall,
) -> bool {
    match pre.script {
        None => post.script is None,
        Some(armed) => {
            let hit = armed == point;
            let error = if hit {
                Some(fault)
            } else {
                own
            };
            &&& post.script == Some(if hit {
                FaultPoint::Off
            } else {
                armed
            })
            &&& match error {
                Some(e) => {
                    &&& r == Err::<(), FlashError>(e)
                    &&& post == (SeamView { script: post.script, ..pre }).answered(call)
                },
                None => r is Ok,
            }
        },
    }
}

/// Every byte of `bytes[from..to]` is erased.
pub open spec fn erased_range(bytes: Seq<u8>, from: int, to: int) -> bool {
    forall|i: int| from <= i < to ==> #[trigger] bytes[i] == ERASED
}

/// `bytes` with `data` written over it from `start` on.
pub open spec fn overlay(bytes: Seq<u8>, start: int, data: Seq<u8>) -> Seq<u8> {
    Seq::new(
        bytes.len(),
        |i: int|
            if start <= i < start + data.len() {
                data[i - start]
            } else {
                bytes[i]
            },
    )
}

/// Writes `data` over `bytes` from `start` on.
pub fn write_over(bytes: &mut [u8], start: usize, data: &[u8])
    requires
        start + data@.len() <= old(bytes)@.len(),
    ensures
        final(bytes)@ == overlay(old(bytes)@, start as int, data@),
{
    let mut i: usize = 0;
    while i < data.len()
        invariant
            i <= data@.len(),
            start + data@.len() <= bytes.len(),
            bytes@.len() == old(bytes)@.len(),
            forall|k: int|
                0 <= k < bytes@.len() ==> #[trigger] bytes@[k] == (if start <= k < start + i {
                    data@[k - start]
                } else {
                    old(bytes)@[k]
                }),
        decreases data@.len() - i,
    {
        bytes[start + i] = data[i];
        i += 1;
    }
    assert(bytes@ =~= overlay(old(bytes)@, start as int, data@));
}

/// An erase of the inactive bank: descriptor and payload, nothing else.
pub open spec fn erase_step(pre: SeamView, post: SeamView, r: Result<(), FlashError>) -> bool {
    &&& post == (SeamView {
        descriptor: post.descriptor,
        secure: post.secure,
        ns: post.ns,
        vacant: post.vacant,
        script: post.script,
        ..pre
    }).answered(SeamCall::Erase(r))
    &&& script_step(
        pre,
        FaultPoint::Erase,
        FlashError::Hardware,
        None,
        post,
        r,
        SeamCall::Erase(r),
    )
    &&& post.descriptor.len() == pre.descriptor.len()
    &&& post.secure.len() == pre.secure.len()
    &&& post.ns.len() == pre.ns.len()
    &&& r is Ok ==> {
        &&& erased_range(post.descriptor, 0, post.descriptor.len() as int)
        &&& erased_range(post.secure, 0, post.secure.len() as int)
        &&& erased_range(post.ns, 0, post.ns.len() as int)
        &&& post.vacant
    }
}

/// A write of one payload page: nothing outside the page or the data changes, and an
/// erased page then holds the data.
pub open spec fn write_page_step(
    pre: SeamView,
    page: PageIndex,
    data: Seq<u8>,
    post: SeamView,
    r: Result<(), FlashError>,
) -> bool {
    let start = page * PAGE_LEN;
    &&& post == (SeamView {
        secure: post.secure,
        ns: post.ns,
        script: post.script,
        ..pre
    }).answered(SeamCall::WritePage(page, data, r))
    &&& script_step(
        pre,
        FaultPoint::WritePage,
        FlashError::WriteFailed,
        if data.len() > PAGE_LEN {
            Some(FlashError::WriteFailed)
        } else if start + data.len() > pre.payload().len() {
            Some(FlashError::OutOfRange)
        } else {
            None
        },
        post,
        r,
        SeamCall::WritePage(page, data, r),
    )
    &&& post.secure.len() == pre.secure.len()
    &&& post.ns.len() == pre.ns.len()
    &&& forall|i: int|
        0 <= i < pre.payload().len() && !(start <= i < start + PAGE_LEN) && !(start <= i < start
            + data.len()) ==> #[trigger] post.payload()[i] == pre.payload()[i]
    &&& r is Ok ==> {
        &&& start + data.len() <= pre.payload().len()
        &&& erased_range(pre.payload(), start, start + data.len()) ==> post.payload() == overlay(
            pre.payload(),
            start,
            data,
        )
    }
}

/// A write of the descriptor: an erased descriptor then holds the data.
pub open spec fn write_descriptor_step(
    pre: SeamView,
    data: Seq<u8>,
    post: SeamView,
    r: Result<(), FlashError>,
) -> bool {
    &&& post == (SeamView {
        descriptor: post.descriptor,
        vacant: post.vacant,
        script: post.script,
        ..pre
    }).answered(SeamCall::WriteDescriptor(data, r))
    &&& script_step(
        pre,
        FaultPoint::WritePage,
        FlashError::WriteFailed,
        if data.len() > pre.descriptor.len() {
            Some(FlashError::OutOfRange)
        } else {
            None
        },
        post,
        r,
        SeamCall::WriteDescriptor(data, r),
    )
    &&& post.descriptor.len() == pre.descriptor.len()
    &&& r is Ok && data.len() <= pre.descriptor.len() && erased_range(
        pre.descriptor,
        0,
        data.len() as int,
    ) ==> post.descriptor == overlay(pre.descriptor, 0, data)
}

/// An arm of the bank swap toward `bank`, which a fault at `point` hits.
pub open spec fn arm_step(
    pre: SeamView,
    bank: BankId,
    point: FaultPoint,
    post: SeamView,
    r: Result<(), FlashError>,
    call: SeamCall,
) -> bool {
    &&& post == (SeamView {
        running: post.running,
        next: post.next,
        script: post.script,
        ..pre
    }).answered(call)
    &&& script_step(pre, point, FlashError::Hardware, None, post, r, call)
    &&& post.running == pre.running || post.running == post.next
    &&& post.next == pre.next || post.next == bank
    &&& r is Ok ==> post.next == bank
    &&& r is Err ==> post.running == pre.running
}

/// A bump of the monotone counter to `value`. It never falls.
pub open spec fn nvcnt_bump_step(
    pre: SeamView,
    value: u32,
    post: SeamView,
    r: Result<(), FlashError>,
) -> bool {
    &&& post == (SeamView {
        nvcnt: post.nvcnt,
        room: post.room,
        script: post.script,
        ..pre
    }).answered(SeamCall::NvcntBump(value, r))
    &&& script_step(
        pre,
        FaultPoint::NvcntBump,
        FlashError::CounterExhausted,
        if value < pre.nvcnt {
            Some(FlashError::WriteFailed)
        } else {
            None
        },
        post,
        r,
        SeamCall::NvcntBump(value, r),
    )
    &&& post.nvcnt == pre.nvcnt || post.nvcnt == value
    &&& post.nvcnt >= pre.nvcnt
    &&& r is Ok ==> value >= pre.nvcnt && post.nvcnt == value
    &&& value == pre.nvcnt ==> post.room == pre.room
}

/// A write of the pending-confirm record. A write that fails may leave the record
/// cleared, and may lose the outcome record that shares its store.
pub open spec fn pending_write_step(
    pre: SeamView,
    flag: PendingFlag,
    post: SeamView,
    r: Result<(), FlashError>,
) -> bool {
    &&& post == (SeamView {
        pending: post.pending,
        outcome: post.outcome,
        script: post.script,
        ..pre
    }).answered(SeamCall::PendingWrite(flag, r))
    &&& script_step(
        pre,
        FaultPoint::PendingWrite,
        FlashError::WriteFailed,
        None,
        post,
        r,
        SeamCall::PendingWrite(flag, r),
    )
    &&& post.pending == pre.pending || post.pending == flag || post.pending == PendingFlag::Clear
    &&& post.outcome == pre.outcome || post.outcome == UpdateOutcome::Clear
    &&& r is Ok ==> post.pending == flag && post.outcome == pre.outcome
}

/// A write of the update-outcome record, the mirror of [`pending_write_step`].
pub open spec fn outcome_write_step(
    pre: SeamView,
    outcome: UpdateOutcome,
    post: SeamView,
    r: Result<(), FlashError>,
    call: SeamCall,
) -> bool {
    &&& post == (SeamView { pending: post.pending, outcome: post.outcome, ..pre }).answered(call)
    &&& post.pending == pre.pending || post.pending == PendingFlag::Clear
    &&& post.outcome == pre.outcome || post.outcome == outcome || post.outcome
        == UpdateOutcome::Clear
    &&& r is Ok ==> post.outcome == outcome && post.pending == pre.pending
    &&& pre.script is Some ==> r is Ok
}

/// An advance of the boot count by one.
pub open spec fn boot_count_step(pre: SeamView, post: SeamView, r: Result<(), FlashError>) -> bool {
    &&& post == (SeamView {
        boot_count: post.boot_count,
        ticks: post.ticks,
        script: post.script,
        ..pre
    }).answered(SeamCall::BootCountAdvance(r))
    &&& script_step(
        pre,
        FaultPoint::BootCount,
        FlashError::WriteFailed,
        if pre.boot_count == u32::MAX {
            Some(FlashError::WriteFailed)
        } else {
            None
        },
        post,
        r,
        SeamCall::BootCountAdvance(r),
    )
    &&& post.boot_count == pre.boot_count || post.boot_count == pre.boot_count + 1
    &&& r is Ok ==> post.boot_count == pre.boot_count + 1
}

/// The only path from the update machine to flash and to the bank swap.
///
/// The descriptor and the two payload bands are those of the inactive bank. Each
/// band carries its own security attribute and is read through its own address
/// alias. The bytes read here are the bytes a committed swap boots.
pub trait FlashSeam {
    /// What the seam shows.
    spec fn seam(&self) -> SeamView;

    /// The seam's own invariant.
    spec fn wf(&self) -> bool;

    /// No fault is to come: every legal call succeeds.
    spec fn nominal(&self) -> bool;

    /// A well-formed seam shows a well-formed view.
    proof fn seam_is_wf(&self)
        requires
            self.wf(),
        ensures
            self.seam().wf(),
    ;

    /// Borrows the image descriptor: header first, signature behind it.
    fn inactive_descriptor(&self) -> (bytes: &[u8])
        requires
            self.wf(),
        ensures
            bytes@ == self.seam().descriptor,
    ;

    /// Borrows the secure payload band, erased bytes included.
    fn inactive_secure_band(&self) -> (bytes: &[u8])
        requires
            self.wf(),
        ensures
            bytes@ == self.seam().secure,
    ;

    /// Borrows the non-secure payload band, erased bytes included.
    fn inactive_ns_band(&self) -> (bytes: &[u8])
        requires
            self.wf(),
        ensures
            bytes@ == self.seam().ns,
    ;

    /// Erases descriptor and payload of the inactive bank.
    fn erase_inactive(&mut self) -> (r: Result<(), FlashError>)
        requires
            old(self).wf(),
        ensures
            final(self).wf(),
            erase_step(old(self).seam(), final(self).seam(), r),
            old(self).nominal() ==> r is Ok && final(self).nominal(),
    ;

    /// Writes one payload page of the inactive bank.
    fn write_inactive_page(&mut self, page: PageIndex, data: &[u8]) -> (r: Result<(), FlashError>)
        requires
            old(self).wf(),
        ensures
            final(self).wf(),
            write_page_step(old(self).seam(), page, data@, final(self).seam(), r),
            old(self).nominal() ==> final(self).nominal(),
            old(self).nominal() && data@.len() <= PAGE_LEN && page * PAGE_LEN + PAGE_LEN
                <= old(self).seam().payload().len() && erased_range(
                old(self).seam().payload(),
                page * PAGE_LEN,
                page * PAGE_LEN + PAGE_LEN,
            ) ==> r is Ok,
    ;

    /// Writes the image descriptor of the inactive bank.
    fn write_descriptor(&mut self, descriptor: &[u8]) -> (r: Result<(), FlashError>)
        requires
            old(self).wf(),
        ensures
            final(self).wf(),
            write_descriptor_step(old(self).seam(), descriptor@, final(self).seam(), r),
            old(self).nominal() ==> final(self).nominal(),
            old(self).nominal() && descriptor@.len() <= HEADER_LEN + SIG_LEN
                && old(self).seam().vacant ==> r is Ok,
    ;

    /// Reports the bank the firmware currently runs from.
    fn running_bank(&mut self) -> (r: Result<BankId, FlashError>)
        requires
            old(self).wf(),
        ensures
            final(self).wf(),
            final(self).seam() == old(self).seam().answered(SeamCall::RunningBank(r)),
            old(self).seam().script is Some ==> r is Ok,
            r matches Ok(bank) ==> bank == old(self).seam().running,
            old(self).nominal() ==> r is Ok && final(self).nominal(),
    ;

    /// Reports the bank the swap will make bootable.
    fn target_bank(&mut self) -> (r: Result<BankId, FlashError>)
        requires
            old(self).wf(),
        ensures
            final(self).wf(),
            final(self).seam() == old(self).seam().answered(SeamCall::TargetBank(r)),
            old(self).seam().script is Some ==> r is Ok,
            r matches Ok(bank) ==> bank == old(self).seam().target,
            old(self).nominal() ==> r is Ok && final(self).nominal(),
    ;

    /// Arms the swap toward the target bank, for the next reset.
    fn commit_swap(&mut self) -> (r: Result<(), FlashError>)
        requires
            old(self).wf(),
        ensures
            final(self).wf(),
            arm_step(
                old(self).seam(),
                old(self).seam().target,
                FaultPoint::Commit,
                final(self).seam(),
                r,
                SeamCall::CommitSwap(r),
            ),
            old(self).nominal() ==> r is Ok && final(self).nominal(),
    ;

    /// Arms the swap back to the bank that is not running, for the next reset.
    fn revert_swap(&mut self) -> (r: Result<(), FlashError>)
        requires
            old(self).wf(),
        ensures
            final(self).wf(),
            arm_step(
                old(self).seam(),
                other(old(self).seam().running),
                FaultPoint::Revert,
                final(self).seam(),
                r,
                SeamCall::RevertSwap(r),
            ),
            final(self).seam().running == old(self).seam().running,
            old(self).nominal() ==> r is Ok && final(self).nominal(),
    ;

    /// Reads the monotone anti-rollback counter.
    fn nvcnt_read(&mut self) -> (r: Result<u32, FlashError>)
        requires
            old(self).wf(),
        ensures
            final(self).wf(),
            final(self).seam() == old(self).seam().answered(SeamCall::NvcntRead(r)),
            old(self).seam().script is Some ==> r is Ok,
            r matches Ok(value) ==> value == old(self).seam().nvcnt,
            old(self).nominal() ==> r is Ok && final(self).nominal(),
    ;

    /// Bumps the monotone anti-rollback counter to `value`.
    fn nvcnt_bump(&mut self, value: u32) -> (r: Result<(), FlashError>)
        requires
            old(self).wf(),
        ensures
            final(self).wf(),
            nvcnt_bump_step(old(self).seam(), value, final(self).seam(), r),
            old(self).nominal() ==> final(self).nominal(),
            old(self).nominal() && (value == old(self).seam().nvcnt || value
                > old(self).seam().nvcnt && old(self).seam().room) ==> r is Ok,
    ;

    /// Reads the pending-confirm record.
    fn pending_read(&mut self) -> (r: Result<PendingFlag, FlashError>)
        requires
            old(self).wf(),
        ensures
            final(self).wf(),
            final(self).seam() == old(self).seam().answered(SeamCall::PendingRead(r)),
            old(self).seam().script is Some ==> r is Ok,
            r matches Ok(flag) ==> flag == old(self).seam().pending,
            old(self).nominal() ==> r is Ok && final(self).nominal(),
    ;

    /// Writes the pending-confirm record.
    fn pending_write(&mut self, flag: PendingFlag) -> (r: Result<(), FlashError>)
        requires
            old(self).wf(),
        ensures
            final(self).wf(),
            pending_write_step(old(self).seam(), flag, final(self).seam(), r),
            old(self).nominal() ==> r is Ok && final(self).nominal(),
    ;

    /// Reads the boot-count confirmation countdown.
    fn boot_count_read(&mut self) -> (r: Result<u32, FlashError>)
        requires
            old(self).wf(),
        ensures
            final(self).wf(),
            final(self).seam() == old(self).seam().answered(SeamCall::BootCountRead(r)),
            old(self).seam().script is Some ==> r is Ok,
            r matches Ok(count) ==> count == old(self).seam().boot_count,
            old(self).nominal() ==> r is Ok && final(self).nominal(),
    ;

    /// Raises the boot-count confirmation countdown by one.
    fn boot_count_advance(&mut self) -> (r: Result<(), FlashError>)
        requires
            old(self).wf(),
        ensures
            final(self).wf(),
            boot_count_step(old(self).seam(), final(self).seam(), r),
            old(self).nominal() ==> final(self).nominal(),
            old(self).nominal() && old(self).seam().ticks ==> r is Ok,
    ;

    /// Reads the update-outcome record.
    fn update_outcome_read(&mut self) -> (r: Result<UpdateOutcome, FlashError>)
        requires
            old(self).wf(),
        ensures
            final(self).wf(),
            final(self).seam() == old(self).seam().answered(SeamCall::OutcomeRead(r)),
            old(self).seam().script is Some ==> r is Ok,
            r matches Ok(outcome) ==> outcome == old(self).seam().outcome,
            old(self).nominal() ==> r is Ok && final(self).nominal(),
    ;

    /// Writes the update-outcome record.
    fn update_outcome_write(&mut self, outcome: UpdateOutcome) -> (r: Result<(), FlashError>)
        requires
            old(self).wf(),
        ensures
            final(self).wf(),
            outcome_write_step(
                old(self).seam(),
                outcome,
                final(self).seam(),
                r,
                SeamCall::OutcomeWrite(outcome, r),
            ),
            old(self).nominal() ==> r is Ok && final(self).nominal(),
    ;

    /// Clears the update-outcome record.
    fn update_outcome_clear(&mut self) -> (r: Result<(), FlashError>)
        requires
            old(self).wf(),
        ensures
            final(self).wf(),
            outcome_write_step(
                old(self).seam(),
                UpdateOutcome::Clear,
                final(self).seam(),
                r,
                SeamCall::OutcomeClear(r),
            ),
            old(self).nominal() ==> r is Ok && final(self).nominal(),
    ;
}

/// A call that a secure-element counter has answered.
pub ghost enum SeCall {
    Read(Result<u32, SeCounterError>),
    Update(Result<(), SeCounterError>),
}

/// What a secure-element counter shows.
#[verifier::ext_equal]
pub ghost struct SeView {
    /// The counter, which counts down.
    pub value: u32,
    /// The calls answered so far.
    pub calls: Seq<SeCall>,
}

/// The secure-element monotonic counter: each confirmed update spends one tick.
pub trait SeCounterSeam {
    /// What the counter shows.
    spec fn se(&self) -> SeView;

    /// The channel is up and stays up.
    spec fn available(&self) -> bool;

    /// Reads the current counter value.
    fn read(&mut self) -> (r: Result<u32, SeCounterError>)
        ensures
            final(self).se() == (SeView {
                calls: old(self).se().calls.push(SeCall::Read(r)),
                ..old(self).se()
            }),
            r matches Ok(value) ==> value == old(self).se().value,
            old(self).available() ==> r is Ok && final(self).available(),
    ;

    /// Decrements the counter by one. A refused decrement spends nothing.
    fn update(&mut self) -> (r: Result<(), SeCounterError>)
        ensures
            final(self).se() == (SeView {
                value: if r is Ok {
                    (old(self).se().value - 1) as u32
                } else {
                    old(self).se().value
                },
                calls: old(self).se().calls.push(SeCall::Update(r)),
            }),
            r is Ok ==> old(self).se().value > 0,
            old(self).available() ==> final(self).available(),
            old(self).available() && old(self).se().value > 0 ==> r is Ok,
    ;
}

} // verus!
