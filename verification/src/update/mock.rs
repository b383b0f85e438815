//! Host model of the update seams.
//!
//! [`MockFlash`] holds the inactive bank and the persistent records in memory,
//! [`MockSeCounter`] the secure-element counter. Both can be told to fail, so that
//! every error path of the update machine can be driven.

use vstd::prelude::*;
use vstd::slice::slice_subrange;

use crate::update::seam::other_bank;
use crate::update::seam::overlay;
use crate::update::seam::write_over;
use crate::update::seam::BankId;
use crate::update::seam::FlashError;
use crate::update::seam::FlashSeam;
use crate::update::seam::PageIndex;
use crate::update::seam::PendingFlag;
use crate::update::seam::SeCall;
use crate::update::seam::SeCounterError;
use crate::update::seam::SeCounterSeam;
use crate::update::seam::SeView;
use crate::update::seam::SeamCall;
use crate::update::seam::SeamView;
use crate::update::seam::UpdateOutcome;
use crate::update::seam::PAGE_LEN;

pub use crate::update::seam::FaultPoint;

verus! {

/// The modelled payload band of the inactive bank in bytes.
pub const BANK_LEN: usize = 4096;

/// The modelled secure payload band in bytes. The rest is non-secure.
pub const SECURE_BAND_LEN: usize = 2048;

/// The modelled descriptor store in bytes: a header, a signature, and a tail that
/// stays erased.
pub const DESCRIPTOR_LEN: usize = 128;

/// A host model of the inactive bank and the persistent update records.
///
/// The old bank is Bank 1, the target of a swap Bank 2. A committed swap takes
/// effect at once: the mock models the reset with it.
pub struct MockFlash {
    bank: [u8; BANK_LEN],
    descriptor: [u8; DESCRIPTOR_LEN],
    nvcnt: u32,
    pending: PendingFlag,
    boot_count: u32,
    outcome: UpdateOutcome,
    running: BankId,
    target: BankId,
    next: BankId,
    fault: FaultPoint,
    committed: bool,
    reverted: bool,
    calls: Ghost<Seq<SeamCall>>,
}

impl MockFlash {
    /// Whether a swap has been committed: a commit was answered with success.
    pub open spec fn committed_view(&self) -> bool {
        self.seam().calls.contains(SeamCall::CommitSwap(Ok(())))
    }

    /// Whether a swap has been reverted: a revert was answered with success.
    pub open spec fn reverted_view(&self) -> bool {
        self.seam().calls.contains(SeamCall::RevertSwap(Ok(())))
    }

    /// Builds an erased bank with the given starting flash counter.
    pub fn new(nvcnt: u32) -> (r: MockFlash)
        ensures
            r.wf(),
            r.nominal(),
            !r.committed_view(),
            !r.reverted_view(),
            r.seam() == (SeamView {
                descriptor: Seq::new(DESCRIPTOR_LEN as nat, |i: int| 0xFFu8),
                secure: Seq::new(SECURE_BAND_LEN as nat, |i: int| 0xFFu8),
                ns: Seq::new((BANK_LEN - SECURE_BAND_LEN) as nat, |i: int| 0xFFu8),
                running: BankId::Bank1,
                target: BankId::Bank2,
                next: BankId::Bank1,
                pending: PendingFlag::Clear,
                nvcnt,
                boot_count: 0,
                outcome: UpdateOutcome::Clear,
                vacant: true,
                room: true,
                ticks: true,
                script: Some(FaultPoint::Off),
                calls: Seq::empty(),
            }),
    {
        let r = MockFlash {
            bank: [0xFF; BANK_LEN],
            descriptor: [0xFF; DESCRIPTOR_LEN],
            nvcnt,
            pending: PendingFlag::Clear,
            boot_count: 0,
            outcome: UpdateOutcome::Clear,
            running: BankId::Bank1,
            target: BankId::Bank2,
            next: BankId::Bank1,
            fault: FaultPoint::Off,
            committed: false,
            reverted: false,
            calls: Ghost(Seq::empty()),
        };
        assert(r.seam() =~= SeamView {
            descriptor: Seq::new(DESCRIPTOR_LEN as nat, |i: int| 0xFFu8),
            secure: Seq::new(SECURE_BAND_LEN as nat, |i: int| 0xFFu8),
            ns: Seq::new((BANK_LEN - SECURE_BAND_LEN) as nat, |i: int| 0xFFu8),
            running: BankId::Bank1,
            target: BankId::Bank2,
            next: BankId::Bank1,
            pending: PendingFlag::Clear,
            nvcnt,
            boot_count: 0,
            outcome: UpdateOutcome::Clear,
            vacant: true,
            room: true,
            ticks: true,
            script: Some(FaultPoint::Off),
            calls: Seq::empty(),
        });
        r
    }

    /// Arms a single injected fault for the next matching seam call.
    pub fn set_fault(&mut self, fault: FaultPoint)
        requires
            old(self).wf(),
        ensures
            final(self).wf(),
            final(self).seam() == (SeamView { script: Some(fault), ..old(self).seam() }),
    {
        self.fault = fault;
    }

    /// Forces the pending record, modelling a state after a reset.
    pub fn force_pending(&mut self, flag: PendingFlag)
        requires
            old(self).wf(),
        ensures
            final(self).wf(),
            final(self).seam() == (SeamView { pending: flag, ..old(self).seam() }),
    {
        self.pending = flag;
    }

    /// Forces the running bank, modelling which bank a reset booted.
    pub fn force_running(&mut self, bank: BankId)
        requires
            old(self).wf(),
        ensures
            final(self).wf(),
            final(self).seam() == (SeamView { running: bank, next: bank, ..old(self).seam() }),
    {
        self.running = bank;
        self.next = bank;
    }

    /// True once a swap was committed.
    pub fn committed(&self) -> (r: bool)
        requires
            self.wf(),
        ensures
            r == self.committed_view(),
    {
        self.committed
    }

    /// True once a swap was reverted.
    pub fn reverted(&self) -> (r: bool)
        requires
            self.wf(),
        ensures
            r == self.reverted_view(),
    {
        self.reverted
    }

    /// The payload store.
    pub fn bank(&self) -> (r: &[u8])
        ensures
            r@ == self.seam().payload(),
    {
        assert(self.seam().payload() =~= self.bank@);
        &self.bank
    }

    /// The descriptor store.
    pub fn descriptor(&self) -> (r: &[u8])
        ensures
            r@ == self.seam().descriptor,
    {
        &self.descriptor
    }

    /// The stored flash anti-rollback counter.
    pub fn nvcnt(&self) -> (r: u32)
        ensures
            r == self.seam().nvcnt,
    {
        self.nvcnt
    }

    /// Takes the injected fault if it is at `point`.
    fn take_fault(&mut self, point: FaultPoint) -> (hit: bool)
        ensures
            hit == (old(self).fault == point),
            *final(self) == (MockFlash {
                fault: if hit {
                    FaultPoint::Off
                } else {
                    old(self).fault
                },
                ..*old(self)
            }),
    {
        if self.fault == point {
            self.fault = FaultPoint::Off;
            return true;
        }
        false
    }

    fn answer(&mut self, Ghost(call): Ghost<SeamCall>)
        requires
            old(self).committed == (old(self).committed_view() || call == SeamCall::CommitSwap(
                Ok(()),
            )),
            old(self).reverted == (old(self).reverted_view() || call == SeamCall::RevertSwap(
                Ok(()),
            )),
        ensures
            final(self).wf(),
            *final(self) == (MockFlash { calls: Ghost(old(self).calls@.push(call)), ..*old(self) }),
    {
        let ghost before = self.calls@;
        self.calls = Ghost(before.push(call));
        proof {
            lemma_logged(before, call, SeamCall::CommitSwap(Ok(())));
            lemma_logged(before, call, SeamCall::RevertSwap(Ok(())));
        }
    }
}

impl FlashSeam for MockFlash {
    closed spec fn seam(&self) -> SeamView {
        SeamView {
            descriptor: self.descriptor@,
            secure: self.bank@.subrange(0, SECURE_BAND_LEN as int),
            ns: self.bank@.subrange(SECURE_BAND_LEN as int, BANK_LEN as int),
            running: self.running,
            target: self.target,
            next: self.next,
            pending: self.pending,
            nvcnt: self.nvcnt,
            boot_count: self.boot_count,
            outcome: self.outcome,
            vacant: true,
            room: true,
            ticks: self.boot_count < u32::MAX,
            script: Some(self.fault),
            calls: self.calls@,
        }
    }

    closed spec fn wf(&self) -> bool {
        &&& self.committed == self.committed_view()
        &&& self.reverted == self.reverted_view()
    }

    open spec fn nominal(&self) -> bool {
        self.seam().script == Some(FaultPoint::Off)
    }

    proof fn seam_is_wf(&self) {
    }

    fn inactive_descriptor(&self) -> (bytes: &[u8]) {
        &self.descriptor
    }

    fn inactive_secure_band(&self) -> (bytes: &[u8]) {
        slice_subrange(&self.bank, 0, SECURE_BAND_LEN)
    }

    fn inactive_ns_band(&self) -> (bytes: &[u8]) {
        slice_subrange(&self.bank, SECURE_BAND_LEN, BANK_LEN)
    }

    fn erase_inactive(&mut self) -> (r: Result<(), FlashError>) {
        let r = if self.take_fault(FaultPoint::Erase) {
            Err(FlashError::Hardware)
        } else {
            self.bank = [0xFF; BANK_LEN];
            self.descriptor = [0xFF; DESCRIPTOR_LEN];
            Ok(())
        };
        self.answer(Ghost(SeamCall::Erase(r)));
        r
    }

    fn write_inactive_page(&mut self, page: PageIndex, data: &[u8]) -> (r: Result<(), FlashError>)
        ensures
            r is Ok ==> final(self).seam().payload() == overlay(
                old(self).seam().payload(),
                page * PAGE_LEN,
                data@,
            ),
    {
        let start: usize = page as usize * PAGE_LEN;
        let r = if self.take_fault(FaultPoint::WritePage) {
            Err(FlashError::WriteFailed)
        } else if data.len() > PAGE_LEN {
            Err(FlashError::WriteFailed)
        } else if start + data.len() > BANK_LEN {
            Err(FlashError::OutOfRange)
        } else {
            write_over(&mut self.bank, start, data);
            Ok(())
        };
        self.answer(Ghost(SeamCall::WritePage(page, data@, r)));
        proof {
            assert(old(self).seam().payload() =~= old(self).bank@);
            assert(self.seam().payload() =~= self.bank@);
        }
        r
    }

    fn write_descriptor(&mut self, descriptor: &[u8]) -> (r: Result<(), FlashError>)
        ensures
            r is Ok ==> final(self).seam().descriptor == overlay(
                old(self).seam().descriptor,
                0,
                descriptor@,
            ),
    {
        let r = if self.take_fault(FaultPoint::WritePage) {
            Err(FlashError::WriteFailed)
        } else if descriptor.len() > DESCRIPTOR_LEN {
            Err(FlashError::OutOfRange)
        } else {
            write_over(&mut self.descriptor, 0, descriptor);
            Ok(())
        };
        self.answer(Ghost(SeamCall::WriteDescriptor(descriptor@, r)));
        r
    }

    fn running_bank(&mut self) -> (r: Result<BankId, FlashError>) {
        let r = Ok(self.running);
        self.answer(Ghost(SeamCall::RunningBank(r)));
        r
    }

    fn target_bank(&mut self) -> (r: Result<BankId, FlashError>) {
        let r = Ok(self.target);
        self.answer(Ghost(SeamCall::TargetBank(r)));
        r
    }

    fn commit_swap(&mut self) -> (r: Result<(), FlashError>)
        ensures
            r is Ok ==> final(self).seam().running == old(self).seam().target,
            final(self).committed_view() == (old(self).committed_view() || r is Ok),
    {
        let r = if self.take_fault(FaultPoint::Commit) {
            Err(FlashError::Hardware)
        } else {
            self.committed = true;
            self.running = self.target;
            self.next = self.target;
            Ok(())
        };
        self.answer(Ghost(SeamCall::CommitSwap(r)));
        r
    }

    fn revert_swap(&mut self) -> (r: Result<(), FlashError>)
        ensures
            final(self).reverted_view() == (old(self).reverted_view() || r is Ok),
    {
        let r = if self.take_fault(FaultPoint::Revert) {
            Err(FlashError::Hardware)
        } else {
            self.reverted = true;
            self.next = other_bank(self.running);
            Ok(())
        };
        self.answer(Ghost(SeamCall::RevertSwap(r)));
        r
    }

    fn nvcnt_read(&mut self) -> (r: Result<u32, FlashError>) {
        let r = Ok(self.nvcnt);
        self.answer(Ghost(SeamCall::NvcntRead(r)));
        r
    }

    fn nvcnt_bump(&mut self, value: u32) -> (r: Result<(), FlashError>) {
        let r = if self.take_fault(FaultPoint::NvcntBump) {
            Err(FlashError::CounterExhausted)
        } else if value < self.nvcnt {
            Err(FlashError::WriteFailed)
        } else {
            self.nvcnt = value;
            Ok(())
        };
        self.answer(Ghost(SeamCall::NvcntBump(value, r)));
        r
    }

    fn pending_read(&mut self) -> (r: Result<PendingFlag, FlashError>) {
        let r = Ok(self.pending);
        self.answer(Ghost(SeamCall::PendingRead(r)));
        r
    }

    fn pending_write(&mut self, flag: PendingFlag) -> (r: Result<(), FlashError>) {
        let r = if self.take_fault(FaultPoint::PendingWrite) {
            Err(FlashError::WriteFailed)
        } else {
            self.pending = flag;
            Ok(())
        };
        self.answer(Ghost(SeamCall::PendingWrite(flag, r)));
        r
    }

    fn boot_count_read(&mut self) -> (r: Result<u32, FlashError>) {
        let r = Ok(self.boot_count);
        self.answer(Ghost(SeamCall::BootCountRead(r)));
        r
    }

    fn boot_count_advance(&mut self) -> (r: Result<(), FlashError>) {
        let r = if self.take_fault(FaultPoint::BootCount) {
            Err(FlashError::WriteFailed)
        } else {
            match self.boot_count.checked_add(1) {
                Some(count) => {
                    self.boot_count = count;
                    Ok(())
                },
                None => Err(FlashError::WriteFailed),
            }
        };
        self.answer(Ghost(SeamCall::BootCountAdvance(r)));
        r
    }

    fn update_outcome_read(&mut self) -> (r: Result<UpdateOutcome, FlashError>) {
        let r = Ok(self.outcome);
        self.answer(Ghost(SeamCall::OutcomeRead(r)));
        r
    }

    fn update_outcome_write(&mut self, outcome: UpdateOutcome) -> (r: Result<(), FlashError>) {
        let r = Ok(());
        self.outcome = outcome;
        self.answer(Ghost(SeamCall::OutcomeWrite(outcome, r)));
        r
    }

    fn update_outcome_clear(&mut self) -> (r: Result<(), FlashError>) {
        let r = Ok(());
        self.outcome = UpdateOutcome::Clear;
        self.answer(Ghost(SeamCall::OutcomeClear(r)));
        r
    }
}

/// What a call adds to a log.
proof fn lemma_logged(log: Seq<SeamCall>, call: SeamCall, wanted: SeamCall)
    ensures
        log.push(call).contains(wanted) == (log.contains(wanted) || call == wanted),
{
    let after = log.push(call);
    if log.contains(wanted) {
        let k = choose|k: int| 0 <= k < log.len() && log[k] == wanted;
        assert(after[k] == wanted);
    }
    if call == wanted {
        assert(after[log.len() as int] == wanted);
    }
    if after.contains(wanted) {
        let k = choose|k: int| 0 <= k < after.len() && after[k] == wanted;
        if k < log.len() {
            assert(log[k] == wanted);
        }
    }
}

/// A spend was answered with success.
pub open spec fn spends(calls: Seq<SeCall>) -> bool {
    calls.contains(SeCall::Update(Ok(())))
}

/// What a call adds to the spends.
pub(crate) proof fn lemma_spends(calls: Seq<SeCall>, call: SeCall)
    ensures
        spends(calls.push(call)) == (spends(calls) || call == SeCall::Update(Ok(()))),
{
    let wanted = SeCall::Update(Ok(()));
    let after = calls.push(call);
    if spends(calls) {
        let k = choose|k: int| 0 <= k < calls.len() && calls[k] == wanted;
        assert(after[k] == wanted);
    }
    if call == wanted {
        assert(after[calls.len() as int] == wanted);
    }
    if spends(after) {
        let k = choose|k: int| 0 <= k < after.len() && after[k] == wanted;
        if k < calls.len() {
            assert(calls[k] == wanted);
        }
    }
}

/// A host model of the secure-element down-counter.
pub struct MockSeCounter {
    value: u32,
    available: bool,
    updated: bool,
    calls: Ghost<Seq<SeCall>>,
}

impl MockSeCounter {
    /// The flag of a spent tick follows the calls.
    #[verifier::type_invariant]
    spec fn logged(&self) -> bool {
        self.updated == spends(self.calls@)
    }

    /// Whether a tick has been spent: a spend was answered with success.
    pub open spec fn updated_view(&self) -> bool {
        spends(self.se().calls)
    }

    /// Builds a counter at `value`, channel up.
    pub fn new(value: u32) -> (r: MockSeCounter)
        ensures
            r.se() == (SeView { value, calls: Seq::empty() }),
            r.available(),
            !r.updated_view(),
    {
        MockSeCounter { value, available: true, updated: false, calls: Ghost(Seq::empty()) }
    }

    /// Forces the channel down.
    pub fn set_unavailable(&mut self)
        ensures
            final(self).se() == old(self).se(),
            !final(self).available(),
            final(self).updated_view() == old(self).updated_view(),
    {
        proof {
            use_type_invariant(&*self);
        }
        self.available = false;
    }

    /// True once a tick was spent.
    pub fn updated(&self) -> (r: bool)
        ensures
            r == self.updated_view(),
    {
        proof {
            use_type_invariant(self);
        }
        self.updated
    }

    /// The current counter value.
    pub fn value(&self) -> (r: u32)
        ensures
            r == self.se().value,
    {
        self.value
    }
}

impl SeCounterSeam for MockSeCounter {
    closed spec fn se(&self) -> SeView {
        SeView { value: self.value, calls: self.calls@ }
    }

    closed spec fn available(&self) -> bool {
        self.available
    }

    fn read(&mut self) -> (r: Result<u32, SeCounterError>)
        ensures
            r == (if old(self).available() {
                Ok::<u32, SeCounterError>(old(self).se().value)
            } else {
                Err(SeCounterError::Unavailable)
            }),
            final(self).available() == old(self).available(),
            final(self).updated_view() == old(self).updated_view(),
    {
        let r = if self.available {
            Ok(self.value)
        } else {
            Err(SeCounterError::Unavailable)
        };
        proof {
            use_type_invariant(&*self);
            lemma_spends(self.calls@, SeCall::Read(r));
        }
        self.calls = Ghost(self.calls@.push(SeCall::Read(r)));
        r
    }

    fn update(&mut self) -> (r: Result<(), SeCounterError>)
        ensures
            r == (if !old(self).available() {
                Err::<(), SeCounterError>(SeCounterError::Unavailable)
            } else if old(self).se().value == 0 {
                Err(SeCounterError::Exhausted)
            } else {
                Ok(())
            }),
            final(self).available() == old(self).available(),
            final(self).updated_view() == (old(self).updated_view() || r is Ok),
    {
        let r = if !self.available {
            Err(SeCounterError::Unavailable)
        } else if self.value == 0 {
            Err(SeCounterError::Exhausted)
        } else {
            Ok(())
        };
        let ghost calls = self.calls@.push(SeCall::Update(r));
        proof {
            use_type_invariant(&*self);
            lemma_spends(self.calls@, SeCall::Update(r));
        }
        let spent: bool = r.is_ok();
        *self = MockSeCounter {
            value: if spent {
                self.value - 1
            } else {
                self.value
            },
            available: self.available,
            updated: self.updated || spent,
            calls: Ghost(calls),
        };
        r
    }
}

} // verus!
