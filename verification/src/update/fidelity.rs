//! A model of flash that keeps what silicon keeps, for power-fault tests.
//!
//! [`MockFlash`](crate::update::mock::MockFlash) raises bits on a write and swaps
//! at once. [`FidelityFlash`] does neither. A program clears bits only, both banks
//! have a store of their own, a swap is staged and takes effect at the next reset,
//! and a write that a power cut tears leaves a poisoned quad-word.
//!
//! What survives a cut is a [`PersistentState`]. A reboot builds a fresh model over
//! it. The countdown of an armed cut rides in that state, so one cut index walks
//! every persistent change of a flow, across its resets.

use vstd::prelude::*;
use vstd::slice::slice_subrange;

use crate::update::mock::lemma_spends;
use crate::update::mock::spends;
use crate::update::seam::erased_range;
use crate::update::seam::other;
use crate::update::seam::other_bank;
use crate::update::seam::overlay;
use crate::update::seam::BankId;
use crate::update::seam::FlashError;
use crate::update::seam::FlashSeam;
use crate::update::seam::PageIndex;
use crate::update::seam::PendingFlag;
use crate::update::seam::SeCall;
use crate::update::seam::SeCounterError;
use crate::update::seam::SeCounterSeam;
use crate::update::seam::SeView;
use crate::update::seam::SeamCall;
use crate::update::seam::SeamView;
use crate::update::seam::UpdateOutcome;
use crate::update::seam::PAGE_LEN;

verus! {

/// The modelled size of each physical bank in bytes.
pub const BANK_LEN: usize = 4096;

/// The modelled size of each descriptor store in bytes: a header, a signature, and a
/// tail that stays erased.
pub const DESCRIPTOR_LEN: usize = 128;

/// Where the non-secure payload band of a bank starts.
pub const NS_OFFSET: usize = 2048;

/// The program granularity in bytes: a torn write corrupts a whole quad-word.
pub const QUAD_WORD_LEN: usize = 16;

/// What every byte of a torn quad-word reads back as.
pub const POISON_BYTE: u8 = 0xA5;

/// Where a power cut lands relative to a persistent change.
#[derive(Debug, Clone, Copy, PartialEq, Eq, Structural)]
pub enum CutMode {
    /// Power dies before the change lands: the call fails, nothing changed.
    BeforeMutation,
    /// Power dies after the change landed: the call succeeds, later ones fail.
    AfterMutation,
    /// A page write tears: its first quad-word is poisoned and the call fails. A change
    /// that is no page write is cut before it lands.
    TornWrite,
}

/// Whether an armed cut fired.
#[derive(Debug, Clone, Copy, PartialEq, Eq, Structural)]
pub enum CutOutcome {
    /// The cut never fired.
    NotReached,
    /// The cut fired at the armed change.
    Fired,
}

/// The state that survives a power cut.
#[derive(Debug, Clone, Copy, PartialEq, Eq)]
pub struct PersistentState {
    /// The store of Bank 1.
    pub bank_a: [u8; BANK_LEN],
    /// The store of Bank 2.
    pub bank_b: [u8; BANK_LEN],
    /// The descriptor store of Bank 1.
    pub descriptor_a: [u8; DESCRIPTOR_LEN],
    /// The descriptor store of Bank 2.
    pub descriptor_b: [u8; DESCRIPTOR_LEN],
    /// The monotone anti-rollback counter.
    pub nvcnt: u32,
    /// The pending-confirm record.
    pub pending: PendingFlag,
    /// The update-outcome record.
    pub outcome: UpdateOutcome,
    /// The boot-count confirmation countdown.
    pub boot_count: u32,
    /// The bank the firmware runs from.
    pub running: BankId,
    /// The inactive bank, which a swap would make bootable.
    pub target: BankId,
    /// The staged swap, which takes effect at the next reset.
    pub staged_swap: Option<BankId>,
    /// The countdown of a cut that has not fired yet.
    pub cut_countdown: Option<u32>,
    /// The mode of that cut.
    pub cut_mode: CutMode,
}

impl PersistentState {
    /// The store of a bank.
    pub open spec fn store_of(self, bank: BankId) -> Seq<u8> {
        match bank {
            BankId::Bank1 => self.bank_a@,
            BankId::Bank2 => self.bank_b@,
        }
    }

    /// The descriptor store of a bank.
    pub open spec fn descriptor_of(self, bank: BankId) -> Seq<u8> {
        match bank {
            BankId::Bank1 => self.descriptor_a@,
            BankId::Bank2 => self.descriptor_b@,
        }
    }

    /// The same state with a cut riding in it.
    pub open spec fn with_cut(self, cut: CutView) -> PersistentState {
        PersistentState { cut_countdown: cut.countdown, cut_mode: cut.mode, ..self }
    }

    /// The bank that the next reset boots.
    pub open spec fn boots_next(self) -> BankId {
        match self.staged_swap {
            Some(bank) => bank,
            None => self.running,
        }
    }

    /// Builds two erased banks, Bank 1 running, no swap staged and no cut armed.
    pub fn baseline(nvcnt: u32) -> (r: PersistentState)
        ensures
            r.bank_a@ == Seq::new(BANK_LEN as nat, |i: int| 0xFFu8),
            r.bank_b@ == Seq::new(BANK_LEN as nat, |i: int| 0xFFu8),
            r.descriptor_a@ == Seq::new(DESCRIPTOR_LEN as nat, |i: int| 0xFFu8),
            r.descriptor_b@ == Seq::new(DESCRIPTOR_LEN as nat, |i: int| 0xFFu8),
            r.nvcnt == nvcnt,
            r.pending == PendingFlag::Clear,
            r.outcome == UpdateOutcome::Clear,
            r.boot_count == 0,
            r.running == BankId::Bank1,
            r.target == BankId::Bank2,
            r.staged_swap is None,
            r.cut_countdown is None,
            r.cut_mode == CutMode::BeforeMutation,
    {
        PersistentState {
            bank_a: [0xFF; BANK_LEN],
            bank_b: [0xFF; BANK_LEN],
            descriptor_a: [0xFF; DESCRIPTOR_LEN],
            descriptor_b: [0xFF; DESCRIPTOR_LEN],
            nvcnt,
            pending: PendingFlag::Clear,
            outcome: UpdateOutcome::Clear,
            boot_count: 0,
            running: BankId::Bank1,
            target: BankId::Bank2,
            staged_swap: None,
            cut_countdown: None,
            cut_mode: CutMode::BeforeMutation,
        }
    }

    /// Borrows the store of a bank.
    pub fn store(&self, bank: BankId) -> (r: &[u8; BANK_LEN])
        ensures
            r@ == self.store_of(bank),
    {
        match bank {
            BankId::Bank1 => &self.bank_a,
            BankId::Bank2 => &self.bank_b,
        }
    }

    /// Borrows the descriptor store of a bank.
    pub fn descriptor(&self, bank: BankId) -> (r: &[u8; DESCRIPTOR_LEN])
        ensures
            r@ == self.descriptor_of(bank),
    {
        match bank {
            BankId::Bank1 => &self.descriptor_a,
            BankId::Bank2 => &self.descriptor_b,
        }
    }

    /// A reset: the staged swap takes effect and nothing else changes.
    pub fn apply_reset(&mut self)
        ensures
            *final(self) == (match old(self).staged_swap {
                Some(next) => PersistentState {
                    running: next,
                    target: other(next),
                    staged_swap: None,
                    ..*old(self)
                },
                None => *old(self),
            }),
    {
        if let Some(next) = self.staged_swap {
            self.staged_swap = None;
            self.running = next;
            self.target = other_bank(next);
        }
    }
}

/// What a persistent change does under the armed cut.
#[derive(Debug, Clone, Copy, PartialEq, Eq, Structural)]
pub enum CutAction {
    /// The change lands.
    Proceed,
    /// The change fails and nothing changes.
    Fault,
    /// The change lands, and every later one fails.
    MutateThenStop,
    /// A write is torn.
    Tear,
}

/// The armed cut of a model.
pub ghost struct CutView {
    /// How many more persistent changes the cut waits for, if one is armed.
    pub countdown: Option<u32>,
    /// The mode of the cut.
    pub mode: CutMode,
    /// Whether it fired.
    pub outcome: CutOutcome,
    /// Whether the power is gone.
    pub tripped: bool,
}

impl CutView {
    /// What the next persistent change does.
    pub open spec fn action(self) -> CutAction {
        if self.tripped {
            CutAction::Fault
        } else {
            match self.countdown {
                Some(n) => if n > 0 {
                    CutAction::Proceed
                } else {
                    match self.mode {
                        CutMode::BeforeMutation => CutAction::Fault,
                        CutMode::AfterMutation => CutAction::MutateThenStop,
                        CutMode::TornWrite => CutAction::Tear,
                    }
                },
                None => CutAction::Proceed,
            }
        }
    }

    /// Whether the next persistent change lands.
    pub open spec fn lands(self) -> bool {
        self.action() == CutAction::Proceed || self.action() == CutAction::MutateThenStop
    }

    /// The cut after one more persistent change.
    pub open spec fn stepped(self) -> CutView {
        if self.tripped {
            self
        } else {
            match self.countdown {
                Some(n) => if n > 0 {
                    CutView { countdown: Some((n - 1) as u32), ..self }
                } else {
                    CutView {
                        countdown: None,
                        outcome: CutOutcome::Fired,
                        tripped: true,
                        ..self
                    }
                },
                None => self,
            }
        }
    }
}

/// The state that a model with an armed cut leaves behind.
pub open spec fn surviving(persistent: PersistentState, cut: CutView) -> PersistentState {
    if cut.tripped {
        PersistentState { cut_countdown: None, ..persistent }
    } else {
        PersistentState { cut_countdown: cut.countdown, cut_mode: cut.mode, ..persistent }
    }
}

/// The cut of a fresh model over a state.
pub open spec fn rearmed(persistent: PersistentState) -> CutView {
    CutView {
        countdown: persistent.cut_countdown,
        mode: persistent.cut_mode,
        outcome: CutOutcome::NotReached,
        tripped: false,
    }
}

/// A change of the inactive bank: its stores hold `bank` and `descriptor` then, the
/// stores of the other bank and all records are as they were, and `cut` is armed.
pub open spec fn target_changed(
    pre: PersistentState,
    bank: Seq<u8>,
    descriptor: Seq<u8>,
    cut: CutView,
    post: PersistentState,
) -> bool {
    &&& post == (PersistentState {
        bank_a: post.bank_a,
        bank_b: post.bank_b,
        descriptor_a: post.descriptor_a,
        descriptor_b: post.descriptor_b,
        ..pre
    }).with_cut(cut)
    &&& post.store_of(pre.target) == bank
    &&& post.descriptor_of(pre.target) == descriptor
    &&& post.store_of(other(pre.target)) == pre.store_of(other(pre.target))
    &&& post.descriptor_of(other(pre.target)) == pre.descriptor_of(other(pre.target))
}

/// A model of both banks, the persistent records and the staged swap.
pub struct FidelityFlash {
    persistent: PersistentState,
    outcome: CutOutcome,
    tripped: bool,
    calls: Ghost<Seq<SeamCall>>,
}

impl FidelityFlash {
    /// The persistent state of the model.
    pub closed spec fn state(&self) -> PersistentState {
        self.persistent
    }

    /// The armed cut of the model.
    pub closed spec fn cut(&self) -> CutView {
        CutView {
            countdown: self.persistent.cut_countdown,
            mode: self.persistent.cut_mode,
            outcome: self.outcome,
            tripped: self.tripped,
        }
    }

    /// The calls the model has answered.
    pub closed spec fn answers(&self) -> Seq<SeamCall> {
        self.calls@
    }

    /// Builds a model over a state and arms the cut that rides in it.
    pub fn new(persistent: PersistentState) -> (r: FidelityFlash)
        ensures
            r.state() == persistent,
            r.cut() == rearmed(persistent),
            r.answers() == Seq::<SeamCall>::empty(),
            r.seam() == seam_of(r.state(), Seq::empty()),
            r.nominal() <==> persistent.cut_countdown is None,
    {
        FidelityFlash {
            persistent,
            outcome: CutOutcome::NotReached,
            tripped: false,
            calls: Ghost(Seq::empty()),
        }
    }

    /// Arms a power cut at the `index`-th persistent change from now.
    pub fn arm_cut(&mut self, index: u32, mode: CutMode)
        ensures
            final(self).state() == old(self).state().with_cut(final(self).cut()),
            final(self).answers() == old(self).answers(),
            final(self).cut() == (CutView { countdown: Some(index), mode, ..old(self).cut() }),
    {
        self.persistent.cut_countdown = Some(index);
        self.persistent.cut_mode = mode;
    }

    /// Whether the armed cut fired.
    pub fn outcome(&self) -> (r: CutOutcome)
        ensures
            r == self.cut().outcome,
    {
        self.outcome
    }

    /// Borrows the persistent state. The countdown and the mode of the cut ride in it.
    pub fn persistent(&self) -> (r: &PersistentState)
        ensures
            *r == self.state(),
            r.cut_countdown == self.cut().countdown,
            r.cut_mode == self.cut().mode,
    {
        &self.persistent
    }

    /// Takes the state that survives a power cut. A staged swap stays staged, and a
    /// cut that has not fired stays armed.
    pub fn into_surviving(self) -> (r: PersistentState)
        ensures
            r == surviving(self.state(), self.cut()),
    {
        let mut left: PersistentState = self.persistent;
        if self.tripped {
            left.cut_countdown = None;
        }
        left
    }

    /// Steps the cut for one persistent change.
    fn step_cut(&mut self) -> (r: CutAction)
        ensures
            r == old(self).cut().action(),
            final(self).cut() == old(self).cut().stepped(),
            final(self).persistent == old(self).persistent.with_cut(final(self).cut()),
            final(self).calls == old(self).calls,
    {
        if self.tripped {
            return CutAction::Fault;
        }
        match self.persistent.cut_countdown {
            None => CutAction::Proceed,
            Some(n) => if n == 0 {
                self.outcome = CutOutcome::Fired;
                self.tripped = true;
                self.persistent.cut_countdown = None;
                match self.persistent.cut_mode {
                    CutMode::BeforeMutation => CutAction::Fault,
                    CutMode::AfterMutation => CutAction::MutateThenStop,
                    CutMode::TornWrite => CutAction::Tear,
                }
            } else {
                self.persistent.cut_countdown = Some(n - 1);
                CutAction::Proceed
            },
        }
    }

    /// Steps the cut for a change that is no page write: whether it lands.
    fn step_record(&mut self) -> (landed: bool)
        ensures
            landed == old(self).cut().lands(),
            final(self).cut() == old(self).cut().stepped(),
            final(self).persistent == old(self).persistent.with_cut(final(self).cut()),
            final(self).calls == old(self).calls,
    {
        match self.step_cut() {
            CutAction::Proceed => true,
            CutAction::MutateThenStop => true,
            CutAction::Fault => false,
            CutAction::Tear => false,
        }
    }

    /// Programs `data` into the inactive bank at `start`, as far as the cut lets it.
    fn write_target(&mut self, start: usize, data: &[u8]) -> (r: Result<(), FlashError>)
        requires
            start + data@.len() <= BANK_LEN,
        ensures
            final(self).cut() == old(self).cut().stepped(),
            final(self).calls == old(self).calls,
            r == (if old(self).cut().lands() {
                Ok::<(), FlashError>(())
            } else {
                Err(FlashError::WriteFailed)
            }),
            target_changed(
                old(self).persistent,
                page_written(
                    old(self).persistent.store_of(old(self).persistent.target),
                    start as int,
                    data@,
                    old(self).cut().action(),
                ),
                old(self).persistent.descriptor_of(old(self).persistent.target),
                old(self).cut().stepped(),
                final(self).persistent,
            ),
            old(self).cut().action() == CutAction::Fault ==> final(self).persistent
                == old(self).persistent.with_cut(old(self).cut().stepped()),
    {
        match self.step_cut() {
            CutAction::Fault => Err(FlashError::WriteFailed),
            CutAction::Tear => {
                match self.persistent.target {
                    BankId::Bank1 => poison_quad_word(&mut self.persistent.bank_a, start),
                    BankId::Bank2 => poison_quad_word(&mut self.persistent.bank_b, start),
                }
                Err(FlashError::WriteFailed)
            },
            _ => {
                match self.persistent.target {
                    BankId::Bank1 => program_clears_bits(
                        &mut self.persistent.bank_a,
                        start,
                        data,
                    ),
                    BankId::Bank2 => program_clears_bits(
                        &mut self.persistent.bank_b,
                        start,
                        data,
                    ),
                }
                Ok(())
            },
        }
    }

    fn answer(&mut self, Ghost(call): Ghost<SeamCall>)
        ensures
            *final(self) == (FidelityFlash {
                calls: Ghost(old(self).calls@.push(call)),
                ..*old(self)
            }),
    {
        self.calls = Ghost(self.calls@.push(call));
    }
}

/// What a bank holds after a page write under a cut: the programmed bytes, the bytes
/// before, or those with a poisoned quad-word.
pub open spec fn page_written(
    bytes: Seq<u8>,
    start: int,
    data: Seq<u8>,
    action: CutAction,
) -> Seq<u8> {
    match action {
        CutAction::Fault => bytes,
        CutAction::Tear => overlay(
            bytes,
            start,
            Seq::new(QUAD_WORD_LEN as nat, |i: int| POISON_BYTE),
        ),
        _ => programmed(bytes, start, data),
    }
}

/// What a model in a state shows to the update machine.
pub open spec fn seam_of(state: PersistentState, calls: Seq<SeamCall>) -> SeamView {
    let bytes = state.store_of(state.target);
    SeamView {
        descriptor: state.descriptor_of(state.target),
        secure: bytes.subrange(0, NS_OFFSET as int),
        ns: bytes.subrange(NS_OFFSET as int, BANK_LEN as int),
        running: state.running,
        target: state.target,
        next: state.boots_next(),
        pending: state.pending,
        nvcnt: state.nvcnt,
        boot_count: state.boot_count,
        outcome: state.outcome,
        vacant: true,
        room: true,
        ticks: state.boot_count < u32::MAX,
        script: None,
        calls,
    }
}

/// `bytes` with `data` programmed over it from `start` on: bits are only cleared.
pub open spec fn programmed(bytes: Seq<u8>, start: int, data: Seq<u8>) -> Seq<u8> {
    Seq::new(
        bytes.len(),
        |i: int|
            if start <= i < start + data.len() {
                bytes[i] & data[i - start]
            } else {
                bytes[i]
            },
    )
}

/// Programs `data` into a store at `start`, clearing bits only.
fn program_clears_bits(bank: &mut [u8], start: usize, data: &[u8])
    requires
        start + data@.len() <= old(bank)@.len(),
    ensures
        final(bank)@ == programmed(old(bank)@, start as int, data@),
{
    let mut i: usize = 0;
    while i < data.len()
        invariant
            i <= data@.len(),
            start + data@.len() <= bank.len(),
            bank@.len() == old(bank)@.len(),
            forall|k: int|
                0 <= k < bank@.len() ==> #[trigger] bank@[k] == (if start <= k < start + i {
                    old(bank)@[k] & data@[k - start]
                } else {
                    old(bank)@[k]
                }),
        decreases data@.len() - i,
    {
        bank[start + i] = bank[start + i] & data[i];
        i += 1;
    }
    assert(bank@ =~= programmed(old(bank)@, start as int, data@));
}

/// Poisons the quad-word at `start`, as far as the bank reaches.
fn poison_quad_word(bank: &mut [u8; BANK_LEN], start: usize)
    requires
        start <= BANK_LEN,
    ensures
        final(bank)@ == overlay(
            old(bank)@,
            start as int,
            Seq::new(QUAD_WORD_LEN as nat, |i: int| POISON_BYTE),
        ),
{
    let mut i: usize = 0;
    while i < QUAD_WORD_LEN && start + i < BANK_LEN
        invariant
            i <= QUAD_WORD_LEN,
            start + i <= BANK_LEN,
            forall|k: int|
                0 <= k < BANK_LEN ==> #[trigger] bank@[k] == (if start <= k < start + i {
                    POISON_BYTE
                } else {
                    old(bank)@[k]
                }),
        decreases QUAD_WORD_LEN - i,
    {
        bank[start + i] = POISON_BYTE;
        i += 1;
    }
    assert(bank@ =~= overlay(
        old(bank)@,
        start as int,
        Seq::new(QUAD_WORD_LEN as nat, |i: int| POISON_BYTE),
    ));
}

impl FlashSeam for FidelityFlash {
    open spec fn seam(&self) -> SeamView {
        seam_of(self.state(), self.answers())
    }

    open spec fn wf(&self) -> bool {
        true
    }

    open spec fn nominal(&self) -> bool {
        self.cut().countdown is None && !self.cut().tripped
    }

    proof fn seam_is_wf(&self) {
        lemma_payload(self.state());
    }

    fn inactive_descriptor(&self) -> (bytes: &[u8]) {
        self.persistent.descriptor(self.persistent.target)
    }

    fn inactive_secure_band(&self) -> (bytes: &[u8]) {
        slice_subrange(self.persistent.store(self.persistent.target), 0, NS_OFFSET)
    }

    fn inactive_ns_band(&self) -> (bytes: &[u8]) {
        slice_subrange(self.persistent.store(self.persistent.target), NS_OFFSET, BANK_LEN)
    }

    fn erase_inactive(&mut self) -> (r: Result<(), FlashError>)
        ensures
            r == (if old(self).cut().lands() {
                Ok::<(), FlashError>(())
            } else {
                Err(FlashError::Hardware)
            }),
            final(self).cut() == old(self).cut().stepped(),
            r is Ok ==> target_changed(
                old(self).state(),
                Seq::new(BANK_LEN as nat, |i: int| 0xFFu8),
                Seq::new(DESCRIPTOR_LEN as nat, |i: int| 0xFFu8),
                final(self).cut(),
                final(self).state(),
            ),
            r is Err ==> final(self).state() == old(self).state().with_cut(final(self).cut()),
    {
        let r = if self.step_record() {
            match self.persistent.target {
                BankId::Bank1 => {
                    self.persistent.bank_a = [0xFF; BANK_LEN];
                    self.persistent.descriptor_a = [0xFF; DESCRIPTOR_LEN];
                },
                BankId::Bank2 => {
                    self.persistent.bank_b = [0xFF; BANK_LEN];
                    self.persistent.descriptor_b = [0xFF; DESCRIPTOR_LEN];
                },
            }
            Ok(())
        } else {
            Err(FlashError::Hardware)
        };
        self.answer(Ghost(SeamCall::Erase(r)));
        proof {
            let post = self.state();
            if r is Ok {
                assert(post.store_of(post.target) =~= Seq::new(BANK_LEN as nat, |i: int| 0xFFu8));
                assert(post.descriptor_of(post.target) =~= Seq::new(
                    DESCRIPTOR_LEN as nat,
                    |i: int| 0xFFu8,
                ));
            }
        }
        r
    }

    fn write_inactive_page(&mut self, page: PageIndex, data: &[u8]) -> (r: Result<(), FlashError>)
        ensures
            r == (if page * PAGE_LEN + data@.len() > BANK_LEN {
                Err::<(), FlashError>(FlashError::OutOfRange)
            } else if old(self).cut().lands() {
                Ok(())
            } else {
                Err(FlashError::WriteFailed)
            }),
            page * PAGE_LEN + data@.len() > BANK_LEN ==> {
                &&& final(self).cut() == old(self).cut()
                &&& final(self).state() == old(self).state()
            },
            page * PAGE_LEN + data@.len() <= BANK_LEN ==> {
                &&& final(self).cut() == old(self).cut().stepped()
                &&& target_changed(
                    old(self).state(),
                    page_written(
                        old(self).state().store_of(old(self).state().target),
                        page * PAGE_LEN,
                        data@,
                        old(self).cut().action(),
                    ),
                    old(self).state().descriptor_of(old(self).state().target),
                    final(self).cut(),
                    final(self).state(),
                )
                &&& old(self).cut().action() == CutAction::Fault ==> final(self).state()
                    == old(self).state().with_cut(final(self).cut())
            },
    {
        let start: usize = page as usize * PAGE_LEN;
        let r = if start > BANK_LEN || data.len() > BANK_LEN - start {
            Err(FlashError::OutOfRange)
        } else {
            self.write_target(start, data)
        };
        self.answer(Ghost(SeamCall::WritePage(page, data@, r)));
        proof {
            let pre = old(self).state();
            lemma_payload(pre);
            lemma_payload(self.state());
            if r is Ok && erased_range(
                old(self).seam().payload(),
                start as int,
                start + data@.len(),
            ) {
                lemma_programmed_over_erased(pre.store_of(pre.target), start as int, data@);
            }
        }
        r
    }

    fn write_descriptor(&mut self, descriptor: &[u8]) -> (r: Result<(), FlashError>)
        ensures
            r == (if descriptor@.len() > DESCRIPTOR_LEN {
                Err::<(), FlashError>(FlashError::OutOfRange)
            } else if old(self).cut().lands() {
                Ok(())
            } else {
                Err(FlashError::WriteFailed)
            }),
            final(self).cut() == (if descriptor@.len() > DESCRIPTOR_LEN {
                old(self).cut()
            } else {
                old(self).cut().stepped()
            }),
            r is Ok ==> target_changed(
                old(self).state(),
                old(self).state().store_of(old(self).state().target),
                programmed(
                    old(self).state().descriptor_of(old(self).state().target),
                    0,
                    descriptor@,
                ),
                final(self).cut(),
                final(self).state(),
            ),
            r is Err ==> final(self).state() == old(self).state().with_cut(final(self).cut()),
    {
        let r = if descriptor.len() > DESCRIPTOR_LEN {
            Err(FlashError::OutOfRange)
        } else if self.step_record() {
            match self.persistent.target {
                BankId::Bank1 => program_clears_bits(
                    &mut self.persistent.descriptor_a,
                    0,
                    descriptor,
                ),
                BankId::Bank2 => program_clears_bits(
                    &mut self.persistent.descriptor_b,
                    0,
                    descriptor,
                ),
            }
            Ok(())
        } else {
            Err(FlashError::WriteFailed)
        };
        self.answer(Ghost(SeamCall::WriteDescriptor(descriptor@, r)));
        proof {
            let pre = old(self).state();
            if r is Ok && erased_range(
                old(self).seam().descriptor,
                0,
                descriptor@.len() as int,
            ) {
                lemma_programmed_over_erased(pre.descriptor_of(pre.target), 0, descriptor@);
            }
        }
        r
    }

    fn running_bank(&mut self) -> (r: Result<BankId, FlashError>)
        ensures
            r is Ok,
            final(self).cut() == old(self).cut(),
            final(self).state() == old(self).state(),
    {
        let r = Ok(self.persistent.running);
        self.answer(Ghost(SeamCall::RunningBank(r)));
        r
    }

    fn target_bank(&mut self) -> (r: Result<BankId, FlashError>)
        ensures
            r is Ok,
            final(self).cut() == old(self).cut(),
            final(self).state() == old(self).state(),
    {
        let r = Ok(self.persistent.target);
        self.answer(Ghost(SeamCall::TargetBank(r)));
        r
    }

    fn commit_swap(&mut self) -> (r: Result<(), FlashError>)
        ensures
            r == (if old(self).cut().lands() {
                Ok::<(), FlashError>(())
            } else {
                Err(FlashError::Hardware)
            }),
            final(self).cut() == old(self).cut().stepped(),
            final(self).state() == (if r is Ok {
                PersistentState {
                    staged_swap: Some(old(self).state().target),
                    ..old(self).state()
                }
            } else {
                old(self).state()
            }).with_cut(final(self).cut()),
    {
        let r = if self.step_record() {
            self.persistent.staged_swap = Some(self.persistent.target);
            Ok(())
        } else {
            Err(FlashError::Hardware)
        };
        self.answer(Ghost(SeamCall::CommitSwap(r)));
        r
    }

    fn revert_swap(&mut self) -> (r: Result<(), FlashError>)
        ensures
            r == (if old(self).cut().lands() {
                Ok::<(), FlashError>(())
            } else {
                Err(FlashError::Hardware)
            }),
            final(self).cut() == old(self).cut().stepped(),
            final(self).state() == (if r is Ok {
                PersistentState {
                    staged_swap: Some(other(old(self).state().running)),
                    ..old(self).state()
                }
            } else {
                old(self).state()
            }).with_cut(final(self).cut()),
    {
        let r = if self.step_record() {
            self.persistent.staged_swap = Some(other_bank(self.persistent.running));
            Ok(())
        } else {
            Err(FlashError::Hardware)
        };
        self.answer(Ghost(SeamCall::RevertSwap(r)));
        r
    }

    fn nvcnt_read(&mut self) -> (r: Result<u32, FlashError>)
        ensures
            r is Ok,
            final(self).cut() == old(self).cut(),
            final(self).state() == old(self).state(),
    {
        let r = Ok(self.persistent.nvcnt);
        self.answer(Ghost(SeamCall::NvcntRead(r)));
        r
    }

    fn nvcnt_bump(&mut self, value: u32) -> (r: Result<(), FlashError>)
        ensures
            r == (if value >= old(self).state().nvcnt && old(self).cut().lands() {
                Ok::<(), FlashError>(())
            } else {
                Err(FlashError::WriteFailed)
            }),
            final(self).cut() == (if value < old(self).state().nvcnt {
                old(self).cut()
            } else {
                old(self).cut().stepped()
            }),
            final(self).state() == (if r is Ok {
                PersistentState { nvcnt: value, ..old(self).state() }
            } else {
                old(self).state()
            }).with_cut(final(self).cut()),
    {
        let r = if value < self.persistent.nvcnt {
            Err(FlashError::WriteFailed)
        } else if self.step_record() {
            self.persistent.nvcnt = value;
            Ok(())
        } else {
            Err(FlashError::WriteFailed)
        };
        self.answer(Ghost(SeamCall::NvcntBump(value, r)));
        r
    }

    fn pending_read(&mut self) -> (r: Result<PendingFlag, FlashError>)
        ensures
            r is Ok,
            final(self).cut() == old(self).cut(),
            final(self).state() == old(self).state(),
    {
        let r = Ok(self.persistent.pending);
        self.answer(Ghost(SeamCall::PendingRead(r)));
        r
    }

    fn pending_write(&mut self, flag: PendingFlag) -> (r: Result<(), FlashError>)
        ensures
            r == (if old(self).cut().lands() {
                Ok::<(), FlashError>(())
            } else {
                Err(FlashError::WriteFailed)
            }),
            final(self).cut() == old(self).cut().stepped(),
            final(self).state() == (if r is Ok {
                PersistentState { pending: flag, ..old(self).state() }
            } else {
                old(self).state()
            }).with_cut(final(self).cut()),
    {
        let r = if self.step_record() {
            self.persistent.pending = flag;
            Ok(())
        } else {
            Err(FlashError::WriteFailed)
        };
        self.answer(Ghost(SeamCall::PendingWrite(flag, r)));
        r
    }

    fn boot_count_read(&mut self) -> (r: Result<u32, FlashError>)
        ensures
            r is Ok,
            final(self).cut() == old(self).cut(),
            final(self).state() == old(self).state(),
    {
        let r = Ok(self.persistent.boot_count);
        self.answer(Ghost(SeamCall::BootCountRead(r)));
        r
    }

    fn boot_count_advance(&mut self) -> (r: Result<(), FlashError>)
        ensures
            r == (if old(self).cut().lands() && old(self).state().boot_count < u32::MAX {
                Ok::<(), FlashError>(())
            } else {
                Err(FlashError::WriteFailed)
            }),
            final(self).cut() == old(self).cut().stepped(),
            final(self).state() == (if r is Ok {
                PersistentState {
                    boot_count: (old(self).state().boot_count + 1) as u32,
                    ..old(self).state()
                }
            } else {
                old(self).state()
            }).with_cut(final(self).cut()),
    {
        let r = if self.step_record() {
            match self.persistent.boot_count.checked_add(1) {
                Some(count) => {
                    self.persistent.boot_count = count;
                    Ok(())
                },
                None => Err(FlashError::WriteFailed),
            }
        } else {
            Err(FlashError::WriteFailed)
        };
        self.answer(Ghost(SeamCall::BootCountAdvance(r)));
        r
    }

    fn update_outcome_read(&mut self) -> (r: Result<UpdateOutcome, FlashError>)
        ensures
            r is Ok,
            final(self).cut() == old(self).cut(),
            final(self).state() == old(self).state(),
    {
        let r = Ok(self.persistent.outcome);
        self.answer(Ghost(SeamCall::OutcomeRead(r)));
        r
    }

    fn update_outcome_write(&mut self, outcome: UpdateOutcome) -> (r: Result<(), FlashError>)
        ensures
            r == (if old(self).cut().lands() {
                Ok::<(), FlashError>(())
            } else {
                Err(FlashError::WriteFailed)
            }),
            final(self).cut() == old(self).cut().stepped(),
            final(self).state() == (if r is Ok {
                PersistentState { outcome, ..old(self).state() }
            } else {
                old(self).state()
            }).with_cut(final(self).cut()),
    {
        let r = if self.step_record() {
            self.persistent.outcome = outcome;
            Ok(())
        } else {
            Err(FlashError::WriteFailed)
        };
        self.answer(Ghost(SeamCall::OutcomeWrite(outcome, r)));
        r
    }

    fn update_outcome_clear(&mut self) -> (r: Result<(), FlashError>)
        ensures
            r == (if old(self).cut().lands() {
                Ok::<(), FlashError>(())
            } else {
                Err(FlashError::WriteFailed)
            }),
            final(self).cut() == old(self).cut().stepped(),
            final(self).state() == (if r is Ok {
                PersistentState { outcome: UpdateOutcome::Clear, ..old(self).state() }
            } else {
                old(self).state()
            }).with_cut(final(self).cut()),
    {
        let r = if self.step_record() {
            self.persistent.outcome = UpdateOutcome::Clear;
            Ok(())
        } else {
            Err(FlashError::WriteFailed)
        };
        self.answer(Ghost(SeamCall::OutcomeClear(r)));
        r
    }
}

/// The payload of the inactive bank is its store.
proof fn lemma_payload(state: PersistentState)
    ensures
        forall|calls: Seq<SeamCall>| #[trigger]
            seam_of(state, calls).payload() == state.store_of(state.target),
{
    let bytes = state.store_of(state.target);
    assert(bytes.subrange(0, NS_OFFSET as int) + bytes.subrange(NS_OFFSET as int, BANK_LEN as int)
        =~= bytes);
}

/// A model of the secure-element counter whose channel can drop during a spend.
pub struct FidelitySeCounter {
    value: u32,
    updated: bool,
    drop_on_update: bool,
    calls: Ghost<Seq<SeCall>>,
}

impl FidelitySeCounter {
    /// The flag of a spent tick follows the calls.
    #[verifier::type_invariant]
    spec fn logged(&self) -> bool {
        self.updated == spends(self.calls@)
    }

    /// Whether a tick has been spent: a spend was answered with success.
    pub open spec fn updated_view(&self) -> bool {
        spends(self.se().calls)
    }

    /// Whether a spend drops the channel.
    pub closed spec fn drops(&self) -> bool {
        self.drop_on_update
    }

    /// Builds a counter at `value`, channel up.
    pub fn new(value: u32) -> (r: FidelitySeCounter)
        ensures
            r.se() == (SeView { value, calls: Seq::empty() }),
            !r.drops(),
            !r.updated_view(),
    {
        FidelitySeCounter {
            value,
            updated: false,
            drop_on_update: false,
            calls: Ghost(Seq::empty()),
        }
    }

    /// Makes every spend drop the channel.
    pub fn arm_drop_on_update(&mut self)
        ensures
            final(self).se() == old(self).se(),
            final(self).drops(),
            final(self).updated_view() == old(self).updated_view(),
    {
        proof {
            use_type_invariant(&*self);
        }
        self.drop_on_update = true;
    }

    /// True once a tick was spent.
    pub fn updated(&self) -> (r: bool)
        ensures
            r == self.updated_view(),
    {
        proof {
            use_type_invariant(self);
        }
        self.updated
    }

    /// The current counter value.
    pub fn value(&self) -> (r: u32)
        ensures
            r == self.se().value,
    {
        self.value
    }
}

impl SeCounterSeam for FidelitySeCounter {
    closed spec fn se(&self) -> SeView {
        SeView { value: self.value, calls: self.calls@ }
    }

    open spec fn available(&self) -> bool {
        !self.drops()
    }

    fn read(&mut self) -> (r: Result<u32, SeCounterError>)
        ensures
            r == Ok::<u32, SeCounterError>(old(self).se().value),
            final(self).drops() == old(self).drops(),
            final(self).updated_view() == old(self).updated_view(),
    {
        let r = Ok(self.value);
        proof {
            use_type_invariant(&*self);
            lemma_spends(self.calls@, SeCall::Read(r));
        }
        self.calls = Ghost(self.calls@.push(SeCall::Read(r)));
        r
    }

    fn update(&mut self) -> (r: Result<(), SeCounterError>)
        ensures
            r == (if old(self).drops() {
                Err::<(), SeCounterError>(SeCounterError::Unavailable)
            } else if old(self).se().value == 0 {
                Err(SeCounterError::Exhausted)
            } else {
                Ok(())
            }),
            final(self).drops() == old(self).drops(),
            final(self).updated_view() == (old(self).updated_view() || r is Ok),
    {
        let r = if self.drop_on_update {
            Err(SeCounterError::Unavailable)
        } else if self.value == 0 {
            Err(SeCounterError::Exhausted)
        } else {
            Ok(())
        };
        let ghost calls = self.calls@.push(SeCall::Update(r));
        proof {
            use_type_invariant(&*self);
            lemma_spends(self.calls@, SeCall::Update(r));
        }
        let spent: bool = r.is_ok();
        *self = FidelitySeCounter {
            value: if spent {
                self.value - 1
            } else {
                self.value
            },
            updated: self.updated || spent,
            drop_on_update: self.drop_on_update,
            calls: Ghost(calls),
        };
        r
    }
}

/// Programming over erased bytes stores the data.
proof fn lemma_programmed_over_erased(bytes: Seq<u8>, start: int, data: Seq<u8>)
    requires
        0 <= start,
        start + data.len() <= bytes.len(),
        forall|i: int| start <= i < start + data.len() ==> #[trigger] bytes[i] == 0xFFu8,
    ensures
        programmed(bytes, start, data) == overlay(bytes, start, data),
{
    assert forall|i: int| start <= i < start + data.len() implies #[trigger] bytes[i] & data[i
        - start] == data[i - start] by {
        let byte = data[i - start];
        assert(0xFFu8 & byte == byte) by (bit_vector);
    }
    assert(programmed(bytes, start, data) =~= overlay(bytes, start, data));
}

/// A cut fires at most once: when the power is gone, every further persistent
/// change fails and the cut stays spent.
pub proof fn a_cut_fires_once(cut: CutView)
    requires
        cut.stepped().tripped,
    ensures
        cut.stepped().action() == CutAction::Fault,
        cut.stepped().stepped() == cut.stepped(),
        cut.tripped || cut.stepped().outcome == CutOutcome::Fired,
{
}

/// A cut that has not fired stays armed across a reboot, and a spent cut stays
/// spent.
pub proof fn the_countdown_survives_a_reboot(state: PersistentState, cut: CutView)
    ensures
        rearmed(surviving(state, cut)).countdown == (if cut.tripped {
            None::<u32>
        } else {
            cut.countdown
        }),
        !cut.tripped ==> rearmed(surviving(state, cut)).action() == cut.action(),
{
}

} // verus!
