//! A host model of the flash controller.
//!
//! [`FlashModel`] implements [`FlashAccess`] by modelling the state of the
//! controller: two bank stores whose mapping a swap flips, the security label of
//! each page, both register sets with their key sequences, programming that clears
//! bits, and a staged option load that takes effect only at a modelled reset. A
//! single power cut can be armed at any persistent operation.

use vstd::prelude::*;
use vstd::slice::slice_subrange;

use crate::flash::bus::control_step;
use crate::flash::bus::erasable;
use crate::flash::bus::faultless;
use crate::flash::bus::is_register;
use crate::flash::bus::mpu_covers;
use crate::flash::bus::programmable;
use crate::flash::bus::read_step;
use crate::flash::bus::refused;
use crate::flash::bus::selected_bank;
use crate::flash::bus::selected_page;
use crate::flash::bus::stored;
use crate::flash::bus::with_page_erased;
use crate::flash::bus::word_bytes;
use crate::flash::bus::FlashAccess;
use crate::flash::bus::FlashView;
use crate::flash::bus::Place;
use crate::flash::bus::Port;
use crate::flash::bus::NS_START_BITS;
use crate::flash::bus::SEC_START_BITS;
use crate::flash::laws::reset_step;
use crate::flash::records::lemma_word_roundtrip;
use crate::flash::regs::page_band;
use crate::flash::regs::swap_bank_set;
use crate::flash::regs::swapped;
use crate::flash::regs::PageBand;
use crate::flash::regs::PhysBank;
use crate::flash::regs::BANK_SIZE;
use crate::flash::regs::ERASED_BYTE;
use crate::flash::regs::ERASED_WORD;
use crate::flash::regs::FLASH_KEY1;
use crate::flash::regs::FLASH_KEY2;
use crate::flash::regs::FLASH_NSCR;
use crate::flash::regs::FLASH_NSKEYR;
use crate::flash::regs::FLASH_NSSR;
use crate::flash::regs::FLASH_OPTKEY1;
use crate::flash::regs::FLASH_OPTKEY2;
use crate::flash::regs::FLASH_OPTKEYR;
use crate::flash::regs::FLASH_OPTR;
use crate::flash::regs::FLASH_SECCR;
use crate::flash::regs::FLASH_SECKEYR;
use crate::flash::regs::FLASH_SECSR;
use crate::flash::regs::HIGH_ALIAS_BASE;
use crate::flash::regs::IMAGE_REGION_OFFSET;
use crate::flash::regs::LOW_ALIAS_BASE;
use crate::flash::regs::NSCR_LOCK;
use crate::flash::regs::NSCR_OBL_LAUNCH;
use crate::flash::regs::NSCR_OPTLOCK;
use crate::flash::regs::NSCR_OPTSTRT;
use crate::flash::regs::NS_HIGH_ALIAS_BASE;
use crate::flash::regs::NS_LOW_ALIAS_BASE;
use crate::flash::regs::OPTR_DUALBANK;
use crate::flash::regs::OPTR_SWAP_BANK;
use crate::flash::regs::OPTR_TZEN;
use crate::flash::regs::PAGES_PER_BANK;
use crate::flash::regs::PAGE_SIZE;
use crate::flash::regs::QUAD_WORD_LEN;
use crate::flash::regs::SECCR_BKER;
use crate::flash::regs::SECCR_LOCK;
use crate::flash::regs::SECCR_PER;
use crate::flash::regs::SECCR_PG;
use crate::flash::regs::SECCR_PNB_MASK;
use crate::flash::regs::SECCR_PNB_SHIFT;
use crate::flash::regs::SECCR_STRT;
use crate::flash::regs::SR_ALL_ERRORS;
use crate::flash::regs::SR_BSY;
use crate::flash::regs::SR_EOP;
use crate::flash::regs::SR_OPERR;
use crate::flash::regs::SR_OPTWERR;
use crate::flash::regs::SR_PGAERR;
use crate::flash::regs::SR_PGSERR;
use crate::flash::regs::SR_PROGERR;
use crate::flash::regs::SR_WAIT;
use crate::flash::regs::SR_WRPERR;
use crate::image::format::read_u32_le;
use crate::image::format::to_le_bytes;
use crate::update::seam::overlay;

verus! {

/// For how many polls an operation keeps the status busy.
pub const BUSY_POLLS: u32 = 2;

/// What every byte of a torn image quad-word reads back as.
pub const POISON_BYTE: u8 = 0xA5;

/// Where a power cut lands relative to a persistent operation.
#[derive(Debug, Clone, Copy, PartialEq, Eq, Structural)]
pub enum CutMode {
    /// Power dies before the operation lands.
    BeforeMutation,
    /// Power dies after the operation lands.
    AfterMutation,
    /// A program tears: an image quad-word is poisoned. Everything else has no
    /// partial quad-word and is cut before it lands.
    TornWrite,
}

/// What the words of a quad-word do, decided at its first word.
#[derive(Debug, Clone, Copy, PartialEq, Eq, Structural)]
pub enum QwPlan {
    /// All words land.
    Proceed,
    /// All words land, and power dies behind the last.
    ProgramThenDie,
    /// No word lands.
    Suppress,
}

/// What one word does under the armed cut.
#[derive(Debug, Clone, Copy, PartialEq, Eq, Structural)]
pub enum WordStep {
    /// The word lands.
    Program,
    /// The program fails and nothing changes.
    Fault,
    /// The program fails and the quad-word is poisoned.
    Tear,
}

/// The armed cut, and the persistent operations seen so far.
#[derive(Debug, Clone, Copy)]
pub struct Cut {
    /// For how many more persistent operations the cut waits, if one is armed.
    pub countdown: Option<u32>,
    /// The mode of the cut.
    pub mode: CutMode,
    /// Whether power is gone until the next reset.
    pub dead: bool,
    /// Whether the cut fired.
    pub fired: bool,
    /// The persistent operations seen so far.
    pub ops: u32,
    /// The quad-word under way, and what its words do.
    pub plan: Option<(u32, QwPlan)>,
}

impl Cut {
    /// One more operation seen.
    pub open spec fn counted(self) -> Cut {
        Cut {
            ops: if self.ops < u32::MAX {
                (self.ops + 1) as u32
            } else {
                u32::MAX
            },
            ..self
        }
    }

    /// Whether the next erase or option program lands.
    pub open spec fn simple_lands(self) -> bool {
        !self.dead && (self.countdown == Some(0u32) ==> self.mode == CutMode::AfterMutation)
    }

    /// The cut behind an erase or an option program. Power dies with the operation it
    /// is armed at.
    pub open spec fn after_simple(self) -> Cut {
        if self.dead {
            self
        } else {
            match self.countdown {
                Some(n) => if n == 0 {
                    Cut { fired: true, countdown: None, dead: true, ..self.counted() }
                } else {
                    Cut { countdown: Some((n - 1) as u32), ..self.counted() }
                },
                None => self.counted(),
            }
        }
    }

    /// What the program of the word at `addr` does. The first word of a quad-word
    /// decides, the other three follow. Only a quad-word of the image tears.
    pub open spec fn word_step(self, addr: u32, image: bool) -> WordStep {
        if addr % QUAD_WORD_LEN != 0 {
            match self.plan {
                Some((base, plan)) => if base == addr / QUAD_WORD_LEN {
                    if plan == QwPlan::Suppress {
                        WordStep::Fault
                    } else {
                        WordStep::Program
                    }
                } else if self.dead {
                    WordStep::Fault
                } else {
                    WordStep::Program
                },
                None => if self.dead {
                    WordStep::Fault
                } else {
                    WordStep::Program
                },
            }
        } else if self.dead {
            WordStep::Fault
        } else if self.countdown == Some(0u32) {
            match self.mode {
                CutMode::AfterMutation => WordStep::Program,
                CutMode::BeforeMutation => WordStep::Fault,
                CutMode::TornWrite => if image {
                    WordStep::Tear
                } else {
                    WordStep::Fault
                },
            }
        } else {
            WordStep::Program
        }
    }

    /// The cut behind the program of the word at `addr`.
    pub open spec fn after_word(self, addr: u32) -> Cut {
        let quad = addr / QUAD_WORD_LEN;
        if addr % QUAD_WORD_LEN != 0 {
            if self.plan == Some((quad, QwPlan::ProgramThenDie)) && addr % QUAD_WORD_LEN
                == QUAD_WORD_LEN - 4 {
                Cut { dead: true, ..self }
            } else {
                self
            }
        } else if self.dead {
            Cut { plan: Some((quad, QwPlan::Suppress)), ..self }
        } else {
            match self.countdown {
                Some(n) => if n > 0 {
                    Cut {
                        countdown: Some((n - 1) as u32),
                        plan: Some((quad, QwPlan::Proceed)),
                        ..self.counted()
                    }
                } else if self.mode == CutMode::AfterMutation {
                    Cut {
                        fired: true,
                        countdown: None,
                        plan: Some((quad, QwPlan::ProgramThenDie)),
                        ..self.counted()
                    }
                } else {
                    Cut {
                        fired: true,
                        countdown: None,
                        dead: true,
                        plan: Some((quad, QwPlan::Suppress)),
                        ..self.counted()
                    }
                },
                None => Cut { plan: Some((quad, QwPlan::Proceed)), ..self.counted() },
            }
        }
    }

    /// No cut is armed, and power is on.
    pub open spec fn calm(self) -> bool {
        &&& self.countdown is None
        &&& !self.dead
        &&& self.plan matches Some((_, plan)) ==> plan == QwPlan::Proceed
    }
}

/// A host model of the flash controller.
pub struct FlashModel {
    bank_a: Vec<u8>,
    bank_b: Vec<u8>,
    zeros: Vec<u8>,
    seccr: u32,
    nscr: u32,
    sec_flags: u32,
    ns_flags: u32,
    optr: u32,
    optr_shadow: u32,
    busy_polls: u32,
    cr_key_step: u8,
    ns_cr_key_step: u8,
    opt_key_step: u8,
    staged_swap: Option<bool>,
    obl_launched: bool,
    wrp_page: Option<(bool, u32)>,
    cut: Cut,
}

/// A store of one bank, filled with one byte.
fn filled_bank(fill: u8) -> (r: Vec<u8>)
    ensures
        r@ == Seq::new(BANK_SIZE as nat, |i: int| fill),
{
    let mut r: Vec<u8> = Vec::new();
    let mut i: u32 = 0;
    while i < BANK_SIZE
        invariant
            i <= BANK_SIZE,
            r@.len() == i,
            forall|k: int| 0 <= k < i ==> #[trigger] r@[k] == fill,
        decreases BANK_SIZE - i,
    {
        r.push(fill);
        i += 1;
    }
    assert(r@ =~= Seq::new(BANK_SIZE as nat, |i: int| fill));
    r
}

/// The value of a status register: its flags, and busy while polls are left.
fn status_value(flags: u32, busy: u32) -> (r: u32)
    ensures
        r & SR_WAIT == 0 <==> busy == 0,
        r & SR_ALL_ERRORS == flags & SR_ALL_ERRORS,
        r & SR_OPTWERR == flags & SR_OPTWERR,
{
    proof {
        lemma_status_value(flags);
    }
    if busy > 0 {
        (flags & !SR_WAIT) | SR_BSY
    } else {
        flags & !SR_WAIT
    }
}

impl FlashModel {
    /// The armed cut.
    pub closed spec fn cut(&self) -> Cut {
        self.cut
    }

    /// The write-protected page, if there is one: whether it is in Bank 2, and its
    /// number.
    pub closed spec fn protected(&self) -> Option<(bool, u32)> {
        self.wrp_page
    }

    /// Builds an erased part that boots Bank 1, locked, with no cut armed.
    pub fn new() -> (r: FlashModel)
        ensures
            r.flash().wf(),
            r.nominal(),
            r.flash().bank1 == Seq::new(BANK_SIZE as nat, |i: int| ERASED_BYTE),
            r.flash().bank2 == Seq::new(BANK_SIZE as nat, |i: int| ERASED_BYTE),
            r.flash().optr == OPTR_DUALBANK | OPTR_TZEN,
            !r.flash().swap(),
            r.flash().staged is None,
            !r.flash().launched,
            r.flash().sec == (Port { cr: SECCR_LOCK, key: 0, failed: false }),
            r.flash().ns == (Port { cr: NSCR_LOCK | NSCR_OPTLOCK, key: 0, failed: false }),
            r.flash().optkey == 0,
            !r.flash().optwerr,
            r.flash().busy == 0,
            r.flash().secwm1 == 0 && r.flash().secwm2 == 0,
            r.cut() == (Cut {
                countdown: None,
                mode: CutMode::BeforeMutation,
                dead: false,
                fired: false,
                ops: 0,
                plan: None,
            }),
            r.protected() is None,
    {
        proof {
            lemma_reset_bits();
        }
        FlashModel {
            bank_a: filled_bank(ERASED_BYTE),
            bank_b: filled_bank(ERASED_BYTE),
            zeros: filled_bank(0),
            seccr: SECCR_LOCK,
            nscr: NSCR_LOCK | NSCR_OPTLOCK,
            sec_flags: 0,
            ns_flags: 0,
            optr: OPTR_DUALBANK | OPTR_TZEN,
            optr_shadow: OPTR_DUALBANK | OPTR_TZEN,
            busy_polls: 0,
            cr_key_step: 0,
            ns_cr_key_step: 0,
            opt_key_step: 0,
            staged_swap: None,
            obl_launched: false,
            wrp_page: None,
            cut: Cut {
                countdown: None,
                mode: CutMode::BeforeMutation,
                dead: false,
                fired: false,
                ops: 0,
                plan: None,
            },
        }
    }

    /// Arms a single power cut at the `index`-th persistent operation from now. The
    /// countdown survives a reset.
    pub fn arm_cut(&mut self, index: u32, mode: CutMode)
        ensures
            final(self).flash() == old(self).flash(),
            final(self).cut() == (Cut {
                countdown: Some(index),
                mode,
                dead: false,
                fired: false,
                ..old(self).cut()
            }),
            final(self).protected() == old(self).protected(),
    {
        self.cut = Cut { countdown: Some(index), mode, dead: false, fired: false, ..self.cut };
    }

    /// Whether the armed cut fired.
    pub fn cut_fired(&self) -> (r: bool)
        ensures
            r == self.cut().fired,
    {
        self.cut.fired
    }

    /// The persistent operations seen so far.
    pub fn persistent_ops(&self) -> (r: u32)
        ensures
            r == self.cut().ops,
    {
        self.cut.ops
    }

    /// Write-protects a page of physical Bank 2.
    pub fn protect_bank2_page(&mut self, page: u32)
        ensures
            final(self).flash() == old(self).flash(),
            final(self).protected() == Some((true, page)),
            final(self).cut() == old(self).cut(),
    {
        self.wrp_page = Some((true, page));
    }

    /// Whether the secure control register is locked.
    pub fn model_locked(&self) -> (r: bool)
        ensures
            r == (self.flash().sec.cr & SECCR_LOCK != 0),
    {
        self.cr_locked()
    }

    /// Whether the secure control register is locked.
    pub fn cr_locked(&self) -> (r: bool)
        ensures
            r == (self.flash().sec.cr & SECCR_LOCK != 0),
    {
        self.seccr & SECCR_LOCK != 0
    }

    /// Takes the part out of dual-bank mode.
    pub fn clear_dualbank(&mut self)
        ensures
            final(self).flash() == (FlashView {
                optr: old(self).flash().optr & !OPTR_DUALBANK,
                shadow: old(self).flash().shadow & !OPTR_DUALBANK,
                ..old(self).flash()
            }),
            final(self).flash().optr & OPTR_DUALBANK == 0,
            final(self).cut() == old(self).cut(),
            final(self).protected() == old(self).protected(),
    {
        let optr: u32 = self.optr;
        assert((optr & !OPTR_DUALBANK) & OPTR_DUALBANK == 0) by (bit_vector);
        self.optr = self.optr & !OPTR_DUALBANK;
        self.optr_shadow = self.optr_shadow & !OPTR_DUALBANK;
    }

    /// Whether an option load was launched.
    pub fn obl_launched(&self) -> (r: bool)
        ensures
            r == self.flash().launched,
    {
        self.obl_launched
    }

    /// The staged swap state, not yet in effect.
    pub fn staged_swap(&self) -> (r: Option<bool>)
        ensures
            r == self.flash().staged,
    {
        self.staged_swap
    }

    /// Whether the part boots Bank 2.
    pub fn boots_bank2(&self) -> (r: bool)
        ensures
            r == self.flash().swap(),
    {
        swap_bank_set(self.optr)
    }

    /// The swap bit in effect.
    pub fn swap_bank(&self) -> (r: bool)
        ensures
            r == self.flash().swap(),
    {
        swap_bank_set(self.optr)
    }

    /// A byte of a physical bank, whatever the mapping.
    pub fn phys_byte(&self, bank2: bool, offset: usize) -> (r: Option<u8>)
        ensures
            ({
                let bytes = self.flash().bank(phys(bank2));
                r == (if offset < bytes.len() {
                    Some(bytes[offset as int])
                } else {
                    None
                })
            }),
    {
        let store: &Vec<u8> = self.store(bank2);
        if offset < store.len() {
            Some(store[offset])
        } else {
            None
        }
    }

    /// Sets a byte of a physical bank, past the program path.
    pub fn poke_phys(&mut self, bank2: bool, offset: usize, value: u8)
        ensures
            ({
                let bytes = old(self).flash().bank(phys(bank2));
                final(self).flash() == old(self).flash().with_bank(
                    phys(bank2),
                    if offset < bytes.len() {
                        bytes.update(offset as int, value)
                    } else {
                        bytes
                    },
                )
            }),
            final(self).cut() == old(self).cut(),
            final(self).protected() == old(self).protected(),
    {
        if bank2 {
            if offset < self.bank_b.len() {
                self.bank_b.set(offset, value);
            }
        } else {
            if offset < self.bank_a.len() {
                self.bank_a.set(offset, value);
            }
        }
    }

    /// A reset: the staged option load takes effect, the register sets lock.
    pub fn apply_reset(&mut self)
        ensures
            reset_step(old(self).flash(), final(self).flash()),
            old(self).flash().wf() ==> final(self).flash().wf(),
            restarted(final(self).flash()),
            final(self).cut() == (Cut { dead: false, plan: None, ..old(self).cut() }),
            final(self).protected() == old(self).protected(),
    {
        let optr: u32 = self.optr;
        proof {
            lemma_swap_bits(optr);
        }
        if let Some(set) = self.staged_swap {
            if set {
                self.optr = optr | OPTR_SWAP_BANK;
            } else {
                self.optr = optr & !OPTR_SWAP_BANK;
            }
            self.optr_shadow = self.optr;
            self.staged_swap = None;
        }
        self.reset_volatile();
    }

    /// A reset whose option load did not commit: the staged swap is lost.
    pub fn reboot_without_option_load(&mut self)
        ensures
            reset_step(
                (FlashView { staged: None, ..old(self).flash() }),
                final(self).flash(),
            ),
            old(self).flash().wf() ==> final(self).flash().wf(),
            restarted(final(self).flash()),
            final(self).cut() == (Cut { dead: false, plan: None, ..old(self).cut() }),
            final(self).protected() == old(self).protected(),
    {
        self.staged_swap = None;
        self.reset_volatile();
    }

    /// Locks both register sets and the options, and clears the volatile state. The
    /// stores and the armed cut are kept.
    fn reset_volatile(&mut self)
        ensures
            restarted(final(self).flash()),
            old(self).flash().wf() ==> final(self).flash().wf(),
            final(self).bank_a == old(self).bank_a,
            final(self).bank_b == old(self).bank_b,
            final(self).optr == old(self).optr,
            final(self).staged_swap == old(self).staged_swap,
            final(self).wrp_page == old(self).wrp_page,
            final(self).cut == (Cut { dead: false, plan: None, ..old(self).cut }),
    {
        proof {
            lemma_reset_bits();
        }
        self.seccr = SECCR_LOCK;
        self.nscr = NSCR_LOCK | NSCR_OPTLOCK;
        self.sec_flags = 0;
        self.ns_flags = 0;
        self.busy_polls = 0;
        self.cr_key_step = 0;
        self.ns_cr_key_step = 0;
        self.opt_key_step = 0;
        self.obl_launched = false;
        self.cut = Cut { dead: false, plan: None, ..self.cut };
    }

    /// Steps the cut for an erase or an option program: whether it lands.
    fn cut_step_simple(&mut self) -> (lands: bool)
        ensures
            *final(self) == (FlashModel { cut: final(self).cut, ..*old(self) }),
            lands == old(self).cut.simple_lands(),
            final(self).cut == old(self).cut.after_simple(),
    {
        if self.cut.dead {
            return false;
        }
        let ops: u32 = self.cut.ops.saturating_add(1);
        match self.cut.countdown {
            Some(n) => if n == 0 {
                self.cut = Cut { ops, fired: true, countdown: None, dead: true, ..self.cut };
                self.cut.mode == CutMode::AfterMutation
            } else {
                self.cut = Cut { ops, countdown: Some(n - 1), ..self.cut };
                true
            },
            None => {
                self.cut = Cut { ops, ..self.cut };
                true
            },
        }
    }

    /// Steps the cut for one word of a quad-word.
    fn cut_step_word(&mut self, addr: u32, image_qw: bool) -> (r: WordStep)
        ensures
            *final(self) == (FlashModel { cut: final(self).cut, ..*old(self) }),
            r == old(self).cut.word_step(addr, image_qw),
            final(self).cut == old(self).cut.after_word(addr),
    {
        let quad: u32 = addr / QUAD_WORD_LEN;
        if addr % QUAD_WORD_LEN != 0 {
            return self.follow_plan(addr, quad);
        }
        if self.cut.dead {
            self.cut = Cut { plan: Some((quad, QwPlan::Suppress)), ..self.cut };
            return WordStep::Fault;
        }
        let ops: u32 = self.cut.ops.saturating_add(1);
        let n: u32 = match self.cut.countdown {
            Some(n) => n,
            None => {
                self.cut = Cut { ops, plan: Some((quad, QwPlan::Proceed)), ..self.cut };
                return WordStep::Program;
            },
        };
        if n > 0 {
            self.cut = Cut {
                ops,
                countdown: Some(n - 1),
                plan: Some((quad, QwPlan::Proceed)),
                ..self.cut
            };
            return WordStep::Program;
        }
        if self.cut.mode == CutMode::AfterMutation {
            self.cut = Cut {
                ops,
                fired: true,
                countdown: None,
                plan: Some((quad, QwPlan::ProgramThenDie)),
                ..self.cut
            };
            return WordStep::Program;
        }
        self.cut = Cut {
            ops,
            fired: true,
            countdown: None,
            dead: true,
            plan: Some((quad, QwPlan::Suppress)),
            ..self.cut
        };
        if self.cut.mode == CutMode::TornWrite && image_qw {
            WordStep::Tear
        } else {
            WordStep::Fault
        }
    }

    /// What a word behind the first of a quad-word does.
    fn follow_plan(&mut self, addr: u32, quad: u32) -> (r: WordStep)
        requires
            quad == addr / QUAD_WORD_LEN,
            addr % QUAD_WORD_LEN != 0,
        ensures
            *final(self) == (FlashModel { cut: final(self).cut, ..*old(self) }),
            r == old(self).cut.word_step(addr, false),
            final(self).cut == old(self).cut.after_word(addr),
    {
        if let Some((base, plan)) = self.cut.plan {
            if base == quad {
                if plan == QwPlan::Suppress {
                    return WordStep::Fault;
                }
                if plan == QwPlan::ProgramThenDie && addr % QUAD_WORD_LEN == QUAD_WORD_LEN - 4 {
                    self.cut = Cut { dead: true, ..self.cut };
                }
                return WordStep::Program;
            }
        }
        if self.cut.dead {
            WordStep::Fault
        } else {
            WordStep::Program
        }
    }

    /// The store of a physical bank.
    fn store(&self, bank2: bool) -> (r: &Vec<u8>)
        ensures
            r@ == self.flash().bank(phys(bank2)),
    {
        if bank2 {
            &self.bank_b
        } else {
            &self.bank_a
        }
    }

    /// The place an address of a bank alias stands for: whether the alias is secure,
    /// whether the bank is Bank 2, and the offset.
    fn resolve(&self, addr: u32) -> (r: Option<(bool, bool, usize)>)
        ensures
            match r {
                Some((secure, bank2, index)) => self.flash().resolve(addr as int) == Some(
                    (Place { band: band(secure), bank: phys(bank2), index: index as int }),
                ) && index < BANK_SIZE,
                None => self.flash().resolve(addr as int) is None,
            },
    {
        let swap: bool = self.swap_bank();
        if addr >= LOW_ALIAS_BASE && addr - LOW_ALIAS_BASE < BANK_SIZE {
            return Some((true, swap, (addr - LOW_ALIAS_BASE) as usize));
        }
        if addr >= HIGH_ALIAS_BASE && addr - HIGH_ALIAS_BASE < BANK_SIZE {
            return Some((true, !swap, (addr - HIGH_ALIAS_BASE) as usize));
        }
        if addr >= NS_LOW_ALIAS_BASE && addr - NS_LOW_ALIAS_BASE < BANK_SIZE {
            return Some((false, swap, (addr - NS_LOW_ALIAS_BASE) as usize));
        }
        if addr >= NS_HIGH_ALIAS_BASE && addr - NS_HIGH_ALIAS_BASE < BANK_SIZE {
            return Some((false, !swap, (addr - NS_HIGH_ALIAS_BASE) as usize));
        }
        None
    }

    /// Loads a word: a control register, or a word of a bank. Through the wrong alias
    /// for its page a word reads as zero.
    fn load(&self, addr: u32) -> (r: u32)
        requires
            self.flash().wf(),
            is_register(addr as int) || mpu_covers(
                addr as int,
                4,
            ),
        ensures
            addr != FLASH_SECSR && addr != FLASH_NSSR ==> read_step(
                self.flash(),
                addr,
                self.flash(),
                r,
            ),
    {
        if let Some((secure, bank2, index)) = self.resolve(addr) {
            let store: &Vec<u8> = self.store(bank2);
            let label_secure: bool = page_band(index as u32 / PAGE_SIZE) == PageBand::Secure;
            if secure != label_secure || index + 4 > store.len() {
                return 0;
            }
            return read_u32_le(store.as_slice(), index);
        }
        if addr == FLASH_SECCR {
            self.seccr
        } else if addr == FLASH_NSCR {
            self.nscr
        } else if addr == FLASH_OPTR {
            self.optr
        } else {
            0
        }
    }

    /// Whether a page is write-protected.
    fn is_protected(&self, bank2: bool, page: u32) -> (r: bool)
        ensures
            r == (self.wrp_page == Some((bank2, page))),
    {
        match self.wrp_page {
            Some((bank, index)) => bank == bank2 && index == page,
            None => false,
        }
    }

    /// Raises an error flag on the register set of the access.
    fn set_error(&mut self, secure: bool, flag: u32)
        requires
            flag & SR_ALL_ERRORS != 0,
            flag & SR_OPTWERR == 0,
        ensures
            refused(old(self).flash(), band(secure), final(self).flash()),
            final(self).flash().busy == old(self).flash().busy,
            final(self).cut == old(self).cut,
            final(self).wrp_page == old(self).wrp_page,
    {
        proof {
            lemma_raise(self.sec_flags, flag);
            lemma_raise(self.ns_flags, flag);
        }
        if secure {
            self.sec_flags = self.sec_flags | flag;
        } else {
            self.ns_flags = self.ns_flags | flag;
        }
    }

    /// Marks an operation of a register set as done, busy for some polls.
    fn start_busy(&mut self, secure: bool)
        ensures
            final(self).flash() == old(self).flash().with_busy(BUSY_POLLS as nat),
            final(self).cut == old(self).cut,
            final(self).wrp_page == old(self).wrp_page,
    {
        proof {
            lemma_done(self.sec_flags);
            lemma_done(self.ns_flags);
        }
        self.busy_polls = BUSY_POLLS;
        if secure {
            self.sec_flags = self.sec_flags | SR_EOP;
        } else {
            self.ns_flags = self.ns_flags | SR_EOP;
        }
    }

    /// Replaces `data.len()` bytes of a physical bank.
    fn put(&mut self, bank2: bool, index: usize, data: &[u8])
        requires
            index + data@.len() <= old(self).flash().bank(phys(bank2)).len(),
        ensures
            final(self).flash() == old(self).flash().with_bank(
                phys(bank2),
                overlay(old(self).flash().bank(phys(bank2)), index as int, data@),
            ),
            final(self).cut == old(self).cut,
            final(self).wrp_page == old(self).wrp_page,
    {
        if bank2 {
            put_bytes(&mut self.bank_b, index, data);
        } else {
            put_bytes(&mut self.bank_a, index, data);
        }
    }

    /// Programs one word: bits are only cleared, and a word that is not erased takes
    /// nothing but zero. Through the wrong alias for its page nothing is written.
    fn program_word(&mut self, secure: bool, bank2: bool, index: usize, addr: u32, value: u32)
        requires
            old(self).flash().wf(),
            index < BANK_SIZE,
            addr % QUAD_WORD_LEN == index % QUAD_WORD_LEN as usize,
        ensures
            ({
                let place = Place {
                    band: band(secure),
                    bank: phys(bank2),
                    index: index as int,
                };
                if can_program(old(self).flash(), old(self).wrp_page, place, value) {
                    &&& final(self).cut == old(self).cut.after_word(addr)
                    &&& word_done(
                        old(self).flash(),
                        place,
                        value,
                        old(self).cut.word_step(addr, index >= IMAGE_REGION_OFFSET),
                        final(self).flash(),
                    )
                } else {
                    &&& final(self).cut == old(self).cut
                    &&& refused(old(self).flash(), band(secure), final(self).flash())
                    &&& final(self).flash().busy == old(self).flash().busy
                }
            }),
            final(self).wrp_page == old(self).wrp_page,
    {
        proof {
            lemma_error_flags();
        }
        if index % 4 != 0 {
            self.set_error(secure, SR_PGAERR);
            return ;
        }
        let page: u32 = index as u32 / PAGE_SIZE;
        let label_secure: bool = page_band(page) == PageBand::Secure;
        if secure != label_secure {
            self.set_error(secure, SR_WRPERR);
            return ;
        }
        if self.is_protected(bank2, page) {
            self.set_error(secure, SR_WRPERR);
            return ;
        }
        let old_word: u32 = read_u32_le(self.store(bank2).as_slice(), index);
        if old_word != ERASED_WORD && value != 0 {
            self.set_error(secure, SR_PROGERR);
            return ;
        }
        match self.cut_step_word(addr, index >= IMAGE_REGION_OFFSET as usize) {
            WordStep::Program => {
                let bytes: [u8; 4] = to_le_bytes(old_word & value);
                proof {
                    lemma_clears_bits(old_word, value);
                    lemma_word_roundtrip(bytes@, 0, value);
                    assert(bytes@.subrange(0, 4) =~= bytes@);
                }
                self.put(bank2, index, &bytes);
                self.start_busy(secure);
            },
            WordStep::Fault => {
                self.set_error(secure, SR_PROGERR);
            },
            WordStep::Tear => {
                let quad: usize = index - index % 16;
                self.poison_quad_word(bank2, quad);
                self.set_error(secure, SR_PROGERR);
            },
        }
    }

    /// Poisons a quad-word.
    fn poison_quad_word(&mut self, bank2: bool, quad: usize)
        requires
            quad + QUAD_WORD_LEN <= old(self).flash().bank(phys(bank2)).len(),
        ensures
            final(self).flash() == old(self).flash().with_bank(
                phys(bank2),
                overlay(old(self).flash().bank(phys(bank2)), quad as int, poison()),
            ),
            final(self).cut == old(self).cut,
            final(self).wrp_page == old(self).wrp_page,
    {
        if bank2 {
            fill_bytes(&mut self.bank_b, quad, QUAD_WORD_LEN as usize, POISON_BYTE);
        } else {
            fill_bytes(&mut self.bank_a, quad, QUAD_WORD_LEN as usize, POISON_BYTE);
        }
    }

    /// Erases the page that a control value selects, on the register set of the
    /// access.
    fn erase_page_from_cr(&mut self, secure: bool, value: u32)
        requires
            old(self).flash().wf(),
        ensures
            if can_erase(old(self).wrp_page, band(secure), value) {
                &&& final(self).cut == old(self).cut.after_simple()
                &&& erase_done(
                    old(self).flash(),
                    band(secure),
                    value,
                    old(self).cut.simple_lands(),
                    final(self).flash(),
                )
            } else {
                &&& final(self).cut == old(self).cut
                &&& refused(old(self).flash(), band(secure), final(self).flash())
                &&& final(self).flash().busy == old(self).flash().busy
            },
            final(self).wrp_page == old(self).wrp_page,
    {
        proof {
            lemma_error_flags();
            lemma_page_field(value);
        }
        let page: u32 = (value & SECCR_PNB_MASK) >> SECCR_PNB_SHIFT;
        let bank2: bool = value & SECCR_BKER != 0;
        if page >= PAGES_PER_BANK {
            self.set_error(secure, SR_PGSERR);
            return ;
        }
        let label_secure: bool = page_band(page) == PageBand::Secure;
        if secure != label_secure {
            self.set_error(secure, SR_WRPERR);
            return ;
        }
        if self.is_protected(bank2, page) {
            self.set_error(secure, SR_WRPERR);
            return ;
        }
        if self.cut_step_simple() {
            let index: usize = (page * PAGE_SIZE) as usize;
            if bank2 {
                fill_bytes(&mut self.bank_b, index, PAGE_SIZE as usize, ERASED_BYTE);
            } else {
                fill_bytes(&mut self.bank_a, index, PAGE_SIZE as usize, ERASED_BYTE);
            }
            self.start_busy(secure);
        } else {
            self.set_error(secure, SR_OPERR);
        }
    }

    /// Programs the option shadow, to take effect at the next reset.
    fn program_options(&mut self, value: u32)
        ensures
            if value & NSCR_OPTLOCK == 0 {
                &&& final(self).cut == old(self).cut.after_simple()
                &&& options_done(
                    old(self).flash(),
                    old(self).cut.simple_lands(),
                    final(self).flash(),
                )
            } else {
                &&& final(self).cut == old(self).cut
                &&& final(self).flash() == (FlashView { optwerr: true, ..old(self).flash() })
            },
            final(self).wrp_page == old(self).wrp_page,
    {
        proof {
            lemma_option_error(self.ns_flags);
        }
        if value & NSCR_OPTLOCK != 0 {
            self.ns_flags = self.ns_flags | SR_OPTWERR;
            return ;
        }
        if self.cut_step_simple() {
            self.staged_swap = Some(swap_bank_set(self.optr_shadow));
            self.start_busy(false);
        } else {
            self.ns_flags = self.ns_flags | SR_OPTWERR;
        }
    }

    /// A write of the secure control register.
    fn write_seccr(&mut self, value: u32)
        requires
            old(self).flash().wf(),
        ensures
            final(self).flash().wf(),
            control_step(old(self).flash(), PageBand::Secure, value, final(self).flash()),
            final(self).cut == cut_after_control(
                old(self).flash(),
                old(self).wrp_page,
                old(self).cut,
                PageBand::Secure,
                value,
            ),
            starts_erase(old(self).flash(), old(self).wrp_page, PageBand::Secure, value)
                ==> erase_done(
                stored(old(self).flash(), PageBand::Secure, value),
                PageBand::Secure,
                value,
                old(self).cut.simple_lands(),
                final(self).flash(),
            ),
            final(self).wrp_page == old(self).wrp_page,
            old(self).nominal() ==> faultless(
                old(self).flash(),
                FLASH_SECCR,
                value,
                final(self).flash(),
            ),
    {
        proof {
            lemma_start_bits(value);
        }
        if self.seccr & SECCR_LOCK != 0 {
            return ;
        }
        self.seccr = value & !SEC_START_BITS;
        self.cr_key_step = 0;
        assert(self.flash() =~= stored(old(self).flash(), PageBand::Secure, value));
        if value & SECCR_STRT != 0 && value & SECCR_PER != 0 {
            self.erase_page_from_cr(true, value);
        }
    }

    /// A write of the non-secure control register.
    fn write_nscr(&mut self, value: u32)
        requires
            old(self).flash().wf(),
        ensures
            final(self).flash().wf(),
            control_step(old(self).flash(), PageBand::NonSecure, value, final(self).flash()),
            final(self).cut == cut_after_control(
                old(self).flash(),
                old(self).wrp_page,
                old(self).cut,
                PageBand::NonSecure,
                value,
            ),
            starts_erase(old(self).flash(), old(self).wrp_page, PageBand::NonSecure, value)
                && value & NSCR_OPTSTRT == 0 && value & NSCR_OBL_LAUNCH == 0 ==> erase_done(
                stored(old(self).flash(), PageBand::NonSecure, value),
                PageBand::NonSecure,
                value,
                old(self).cut.simple_lands(),
                final(self).flash(),
            ),
            starts_options(old(self).flash(), PageBand::NonSecure, value) && value & SECCR_STRT
                == 0 && value & NSCR_OBL_LAUNCH == 0 ==> options_done(
                stored(old(self).flash(), PageBand::NonSecure, value),
                old(self).cut.simple_lands(),
                final(self).flash(),
            ),
            final(self).wrp_page == old(self).wrp_page,
            old(self).nominal() ==> faultless(
                old(self).flash(),
                FLASH_NSCR,
                value,
                final(self).flash(),
            ),
    {
        proof {
            lemma_start_bits(value);
        }
        if self.nscr & NSCR_LOCK != 0 {
            return ;
        }
        self.nscr = value & !NS_START_BITS;
        self.ns_cr_key_step = 0;
        self.opt_key_step = 0;
        assert(self.flash() =~= stored(old(self).flash(), PageBand::NonSecure, value));
        if value & SECCR_STRT != 0 && value & SECCR_PER != 0 {
            self.erase_page_from_cr(false, value);
        }
        if value & NSCR_OPTSTRT != 0 {
            self.program_options(value);
        }
        if value & NSCR_OBL_LAUNCH != 0 {
            // The part would reset here. The model waits for its reset call.
            self.obl_launched = true;
        }
    }
}

/// A place can be programmed with `value`: the controller refuses nothing.
pub open spec fn can_program(
    pre: FlashView,
    protected: Option<(bool, u32)>,
    place: Place,
    value: u32,
) -> bool {
    &&& programmable(pre, place, value)
    &&& protected != Some((place.bank == PhysBank::Two, (place.index / PAGE_SIZE as int) as u32))
}

/// The program of a word under a cut: it lands, fails, or tears its quad-word.
pub open spec fn word_done(
    pre: FlashView,
    place: Place,
    value: u32,
    step: WordStep,
    post: FlashView,
) -> bool {
    let bytes = pre.bank(place.bank);
    let quad = place.index - place.index % QUAD_WORD_LEN as int;
    match step {
        WordStep::Program => post == pre.with_bank(
            place.bank,
            overlay(bytes, place.index, word_bytes(value)),
        ).with_busy(BUSY_POLLS as nat),
        WordStep::Fault => post == pre.with_port(
            place.band,
            Port { failed: true, ..pre.port(place.band) },
        ),
        WordStep::Tear => post == pre.with_bank(
            place.bank,
            overlay(bytes, quad, poison()),
        ).with_port(place.band, Port { failed: true, ..pre.port(place.band) }),
    }
}

/// A poisoned quad-word.
pub open spec fn poison() -> Seq<u8> {
    Seq::new(QUAD_WORD_LEN as nat, |i: int| POISON_BYTE)
}

/// The page that a control value selects can be erased by a band.
pub open spec fn can_erase(protected: Option<(bool, u32)>, band: PageBand, value: u32) -> bool {
    &&& erasable(band, value)
    &&& protected != Some((selected_bank(value) == PhysBank::Two, selected_page(value) as u32))
}

/// An erase under a cut: it lands or fails.
pub open spec fn erase_done(
    pre: FlashView,
    band: PageBand,
    value: u32,
    lands: bool,
    post: FlashView,
) -> bool {
    let bank = selected_bank(value);
    if lands {
        post == pre.with_bank(
            bank,
            with_page_erased(pre.bank(bank), selected_page(value)),
        ).with_busy(BUSY_POLLS as nat)
    } else {
        post == pre.with_port(band, Port { failed: true, ..pre.port(band) })
    }
}

/// An option program under a cut: it lands or fails.
pub open spec fn options_done(pre: FlashView, lands: bool, post: FlashView) -> bool {
    if lands {
        post == (FlashView { staged: Some(swapped(pre.shadow)), ..pre }).with_busy(
            BUSY_POLLS as nat,
        )
    } else {
        post == (FlashView { optwerr: true, ..pre })
    }
}

/// A write of the control register of a band starts an erase that the controller does
/// not refuse.
pub open spec fn starts_erase(
    pre: FlashView,
    protected: Option<(bool, u32)>,
    band: PageBand,
    value: u32,
) -> bool {
    &&& pre.port(band).cr & SECCR_LOCK == 0
    &&& value & SECCR_STRT != 0
    &&& value & SECCR_PER != 0
    &&& can_erase(protected, band, value)
}

/// A write of the control register of a band starts an option program that the
/// controller does not refuse.
pub open spec fn starts_options(pre: FlashView, band: PageBand, value: u32) -> bool {
    &&& band == PageBand::NonSecure
    &&& pre.port(band).cr & SECCR_LOCK == 0
    &&& value & NSCR_OPTSTRT != 0
    &&& value & NSCR_OPTLOCK == 0
}

/// The band whose control register is at an address.
pub open spec fn control_band(addr: u32) -> Option<PageBand> {
    if addr == FLASH_SECCR {
        Some(PageBand::Secure)
    } else if addr == FLASH_NSCR {
        Some(PageBand::NonSecure)
    } else {
        None
    }
}

/// A write of the control register of a band launches an option load.
pub open spec fn launches(band: PageBand, value: u32) -> bool {
    band == PageBand::NonSecure && value & NSCR_OBL_LAUNCH != 0
}

/// The cut behind a write of the control register of a band.
pub open spec fn cut_after_control(
    pre: FlashView,
    protected: Option<(bool, u32)>,
    cut: Cut,
    band: PageBand,
    value: u32,
) -> Cut {
    let erased = if starts_erase(pre, protected, band, value) {
        cut.after_simple()
    } else {
        cut
    };
    if starts_options(pre, band, value) {
        erased.after_simple()
    } else {
        erased
    }
}

/// The place that a store programs, if the controller refuses nothing.
pub open spec fn starts_program(
    pre: FlashView,
    protected: Option<(bool, u32)>,
    addr: u32,
    value: u32,
) -> Option<Place> {
    match pre.resolve(addr as int) {
        Some(place) => if pre.port(place.band).cr & SECCR_PG != 0 && can_program(
            pre,
            protected,
            place,
            value,
        ) {
            Some(place)
        } else {
            None
        },
        None => None,
    }
}

/// The cut behind a store.
pub open spec fn cut_after(
    pre: FlashView,
    protected: Option<(bool, u32)>,
    cut: Cut,
    addr: u32,
    value: u32,
) -> Cut {
    match control_band(addr) {
        Some(band) => cut_after_control(pre, protected, cut, band, value),
        None => if starts_program(pre, protected, addr, value) is Some {
            cut.after_word(addr)
        } else {
            cut
        },
    }
}

/// Fills a range of a store with one byte.
fn fill_bytes(store: &mut Vec<u8>, index: usize, len: usize, fill: u8)
    requires
        index + len <= old(store)@.len(),
    ensures
        final(store)@ == overlay(
            old(store)@,
            index as int,
            Seq::new(len as nat, |i: int| fill),
        ),
{
    let end: usize = store.len();
    let mut i: usize = 0;
    while i < len
        invariant
            i <= len,
            index + len <= end,
            store@.len() == end,
            end == old(store)@.len(),
            forall|k: int|
                0 <= k < store@.len() ==> #[trigger] store@[k] == (if index <= k < index + i {
                    fill
                } else {
                    old(store)@[k]
                }),
        decreases len - i,
    {
        store.set(index + i, fill);
        i += 1;
    }
    assert(store@ =~= overlay(old(store)@, index as int, Seq::new(len as nat, |i: int| fill)));
}

/// Replaces bytes of a store.
fn put_bytes(store: &mut Vec<u8>, index: usize, data: &[u8])
    requires
        index + data@.len() <= old(store)@.len(),
    ensures
        final(store)@ == overlay(old(store)@, index as int, data@),
{
    let end: usize = store.len();
    let mut i: usize = 0;
    while i < data.len()
        invariant
            i <= data@.len(),
            index + data@.len() <= end,
            store@.len() == end,
            end == old(store)@.len(),
            forall|k: int|
                0 <= k < store@.len() ==> #[trigger] store@[k] == (if index <= k < index + i {
                    data@[k - index]
                } else {
                    old(store)@[k]
                }),
        decreases data@.len() - i,
    {
        store.set(index + i, data[i]);
        i += 1;
    }
    assert(store@ =~= overlay(old(store)@, index as int, data@));
}

/// Moves an unlock sequence on: the next step, and whether it unlocks.
fn next_key(step: u8, value: u32, first: u32, second: u32) -> (r: (u8, bool))
    ensures
        r == (if step == 0 && value == first {
            (1u8, false)
        } else {
            (0u8, step == 1 && value == second)
        }),
{
    if step == 0 && value == first {
        (1, false)
    } else {
        (0, step == 1 && value == second)
    }
}

impl FlashAccess for FlashModel {
    closed spec fn flash(&self) -> FlashView {
        FlashView {
            bank1: self.bank_a@,
            bank2: self.bank_b@,
            optr: self.optr,
            shadow: self.optr_shadow,
            staged: self.staged_swap,
            launched: self.obl_launched,
            sec: Port {
                cr: self.seccr,
                key: self.cr_key_step as int,
                failed: self.sec_flags & SR_ALL_ERRORS != 0,
            },
            ns: Port {
                cr: self.nscr,
                key: self.ns_cr_key_step as int,
                failed: self.ns_flags & SR_ALL_ERRORS != 0,
            },
            optkey: self.opt_key_step as int,
            optwerr: self.ns_flags & SR_OPTWERR != 0,
            busy: self.busy_polls as nat,
            secwm1: 0,
            secwm2: 0,
        }
    }

    open spec fn nominal(&self) -> bool {
        self.cut().calm() && self.protected() is None
    }

    fn read32(&mut self, addr: u32) -> (r: u32)
        ensures
            final(self).cut() == old(self).cut(),
            final(self).protected() == old(self).protected(),
    {
        if addr == FLASH_SECSR || addr == FLASH_NSSR {
            let value: u32 = if addr == FLASH_SECSR {
                status_value(self.sec_flags, self.busy_polls)
            } else {
                status_value(self.ns_flags, self.busy_polls)
            };
            if self.busy_polls > 0 {
                self.busy_polls = self.busy_polls - 1;
            }
            return value;
        }
        self.load(addr)
    }

    fn write32(&mut self, addr: u32, value: u32)
        ensures
            final(self).cut() == cut_after(
                old(self).flash(),
                old(self).protected(),
                old(self).cut(),
                addr,
                value,
            ),
            final(self).protected() == old(self).protected(),
            starts_program(old(self).flash(), old(self).protected(), addr, value) matches Some(
                place,
            ) ==> word_done(
                old(self).flash(),
                place,
                value,
                old(self).cut().word_step(addr, place.index >= IMAGE_REGION_OFFSET),
                final(self).flash(),
            ),
            control_band(addr) matches Some(band) ==> {
                &&& starts_erase(old(self).flash(), old(self).protected(), band, value)
                    && !launches(band, value) && (band == PageBand::NonSecure ==> value
                    & NSCR_OPTSTRT == 0) ==> erase_done(
                    stored(old(self).flash(), band, value),
                    band,
                    value,
                    old(self).cut().simple_lands(),
                    final(self).flash(),
                )
                &&& starts_options(old(self).flash(), band, value) && !launches(band, value)
                    && value & SECCR_STRT == 0 ==> options_done(
                    stored(old(self).flash(), band, value),
                    old(self).cut().simple_lands(),
                    final(self).flash(),
                )
            },
    {
        if let Some((secure, bank2, index)) = self.resolve(addr) {
            let armed: u32 = if secure {
                self.seccr & SECCR_PG
            } else {
                self.nscr & SECCR_PG
            };
            if armed != 0 {
                self.program_word(secure, bank2, index, addr, value);
            }
            return ;
        }
        if addr == FLASH_SECKEYR {
            if self.seccr & SECCR_LOCK != 0 {
                proof {
                    lemma_unlock(self.seccr);
                }
                let (step, unlock) = next_key(self.cr_key_step, value, FLASH_KEY1, FLASH_KEY2);
                self.cr_key_step = step;
                if unlock {
                    self.seccr = self.seccr & !SECCR_LOCK;
                }
            }
        } else if addr == FLASH_NSKEYR {
            if self.nscr & NSCR_LOCK != 0 {
                proof {
                    lemma_unlock(self.nscr);
                }
                let (step, unlock) = next_key(self.ns_cr_key_step, value, FLASH_KEY1, FLASH_KEY2);
                self.ns_cr_key_step = step;
                if unlock {
                    self.nscr = self.nscr & !NSCR_LOCK;
                }
            }
        } else if addr == FLASH_OPTKEYR {
            if self.nscr & NSCR_OPTLOCK != 0 {
                proof {
                    lemma_unlock(self.nscr);
                }
                let (step, unlock) = next_key(
                    self.opt_key_step,
                    value,
                    FLASH_OPTKEY1,
                    FLASH_OPTKEY2,
                );
                self.opt_key_step = step;
                if unlock {
                    self.nscr = self.nscr & !NSCR_OPTLOCK;
                }
            }
        } else if addr == FLASH_SECSR {
            proof {
                lemma_clear_flags(self.sec_flags, value);
            }
            self.sec_flags = self.sec_flags & !(value & !SR_WAIT);
        } else if addr == FLASH_NSSR {
            proof {
                lemma_clear_flags(self.ns_flags, value);
            }
            self.ns_flags = self.ns_flags & !(value & !SR_WAIT);
        } else if addr == FLASH_SECCR {
            self.write_seccr(value);
        } else if addr == FLASH_NSCR {
            self.write_nscr(value);
        } else if addr == FLASH_OPTR {
            if self.nscr & NSCR_OPTLOCK == 0 {
                self.optr_shadow = value;
            }
        }
    }

    fn peek32(&self, addr: u32) -> (r: u32) {
        self.load(addr)
    }

    fn bank_view(&self, base: u32, len: usize) -> (bytes: &[u8]) {
        match self.resolve(base) {
            Some((secure, bank2, index)) => {
                let room: usize = BANK_SIZE as usize - index;
                let end: usize = if len < room {
                    index + len
                } else {
                    BANK_SIZE as usize
                };
                let label_secure: bool = page_band(index as u32 / PAGE_SIZE) == PageBand::Secure;
                assert(len == 0 || secure == label_secure);
                if secure == label_secure && end <= self.store(bank2).len() {
                    let bytes: &[u8] = slice_subrange(self.store(bank2).as_slice(), index, end);
                    assert(bytes@ =~= self.flash().flash_bytes(base as int, len as int));
                    bytes
                } else if end <= self.zeros.len() {
                    // Through the wrong alias the band reads as zero.
                    let bytes: &[u8] = slice_subrange(self.zeros.as_slice(), index, end);
                    assert(bytes@ =~= self.flash().flash_bytes(base as int, len as int));
                    bytes
                } else {
                    assert(self.flash().flash_bytes(base as int, len as int) =~= Seq::empty());
                    slice_subrange(self.zeros.as_slice(), 0, 0)
                }
            },
            None => slice_subrange(self.zeros.as_slice(), 0, 0),
        }
    }
}

/// The physical bank a flag names.
pub open spec fn phys(bank2: bool) -> PhysBank {
    if bank2 {
        PhysBank::Two
    } else {
        PhysBank::One
    }
}

/// The band of an alias.
pub open spec fn band(secure: bool) -> PageBand {
    if secure {
        PageBand::Secure
    } else {
        PageBand::NonSecure
    }
}

/// The register state that a reset leaves: all locked, nothing flagged, ready.
pub open spec fn restarted(flash: FlashView) -> bool {
    &&& flash.sec == (Port { cr: SECCR_LOCK, key: 0, failed: false })
    &&& flash.ns == (Port { cr: NSCR_LOCK | NSCR_OPTLOCK, key: 0, failed: false })
    &&& flash.optkey == 0
    &&& !flash.optwerr
    &&& !flash.launched
    &&& flash.busy == 0
}

/// Raising a program or erase error.
proof fn lemma_raise(flags: u32, flag: u32)
    by (bit_vector)
    requires
        flag & SR_ALL_ERRORS != 0,
        flag & SR_OPTWERR == 0,
    ensures
        (flags | flag) & SR_ALL_ERRORS != 0,
        (flags | flag) & SR_OPTWERR == flags & SR_OPTWERR,
{
}

/// The error flags are errors, and not the option error.
proof fn lemma_error_flags()
    by (bit_vector)
    ensures
        SR_PGAERR & SR_ALL_ERRORS != 0 && SR_PGAERR & SR_OPTWERR == 0,
        SR_WRPERR & SR_ALL_ERRORS != 0 && SR_WRPERR & SR_OPTWERR == 0,
        SR_PROGERR & SR_ALL_ERRORS != 0 && SR_PROGERR & SR_OPTWERR == 0,
        SR_PGSERR & SR_ALL_ERRORS != 0 && SR_PGSERR & SR_OPTWERR == 0,
        SR_OPERR & SR_ALL_ERRORS != 0 && SR_OPERR & SR_OPTWERR == 0,
{
}

/// The end-of-operation flag is no error.
proof fn lemma_done(flags: u32)
    by (bit_vector)
    ensures
        (flags | SR_EOP) & SR_ALL_ERRORS == flags & SR_ALL_ERRORS,
        (flags | SR_EOP) & SR_OPTWERR == flags & SR_OPTWERR,
{
}

/// Raising the option error.
proof fn lemma_option_error(flags: u32)
    by (bit_vector)
    ensures
        (flags | SR_OPTWERR) & SR_OPTWERR != 0,
        (flags | SR_OPTWERR) & SR_ALL_ERRORS == flags & SR_ALL_ERRORS,
{
}

/// Clearing the flags that a status write names.
proof fn lemma_clear_flags(flags: u32, value: u32)
    by (bit_vector)
    ensures
        value & SR_ALL_ERRORS == SR_ALL_ERRORS ==> (flags & !(value & !SR_WAIT)) & SR_ALL_ERRORS
            == 0,
        value & SR_ALL_ERRORS == 0 ==> (flags & !(value & !SR_WAIT)) & SR_ALL_ERRORS == flags
            & SR_ALL_ERRORS,
        (flags & !(value & !SR_WAIT)) & SR_ALL_ERRORS != 0 ==> flags & SR_ALL_ERRORS != 0,
        ((flags & !(value & !SR_WAIT)) & SR_OPTWERR != 0) == (flags & SR_OPTWERR != 0 && value
            & SR_OPTWERR == 0),
{
}

/// Unlocking clears its lock bit and sets no start bit.
proof fn lemma_unlock(cr: u32)
    by (bit_vector)
    ensures
        cr & SEC_START_BITS == 0 ==> (cr & !SECCR_LOCK) & SEC_START_BITS == 0,
        cr & NS_START_BITS == 0 ==> (cr & !NSCR_LOCK) & NS_START_BITS == 0,
        cr & NS_START_BITS == 0 ==> (cr & !NSCR_OPTLOCK) & NS_START_BITS == 0,
{
}

/// The page field of a control value.
proof fn lemma_page_field(value: u32)
    by (bit_vector)
    ensures
        (value & SECCR_PNB_MASK) >> SECCR_PNB_SHIFT == (value & SECCR_PNB_MASK) / 8,
{
}

/// The start bits of a control value, and what is stored without them.
proof fn lemma_start_bits(value: u32)
    by (bit_vector)
    ensures
        (value & !SEC_START_BITS) & SEC_START_BITS == 0,
        (value & !NS_START_BITS) & NS_START_BITS == 0,
        value & SEC_START_BITS == 0 <==> value & SECCR_STRT == 0,
        value & SEC_START_BITS == 0 || value & SEC_START_BITS == SECCR_STRT,
        value & NS_START_BITS == 0 <==> value & SECCR_STRT == 0 && value & NSCR_OPTSTRT == 0
            && value & NSCR_OBL_LAUNCH == 0,
        value & NS_START_BITS == SECCR_STRT <==> value & SECCR_STRT != 0 && value & NSCR_OPTSTRT
            == 0 && value & NSCR_OBL_LAUNCH == 0,
        value & NS_START_BITS == NSCR_OPTSTRT <==> value & SECCR_STRT == 0 && value & NSCR_OPTSTRT
            != 0 && value & NSCR_OBL_LAUNCH == 0,
        value & NS_START_BITS == NSCR_OBL_LAUNCH <==> value & SECCR_STRT == 0 && value
            & NSCR_OPTSTRT == 0 && value & NSCR_OBL_LAUNCH != 0,
{
}

/// A program clears bits: into an erased word the value, and zero into any.
proof fn lemma_clears_bits(old_word: u32, value: u32)
    by (bit_vector)
    requires
        old_word == ERASED_WORD || value == 0,
    ensures
        old_word & value == value,
{
}

/// Busy bits and flags do not overlap.
proof fn lemma_status_value(flags: u32)
    by (bit_vector)
    ensures
        (flags & !SR_WAIT) & SR_WAIT == 0,
        ((flags & !SR_WAIT) | SR_BSY) & SR_WAIT != 0,
        (flags & !SR_WAIT) & SR_ALL_ERRORS == flags & SR_ALL_ERRORS,
        ((flags & !SR_WAIT) | SR_BSY) & SR_ALL_ERRORS == flags & SR_ALL_ERRORS,
        (flags & !SR_WAIT) & SR_OPTWERR == flags & SR_OPTWERR,
        ((flags & !SR_WAIT) | SR_BSY) & SR_OPTWERR == flags & SR_OPTWERR,
{
}

/// The register values after a reset.
proof fn lemma_reset_bits()
    by (bit_vector)
    ensures
        SECCR_LOCK & SEC_START_BITS == 0,
        (NSCR_LOCK | NSCR_OPTLOCK) & NS_START_BITS == 0,
        (OPTR_DUALBANK | OPTR_TZEN) & OPTR_SWAP_BANK == 0,
        0u32 & SR_ALL_ERRORS == 0,
        0u32 & SR_OPTWERR == 0,
{
}

/// Setting and clearing the swap bit touches no other bit.
proof fn lemma_swap_bits(optr: u32)
    by (bit_vector)
    ensures
        (optr | OPTR_SWAP_BANK) & OPTR_SWAP_BANK != 0,
        (optr & !OPTR_SWAP_BANK) & OPTR_SWAP_BANK == 0,
        (optr | OPTR_SWAP_BANK) & OPTR_DUALBANK == optr & OPTR_DUALBANK,
        (optr & !OPTR_SWAP_BANK) & OPTR_DUALBANK == optr & OPTR_DUALBANK,
        (optr | OPTR_SWAP_BANK) & OPTR_TZEN == optr & OPTR_TZEN,
        (optr & !OPTR_SWAP_BANK) & OPTR_TZEN == optr & OPTR_TZEN,
{
}

} // verus!
