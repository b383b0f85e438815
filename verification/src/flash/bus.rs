//! The register-access seam of the flash driver.
//!
//! The driver never touches a raw pointer. It goes through [`FlashAccess`], which
//! moves the controller registers and loads the memory-mapped banks.
//!
//! A port is specified by the controller it fronts ([`FlashView`]): two physical
//! banks, the mapping that a swap flips, the security label of each page, the two
//! register sets, the key sequences and the staged option load. An operation may
//! fail: then the status shows it, and what it would have changed is unchanged.
//! Only a quad-word of the image band may tear. An operation that shows no error
//! took effect.

use vstd::prelude::*;

use crate::flash::regs::band_of_page;
use crate::flash::regs::inactive_bank_of;
use crate::flash::regs::running_bank_of;
use crate::flash::regs::swapped;
use crate::flash::regs::PageBand;
use crate::flash::regs::PhysBank;
use crate::flash::regs::BANK_SIZE;
use crate::flash::regs::ERASED_BYTE;
use crate::flash::regs::ERASED_WORD;
use crate::flash::regs::FLASH_BASE;
use crate::flash::regs::FLASH_KEY1;
use crate::flash::regs::FLASH_KEY2;
use crate::flash::regs::FLASH_NSCR;
use crate::flash::regs::FLASH_NSKEYR;
use crate::flash::regs::FLASH_NSSR;
use crate::flash::regs::FLASH_OPTKEY1;
use crate::flash::regs::FLASH_OPTKEY2;
use crate::flash::regs::FLASH_OPTKEYR;
use crate::flash::regs::FLASH_OPTR;
use crate::flash::regs::FLASH_SECCR;
use crate::flash::regs::FLASH_SECKEYR;
use crate::flash::regs::FLASH_SECSR;
use crate::flash::regs::FLASH_SECWM1R1;
use crate::flash::regs::FLASH_SECWM2R1;
use crate::flash::regs::HIGH_ALIAS_BASE;
use crate::flash::regs::IMAGE_REGION_OFFSET;
use crate::flash::regs::LOW_ALIAS_BASE;
use crate::flash::regs::NSCR_OBL_LAUNCH;
use crate::flash::regs::NSCR_OPTLOCK;
use crate::flash::regs::NSCR_OPTSTRT;
use crate::flash::regs::NS_HIGH_ALIAS_BASE;
use crate::flash::regs::NS_LOW_ALIAS_BASE;
use crate::flash::regs::PAGES_PER_BANK;
use crate::flash::regs::PAGE_SIZE;
use crate::flash::regs::QUAD_WORD_LEN;
use crate::flash::regs::SECCR_BKER;
use crate::flash::regs::SECCR_LOCK;
use crate::flash::regs::SECCR_MER1;
use crate::flash::regs::SECCR_MER2;
use crate::flash::regs::SECCR_PER;
use crate::flash::regs::SECCR_PG;
use crate::flash::regs::SECCR_PNB_MASK;
use crate::flash::regs::SECCR_STRT;
use crate::flash::regs::SR_ALL_ERRORS;
use crate::flash::regs::SR_OPTWERR;
use crate::flash::regs::SR_WAIT;
use crate::image::format::le32;
use crate::update::seam::overlay;

verus! {

/// The bound on the polls for a ready controller: a stuck controller fails closed.
pub const BSY_POLL_LIMIT: u32 = 2_000_000;

/// The start bits of a secure control register. They read as zero.
pub const SEC_START_BITS: u32 = 0x0001_0000;

/// The start bits of a non-secure control register. They read as zero.
pub const NS_START_BITS: u32 = 0x0803_0000;

/// One register set of the controller.
#[verifier::ext_equal]
pub ghost struct Port {
    /// The control register.
    pub cr: u32,
    /// How many keys of the unlock sequence a locked register has seen.
    pub key: int,
    /// Whether the status shows a program or erase error.
    pub failed: bool,
}

/// A place in a physical bank, and the security view of the alias it was reached
/// through.
pub ghost struct Place {
    /// The view of the alias.
    pub band: PageBand,
    /// The physical bank.
    pub bank: PhysBank,
    /// The offset in the bank.
    pub index: int,
}

/// The controller that a port fronts.
#[verifier::ext_equal]
pub ghost struct FlashView {
    /// Physical Bank 1.
    pub bank1: Seq<u8>,
    /// Physical Bank 2.
    pub bank2: Seq<u8>,
    /// The option word in effect.
    pub optr: u32,
    /// The option word to be programmed.
    pub shadow: u32,
    /// The swap state that the next reset loads, if one was programmed.
    pub staged: Option<bool>,
    /// Whether the option load was launched.
    pub launched: bool,
    /// The secure register set.
    pub sec: Port,
    /// The non-secure register set.
    pub ns: Port,
    /// How many option keys the locked options have seen.
    pub optkey: int,
    /// Whether the status shows an option-write error.
    pub optwerr: bool,
    /// For how many more polls the status shows busy.
    pub busy: nat,
    /// The secure watermark of Bank 1.
    pub secwm1: u32,
    /// The secure watermark of Bank 2.
    pub secwm2: u32,
}

impl FlashView {
    /// The banks have their size and no start bit reads as set.
    pub open spec fn wf(self) -> bool {
        &&& self.bank1.len() == BANK_SIZE
        &&& self.bank2.len() == BANK_SIZE
        &&& self.sec.cr & SEC_START_BITS == 0
        &&& self.ns.cr & NS_START_BITS == 0
    }

    /// The contents of a physical bank.
    pub open spec fn bank(self, bank: PhysBank) -> Seq<u8> {
        match bank {
            PhysBank::One => self.bank1,
            PhysBank::Two => self.bank2,
        }
    }

    /// The same controller with other contents of a bank.
    pub open spec fn with_bank(self, bank: PhysBank, bytes: Seq<u8>) -> FlashView {
        match bank {
            PhysBank::One => FlashView { bank1: bytes, ..self },
            PhysBank::Two => FlashView { bank2: bytes, ..self },
        }
    }

    /// The register set of a band.
    pub open spec fn port(self, band: PageBand) -> Port {
        match band {
            PageBand::Secure => self.sec,
            PageBand::NonSecure => self.ns,
        }
    }

    /// The same controller with another register set of a band.
    pub open spec fn with_port(self, band: PageBand, port: Port) -> FlashView {
        match band {
            PageBand::Secure => FlashView { sec: port, ..self },
            PageBand::NonSecure => FlashView { ns: port, ..self },
        }
    }

    /// The same controller, busy for some polls.
    pub open spec fn with_busy(self, busy: nat) -> FlashView {
        FlashView { busy, ..self }
    }

    /// Whether the banks are swapped.
    pub open spec fn swap(self) -> bool {
        swapped(self.optr)
    }

    /// The place an address of a bank alias stands for.
    pub open spec fn resolve(self, addr: int) -> Option<Place> {
        let low = running_bank_of(self.swap());
        let high = inactive_bank_of(self.swap());
        if LOW_ALIAS_BASE <= addr < LOW_ALIAS_BASE + BANK_SIZE {
            Some(Place { band: PageBand::Secure, bank: low, index: addr - LOW_ALIAS_BASE })
        } else if HIGH_ALIAS_BASE <= addr < HIGH_ALIAS_BASE + BANK_SIZE {
            Some(Place { band: PageBand::Secure, bank: high, index: addr - HIGH_ALIAS_BASE })
        } else if NS_LOW_ALIAS_BASE <= addr < NS_LOW_ALIAS_BASE + BANK_SIZE {
            Some(Place { band: PageBand::NonSecure, bank: low, index: addr - NS_LOW_ALIAS_BASE })
        } else if NS_HIGH_ALIAS_BASE <= addr < NS_HIGH_ALIAS_BASE + BANK_SIZE {
            Some(Place { band: PageBand::NonSecure, bank: high, index: addr - NS_HIGH_ALIAS_BASE })
        } else {
            None
        }
    }

    /// The word at an address of a bank alias. Through the wrong alias for the
    /// label of the page it reads as zero.
    pub open spec fn flash_word(self, addr: int) -> int {
        match self.resolve(addr) {
            Some(place) => if labelled(place) {
                le32(self.bank(place.bank), place.index)
            } else {
                0
            },
            None => 0,
        }
    }

    /// `len` bytes from an address of a bank alias on, under the label of the page
    /// they start in.
    pub open spec fn flash_bytes(self, base: int, len: int) -> Seq<u8> {
        match self.resolve(base) {
            Some(place) => if labelled(place) {
                self.bank(place.bank).subrange(place.index, place.index + len)
            } else {
                Seq::new(len as nat, |i: int| 0u8)
            },
            None => Seq::empty(),
        }
    }

    /// The value of a control register.
    pub open spec fn control(self, addr: u32) -> u32 {
        if addr == FLASH_SECCR {
            self.sec.cr
        } else if addr == FLASH_NSCR {
            self.ns.cr
        } else {
            self.optr
        }
    }
}

/// The alias suits the label of the page.
pub open spec fn labelled(place: Place) -> bool {
    band_of_page(place.index / PAGE_SIZE as int) == place.band
}

/// The four little-endian bytes of a word.
pub open spec fn word_bytes(value: u32) -> Seq<u8> {
    seq![
        (value % 0x100) as u8,
        (value / 0x100 % 0x100) as u8,
        (value / 0x1_0000 % 0x100) as u8,
        (value / 0x100_0000) as u8,
    ]
}

/// `bytes` with page `page` erased.
pub open spec fn with_page_erased(bytes: Seq<u8>, page: int) -> Seq<u8> {
    overlay(bytes, page * PAGE_SIZE, Seq::new(PAGE_SIZE as nat, |i: int| ERASED_BYTE))
}

/// The address is a register of the flash block.
pub open spec fn is_register(addr: int) -> bool {
    FLASH_BASE <= addr < FLASH_BASE + 0x400
}

/// The range lies in `[first, last]`.
pub open spec fn within(base: int, len: int, first: int, last: int) -> bool {
    first <= base && base + len - 1 <= last
}

/// The range lies in one of the memory-protection regions that an update may
/// touch: the boot metadata at either alias, and the image band of the inactive
/// bank.
pub open spec fn mpu_covers(base: int, len: int) -> bool {
    ||| within(base, len, 0x0C00_0000, 0x0C00_3FFF)
    ||| within(base, len, 0x0C04_0000, 0x0C04_3FFF)
    ||| within(base, len, 0x0C05_2000, 0x0C06_7FFF)
    ||| within(base, len, 0x0806_8000, 0x0807_FFFF)
}

/// The range lies in one band of the image of the running bank.
pub open spec fn active_image(base: int, len: int) -> bool {
    ||| within(base, len, 0x0C01_2000, 0x0C02_7FFF)
    ||| within(base, len, 0x0802_8000, 0x0803_FFFF)
}

/// The status `value` shows the wait and error state of a register set.
pub open spec fn shows(value: u32, port: Port, busy: nat) -> bool {
    &&& value & SR_WAIT == 0 <==> busy == 0
    &&& value & SR_ALL_ERRORS == 0 <==> !port.failed
}

/// A poll of the status: it counts the busy polls down.
pub open spec fn polled(pre: FlashView) -> FlashView {
    pre.with_busy(
        if pre.busy > 0 {
            (pre.busy - 1) as nat
        } else {
            0
        },
    )
}

/// A load.
pub open spec fn read_step(pre: FlashView, addr: u32, post: FlashView, r: u32) -> bool {
    if addr == FLASH_SECSR {
        post == polled(pre) && shows(r, pre.sec, pre.busy)
    } else if addr == FLASH_NSSR {
        &&& post == polled(pre)
        &&& shows(r, pre.ns, pre.busy)
        &&& r & SR_OPTWERR == 0 <==> !pre.optwerr
    } else {
        &&& post == pre
        &&& addr == FLASH_SECCR || addr == FLASH_NSCR || addr == FLASH_OPTR ==> r == pre.control(addr)
        &&& addr == FLASH_SECWM1R1 ==> r == pre.secwm1
        &&& addr == FLASH_SECWM2R1 ==> r == pre.secwm2
        &&& pre.resolve(addr as int) is Some && addr % 4 == 0 ==> r == pre.flash_word(addr as int)
    }
}

/// A key written to the key register of a register set.
pub open spec fn key_written(port: Port, value: u32) -> Port {
    if port.cr & SECCR_LOCK == 0 {
        port
    } else if port.key == 0 && value == FLASH_KEY1 {
        Port { key: 1, ..port }
    } else if port.key == 1 && value == FLASH_KEY2 {
        Port { cr: port.cr & !SECCR_LOCK, key: 0, ..port }
    } else {
        Port { key: 0, ..port }
    }
}

/// A key written to the option key register.
pub open spec fn optkey_written(pre: FlashView, value: u32) -> FlashView {
    if pre.ns.cr & NSCR_OPTLOCK == 0 {
        pre
    } else if pre.optkey == 0 && value == FLASH_OPTKEY1 {
        FlashView { optkey: 1, ..pre }
    } else if pre.optkey == 1 && value == FLASH_OPTKEY2 {
        FlashView { optkey: 0, ns: Port { cr: pre.ns.cr & !NSCR_OPTLOCK, ..pre.ns }, ..pre }
    } else {
        FlashView { optkey: 0, ..pre }
    }
}

/// Error flags written to a status register are cleared.
pub open spec fn errors_cleared(pre: bool, value: u32, post: bool) -> bool {
    &&& value & SR_ALL_ERRORS == SR_ALL_ERRORS ==> !post
    &&& value & SR_ALL_ERRORS == 0 ==> post == pre
    &&& post ==> pre
}

/// An operation of a band failed: the status shows it, the banks are unchanged.
pub open spec fn refused(pre: FlashView, band: PageBand, post: FlashView) -> bool {
    post == pre.with_port(band, Port { failed: true, ..pre.port(band) }).with_busy(post.busy)
}

/// The word at a place can take `value`: it is erased, or `value` is zero.
pub open spec fn programmable(pre: FlashView, place: Place, value: u32) -> bool {
    &&& labelled(place)
    &&& place.index % 4 == 0
    &&& le32(pre.bank(place.bank), place.index) == ERASED_WORD || value == 0
}

/// The program of one word.
pub open spec fn program_step(pre: FlashView, place: Place, value: u32, post: FlashView) -> bool {
    let bytes = pre.bank(place.bank);
    let quad = place.index - place.index % QUAD_WORD_LEN as int;
    ||| refused(pre, place.band, post)
    ||| {
        &&& programmable(pre, place, value)
        &&& post == pre.with_bank(
            place.bank,
            overlay(bytes, place.index, word_bytes(value)),
        ).with_busy(post.busy)
    }
    ||| {
        &&& programmable(pre, place, value)
        &&& place.index >= IMAGE_REGION_OFFSET
        &&& refused(pre.with_bank(place.bank, post.bank(place.bank)), place.band, post)
        &&& post.bank(place.bank).len() == bytes.len()
        &&& forall|i: int|
            0 <= i < bytes.len() && !(quad <= i < quad + QUAD_WORD_LEN)
                ==> #[trigger] post.bank(place.bank)[i] == bytes[i]
    }
}

/// The page that a control value selects for an erase.
pub open spec fn selected_page(value: u32) -> int {
    ((value & SECCR_PNB_MASK) / 8) as int
}

/// The physical bank that a control value selects for an erase.
pub open spec fn selected_bank(value: u32) -> PhysBank {
    if value & SECCR_BKER == 0 {
        PhysBank::One
    } else {
        PhysBank::Two
    }
}

/// A band can erase the page that a control value selects.
pub open spec fn erasable(band: PageBand, value: u32) -> bool {
    selected_page(value) < PAGES_PER_BANK && band_of_page(selected_page(value)) == band
}

/// The erase that a control value starts.
pub open spec fn erase_step(pre: FlashView, band: PageBand, value: u32, post: FlashView) -> bool {
    let bank = selected_bank(value);
    ||| refused(pre, band, post)
    ||| {
        &&& erasable(band, value)
        &&& post == pre.with_bank(
            bank,
            with_page_erased(pre.bank(bank), selected_page(value)),
        ).with_busy(post.busy)
    }
}

/// The option program that a control value starts.
pub open spec fn option_step(pre: FlashView, value: u32, post: FlashView) -> bool {
    ||| post == (FlashView { optwerr: true, ..pre }).with_busy(post.busy)
    ||| {
        &&& value & NSCR_OPTLOCK == 0
        &&& post == (FlashView { staged: Some(swapped(pre.shadow)), ..pre }).with_busy(post.busy)
    }
}

/// The start bits of the control register of a band.
pub open spec fn start_bits(band: PageBand) -> u32 {
    match band {
        PageBand::Secure => SEC_START_BITS,
        PageBand::NonSecure => NS_START_BITS,
    }
}

/// The control value selects a page erase, and no mass erase.
pub open spec fn selects_page_erase(value: u32) -> bool {
    &&& value & SECCR_PER != 0
    &&& value & SECCR_MER1 == 0
    &&& value & SECCR_MER2 == 0
}

/// The control value stored in a register set: the start bits read as zero.
pub open spec fn stored(pre: FlashView, band: PageBand, value: u32) -> FlashView {
    match band {
        PageBand::Secure => FlashView {
            sec: Port { cr: value & !SEC_START_BITS, key: 0, ..pre.sec },
            ..pre
        },
        PageBand::NonSecure => FlashView {
            ns: Port { cr: value & !NS_START_BITS, key: 0, ..pre.ns },
            optkey: 0,
            ..pre
        },
    }
}

/// A write of the control register of a band. A locked register ignores it. What a
/// combination of start bits does is left open, but for those used here.
pub open spec fn control_step(pre: FlashView, band: PageBand, value: u32, post: FlashView) -> bool {
    let next = stored(pre, band, value);
    let start = value & start_bits(band);
    if pre.port(band).cr & SECCR_LOCK != 0 {
        post == pre
    } else if start == 0 {
        post == next
    } else if start == SECCR_STRT {
        selects_page_erase(value) ==> erase_step(next, band, value, post)
    } else if start == NSCR_OPTSTRT {
        option_step(next, value, post)
    } else if start == NSCR_OBL_LAUNCH {
        post == (FlashView { launched: true, ..next })
    } else {
        true
    }
}

/// A store.
pub open spec fn write_step(pre: FlashView, addr: u32, value: u32, post: FlashView) -> bool {
    if addr == FLASH_SECKEYR {
        post == pre.with_port(PageBand::Secure, key_written(pre.sec, value))
    } else if addr == FLASH_NSKEYR {
        post == pre.with_port(PageBand::NonSecure, key_written(pre.ns, value))
    } else if addr == FLASH_OPTKEYR {
        post == optkey_written(pre, value)
    } else if addr == FLASH_SECSR {
        &&& post == (FlashView { sec: Port { failed: post.sec.failed, ..pre.sec }, ..pre })
        &&& errors_cleared(pre.sec.failed, value, post.sec.failed)
    } else if addr == FLASH_NSSR {
        &&& post == (FlashView {
            ns: Port { failed: post.ns.failed, ..pre.ns },
            optwerr: pre.optwerr && value & SR_OPTWERR == 0,
            ..pre
        })
        &&& errors_cleared(pre.ns.failed, value, post.ns.failed)
    } else if addr == FLASH_SECCR {
        control_step(pre, PageBand::Secure, value, post)
    } else if addr == FLASH_NSCR {
        control_step(pre, PageBand::NonSecure, value, post)
    } else if addr == FLASH_OPTR {
        post == (FlashView {
            shadow: if pre.ns.cr & NSCR_OPTLOCK == 0 {
                value
            } else {
                pre.shadow
            },
            ..pre
        })
    } else if addr == FLASH_SECWM1R1 {
        // A store to a watermark register may move the watermark.
        post == (FlashView { secwm1: post.secwm1, ..pre })
    } else if addr == FLASH_SECWM2R1 {
        post == (FlashView { secwm2: post.secwm2, ..pre })
    } else {
        match pre.resolve(addr as int) {
            Some(place) => if pre.port(place.band).cr & SECCR_PG == 0 {
                post == pre
            } else {
                program_step(pre, place, value, post)
            },
            None => post == pre,
        }
    }
}

/// A store that a fault-free controller answers: what can land lands, and the
/// controller gets ready in time.
pub open spec fn faultless(pre: FlashView, addr: u32, value: u32, post: FlashView) -> bool {
    let place = pre.resolve(addr as int);
    &&& pre.busy < BSY_POLL_LIMIT ==> post.busy < BSY_POLL_LIMIT
    &&& !is_register(addr as int) && place is Some && programmable(pre, place->0, value)
        ==> post.port(place->0.band).failed == pre.port(place->0.band).failed
    &&& addr == FLASH_SECCR && erasable(PageBand::Secure, value) ==> post.sec.failed
        == pre.sec.failed
    &&& addr == FLASH_NSCR && (value & SECCR_STRT == 0 || erasable(PageBand::NonSecure, value))
        ==> post.ns.failed == pre.ns.failed
    &&& addr == FLASH_NSCR && value & NSCR_OPTLOCK == 0 ==> post.optwerr == pre.optwerr
}

/// A 32-bit register-access port to the flash controller.
///
/// Addresses must be registers of the flash block, or lie in a memory-protection
/// region: the core faults on any other.
pub trait FlashAccess {
    /// The controller behind the port.
    spec fn flash(&self) -> FlashView;

    /// No fault is to come.
    spec fn nominal(&self) -> bool;

    /// Reads the word at `addr`.
    fn read32(&mut self, addr: u32) -> (r: u32)
        requires
            old(self).flash().wf(),
            is_register(addr as int) || mpu_covers(addr as int, 4),
        ensures
            final(self).flash().wf(),
            read_step(old(self).flash(), addr, final(self).flash(), r),
            old(self).nominal() ==> final(self).nominal(),
    ;

    /// Writes `value` to the word at `addr`.
    fn write32(&mut self, addr: u32, value: u32)
        requires
            old(self).flash().wf(),
            is_register(addr as int) || mpu_covers(addr as int, 4),
        ensures
            final(self).flash().wf(),
            write_step(old(self).flash(), addr, value, final(self).flash()),
            old(self).nominal() ==> final(self).nominal() && faultless(
                old(self).flash(),
                addr,
                value,
                final(self).flash(),
            ),
    ;

    /// Clears the bits of `clear` at `addr`, then sets those of `set`.
    ///
    /// For control registers, where a read gives the live value.
    fn modify32(&mut self, addr: u32, clear: u32, set: u32)
        requires
            old(self).flash().wf(),
            addr == FLASH_SECCR || addr == FLASH_NSCR || addr == FLASH_OPTR,
        ensures
            final(self).flash().wf(),
            write_step(
                old(self).flash(),
                addr,
                (old(self).flash().control(addr) & !clear) | set,
                final(self).flash(),
            ),
            old(self).nominal() ==> final(self).nominal() && faultless(
                old(self).flash(),
                addr,
                (old(self).flash().control(addr) & !clear) | set,
                final(self).flash(),
            ),
    {
        let old_value: u32 = self.read32(addr);
        self.write32(addr, (old_value & !clear) | set);
    }

    /// Reads the word at `addr` through a shared borrow.
    fn peek32(&self, addr: u32) -> (r: u32)
        requires
            self.flash().wf(),
            is_register(addr as int) || mpu_covers(addr as int, 4),
        ensures
            addr == FLASH_OPTR ==> r == self.flash().optr,
            self.flash().resolve(addr as int) is Some && addr % 4 == 0 ==> r
                == self.flash().flash_word(addr as int),
    ;

    /// Borrows `len` bytes of memory-mapped flash at `base`, inside one band.
    fn bank_view(&self, base: u32, len: usize) -> (bytes: &[u8])
        requires
            self.flash().wf(),
            mpu_covers(base as int, len as int) || active_image(base as int, len as int),
        ensures
            bytes@ == self.flash().flash_bytes(base as int, len as int),
    ;
}

} // verus!
