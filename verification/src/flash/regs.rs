//! Registers, keys and bank geometry of the embedded flash.
//!
//! Only what the dual-bank update path touches is defined here. Register addresses
//! use the secure alias.
//!
//! A bank swap remaps the address of each bank. It does not move the erase
//! selector, which follows the physical bank. [`PhysBank`] gives both facts of one
//! physical bank, so that erase and program always agree.

use vstd::prelude::*;

verus! {

/// Base of the register block, secure alias.
pub const FLASH_BASE: u32 = 0x5002_2000;

/// Unlock keys of the non-secure control register.
pub const FLASH_NSKEYR: u32 = FLASH_BASE + 0x08;

/// Unlock keys of the secure control register.
pub const FLASH_SECKEYR: u32 = FLASH_BASE + 0x0C;

/// Unlock keys of the option bytes.
pub const FLASH_OPTKEYR: u32 = FLASH_BASE + 0x10;

/// Non-secure status. Holds the option-write error.
pub const FLASH_NSSR: u32 = FLASH_BASE + 0x20;

/// Secure status.
pub const FLASH_SECSR: u32 = FLASH_BASE + 0x24;

/// Non-secure control. Holds the option-byte bits.
pub const FLASH_NSCR: u32 = FLASH_BASE + 0x28;

/// Secure control.
pub const FLASH_SECCR: u32 = FLASH_BASE + 0x2C;

/// Option register. Holds the bank-swap bit.
pub const FLASH_OPTR: u32 = FLASH_BASE + 0x40;

/// Secure watermark of physical Bank 1. A non-secure read gives zero.
pub const FLASH_SECWM1R1: u32 = FLASH_BASE + 0x50;

/// Secure watermark of physical Bank 2. A non-secure read gives zero.
pub const FLASH_SECWM2R1: u32 = FLASH_BASE + 0x60;

/// First unlock key of a control register.
pub const FLASH_KEY1: u32 = 0x4567_0123;

/// Second unlock key of a control register.
pub const FLASH_KEY2: u32 = 0xCDEF_89AB;

/// First unlock key of the option bytes.
pub const FLASH_OPTKEY1: u32 = 0x0819_2A3B;

/// Second unlock key of the option bytes.
pub const FLASH_OPTKEY2: u32 = 0x4C5D_6E7F;

/// Control bit 0: programming enable.
pub const SECCR_PG: u32 = 0x0000_0001;

/// Control bit 1: page-erase enable.
pub const SECCR_PER: u32 = 0x0000_0002;

/// Control bit 2: mass erase of Bank 1. Never set.
pub const SECCR_MER1: u32 = 0x0000_0004;

/// Shift of the page-number field.
pub const SECCR_PNB_SHIFT: u32 = 3;

/// Control bits 3 to 10: the page number to erase.
pub const SECCR_PNB_MASK: u32 = 0x0000_07F8;

/// Control bit 11: the physical bank to erase. A swap does not move it.
pub const SECCR_BKER: u32 = 0x0000_0800;

/// Control bit 14: burst write. Never set.
pub const SECCR_BWR: u32 = 0x0000_4000;

/// Control bit 15: mass erase of Bank 2. Never set.
pub const SECCR_MER2: u32 = 0x0000_8000;

/// Control bit 16: start the erase.
pub const SECCR_STRT: u32 = 0x0001_0000;

/// Control bit 24: end-of-operation interrupt. Never set.
pub const SECCR_EOPIE: u32 = 0x0100_0000;

/// Control bit 25: error interrupt. Never set.
pub const SECCR_ERRIE: u32 = 0x0200_0000;

/// Control bit 31: lock.
pub const SECCR_LOCK: u32 = 0x8000_0000;

/// Non-secure control bit 17: start the option program.
pub const NSCR_OPTSTRT: u32 = 0x0002_0000;

/// Non-secure control bit 27: reload the option bytes, which resets the part.
pub const NSCR_OBL_LAUNCH: u32 = 0x0800_0000;

/// Non-secure control bit 30: option lock.
pub const NSCR_OPTLOCK: u32 = 0x4000_0000;

/// Non-secure control bit 31: lock.
pub const NSCR_LOCK: u32 = 0x8000_0000;

/// Status bit 0: end of operation.
pub const SR_EOP: u32 = 0x0000_0001;

/// Status bit 1: operation error.
pub const SR_OPERR: u32 = 0x0000_0002;

/// Status bit 3: a word that was not erased was programmed again.
pub const SR_PROGERR: u32 = 0x0000_0008;

/// Status bit 4: write-protection error.
pub const SR_WRPERR: u32 = 0x0000_0010;

/// Status bit 5: alignment error.
pub const SR_PGAERR: u32 = 0x0000_0020;

/// Status bit 6: size error.
pub const SR_SIZERR: u32 = 0x0000_0040;

/// Status bit 7: sequence error.
pub const SR_PGSERR: u32 = 0x0000_0080;

/// Non-secure status bit 13: option-write error.
pub const SR_OPTWERR: u32 = 0x0000_2000;

/// Status bit 16: an operation is in progress.
pub const SR_BSY: u32 = 0x0001_0000;

/// Status bit 17: the data buffer must be waited for.
pub const SR_WDW: u32 = 0x0002_0000;

/// Both wait flags.
pub const SR_WAIT: u32 = 0x0003_0000;

/// Every program and erase error flag.
pub const SR_ALL_ERRORS: u32 = 0x0000_00FA;

/// Option bit 20: Bank 2 sits at the low alias, and boots.
pub const OPTR_SWAP_BANK: u32 = 0x0010_0000;

/// Option bit 21: dual-bank mode.
pub const OPTR_DUALBANK: u32 = 0x0020_0000;

/// Option bit 31: TrustZone is on.
pub const OPTR_TZEN: u32 = 0x8000_0000;

/// An erase page.
pub const PAGE_SIZE: u32 = 0x2000;

/// Pages of a bank.
pub const PAGES_PER_BANK: u32 = 32;

/// Bytes of a bank.
pub const BANK_SIZE: u32 = 0x4_0000;

/// Low secure alias: the bank here boots.
pub const LOW_ALIAS_BASE: u32 = 0x0C00_0000;

/// High secure alias: the bank here is inactive.
pub const HIGH_ALIAS_BASE: u32 = LOW_ALIAS_BASE + BANK_SIZE;

/// Distance of a non-secure alias below its secure alias.
pub const SECURE_ALIAS_OFFSET: u32 = 0x0400_0000;

/// Low non-secure alias.
pub const NS_LOW_ALIAS_BASE: u32 = LOW_ALIAS_BASE - SECURE_ALIAS_OFFSET;

/// High non-secure alias.
pub const NS_HIGH_ALIAS_BASE: u32 = HIGH_ALIAS_BASE - SECURE_ALIAS_OFFSET;

/// The unit of programming.
pub const QUAD_WORD_LEN: u32 = 16;

/// Words of a quad-word.
pub const QUAD_WORD_WORDS: u32 = 4;

/// An erased byte. An erase sets every bit, a program only clears bits.
pub const ERASED_BYTE: u8 = 0xFF;

/// An erased word.
pub const ERASED_WORD: u32 = 0xFFFF_FFFF;

/// First metadata page of physical Bank 1.
pub const META_PAGE_FIRST: u32 = 0;

/// Number of metadata pages.
pub const META_PAGE_COUNT: u32 = 2;

/// First page of the immutable boot stage.
pub const BOOT_STAGE_PAGE_FIRST: u32 = META_PAGE_FIRST + META_PAGE_COUNT;

/// Number of boot-stage pages.
pub const BOOT_STAGE_PAGE_COUNT: u32 = 7;

/// Last secure page of each bank. The pages behind it are non-secure.
pub const SECWM_PEND: u32 = 19;

/// First image page: the descriptor. Metadata and boot stage lie below it, so the
/// updater never erases or programs them.
pub const IMAGE_PAGE_FIRST: u32 = BOOT_STAGE_PAGE_FIRST + BOOT_STAGE_PAGE_COUNT;

/// Number of image pages.
pub const IMAGE_PAGE_COUNT: u32 = PAGES_PER_BANK - IMAGE_PAGE_FIRST;

/// Size of the image band.
pub const IMAGE_REGION_SIZE: u32 = IMAGE_PAGE_COUNT * PAGE_SIZE;

/// Offset of the image band in a bank.
pub const IMAGE_REGION_OFFSET: u32 = IMAGE_PAGE_FIRST * PAGE_SIZE;

/// Offset of the descriptor page in a bank.
pub const IMAGE_DESCRIPTOR_OFFSET: u32 = IMAGE_REGION_OFFSET;

/// The descriptor: a header, then a signature.
pub const IMAGE_DESCRIPTOR_LEN: u32 = 88;

/// First payload page.
pub const IMAGE_PAYLOAD_PAGE_FIRST: u32 = IMAGE_PAGE_FIRST + 1;

/// Offset of the payload in a bank: the link origin of the secure application.
pub const IMAGE_PAYLOAD_OFFSET: u32 = IMAGE_PAYLOAD_PAGE_FIRST * PAGE_SIZE;

/// Size of the payload band.
pub const IMAGE_PAYLOAD_SIZE: u32 = IMAGE_REGION_SIZE - PAGE_SIZE;

/// First non-secure image page.
pub const IMAGE_NS_PAGE_FIRST: u32 = SECWM_PEND + 1;

/// Size of the secure payload band.
pub const IMAGE_PAYLOAD_SECURE_SIZE: u32 = (IMAGE_NS_PAGE_FIRST - IMAGE_PAYLOAD_PAGE_FIRST)
    * PAGE_SIZE;

/// Offset of the non-secure payload band in a bank.
pub const IMAGE_NS_BAND_OFFSET: u32 = IMAGE_NS_PAGE_FIRST * PAGE_SIZE;

/// Size of the non-secure payload band.
pub const IMAGE_NS_BAND_SIZE: u32 = (PAGES_PER_BANK - IMAGE_NS_PAGE_FIRST) * PAGE_SIZE;

/// Offset of the anti-rollback counter log.
pub const META_NVCNT_OFFSET: u32 = 0;

/// Offset of the boot-count log.
pub const META_BOOT_OFFSET: u32 = PAGE_SIZE / 2;

/// Offset of the pending record.
pub const META_PENDING_OFFSET: u32 = PAGE_SIZE;

/// Offset of the update-outcome record.
pub const META_OUTCOME_OFFSET: u32 = PAGE_SIZE + PAGE_SIZE / 2;

/// The page of the pending and the outcome record. They share an erase.
pub const META_MUTABLE_PAGE: u32 = META_PAGE_FIRST + 1;

/// Quad-word slots of a log: its finite burn budget.
pub const META_LOG_SLOTS: u32 = (PAGE_SIZE / 2) / QUAD_WORD_LEN;

/// Pending record: no swap awaits confirmation. The erased value.
pub const PENDING_NONE: u32 = 0xFFFF_FFFF;

/// Pending record: a swap is armed toward Bank 1.
pub const PENDING_ARMED_BANK1: u32 = 0xA5A5_0001;

/// Pending record: a swap is armed toward Bank 2.
pub const PENDING_ARMED_BANK2: u32 = 0xA5A5_0002;

/// The value of a boot-count tick.
pub const BOOT_TICK: u32 = 0xA5A5_5A5A;

/// Outcome record: no outcome. The erased value.
pub const OUTCOME_NONE: u32 = 0xFFFF_FFFF;

/// Outcome record: an automatic revert happened.
pub const OUTCOME_AUTO_REVERTED: u32 = 0x5A5A_0001;

/// One of the two physical banks, a fixed region of silicon.
#[derive(Debug, Clone, Copy, PartialEq, Eq, Structural)]
pub enum PhysBank {
    /// Physical Bank 1.
    One,
    /// Physical Bank 2.
    Two,
}

/// The erase selector of a physical bank.
pub open spec fn bker_of(bank: PhysBank) -> u32 {
    match bank {
        PhysBank::One => 0,
        PhysBank::Two => SECCR_BKER,
    }
}

/// The secure alias at which a physical bank is mapped.
pub open spec fn mapped_at(bank: PhysBank, swap: bool) -> u32 {
    if (bank == PhysBank::Two) == swap {
        LOW_ALIAS_BASE
    } else {
        HIGH_ALIAS_BASE
    }
}

impl PhysBank {
    /// The erase selector. A swap does not move it.
    pub fn bker(self) -> (r: u32)
        ensures
            r == bker_of(self),
    {
        match self {
            PhysBank::One => 0,
            PhysBank::Two => SECCR_BKER,
        }
    }

    /// The secure alias at which the bank is mapped: Bank 1 low and Bank 2 high,
    /// exchanged by a swap.
    pub fn mapped_base(self, swap: bool) -> (r: u32)
        ensures
            r == mapped_at(self, swap),
    {
        match self {
            PhysBank::One => if swap {
                HIGH_ALIAS_BASE
            } else {
                LOW_ALIAS_BASE
            },
            PhysBank::Two => if swap {
                LOW_ALIAS_BASE
            } else {
                HIGH_ALIAS_BASE
            },
        }
    }
}

/// The security band of a page. It selects the registers and the alias that the
/// page must be driven through.
#[derive(Debug, Clone, Copy, PartialEq, Eq, Structural)]
pub enum PageBand {
    /// A secure page.
    Secure,
    /// A non-secure page.
    NonSecure,
}

/// The key register of a band.
pub open spec fn keyr_of(band: PageBand) -> u32 {
    match band {
        PageBand::Secure => FLASH_SECKEYR,
        PageBand::NonSecure => FLASH_NSKEYR,
    }
}

/// The status register of a band.
pub open spec fn sr_of(band: PageBand) -> u32 {
    match band {
        PageBand::Secure => FLASH_SECSR,
        PageBand::NonSecure => FLASH_NSSR,
    }
}

/// The control register of a band.
pub open spec fn cr_of(band: PageBand) -> u32 {
    match band {
        PageBand::Secure => FLASH_SECCR,
        PageBand::NonSecure => FLASH_NSCR,
    }
}

impl PageBand {
    /// The key register of the band.
    pub fn keyr(self) -> (r: u32)
        ensures
            r == keyr_of(self),
    {
        match self {
            PageBand::Secure => FLASH_SECKEYR,
            PageBand::NonSecure => FLASH_NSKEYR,
        }
    }

    /// The status register of the band.
    pub fn sr(self) -> (r: u32)
        ensures
            r == sr_of(self),
    {
        match self {
            PageBand::Secure => FLASH_SECSR,
            PageBand::NonSecure => FLASH_NSSR,
        }
    }

    /// The control register of the band.
    pub fn cr(self) -> (r: u32)
        ensures
            r == cr_of(self),
    {
        match self {
            PageBand::Secure => FLASH_SECCR,
            PageBand::NonSecure => FLASH_NSCR,
        }
    }

    /// The alias base of the band, for the secure alias of a bank.
    pub fn alias_base(self, secure_mapped_base: u32) -> (r: u32)
        requires
            secure_mapped_base >= SECURE_ALIAS_OFFSET,
        ensures
            self == PageBand::Secure ==> r == secure_mapped_base,
            self == PageBand::NonSecure ==> r == secure_mapped_base - SECURE_ALIAS_OFFSET,
    {
        match self {
            PageBand::Secure => secure_mapped_base,
            PageBand::NonSecure => secure_mapped_base - SECURE_ALIAS_OFFSET,
        }
    }
}

/// The band of a page of a bank: secure up to the watermark.
pub open spec fn band_of_page(page: int) -> PageBand {
    if page <= SECWM_PEND {
        PageBand::Secure
    } else {
        PageBand::NonSecure
    }
}

/// The band of a page of a bank.
pub fn page_band(page: u32) -> (r: PageBand)
    ensures
        r == band_of_page(page as int),
{
    if page <= SECWM_PEND {
        PageBand::Secure
    } else {
        PageBand::NonSecure
    }
}

/// Whether the option word has the banks swapped.
pub open spec fn swapped(optr: u32) -> bool {
    optr & OPTR_SWAP_BANK != 0
}

/// Whether the option word has the banks swapped.
pub fn swap_bank_set(optr: u32) -> (r: bool)
    ensures
        r == swapped(optr),
{
    optr & OPTR_SWAP_BANK != 0
}

/// The physical bank that boots.
pub open spec fn running_bank_of(swap: bool) -> PhysBank {
    if swap {
        PhysBank::Two
    } else {
        PhysBank::One
    }
}

/// The physical bank that does not boot.
pub open spec fn inactive_bank_of(swap: bool) -> PhysBank {
    if swap {
        PhysBank::One
    } else {
        PhysBank::Two
    }
}

/// The physical bank that boots: the one at the low alias.
pub fn running_phys_bank(swap: bool) -> (r: PhysBank)
    ensures
        r == running_bank_of(swap),
        mapped_at(r, swap) == LOW_ALIAS_BASE,
{
    if swap {
        PhysBank::Two
    } else {
        PhysBank::One
    }
}

/// The inactive physical bank, the other one.
pub fn inactive_phys_bank(swap: bool) -> (r: PhysBank)
    ensures
        r == inactive_bank_of(swap),
        r != running_bank_of(swap),
        mapped_at(r, swap) == HIGH_ALIAS_BASE,
{
    if swap {
        PhysBank::One
    } else {
        PhysBank::Two
    }
}

} // verus!
