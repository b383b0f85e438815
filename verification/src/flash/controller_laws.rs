//! What the flash controller does, register by register, and what a power cut does to
//! the model of it.

use vstd::prelude::*;

use crate::boot::seam::BootFlash;
use crate::flash::bus::active_image;
use crate::flash::bus::faultless;
use crate::flash::bus::is_register;
use crate::flash::bus::key_written;
use crate::flash::bus::mpu_covers;
use crate::flash::bus::optkey_written;
use crate::flash::bus::read_step;
use crate::flash::bus::stored;
use crate::flash::bus::with_page_erased;
use crate::flash::bus::word_bytes;
use crate::flash::bus::write_step;
use crate::flash::bus::FlashAccess;
use crate::flash::bus::FlashView;
use crate::flash::bus::Place;
use crate::flash::bus::Port;
use crate::flash::driver::calm;
use crate::flash::driver::clean;
use crate::flash::driver::fault_answered;
use crate::flash::driver::locked;
use crate::flash::driver::settled;
use crate::flash::driver::stuck_answered;
use crate::flash::driver::Stm32FlashSeam;
use crate::flash::driver::boot::boot_of;
use crate::flash::driver::update::arm_driven;
use crate::flash::driver::update::descriptor_driven;
use crate::flash::driver::update::erase_driven;
use crate::flash::driver::update::page_driven;
use crate::flash::driver::update::seam_of;
use crate::flash::laws::reset_step;
use crate::flash::model::can_erase;
use crate::flash::model::can_program;
use crate::flash::model::cut_after;
use crate::flash::model::erase_done;
use crate::flash::model::options_done;
use crate::flash::model::phys;
use crate::flash::model::restarted;
use crate::flash::model::starts_erase;
use crate::flash::model::starts_options;
use crate::flash::model::starts_program;
use crate::flash::model::word_done;
use crate::flash::model::Cut;
use crate::flash::model::CutMode;
use crate::flash::model::FlashModel;
use crate::flash::model::QwPlan;
use crate::flash::model::WordStep;
use crate::flash::records::lemma_word_roundtrip;
use crate::flash::regs::PageBand;
use crate::flash::regs::PhysBank;
use crate::flash::regs::FLASH_NSCR;
use crate::flash::regs::FLASH_NSSR;
use crate::flash::regs::FLASH_OPTR;
use crate::flash::regs::FLASH_SECCR;
use crate::flash::regs::FLASH_SECSR;
use crate::flash::regs::FLASH_SECWM1R1;
use crate::flash::regs::FLASH_SECWM2R1;
use crate::image::format::le32;
use crate::update::seam::FlashError;
use crate::update::seam::FlashSeam;
use crate::update::seam::PageIndex;

verus! {

/// The running bank is mapped low and the other high, each at a secure and a non-secure
/// alias. A swap exchanges the banks behind the aliases. No other address is flash.
pub proof fn every_alias_reaches_its_bank(flash: FlashView, i: int, addr: int)
    requires
        0 <= i < 0x4_0000,
    ensures
        ({
            let two_runs = flash.optr & 0x0010_0000 != 0;
            let low = if two_runs {
                PhysBank::Two
            } else {
                PhysBank::One
            };
            let high = if two_runs {
                PhysBank::One
            } else {
                PhysBank::Two
            };
            &&& flash.resolve(0x0C00_0000 + i) == Some(
                (Place { band: PageBand::Secure, bank: low, index: i }),
            )
            &&& flash.resolve(0x0C04_0000 + i) == Some(
                (Place { band: PageBand::Secure, bank: high, index: i }),
            )
            &&& flash.resolve(0x0800_0000 + i) == Some(
                (Place { band: PageBand::NonSecure, bank: low, index: i }),
            )
            &&& flash.resolve(0x0804_0000 + i) == Some(
                (Place { band: PageBand::NonSecure, bank: high, index: i }),
            )
        }),
        addr < 0x0800_0000 || 0x0808_0000 <= addr < 0x0C00_0000 || addr >= 0x0C08_0000
            ==> flash.resolve(addr) is None,
        flash.bank(PhysBank::One) == flash.bank1,
        flash.bank(PhysBank::Two) == flash.bank2,
{
}

/// A page reads through the alias that suits its label, secure up to page 19, and as
/// zero through the other.
pub proof fn a_page_reads_through_its_own_alias(flash: FlashView, i: int, len: int)
    requires
        0 <= i,
        0 <= len,
        i + len <= 0x4_0000,
        i < 0x4_0000,
    ensures
        ({
            let running = if flash.optr & 0x0010_0000 != 0 {
                flash.bank2
            } else {
                flash.bank1
            };
            let idle = if flash.optr & 0x0010_0000 != 0 {
                flash.bank1
            } else {
                flash.bank2
            };
            &&& i < 0x2_8000 ==> {
                &&& flash.flash_bytes(0x0C00_0000 + i, len) == running.subrange(i, i + len)
                &&& flash.flash_bytes(0x0C04_0000 + i, len) == idle.subrange(i, i + len)
                &&& flash.flash_word(0x0C00_0000 + i) == le32(running, i)
                &&& flash.flash_word(0x0C04_0000 + i) == le32(idle, i)
                &&& flash.flash_word(0x0800_0000 + i) == 0
                &&& flash.flash_word(0x0804_0000 + i) == 0
            }
            &&& i >= 0x2_8000 ==> {
                &&& flash.flash_bytes(0x0800_0000 + i, len) == running.subrange(i, i + len)
                &&& flash.flash_bytes(0x0804_0000 + i, len) == idle.subrange(i, i + len)
                &&& flash.flash_word(0x0800_0000 + i) == le32(running, i)
                &&& flash.flash_word(0x0804_0000 + i) == le32(idle, i)
                &&& flash.flash_word(0x0C00_0000 + i) == 0
                &&& flash.flash_word(0x0C04_0000 + i) == 0
            }
        }),
{
}

/// Two keys in a row unlock a control register, and nothing else does. A wrong key
/// starts the sequence over, and an open register does not heed keys.
pub proof fn two_keys_unlock_a_register(port: Port, value: u32)
    ensures
        port.cr & 0x8000_0000 == 0 ==> key_written(port, value) == port,
        port.cr & 0x8000_0000 != 0 && port.key == 0 ==> key_written(
            key_written(port, 0x4567_0123),
            0xCDEF_89AB,
        ) == (Port { cr: port.cr & !0x8000_0000u32, key: 0, ..port }),
        port.cr & 0x8000_0000 != 0 && !(port.key == 1 && value == 0xCDEF_89AB) ==> key_written(
            port,
            value,
        ).cr == port.cr,
        port.cr & 0x8000_0000 != 0 && value != 0x4567_0123 ==> key_written(port, value).key == 0,
        key_written(port, value).failed == port.failed,
{
}

/// Two keys in a row unlock the option bytes, and nothing else does.
pub proof fn two_keys_unlock_the_options(flash: FlashView, value: u32)
    ensures
        flash.ns.cr & 0x4000_0000 == 0 ==> optkey_written(flash, value) == flash,
        flash.ns.cr & 0x4000_0000 != 0 && flash.optkey == 0 ==> optkey_written(
            optkey_written(flash, 0x0819_2A3B),
            0x4C5D_6E7F,
        ) == (FlashView {
            ns: Port { cr: flash.ns.cr & !0x4000_0000u32, ..flash.ns },
            ..flash
        }),
        flash.ns.cr & 0x4000_0000 != 0 && !(flash.optkey == 1 && value == 0x4C5D_6E7F)
            ==> optkey_written(flash, value).ns == flash.ns,
        flash.ns.cr & 0x4000_0000 != 0 && value != 0x0819_2A3B ==> optkey_written(
            flash,
            value,
        ).optkey == 0,
        optkey_written(flash, value).bank1 == flash.bank1,
        optkey_written(flash, value).bank2 == flash.bank2,
        optkey_written(flash, value).staged == flash.staged,
{
}

/// A locked control register ignores what is written to it.
pub proof fn a_locked_register_ignores_stores(pre: FlashView, value: u32, post: FlashView)
    ensures
        write_step(pre, FLASH_SECCR, value, post) && pre.sec.cr & 0x8000_0000 != 0 ==> post == pre,
        write_step(pre, FLASH_NSCR, value, post) && pre.ns.cr & 0x8000_0000 != 0 ==> post == pre,
{
}

/// An erased page: its bytes are all ones, and no other byte moved.
proof fn lemma_erased_page(bytes: Seq<u8>, page: int, i: int)
    requires
        bytes.len() == 0x4_0000,
        0 <= page < 32,
        0 <= i < 0x4_0000,
    ensures
        with_page_erased(bytes, page).len() == 0x4_0000,
        with_page_erased(bytes, page)[i] == (if i / 0x2000 == page {
            0xFFu8
        } else {
            bytes[i]
        }),
{
    let start = page * 0x2000;
    assert(i / 0x2000 == page <==> start <= i < start + 0x2000) by (nonlinear_arith)
        requires
            start == page * 0x2000,
            0 <= i,
    ;
}

/// A page erase that a controller without faults was told to start leaves the selected
/// page of the selected bank all ones, and no other byte of either bank moves. The
/// secure register erases pages up to 19, the other one those behind.
pub proof fn a_started_erase_clears_its_page(
    pre: FlashView,
    value: u32,
    post: FlashView,
    page: int,
    i: int,
)
    requires
        pre.bank1.len() == 0x4_0000,
        pre.bank2.len() == 0x4_0000,
        0 <= i < 0x4_0000,
        value & 0x0000_0002 != 0,
        value & 0x0000_0004 == 0,
        value & 0x0000_8000 == 0,
        page == (value & 0x0000_07F8) / 8,
        page < 32,
        ({
            ||| {
                &&& page <= 19
                &&& value & 0x0001_0000 == 0x0001_0000
                &&& pre.sec.cr & 0x8000_0000 == 0 && !pre.sec.failed
                &&& write_step(pre, FLASH_SECCR, value, post)
                &&& faultless(pre, FLASH_SECCR, value, post)
            }
            ||| {
                &&& page >= 20
                &&& value & 0x0803_0000 == 0x0001_0000
                &&& pre.ns.cr & 0x8000_0000 == 0 && !pre.ns.failed
                &&& write_step(pre, FLASH_NSCR, value, post)
                &&& faultless(pre, FLASH_NSCR, value, post)
            }
        }),
    ensures
        value & 0x0000_0800 == 0 ==> {
            &&& post.bank1[i] == (if i / 0x2000 == page {
                0xFFu8
            } else {
                pre.bank1[i]
            })
            &&& post.bank2 == pre.bank2
        },
        value & 0x0000_0800 != 0 ==> {
            &&& post.bank2[i] == (if i / 0x2000 == page {
                0xFFu8
            } else {
                pre.bank2[i]
            })
            &&& post.bank1 == pre.bank1
        },
        post.staged == pre.staged,
        post.optr == pre.optr,
{
    lemma_erased_page(pre.bank1, page, i);
    lemma_erased_page(pre.bank2, page, i);
}

/// A word that is programmed on a controller without faults reads back: where the
/// program bit is set, the alias suits the page, and the word is erased or the value is
/// zero, its four bytes hold the value, and no other byte moved.
pub proof fn a_programmed_word_reads_back(
    pre: FlashView,
    addr: u32,
    value: u32,
    post: FlashView,
    k: int,
    i: int,
)
    requires
        pre.bank1.len() == 0x4_0000,
        pre.bank2.len() == 0x4_0000,
        pre.optr & 0x0010_0000 == 0,
        0 <= i < 0x4_0000,
        0 <= k,
        k + 4 <= 0x4_0000,
        k % 4 == 0,
        le32(pre.bank2, k) == 0xFFFF_FFFF || value == 0,
        ({
            ||| {
                &&& k < 0x2_8000
                &&& addr == 0x0C04_0000 + k
                &&& pre.sec.cr & 1 != 0 && !pre.sec.failed
            }
            ||| {
                &&& k >= 0x2_8000
                &&& addr == 0x0804_0000 + k
                &&& pre.ns.cr & 1 != 0 && !pre.ns.failed
            }
        }),
        write_step(pre, addr, value, post),
        faultless(pre, addr, value, post),
    ensures
        le32(post.bank2, k) == value,
        i < k || i >= k + 4 ==> post.bank2[i] == pre.bank2[i],
        post.bank1 == pre.bank1,
        post.bank2.len() == 0x4_0000,
        post.staged == pre.staged,
        post.sec == pre.sec && post.ns == pre.ns,
{
    lemma_word_roundtrip(pre.bank2, k, value);
    let bytes = crate::update::seam::overlay(pre.bank2, k, word_bytes(value));
    assert(le32(bytes, k) == le32(word_bytes(value), 0));
}

/// Nothing is programmed where the program bit is clear.
pub proof fn a_store_to_flash_needs_the_program_bit(
    pre: FlashView,
    addr: u32,
    value: u32,
    post: FlashView,
)
    requires
        0x0800_0000 <= addr < 0x0808_0000 && pre.ns.cr & 1 == 0 || 0x0C00_0000 <= addr < 0x0C08_0000
            && pre.sec.cr & 1 == 0,
        write_step(pre, addr, value, post),
    ensures
        post == pre,
{
}

/// An option program stages the swap bit that was written, on a controller without
/// faults and with the options open. Its launch is what loads it. The option word in
/// effect does not change before a reset.
pub proof fn an_option_program_stages_the_swap(pre: FlashView, value: u32, post: FlashView)
    ensures
        write_step(pre, FLASH_OPTR, value, post) && pre.ns.cr & 0x4000_0000 == 0 ==> post == (
        FlashView { shadow: value, ..pre }),
        write_step(pre, FLASH_OPTR, value, post) && pre.ns.cr & 0x4000_0000 != 0 ==> post == pre,
        write_step(pre, FLASH_NSCR, value, post) && faultless(pre, FLASH_NSCR, value, post)
            && pre.ns.cr & 0x8000_0000 == 0 && value & 0x0803_0000 == 0x0002_0000 && value
            & 0x4000_0000 == 0 && !pre.optwerr ==> {
            &&& post.staged == Some(pre.shadow & 0x0010_0000 != 0)
            &&& post.bank1 == pre.bank1 && post.bank2 == pre.bank2
            &&& post.optr == pre.optr && post.launched == pre.launched
        },
        write_step(pre, FLASH_NSCR, value, post) && pre.ns.cr & 0x8000_0000 == 0 && value
            & 0x0803_0000 == 0x0800_0000 ==> {
            &&& post.launched
            &&& post.staged == pre.staged && post.optr == pre.optr
            &&& post.bank1 == pre.bank1 && post.bank2 == pre.bank2
        },
{
}

/// A plain store to an open control register keeps the value, but for the start bits,
/// and starts nothing.
pub proof fn a_control_register_keeps_what_is_written(
    pre: FlashView,
    value: u32,
    post: FlashView,
)
    ensures
        write_step(pre, FLASH_SECCR, value, post) && pre.sec.cr & 0x8000_0000 == 0 && value
            & 0x0001_0000 == 0 ==> {
            &&& post.sec.cr == value & !0x0001_0000u32
            &&& post.sec.failed == pre.sec.failed && post.ns == pre.ns
            &&& post.bank1 == pre.bank1 && post.bank2 == pre.bank2 && post.staged == pre.staged
        },
        write_step(pre, FLASH_NSCR, value, post) && pre.ns.cr & 0x8000_0000 == 0 && value
            & 0x0803_0000 == 0 ==> {
            &&& post.ns.cr == value & !0x0803_0000u32
            &&& post.ns.failed == pre.ns.failed && post.sec == pre.sec
            &&& post.bank1 == pre.bank1 && post.bank2 == pre.bank2 && post.staged == pre.staged
        },
{
}

/// A status shows whether the controller is busy and whether an operation failed. A poll
/// brings it one step nearer to ready, and changes nothing else. Writing the error bits
/// back clears them.
pub proof fn a_status_shows_busy_and_errors(pre: FlashView, value: u32, post: FlashView)
    ensures
        read_step(pre, FLASH_SECSR, post, value) ==> {
            &&& value & 0x0003_0000 == 0 <==> pre.busy == 0
            &&& value & 0x0000_00FA == 0 <==> !pre.sec.failed
            &&& pre.busy > 0 ==> post == pre.with_busy((pre.busy - 1) as nat)
            &&& pre.busy == 0 ==> post == pre
        },
        read_step(pre, FLASH_NSSR, post, value) ==> {
            &&& value & 0x0003_0000 == 0 <==> pre.busy == 0
            &&& value & 0x0000_00FA == 0 <==> !pre.ns.failed
            &&& value & 0x0000_2000 == 0 <==> !pre.optwerr
            &&& pre.busy > 0 ==> post == pre.with_busy((pre.busy - 1) as nat)
            &&& pre.busy == 0 ==> post == pre
        },
        write_step(pre, FLASH_SECSR, value, post) ==> {
            &&& value & 0x0000_00FA == 0x0000_00FA ==> !post.sec.failed
            &&& value & 0x0000_00FA == 0 ==> post.sec.failed == pre.sec.failed
            &&& post.bank1 == pre.bank1 && post.bank2 == pre.bank2 && post.ns == pre.ns
        },
        write_step(pre, FLASH_NSSR, value, post) ==> {
            &&& value & 0x0000_00FA == 0x0000_00FA ==> !post.ns.failed
            &&& value & 0x0000_00FA == 0 ==> post.ns.failed == pre.ns.failed
            &&& value & 0x0000_2000 != 0 ==> !post.optwerr
            &&& value & 0x0000_2000 == 0 ==> post.optwerr == pre.optwerr
            &&& post.bank1 == pre.bank1 && post.bank2 == pre.bank2 && post.sec == pre.sec
        },
{
}

/// A register reads as what it holds, and a read changes nothing.
pub proof fn a_register_reads_as_it_is(pre: FlashView, value: u32, post: FlashView)
    ensures
        read_step(pre, FLASH_OPTR, post, value) ==> value == pre.optr && post == pre,
        read_step(pre, FLASH_SECCR, post, value) ==> value == pre.sec.cr && post == pre,
        read_step(pre, FLASH_NSCR, post, value) ==> value == pre.ns.cr && post == pre,
        read_step(pre, FLASH_SECWM1R1, post, value) ==> value == pre.secwm1 && post == pre,
        read_step(pre, FLASH_SECWM2R1, post, value) ==> value == pre.secwm2 && post == pre,
{
}

/// What a driver may touch: the metadata at either alias, and the image of the bank that
/// is mapped high. The image of the running bank is out of its reach.
pub proof fn the_running_image_is_out_of_reach(addr: int, len: int)
    requires
        len > 0,
    ensures
        0x0C00_4000 <= addr < 0x0C04_0000 ==> !mpu_covers(addr, len),
        0x0800_0000 <= addr < 0x0806_8000 ==> !mpu_covers(addr, len),
        0x0C05_2000 <= addr && addr + len <= 0x0C06_8000 ==> mpu_covers(addr, len),
        0x0806_8000 <= addr && addr + len <= 0x0808_0000 ==> mpu_covers(addr, len),
        0x0C00_0000 <= addr && addr + len <= 0x0C00_4000 ==> mpu_covers(addr, len),
        0x0C04_0000 <= addr && addr + len <= 0x0C04_4000 ==> mpu_covers(addr, len),
        mpu_covers(addr, len) ==> {
            ||| 0x0C00_0000 <= addr && addr + len <= 0x0C00_4000
            ||| 0x0C04_0000 <= addr && addr + len <= 0x0C04_4000
            ||| 0x0C05_2000 <= addr && addr + len <= 0x0C06_8000
            ||| 0x0806_8000 <= addr && addr + len <= 0x0808_0000
        },
        active_image(addr, len) <==> {
            ||| 0x0C01_2000 <= addr && addr + len <= 0x0C02_8000
            ||| 0x0802_8000 <= addr && addr + len <= 0x0804_0000
        },
        is_register(addr) <==> 0x5002_2000 <= addr < 0x5002_2400,
{
}

/// An erase of the inactive bank: in the dual-bank secure posture a driver on a
/// controller without faults succeeds, and pages 9 to 31 of the bank that does not run
/// are all ones. Pages 0 to 8 of it and all of the running bank are as they were, and
/// both registers are locked. Out of the posture nothing is touched.
pub proof fn a_driven_erase_clears_pages_9_to_31(
    pre: FlashView,
    calm: bool,
    post: FlashView,
    r: Result<(), FlashError>,
    i: int,
)
    requires
        pre.bank1.len() == 0x4_0000,
        pre.bank2.len() == 0x4_0000,
        0 <= i < 0x4_0000,
        erase_driven(pre, calm, post, r),
    ensures
        ({
            let sane = pre.optr & 0x0020_0000 != 0 && pre.optr & 0x8000_0000 != 0;
            let two_runs = pre.optr & 0x0010_0000 != 0;
            &&& !sane ==> r == Err::<(), FlashError>(FlashError::Hardware) && post == pre
            &&& sane && calm ==> r is Ok
            &&& r is Ok ==> post.sec.cr & 0x8000_0000 != 0 && post.ns.cr & 0x8000_0000 != 0
            &&& two_runs ==> {
                &&& post.bank2 == pre.bank2
                &&& i < 0x1_2000 ==> post.bank1[i] == pre.bank1[i]
                &&& r is Ok && i >= 0x1_2000 ==> post.bank1[i] == 0xFF
            }
            &&& !two_runs ==> {
                &&& post.bank1 == pre.bank1
                &&& i < 0x1_2000 ==> post.bank2[i] == pre.bank2[i]
                &&& r is Ok && i >= 0x1_2000 ==> post.bank2[i] == 0xFF
            }
            &&& post.staged == pre.staged && post.optr == pre.optr
        }),
{
    crate::flash::record_laws::a_change_stays_in_its_range(
        pre,
        post,
        crate::flash::regs::inactive_bank_of(pre.swap()),
        0x1_2000,
        0x4_0000,
        i,
    );
    if r is Ok && i >= 0x1_2000 {
        assert(crate::flash::driver::update::inactive(post)[i] == 0xFF);
    }
}

/// An arm of the swap moves no byte of either bank and not the option word in effect.
/// One that fails launches nothing. Behind it the option bytes and their register are
/// locked, unless the controller was never ready for it.
pub proof fn a_driven_arm_locks_behind_itself(
    pre: FlashView,
    post: FlashView,
    r: Result<(), FlashError>,
)
    requires
        arm_driven(pre, post, r),
    ensures
        post.bank1 == pre.bank1,
        post.bank2 == pre.bank2,
        post.optr == pre.optr,
        r is Ok ==> post.launched,
        r is Err ==> post.launched == pre.launched && r == Err::<(), FlashError>(
            FlashError::Hardware,
        ),
        pre.optr & 0x0020_0000 == 0 || pre.optr & 0x8000_0000 == 0 ==> r is Err && post == pre,
        r is Ok || pre.busy < 2_000_000 && pre.optr & 0x0020_0000 != 0 && pre.optr & 0x8000_0000
            != 0 ==> post.ns.cr & 0x8000_0000 != 0 && post.ns.cr & 0x4000_0000 != 0,
        pre.ns.cr & 0x8000_0000 != 0 ==> post.ns.cr & 0x8000_0000 != 0,
        pre.ns.cr & 0x4000_0000 != 0 ==> post.ns.cr & 0x4000_0000 != 0,
{
}

/// What the words of the driver's contracts mean in bits.
pub proof fn the_words_of_the_driver<A: FlashAccess>(access: A, flash: FlashView, quiet: bool)
    ensures
        locked(flash) <==> flash.sec.cr & 0x8000_0000 != 0 && flash.ns.cr & 0x8000_0000 != 0,
        clean(flash) <==> !flash.sec.failed && !flash.ns.failed && !flash.optwerr,
        settled(flash) <==> flash.wf() && flash.sec.key == 0 && flash.ns.key == 0 && flash.optkey
            == 0,
        flash.wf() <==> {
            &&& flash.bank1.len() == 0x4_0000 && flash.bank2.len() == 0x4_0000
            &&& flash.sec.cr & 0x0001_0000 == 0 && flash.ns.cr & 0x0803_0000 == 0
        },
        calm(access) <==> access.nominal() && access.flash().busy < 2_000_000,
        fault_answered(true, Err(FlashError::WriteFailed)),
        !fault_answered(true, Err(FlashError::Hardware)),
        fault_answered(false, Err(FlashError::Hardware)),
        !fault_answered(quiet, Err(FlashError::OutOfRange)),
        !fault_answered(quiet, Err(FlashError::CounterExhausted)),
        fault_answered(quiet, Ok(())),
{
}

/// A reset keeps both banks and loads the staged swap. It leaves every register locked,
/// nothing flagged and the controller ready.
pub proof fn a_reset_loads_the_staged_swap(pre: FlashView, post: FlashView)
    ensures
        reset_step(pre, post) ==> {
            &&& post.bank1 == pre.bank1 && post.bank2 == pre.bank2
            &&& post.staged is None
            &&& pre.staged == Some(true) ==> post.optr & 0x0010_0000 != 0
            &&& pre.staged == Some(false) ==> post.optr & 0x0010_0000 == 0
            &&& pre.staged is None ==> ((post.optr & 0x0010_0000 != 0) <==> (pre.optr & 0x0010_0000
                != 0))
            &&& post.secwm1 == pre.secwm1 && post.secwm2 == pre.secwm2
        },
        restarted(post) ==> {
            &&& post.sec.cr == 0x8000_0000 && post.sec.key == 0 && !post.sec.failed
            &&& post.ns.cr == 0x8000_0000u32 | 0x4000_0000u32 && post.ns.key == 0
                && !post.ns.failed
            &&& post.optkey == 0 && !post.optwerr && !post.launched && post.busy == 0
        },
{
}

/// A cut of the model lets exactly as many operations land as it counts. The operation it
/// is armed at lands only in the mode that cuts behind it, and power is gone then.
pub proof fn a_cut_of_the_model_counts_down(cut: Cut, n: u32)
    ensures
        cut.dead ==> !cut.simple_lands() && cut.after_simple() == cut,
        !cut.dead && cut.countdown is None ==> {
            &&& cut.simple_lands()
            &&& !cut.after_simple().dead && cut.after_simple().countdown is None
        },
        !cut.dead && cut.countdown == Some(n) && n > 0 ==> {
            &&& cut.simple_lands()
            &&& !cut.after_simple().dead && cut.after_simple().countdown == Some((n - 1) as u32)
            &&& cut.after_simple().fired == cut.fired
        },
        !cut.dead && cut.countdown == Some(0u32) ==> {
            &&& cut.simple_lands() <==> cut.mode == CutMode::AfterMutation
            &&& cut.after_simple().dead && cut.after_simple().fired
            &&& cut.after_simple().countdown is None
        },
        !cut.dead && cut.ops < u32::MAX ==> cut.after_simple().ops == cut.ops + 1,
        cut.after_simple().mode == cut.mode,
        cut.calm() <==> {
            &&& cut.countdown is None && !cut.dead
            &&& cut.plan matches Some((_, plan)) ==> plan == QwPlan::Proceed
        },
        cut.calm() ==> cut.after_simple().calm(),
{
}

/// A cut that hits the first word of a quad-word decides for all four: the quad-word
/// lands whole, not at all, or is torn, which only an image quad-word can be.
pub proof fn a_cut_decides_a_quad_word_at_its_first_word(cut: Cut, addr: u32, image: bool, n: u32)
    requires
        addr % 16 == 0,
    ensures
        cut.dead ==> cut.word_step(addr, image) == WordStep::Fault && cut.after_word(addr).dead,
        !cut.dead && (cut.countdown is None || cut.countdown == Some(n) && n > 0) ==> {
            &&& cut.word_step(addr, image) == WordStep::Program
            &&& !cut.after_word(addr).dead
            &&& cut.after_word(addr).plan == Some((addr / 16, QwPlan::Proceed))
            &&& cut.countdown == Some(n) ==> cut.after_word(addr).countdown == Some((n - 1) as u32)
        },
        !cut.dead && cut.countdown == Some(0u32) ==> {
            &&& cut.after_word(addr).fired && cut.after_word(addr).countdown is None
            &&& cut.mode == CutMode::BeforeMutation ==> cut.word_step(addr, image)
                == WordStep::Fault && cut.after_word(addr).dead
            &&& cut.mode == CutMode::AfterMutation ==> cut.word_step(addr, image)
                == WordStep::Program && !cut.after_word(addr).dead && cut.after_word(addr).plan
                == Some((addr / 16, QwPlan::ProgramThenDie))
            &&& cut.mode == CutMode::TornWrite && image ==> cut.word_step(addr, image)
                == WordStep::Tear && cut.after_word(addr).dead
            &&& cut.mode == CutMode::TornWrite && !image ==> cut.word_step(addr, image)
                == WordStep::Fault && cut.after_word(addr).dead
        },
        !cut.dead && cut.ops < u32::MAX ==> cut.after_word(addr).ops == cut.ops + 1,
{
}

/// The words behind the first follow its decision, and power dies behind the last one
/// where it was to die then.
pub proof fn the_other_words_follow_the_first(cut: Cut, addr: u32, image: bool, plan: QwPlan)
    requires
        addr % 16 != 0,
        cut.plan == Some((addr / 16, plan)),
    ensures
        plan == QwPlan::Suppress ==> cut.word_step(addr, image) == WordStep::Fault,
        plan != QwPlan::Suppress ==> cut.word_step(addr, image) == WordStep::Program,
        plan == QwPlan::ProgramThenDie && addr % 16 == 12 ==> cut.after_word(addr).dead,
        plan != QwPlan::ProgramThenDie || addr % 16 != 12 ==> cut.after_word(addr) == cut,
        cut.after_word(addr).ops == cut.ops,
{
}

/// What a word, an erase and an option program of the model leave behind, landed or not.
pub proof fn an_operation_of_the_model_lands_or_fails(
    pre: FlashView,
    place: Place,
    value: u32,
    lands: bool,
    post: FlashView,
    i: int,
)
    requires
        pre.bank1.len() == 0x4_0000,
        pre.bank2.len() == 0x4_0000,
        place.bank == PhysBank::Two,
        place.band == PageBand::Secure,
        place.index % 4 == 0,
        0 <= place.index < 0x4_0000,
        0 <= i < 0x4_0000,
    ensures
        word_done(pre, place, value, WordStep::Program, post) ==> {
            &&& le32(post.bank2, place.index) == value
            &&& i < place.index || i >= place.index + 4 ==> post.bank2[i] == pre.bank2[i]
            &&& post.bank1 == pre.bank1 && post.sec == pre.sec && post.ns == pre.ns
        },
        word_done(pre, place, value, WordStep::Fault, post) ==> {
            &&& post.bank1 == pre.bank1 && post.bank2 == pre.bank2
            &&& post.sec.failed && post.sec.cr == pre.sec.cr && post.ns == pre.ns
        },
        word_done(pre, place, value, WordStep::Tear, post) ==> {
            &&& i / 16 == place.index / 16 ==> post.bank2[i] == 0xA5
            &&& i / 16 != place.index / 16 ==> post.bank2[i] == pre.bank2[i]
            &&& post.bank1 == pre.bank1 && post.sec.failed && post.ns == pre.ns
        },
        erase_done(pre, PageBand::Secure, value, false, post) ==> {
            &&& post.bank1 == pre.bank1 && post.bank2 == pre.bank2
            &&& post.sec.failed && post.ns == pre.ns
        },
        options_done(pre, true, post) ==> {
            &&& post.staged == Some(pre.shadow & 0x0010_0000 != 0)
            &&& post.bank1 == pre.bank1 && post.bank2 == pre.bank2 && !post.optwerr == !pre.optwerr
        },
        options_done(pre, false, post) ==> {
            &&& post.staged == pre.staged && post.optwerr
            &&& post.bank1 == pre.bank1 && post.bank2 == pre.bank2
        },
{
    lemma_word_roundtrip(pre.bank2, place.index, value);
    let bytes = crate::update::seam::overlay(pre.bank2, place.index, word_bytes(value));
    assert(le32(bytes, place.index) == le32(word_bytes(value), 0));
}

/// An erase of the model that lands clears the selected page of the selected bank.
pub proof fn an_erase_of_the_model_clears_its_page(
    pre: FlashView,
    band: PageBand,
    value: u32,
    post: FlashView,
    page: int,
    i: int,
)
    requires
        pre.bank1.len() == 0x4_0000,
        pre.bank2.len() == 0x4_0000,
        0 <= i < 0x4_0000,
        page == (value & 0x0000_07F8) / 8,
        page < 32,
        erase_done(pre, band, value, true, post),
    ensures
        value & 0x0000_0800 == 0 ==> post.bank2 == pre.bank2 && post.bank1[i] == (if i / 0x2000
            == page {
            0xFFu8
        } else {
            pre.bank1[i]
        }),
        value & 0x0000_0800 != 0 ==> post.bank1 == pre.bank1 && post.bank2[i] == (if i / 0x2000
            == page {
            0xFFu8
        } else {
            pre.bank2[i]
        }),
        post.sec == pre.sec && post.ns == pre.ns,
{
    lemma_erased_page(pre.bank1, page, i);
    lemma_erased_page(pre.bank2, page, i);
}

/// When the model starts an operation: an erase with the register open, the start and
/// the page bit set and a page of the band that is not protected; an option program with
/// the options open; a program with the program bit set and a word that can take it.
pub proof fn an_operation_of_the_model_starts_when_it_may(
    pre: FlashView,
    band: PageBand,
    value: u32,
    page: int,
)
    requires
        page == (value & 0x0000_07F8) / 8,
    ensures
        starts_erase(pre, None, band, value) <==> {
            &&& pre.port(band).cr & 0x8000_0000 == 0
            &&& value & 0x0001_0000 != 0
            &&& value & 0x0000_0002 != 0
            &&& page < 32
            &&& band == PageBand::Secure <==> page <= 19
        },
        can_erase(Some((value & 0x0000_0800 != 0, page as u32)), band, value) == false,
        starts_options(pre, band, value) <==> {
            &&& band == PageBand::NonSecure
            &&& pre.ns.cr & 0x8000_0000 == 0
            &&& value & 0x0002_0000 != 0
            &&& value & 0x4000_0000 == 0
        },
        phys(true) == PhysBank::Two,
        phys(false) == PhysBank::One,
        stored(pre, PageBand::Secure, value).sec.cr == value & !0x0001_0000u32,
        stored(pre, PageBand::NonSecure, value).ns.cr == value & !0x0803_0000u32,
{
}

/// When the model programs a word.
pub proof fn a_word_of_the_model_is_programmed_when_it_may(
    pre: FlashView,
    addr: u32,
    value: u32,
    k: int,
    cut: Cut,
)
    requires
        pre.optr & 0x0010_0000 == 0,
        0 <= k < 0x2_8000,
        addr == 0x0C04_0000 + k,
    ensures
        starts_program(pre, None, addr, value) is Some <==> {
            &&& pre.sec.cr & 1 != 0
            &&& k % 4 == 0
            &&& le32(pre.bank2, k) == 0xFFFF_FFFF || value == 0
        },
        !can_program(
            pre,
            Some((true, (k / 0x2000) as u32)),
            Place { band: PageBand::Secure, bank: PhysBank::Two, index: k },
            value,
        ),
        starts_program(pre, None, addr, value) is None ==> cut_after(pre, None, cut, addr, value)
            == cut,
        starts_program(pre, None, addr, value) is Some ==> cut_after(pre, None, cut, addr, value)
            == cut.after_word(addr),
{
}

/// When the driver owes success: the port has no fault to come, the controller gets ready
/// in time, the part is in the dual-bank secure posture, and no option error stands. It
/// may be called whenever no unlock sequence is half-way through.
pub proof fn when_the_driver_owes_success<A: FlashAccess>(driver: Stm32FlashSeam<A>)
    ensures
        driver.nominal() <==> {
            &&& driver.port().nominal()
            &&& driver.flash().busy < 2_000_000
            &&& driver.flash().optr & 0x0020_0000 != 0
            &&& driver.flash().optr & 0x8000_0000 != 0
            &&& !driver.flash().optwerr
        },
        driver.steady() <==> {
            &&& driver.port().nominal()
            &&& driver.flash().busy < 2_000_000
            &&& !driver.flash().optwerr
        },
        driver.wf() <==> settled(driver.flash()),
        driver.boot_wf() <==> settled(driver.flash()),
        driver.flash() == driver.port().flash(),
        driver.seam() == seam_of(driver.flash(), driver.answered()),
        driver.boot() == boot_of(driver.flash(), driver.booted()),
{
}

/// When the model has no fault to come: no cut is armed, power is on, and no page is
/// protected.
pub proof fn when_the_model_has_no_fault_to_come(model: FlashModel)
    ensures
        model.nominal() <==> {
            &&& model.cut().countdown is None
            &&& !model.cut().dead
            &&& model.cut().plan matches Some((_, plan)) ==> plan == QwPlan::Proceed
            &&& model.protected() is None
        },
{
}

/// A controller that is stuck is answered as a hardware fault, and no byte of flash
/// moves. Each operation says so for itself.
pub proof fn a_stuck_controller_is_a_hardware_fault(
    pre: FlashView,
    post: FlashView,
    r: Result<(), FlashError>,
    page: PageIndex,
    data: Seq<u8>,
    quiet: bool,
)
    requires
        pre.busy >= 2_000_000,
        pre.optr & 0x0020_0000 != 0,
        pre.optr & 0x8000_0000 != 0,
        0 < data.len() <= 256,
        page < 704,
        ({
            ||| stuck_answered(pre, post, r)
            ||| erase_driven(pre, quiet, post, r)
            ||| page_driven(pre, page, data, quiet, post, r)
            ||| descriptor_driven(pre, data, quiet, post, r)
            ||| arm_driven(pre, post, r)
        }),
    ensures
        r == Err::<(), FlashError>(FlashError::Hardware),
        post.bank1 == pre.bank1,
        post.bank2 == pre.bank2,
        post.staged == pre.staged,
        post.launched == pre.launched,
{
}

/// The driver leaves the registers in order, whatever an operation comes to: a lock that
/// was set is set, no error flag is left behind where there was none, and the register
/// set that it used is locked. What goes wrong without a fault of the controller is a
/// refused word, never the hardware.
pub proof fn a_driven_operation_leaves_the_registers_in_order(
    pre: FlashView,
    page: PageIndex,
    data: Seq<u8>,
    quiet: bool,
    post: FlashView,
    r: Result<(), FlashError>,
)
    ensures
        ({
            let sane = pre.optr & 0x0020_0000 != 0 && pre.optr & 0x8000_0000 != 0;
            let erases = erase_driven(pre, quiet, post, r);
            let writes = page_driven(pre, page, data, quiet, post, r);
            let describes = descriptor_driven(pre, data, quiet, post, r);
            let arms = arm_driven(pre, post, r);
            let unflagged = !pre.sec.failed && !pre.ns.failed && !pre.optwerr;
            &&& erases || writes || describes || arms ==> {
                &&& pre.sec.cr & 0x8000_0000 != 0 ==> post.sec.cr & 0x8000_0000 != 0
                &&& pre.ns.cr & 0x8000_0000 != 0 ==> post.ns.cr & 0x8000_0000 != 0
                &&& pre.ns.cr & 0x4000_0000 != 0 ==> post.ns.cr & 0x4000_0000 != 0
                &&& unflagged ==> !post.sec.failed && !post.ns.failed && !post.optwerr
                &&& post.secwm1 == pre.secwm1 && post.secwm2 == pre.secwm2
                &&& quiet && sane && r == Err::<(), FlashError>(FlashError::Hardware) ==> arms
                &&& r matches Err(e) ==> e != FlashError::CounterExhausted
            }
            &&& erases && sane ==> {
                &&& post.sec.cr & 0x8000_0000 != 0 && post.optwerr == pre.optwerr
                &&& r != Err::<(), FlashError>(FlashError::OutOfRange)
            }
            &&& writes && sane && data.len() <= 256 && page < 320 ==> {
                &&& post.sec.cr & 0x8000_0000 != 0
                &&& post.ns == pre.ns && post.optwerr == pre.optwerr
                &&& r != Err::<(), FlashError>(FlashError::OutOfRange)
            }
            &&& writes && sane && data.len() <= 256 && 320 <= page < 704 ==> {
                &&& post.ns.cr & 0x8000_0000 != 0
                &&& post.sec == pre.sec && post.optwerr == pre.optwerr
                &&& r != Err::<(), FlashError>(FlashError::OutOfRange)
            }
            &&& describes && sane && data.len() <= 0x2000 ==> {
                &&& post.sec.cr & 0x8000_0000 != 0
                &&& post.ns == pre.ns && post.optwerr == pre.optwerr
                &&& r != Err::<(), FlashError>(FlashError::OutOfRange)
            }
            &&& arms ==> post.sec == pre.sec
        }),
{
}

/// A descriptor that was written stands at the front of page 9, whatever stood there
/// before, and no other byte of the bank moved.
pub proof fn a_driven_descriptor_stands_at_page_9(
    pre: FlashView,
    data: Seq<u8>,
    quiet: bool,
    post: FlashView,
    i: int,
)
    requires
        pre.bank1.len() == 0x4_0000,
        pre.bank2.len() == 0x4_0000,
        0 <= i < 0x4_0000,
        descriptor_driven(pre, data, quiet, post, Ok(())),
    ensures
        data.len() <= 0x2000,
        ({
            let two_runs = pre.optr & 0x0010_0000 != 0;
            let was = if two_runs {
                pre.bank1
            } else {
                pre.bank2
            };
            let is = if two_runs {
                post.bank1
            } else {
                post.bank2
            };
            is[i] == (if 0x1_2000 <= i < 0x1_2000 + data.len() {
                data[i - 0x1_2000]
            } else {
                was[i]
            })
        }),
{
}

} // verus!
