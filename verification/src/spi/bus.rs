//! The register-access seam of the SPI1 driver.

use vstd::prelude::*;

verus! {

/// One access through a bus.
pub ghost enum BusEvent {
    /// A word was read from an address.
    Read32(u32, u32),
    /// A word was written to an address.
    Write32(u32, u32),
    /// A byte was read from an address.
    Read8(u32, u8),
    /// A byte was written to an address.
    Write8(u32, u8),
    /// The core did nothing for an instruction.
    Nop,
}

/// The accesses through a bus, in order.
pub type Trace = Seq<BusEvent>;

/// A word and byte access port for the SPI1 driver.
///
/// Words move the control, configuration and status registers, the clock enables and
/// the pins. Bytes move the data registers, which must be accessed at the frame size:
/// a wider access would pack several frames.
pub trait SpiBusAccess {
    /// The accesses so far.
    spec fn trace(&self) -> Trace;

    /// Reads the word at `addr`.
    fn read32(&mut self, addr: u32) -> (r: u32)
        ensures
            final(self).trace() == old(self).trace().push(BusEvent::Read32(addr, r)),
    ;

    /// Writes `value` to the word at `addr`.
    fn write32(&mut self, addr: u32, value: u32)
        ensures
            final(self).trace() == old(self).trace().push(BusEvent::Write32(addr, value)),
    ;

    /// Clears the bits of `clear` at `addr`, then sets those of `set`.
    ///
    /// For configuration registers, where a read gives the last write.
    fn modify32(&mut self, addr: u32, clear: u32, set: u32)
        ensures
            extends(old(self).trace(), final(self).trace(), 2),
            modified(final(self).trace(), old(self).trace().len() as int, addr, clear, set),
    {
        let ghost start = self.trace();
        let old_value: u32 = self.read32(addr);
        self.write32(addr, (old_value & !clear) | set);
        assert(self.trace().take(start.len() as int) =~= start);
    }

    /// Reads the byte at `addr`.
    fn read8(&mut self, addr: u32) -> (r: u8)
        ensures
            final(self).trace() == old(self).trace().push(BusEvent::Read8(addr, r)),
    ;

    /// Writes `value` to the byte at `addr`.
    fn write8(&mut self, addr: u32, value: u8)
        ensures
            final(self).trace() == old(self).trace().push(BusEvent::Write8(addr, value)),
    ;

    /// Does nothing for an instruction.
    fn nop(&mut self)
        ensures
            final(self).trace() == old(self).trace().push(BusEvent::Nop),
    ;
}

/// `post` is `pre` with `count` more accesses.
pub open spec fn extends(pre: Seq<BusEvent>, post: Seq<BusEvent>, count: int) -> bool {
    &&& post.len() == pre.len() + count
    &&& post.take(pre.len() as int) == pre
}

/// The accesses at `at` clear the bits of `clear` at `addr` and set those of `set`.
pub open spec fn modified(t: Seq<BusEvent>, at: int, addr: u32, clear: u32, set: u32) -> bool {
    &&& t[at] matches BusEvent::Read32(a, value) && a == addr && t[at + 1] == BusEvent::Write32(
        addr,
        (value & !clear) | set,
    )
}

} // verus!
