//! Everything that can be wrong with the machine at once.
//!
//! Faults here are conditions, not events: a jammed hopper stays a fault until someone clears the
//! jam, and the vending logic asks "can I pay out?" by looking at the set rather than by remembering
//! what it was last told. One shared set means one answer, and the display, the reporting and the
//! state machine cannot disagree about whether the machine is well.
use vstd::prelude::*;

verus! {

/// The firmware image does not match its checksum.
pub const FIRMWARE: u32 = 0x0001;

/// Stored settings were written by a firmware version this one cannot read.
pub const SETTINGS_VERSION: u32 = 0x0002;

/// Stored settings failed their checksum.
pub const SETTINGS_CRC: u32 = 0x0004;

/// Stored counters were written by a firmware version this one cannot read.
pub const STATE_VERSION: u32 = 0x0008;

/// Stored counters failed their checksum.
pub const STATE_CRC: u32 = 0x0010;

/// The backup battery is flat, so the clock is not to be trusted.
pub const BATTERY_LOW: u32 = 0x0020;

/// The external memory is unreadable.
pub const FLASH_CORRUPTED: u32 = 0x0040;

/// Non-volatile memory is unreadable.
pub const NVRAM_CORRUPTED: u32 = 0x0080;

/// The coin acceptor is not answering.
pub const COIN_ACCEPTOR: u32 = 0x0100;

/// The item dispenser is jammed.
pub const ITEM_DISPENSER: u32 = 0x0200;

/// A coin hopper is jammed.
pub const COIN_HOPPER: u32 = 0x0400;

/// The coin acceptor has been inhibited, so no money can come in.
pub const COIN_ACCEPTOR_OFF: u32 = 0x0800;

/// The item dispenser is out of shoe covers.
pub const ITEM_DISPENSER_EMPTY: u32 = 0x1000;

/// A coin hopper is out of coins.
pub const COIN_HOPPER_EMPTY: u32 = 0x2000;

/// Change is owed that the machine has no way to pay.
pub const CANNOT_PAYOUT: u32 = 0x4000;

/// A door is open.
pub const DOOR_OPENED: u32 = 0x8000;

/// Every fault there is.
pub const ALL: u32 = 0xffff;

/// Faults that stop the machine selling anything: the firmware, a jammed or empty item dispenser, an
/// open door.
///
/// An empty hopper is deliberately not among them: the machine can still sell for exact money, and
/// refusing to trade because it cannot give change would turn a small fault into a dead machine.
pub const FATAL: u32 = 0x9201;

/// A set of faults, one bit each.
#[derive(Copy, Clone, Debug, Eq, PartialEq, Structural)]
pub struct Errors {
    /// The faults present, as an "or" of the constants of this module.
    pub bits: u32,
}

impl Errors {
    /// Is any fault of `mask` present?
    pub open spec fn has(self, mask: u32) -> bool {
        self.bits & mask != 0
    }

    /// This set with the faults of `mask` added.
    pub open spec fn with(self, mask: u32) -> Errors {
        Errors { bits: self.bits | mask }
    }

    /// This set with the faults of `mask` taken out.
    pub open spec fn without(self, mask: u32) -> Errors {
        Errors { bits: self.bits & !mask }
    }

    /// This set with the faults of `mask` present or not, as `present` says.
    pub open spec fn put(self, mask: u32, present: bool) -> Errors {
        if present {
            self.with(mask)
        } else {
            self.without(mask)
        }
    }

    /// No faults.
    pub fn empty() -> (e: Errors)
        ensures
            e == (Errors { bits: 0 }),
    {
        Errors { bits: 0 }
    }

    /// The faults of `bits` that have a meaning; bits that name no fault are dropped.
    pub fn from_bits_truncate(bits: u32) -> (e: Errors)
        ensures
            e == (Errors { bits: bits & ALL }),
    {
        Errors { bits: bits & ALL }
    }

    /// Is the set empty?
    pub fn is_empty(&self) -> (b: bool)
        ensures
            b == (self.bits == 0),
    {
        self.bits == 0
    }

    /// Is every fault of `mask` present?
    pub fn contains(&self, mask: u32) -> (b: bool)
        ensures
            b == (self.bits & mask == mask),
    {
        self.bits & mask == mask
    }

    /// Is any fault of `mask` present?
    pub fn intersects(&self, mask: u32) -> (b: bool)
        ensures
            b == self.has(mask),
    {
        self.bits & mask != 0
    }

    /// Is the machine well enough to sell?
    pub fn can_vend(self) -> (b: bool)
        ensures
            b == !self.has(FATAL),
    {
        !self.intersects(FATAL)
    }
}

/// The faults that a shared fault word holds.
pub fn errors(word: u32) -> (e: Errors)
    ensures
        e == (Errors { bits: word & ALL }),
{
    Errors::from_bits_truncate(word)
}

/// Record the faults of `mask` as present. Faults already set stay set.
pub fn raise(faults: &mut Errors, mask: u32)
    ensures
        *final(faults) == old(faults).with(mask),
{
    faults.bits = faults.bits | mask;
}

/// Record the faults of `mask` as gone.
pub fn clear(faults: &mut Errors, mask: u32)
    ensures
        *final(faults) == old(faults).without(mask),
{
    faults.bits = faults.bits & !mask;
}

/// Set the faults of `mask` to `present`, whichever way they were before.
pub fn set(faults: &mut Errors, mask: u32, present: bool)
    ensures
        *final(faults) == old(faults).put(mask, present),
{
    if present {
        raise(faults, mask);
    } else {
        clear(faults, mask);
    }
}

/// What the two indicators on the outside of the machine show: green, then red.
///
/// Green steady means the machine will sell, red steady that it will not.
pub fn indicators(faults: Errors) -> (lit: (bool, bool))
    ensures
        lit == (!faults.has(FATAL), faults.has(FATAL)),
{
    let ok = faults.can_vend();
    (ok, !ok)
}

/// The machine sells unless one of the four fatal faults is present, and no other fault matters.
pub proof fn law_only_fatal_faults_stop_sales(faults: Errors)
    ensures
        faults.has(FATAL) <==> faults.has(FIRMWARE) || faults.has(ITEM_DISPENSER) || faults.has(
            ITEM_DISPENSER_EMPTY,
        ) || faults.has(DOOR_OPENED),
        forall|mask: u32|
            mask & FATAL == 0 ==> #[trigger] faults.with(mask).has(FATAL) == faults.has(FATAL),
{
    let b = faults.bits;
    assert(b & 0x9201 != 0 <==> b & 0x0001 != 0 || b & 0x0200 != 0 || b & 0x1000 != 0 || b & 0x8000
        != 0) by (bit_vector);
    assert forall|mask: u32| mask & FATAL == 0 implies #[trigger] faults.with(mask).has(FATAL)
        == faults.has(FATAL) by {
        assert(mask & 0x9201 == 0 ==> ((b | mask) & 0x9201 != 0 <==> b & 0x9201 != 0)) by (
            bit_vector);
    }
}

/// Setting a fault one way or the other leaves every other fault as it was, and what was last said of
/// a fault is what is read back of it.
pub proof fn law_faults_are_independent(faults: Errors, mask: u32, present: bool, other: u32)
    ensures
        mask != 0 ==> faults.put(mask, present).has(mask) == present,
        mask & other == 0 ==> faults.put(mask, present).has(other) == faults.has(other),
{
    let b = faults.bits;
    assert(mask != 0 ==> (b | mask) & mask != 0) by (bit_vector);
    assert((b & !mask) & mask == 0) by (bit_vector);
    assert(mask & other == 0 ==> ((b | mask) & other != 0 <==> b & other != 0)) by (bit_vector);
    assert(mask & other == 0 ==> ((b & !mask) & other != 0 <==> b & other != 0)) by (bit_vector);
}

/// Saying the same of a fault twice is saying it once, and a set never gains a bit that names no
/// fault.
pub proof fn law_faults_stay_known(faults: Errors, mask: u32, present: bool)
    requires
        faults.bits & ALL == faults.bits,
        mask & ALL == mask,
    ensures
        faults.put(mask, present).bits & ALL == faults.put(mask, present).bits,
        faults.put(mask, present).put(mask, present) == faults.put(mask, present),
{
    let b = faults.bits;
    assert((b | mask) & 0xffff == (b | mask)) by (bit_vector)
        requires
            b & 0xffff == b,
            mask & 0xffff == mask,
    ;
    assert((b & !mask) & 0xffff == (b & !mask)) by (bit_vector)
        requires
            b & 0xffff == b,
    ;
    assert((b | mask) | mask == (b | mask)) by (bit_vector);
    assert((b & !mask) & !mask == (b & !mask)) by (bit_vector);
}

/// An empty set has no fault in it.
pub proof fn law_nothing_is_no_fault(mask: u32)
    ensures
        !(Errors { bits: 0 }).has(mask),
{
    assert(0u32 & mask == 0) by (bit_vector);
}

} // verus!
