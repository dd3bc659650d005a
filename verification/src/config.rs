//! Where everything is wired, and the numbers that describe the machine.
//!
//! The coin acceptor and the third coin hopper share port 7: channel 2 and the hopper's control line
//! are both P7.7, channel 3 and its error line are both P7.6, channel 4 and its level line are both
//! P7.5. A machine can have one or the other, never both, and this build has the acceptor.
use vstd::prelude::*;

pub mod port;

verus! {

/// How many doors the cabinet has.
pub const DOOR_COUNT: usize = 2;

/// How many buttons the front panel has.
pub const BUTTON_COUNT: usize = 4;

/// How many coin denominations the acceptor can report.
pub const COIN_CHANNELS: usize = 6;

/// Coin hoppers this build drives.
pub const HOPPER_COUNT: usize = 1;

/// Display geometry: characters in a row.
pub const LCD_COLUMNS: usize = 16;

/// Display geometry: rows.
pub const LCD_ROWS: usize = 2;

/// How often the buttons and door switches are sampled, in milliseconds.
pub const INPUT_POLL_MS: u64 = 25;

/// How long a contact has to hold its new state before it counts as changed.
pub const DEBOUNCE_MS: u64 = 50;

/// How long a hopper may run without its sensor pulsing before it is called jammed.
pub const HOPPER_COIN_TIMEOUT_MS: u64 = 2_000;

/// The shortest sensor pulse a coin hopper makes for a real coin. Anything shorter is noise.
pub const HOPPER_PULSE_MIN_MS: u64 = 10;

/// The longest sensor pulse a coin hopper makes. A longer one is a coin stuck at the sensor.
pub const HOPPER_PULSE_MAX_MS: u64 = 70;

/// The shortest sensor pulse the shoe-cover dispenser makes for a real pair.
pub const ITEM_HOPPER_PULSE_MIN_MS: u64 = 5;

/// The longest sensor pulse the shoe-cover dispenser makes.
pub const ITEM_HOPPER_PULSE_MAX_MS: u64 = 500;

/// A released error line this long after a pulse ends the burst that spells a fault code.
pub const HOPPER_ERROR_PULSE_GAP_MS: u64 = 90;

/// What MCLK is set to, and what the busy-wait delays are calibrated against.
pub const MCLK_HZ: u32 = 8_000_000;

/// One hopper's four lines.
///
/// The control line is inverted in hardware: the port bit *set* runs the motor.
#[derive(Copy, Clone, Debug, Eq, PartialEq, Structural)]
pub struct HopperPins {
    /// Port the hopper is wired to, counted from zero.
    pub port: u8,
    /// Motor control, an output. Setting it runs the hopper.
    pub control: u8,
    /// Unit sensor, an input pulled low while a unit is in front of it.
    pub coin: u8,
    /// Error line, an input. Low means the hopper is unhappy.
    pub error: u8,
    /// Level line, an input. Low means the hopper is down to its last units.
    pub level: u8,
}

impl HopperPins {
    /// No two of the four lines are the same pin, and every pin is one of the port's eight.
    pub open spec fn distinct(self) -> bool {
        &&& self.control < 8 && self.coin < 8 && self.error < 8 && self.level < 8
        &&& self.control != self.coin && self.control != self.error && self.control != self.level
        &&& self.coin != self.error && self.coin != self.level
        &&& self.error != self.level
    }

    /// Is pin `bit` of port `port` one of this hopper's lines?
    pub open spec fn uses(self, port: u8, bit: u8) -> bool {
        self.port == port && (self.control == bit || self.coin == bit || self.error == bit
            || self.level == bit)
    }
}

/// Where the shoe-cover dispenser is wired.
pub open spec fn dispenser_pins() -> HopperPins {
    HopperPins { port: port::P8, control: 7, coin: 4, error: 6, level: 5 }
}

/// Where the coin hopper is wired.
pub open spec fn hopper_b_pins() -> HopperPins {
    HopperPins { port: port::P8, control: 3, coin: 0, error: 2, level: 1 }
}

/// Where the second coin hopper is wired.
pub open spec fn hopper_c_pins() -> HopperPins {
    HopperPins { port: port::P7, control: 7, coin: 4, error: 6, level: 5 }
}

/// Hopper A, on port 8: the shoe-cover dispenser, not a coin hopper.
pub fn item_dispenser() -> (pins: HopperPins)
    ensures
        pins == dispenser_pins(),
{
    HopperPins { port: port::P8, control: 7, coin: 4, error: 6, level: 5 }
}

/// Hopper B, on port 8: the coin hopper.
pub fn hopper_b() -> (pins: HopperPins)
    ensures
        pins == hopper_b_pins(),
{
    HopperPins { port: port::P8, control: 3, coin: 0, error: 2, level: 1 }
}

/// Hopper C, on port 7: the second coin hopper, and the one that clashes with the coin acceptor.
///
/// The wiring exists and a machine built without an acceptor can use it, but this build does not.
pub fn hopper_c() -> (pins: HopperPins)
    ensures
        pins == hopper_c_pins(),
{
    HopperPins { port: port::P7, control: 7, coin: 4, error: 6, level: 5 }
}

/// The coin hoppers this build drives, in order.
pub fn hoppers() -> (all: [HopperPins; HOPPER_COUNT])
    ensures
        all@ == seq![hopper_b_pins()],
{
    let all: [HopperPins; HOPPER_COUNT] = [hopper_b()];
    assert(all@ =~= seq![hopper_b_pins()]);
    all
}

/// Every pin of a hopper is a pin of its port, and no pin belongs to two lines, of one hopper or of two.
pub proof fn law_no_pin_is_wired_twice(port: u8, bit: u8)
    ensures
        dispenser_pins().distinct(),
        hopper_b_pins().distinct(),
        hopper_c_pins().distinct(),
        !(dispenser_pins().uses(port, bit) && hopper_b_pins().uses(port, bit)),
        !(dispenser_pins().uses(port, bit) && hopper_c_pins().uses(port, bit)),
        !(hopper_b_pins().uses(port, bit) && hopper_c_pins().uses(port, bit)),
{
}

/// The four lines of a hopper are next to each other, the sensor's lowest, then level, error and control; the dispenser has the
/// upper half of its port and the coin hopper the lower half of the same one.
pub proof fn law_lines_are_next_to_each_other()
    ensures
        forall|pins: HopperPins|
            #![trigger pins.distinct()]
            pins == dispenser_pins() || pins == hopper_b_pins() || pins == hopper_c_pins() ==> pins.level == pins.coin
                + 1 && pins.error == pins.coin + 2 && pins.control == pins.coin + 3,
        dispenser_pins().coin == 4 && hopper_b_pins().coin == 0 && hopper_c_pins().coin == 4,
        dispenser_pins().port == hopper_b_pins().port,
        hopper_c_pins().port + 1 == hopper_b_pins().port,
        hopper_b_pins().port + 1 == 8,
{
}

} // verus!
