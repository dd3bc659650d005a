//! Hoppers: the things that pay out.
//!
//! A coin hopper and the shoe-cover dispenser are the same device as far as the machine is concerned, a
//! motor, a sensor that pulses once per unit dispensed, and two status lines, so they share this driver and
//! differ only in what a unit is worth and how long its pulse is.
//!
//! The rule that shapes everything here is that a dispense must be **countable across a power cut**. The
//! caller is told how many units actually came out, never how many were asked for, and it is the caller's job
//! to write that number down before asking for more. A hopper that stops halfway through paying out change
//! must leave the machine knowing exactly what it still owes.
//!
//! A dispense is started with [`Hopper::dispense`] and carried on with [`Hopper::poll`], once every
//! [`POLL_MS`]. After each, the motor is to be set to [`Hopper::motor`]. Times are in milliseconds, from a
//! clock that never goes back.
use vstd::prelude::*;

use crate::config::{
    HOPPER_COIN_TIMEOUT_MS, HOPPER_ERROR_PULSE_GAP_MS, HOPPER_PULSE_MAX_MS, HOPPER_PULSE_MIN_MS,
    ITEM_HOPPER_PULSE_MAX_MS, ITEM_HOPPER_PULSE_MIN_MS,
};

verus! {

/// How often the lines are read while a dispense is under way.
///
/// The shortest pulse worth believing is several times this, or a unit could pass unseen.
pub const POLL_MS: u64 = 1;

/// The longest the driver listens to a fault burst on the error line before giving up on decoding a number
/// and reporting the fault as code 0.
pub const ERROR_CODE_TIMEOUT_MS: u64 = 3_000;

/// Which kind of hopper this is, which decides which pulse timing applies.
#[derive(Copy, Clone, Debug, Eq, PartialEq, Structural)]
pub enum HopperKind {
    /// The shoe-cover dispenser.
    ItemDispenser,
    /// A coin hopper.
    CoinHopper,
}

impl HopperKind {
    /// The shortest and the longest pulse of a real unit.
    pub open spec fn window(self) -> (u64, u64) {
        match self {
            HopperKind::ItemDispenser => (ITEM_HOPPER_PULSE_MIN_MS, ITEM_HOPPER_PULSE_MAX_MS),
            HopperKind::CoinHopper => (HOPPER_PULSE_MIN_MS, HOPPER_PULSE_MAX_MS),
        }
    }

    /// The pulse-width window that counts as a real unit for this kind of hopper.
    pub fn pulse_window_ms(self) -> (w: (u64, u64))
        ensures
            w == self.window(),
            w.0 < w.1,
    {
        match self {
            HopperKind::ItemDispenser => (ITEM_HOPPER_PULSE_MIN_MS, ITEM_HOPPER_PULSE_MAX_MS),
            HopperKind::CoinHopper => (HOPPER_PULSE_MIN_MS, HOPPER_PULSE_MAX_MS),
        }
    }
}

/// Why a dispense stopped early.
#[derive(Copy, Clone, Debug, Eq, PartialEq, Structural)]
pub enum HopperError {
    /// The motor ran and nothing came out. Jammed, empty, or unplugged.
    Jammed,
    /// The hopper's own error line says it is unhappy.
    Faulted {
        /// The number of pulses in the burst on the error line, or 0 if no burst could be decoded.
        code: u8,
    },
}

/// A hopper's input lines, as read at one moment.
#[derive(Copy, Clone, Debug, Eq, PartialEq, Structural)]
pub struct HopperLines {
    /// The unit sensor is low: something is in front of it.
    pub coin_low: bool,
    /// The error line is low: the hopper reports a fault of its own.
    pub error_low: bool,
    /// The level line is low: the hopper is down to its last few units.
    pub level_low: bool,
}

/// What one sensor pulse turned out to be.
#[derive(Copy, Clone, Debug, Eq, PartialEq, Structural)]
pub enum PulseResult {
    /// A unit came out.
    Unit,
    /// Too short to be real.
    Noise,
    /// The sensor never cleared.
    Stuck,
}

/// How far a dispense has got.
#[derive(Copy, Clone, Debug, Eq, PartialEq, Structural)]
pub enum Run {
    /// Nothing is being dispensed.
    Stopped,
    /// The motor runs, and no unit is passing.
    Waiting {
        /// How many units were asked for.
        wanted: u16,
        /// How many have come out.
        dispensed: u16,
        /// When the last one did, or when the motor was started.
        last_unit: u64,
        /// Whether the sensor was blocked when last read.
        was_active: bool,
    },
    /// The motor runs, and something is passing the sensor.
    Passing {
        /// How many units were asked for.
        wanted: u16,
        /// How many have come out.
        dispensed: u16,
        /// When the last one did, or when the motor was started.
        last_unit: u64,
        /// When the sensor was blocked.
        started: u64,
    },
    /// The hopper reports a fault, and its code is being listened to.
    Listening {
        /// How many units have come out.
        dispensed: u16,
        /// When to give up.
        deadline: u64,
        /// How many pulses have been counted.
        pulses: u8,
        /// Whether the error line was low when last read.
        was_low: bool,
        /// When it last changed, or when listening began.
        last_edge: u64,
        /// Whether the motor is running.
        motor: bool,
    },
}

/// How a dispense ended: how many units came out, and why it stopped if that was fewer than asked.
pub type Outcome = (u16, Option<HopperError>);

/// One hopper.
#[derive(Copy, Clone, Debug, Eq, PartialEq, Structural)]
pub struct Hopper {
    /// Whether this is the item dispenser or a coin hopper; decides pulse timing.
    pub kind: HopperKind,
    /// How far a dispense has got.
    pub run: Run,
}

/// What a pulse is, if it has been going on since `started` and the sensor now reads `active`; `None` if it
/// is too early to say.
pub open spec fn judged(kind: HopperKind, started: u64, active: bool, now: u64) -> Option<PulseResult> {
    if !active {
        if now - started >= kind.window().0 {
            Some(PulseResult::Unit)
        } else {
            Some(PulseResult::Noise)
        }
    } else if now - started >= kind.window().1 {
        Some(PulseResult::Stuck)
    } else {
        None
    }
}

impl Hopper {
    /// A new listener for a fault code.
    pub open spec fn listening(dispensed: u16, lines: HopperLines, now: u64, motor: bool) -> Run {
        Run::Listening {
            dispensed,
            deadline: (now + ERROR_CODE_TIMEOUT_MS) as u64,
            pulses: 0,
            was_low: lines.error_low,
            last_edge: now,
            motor,
        }
    }

    /// The latest moment the run remembers.
    pub open spec fn since(self) -> u64 {
        match self.run {
            Run::Stopped => 0,
            Run::Waiting { last_unit, .. } => last_unit,
            Run::Passing { started, .. } => started,
            Run::Listening { last_edge, .. } => last_edge,
        }
    }

    /// A dispense under way has not yet given all that was asked for, and remembers times in order.
    pub open spec fn wf(self) -> bool {
        match self.run {
            Run::Stopped => true,
            Run::Waiting { wanted, dispensed, .. } => dispensed < wanted,
            Run::Passing { wanted, dispensed, last_unit, started } => dispensed < wanted && last_unit
                <= started,
            Run::Listening { .. } => true,
        }
    }

    /// How many units have come out so far.
    pub open spec fn out_so_far(self) -> int {
        match self.run {
            Run::Stopped => 0,
            Run::Waiting { dispensed, .. } => dispensed as int,
            Run::Passing { dispensed, .. } => dispensed as int,
            Run::Listening { dispensed, .. } => dispensed as int,
        }
    }

    /// Starting a dispense.
    pub open spec fn dispensing(self, count: u16, lines: HopperLines, now: u64) -> (Run, Option<Outcome>) {
        if count == 0 {
            (Run::Stopped, Some((0, None)))
        } else if lines.error_low {
            (Hopper::listening(0, lines, now, false), None)
        } else {
            (
                Run::Waiting {
                    wanted: count,
                    dispensed: 0,
                    last_unit: now,
                    was_active: lines.coin_low,
                },
                None,
            )
        }
    }

    /// Carrying a dispense on.
    pub open spec fn polled(self, lines: HopperLines, now: u64) -> (Run, Option<Outcome>) {
        match self.run {
            Run::Stopped => (Run::Stopped, None),
            Run::Waiting { wanted, dispensed, last_unit, was_active } => if lines.error_low {
                (Hopper::listening(dispensed, lines, now, true), None)
            } else if lines.coin_low && !was_active {
                (Run::Passing { wanted, dispensed, last_unit, started: now }, None)
            } else if now - last_unit >= HOPPER_COIN_TIMEOUT_MS {
                (Run::Stopped, Some((dispensed, Some(HopperError::Jammed))))
            } else {
                (Run::Waiting { wanted, dispensed, last_unit, was_active: lines.coin_low }, None)
            },
            Run::Passing { wanted, dispensed, last_unit, started } => match judged(
                self.kind,
                started,
                lines.coin_low,
                now,
            ) {
                None => (self.run, None),
                Some(PulseResult::Unit) => if dispensed + 1 >= wanted {
                    (Run::Stopped, Some(((dispensed + 1) as u16, None)))
                } else {
                    (
                        Run::Waiting {
                            wanted,
                            dispensed: (dispensed + 1) as u16,
                            last_unit: now,
                            was_active: false,
                        },
                        None,
                    )
                },
                Some(PulseResult::Noise) => (
                    Run::Waiting { wanted, dispensed, last_unit, was_active: false },
                    None,
                ),
                Some(PulseResult::Stuck) => (
                    Run::Stopped,
                    Some((dispensed, Some(HopperError::Jammed))),
                ),
            },
            Run::Listening { dispensed, deadline, pulses, was_low, last_edge, motor } => {
                let rose = !lines.error_low && was_low;
                let fell = lines.error_low && !was_low;
                if !rose && !fell && !lines.error_low && pulses > 0 && now - last_edge
                    >= HOPPER_ERROR_PULSE_GAP_MS {
                    (Run::Stopped, Some((dispensed, Some(HopperError::Faulted { code: pulses }))))
                } else if now >= deadline {
                    (Run::Stopped, Some((dispensed, Some(HopperError::Faulted { code: 0 }))))
                } else {
                    (
                        Run::Listening {
                            dispensed,
                            deadline,
                            pulses: if rose && pulses < 255 {
                                (pulses + 1) as u8
                            } else {
                                pulses
                            },
                            was_low: lines.error_low,
                            last_edge: if rose || fell {
                                now
                            } else {
                                last_edge
                            },
                            motor,
                        },
                        None,
                    )
                }
            },
        }
    }

    /// Should the motor be running?
    pub open spec fn runs_motor(self) -> bool {
        match self.run {
            Run::Stopped => false,
            Run::Waiting { .. } => true,
            Run::Passing { .. } => true,
            Run::Listening { motor, .. } => motor,
        }
    }

    /// A hopper with the motor stopped.
    pub fn new(kind: HopperKind) -> (h: Hopper)
        ensures
            h == (Hopper { kind, run: Run::Stopped }),
            !h.runs_motor(),
            h.wf(),
    {
        Hopper { kind, run: Run::Stopped }
    }

    /// Is the hopper reporting a fault of its own?
    pub fn is_faulted(&self, lines: HopperLines) -> (b: bool)
        ensures
            b == lines.error_low,
    {
        lines.error_low
    }

    /// Is the hopper running low?
    pub fn is_low(&self, lines: HopperLines) -> (b: bool)
        ensures
            b == lines.level_low,
    {
        lines.level_low
    }

    /// Should the motor be running?
    pub fn motor(&self) -> (on: bool)
        ensures
            on == self.runs_motor(),
    {
        match self.run {
            Run::Stopped => false,
            Run::Waiting { .. } => true,
            Run::Passing { .. } => true,
            Run::Listening { motor, .. } => motor,
        }
    }

    /// Start dispensing up to `count` units.
    ///
    /// Returns how it ended if it has ended already: nothing was asked for. A hopper that reports a fault is
    /// not started, only listened to.
    pub fn dispense(&mut self, count: u16, lines: HopperLines, now: u64) -> (over: Option<Outcome>)
        requires
            now <= u64::MAX - ERROR_CODE_TIMEOUT_MS,
        ensures
            final(self).kind == old(self).kind,
            (final(self).run, over) == old(self).dispensing(count, lines, now),
            final(self).wf(),
    {
        if count == 0 {
            self.run = Run::Stopped;
            return Some((0, None));
        }
        if self.is_faulted(lines) {
            self.listen(0, lines, now, false);
            return None;
        }
        // The sensor may already be blocked by the unit that is sitting in front of it, so a dispense
        // starts by waiting for the line to clear rather than counting it.
        self.run = Run::Waiting {
            wanted: count,
            dispensed: 0,
            last_unit: now,
            was_active: lines.coin_low,
        };
        None
    }

    /// Start listening to a fault code.
    fn listen(&mut self, dispensed: u16, lines: HopperLines, now: u64, motor: bool)
        requires
            now <= u64::MAX - ERROR_CODE_TIMEOUT_MS,
        ensures
            final(self).kind == old(self).kind,
            final(self).run == Hopper::listening(dispensed, lines, now, motor),
    {
        self.run = Run::Listening {
            dispensed,
            deadline: now + ERROR_CODE_TIMEOUT_MS,
            pulses: 0,
            was_low: lines.error_low,
            last_edge: now,
            motor,
        };
    }

    /// Judge the pulse that has been going on since `started`.
    fn measure_pulse(&self, started: u64, active: bool, now: u64) -> (result: Option<PulseResult>)
        requires
            started <= now,
        ensures
            result == judged(self.kind, started, active, now),
    {
        let (pulse_min_ms, pulse_max_ms) = self.kind.pulse_window_ms();
        let held = now - started;
        if !active {
            if held >= pulse_min_ms {
                Some(PulseResult::Unit)
            } else {
                Some(PulseResult::Noise)
            }
        } else if held >= pulse_max_ms {
            Some(PulseResult::Stuck)
        } else {
            None
        }
    }

    /// Listen to the error line once more.
    ///
    /// Pulses are counted as they end, and grouped into one burst as long as less than
    /// [`HOPPER_ERROR_PULSE_GAP_MS`] lies between them. A longer gap ends the burst, and the number of its
    /// pulses is the code.
    fn read_fault_code(&mut self, lines: HopperLines, now: u64) -> (over: Option<Outcome>)
        requires
            old(self).run is Listening,
            old(self).since() <= now,
        ensures
            final(self).kind == old(self).kind,
            (final(self).run, over) == old(self).polled(lines, now),
            final(self).wf(),
    {
        if let Run::Listening { dispensed, deadline, pulses, was_low, last_edge, motor } = self.run {
            let low = lines.error_low;
            let mut counted = pulses;
            let mut edge = last_edge;
            if low && !was_low {
                // Falling edge: a new pulse has started.
                edge = now;
            } else if !low && was_low {
                // Rising edge: one pulse has finished.
                counted = pulses.saturating_add(1);
                edge = now;
            } else if !low && pulses > 0 && now - last_edge >= HOPPER_ERROR_PULSE_GAP_MS {
                self.run = Run::Stopped;
                return Some((dispensed, Some(HopperError::Faulted { code: pulses })));
            }
            if now >= deadline {
                self.run = Run::Stopped;
                return Some((dispensed, Some(HopperError::Faulted { code: 0 })));
            }
            self.run = Run::Listening {
                dispensed,
                deadline,
                pulses: counted,
                was_low: low,
                last_edge: edge,
                motor,
            };
        }
        None
    }

    /// Carry a dispense on: `lines` is what they read at `now`.
    ///
    /// Returns how it ended, once it has: how many units actually came out, and why it stopped if that was
    /// fewer than asked. The motor is to be off whenever it has ended, whatever the reason.
    pub fn poll(&mut self, lines: HopperLines, now: u64) -> (over: Option<Outcome>)
        requires
            old(self).wf(),
            old(self).since() <= now <= u64::MAX - ERROR_CODE_TIMEOUT_MS,
        ensures
            final(self).kind == old(self).kind,
            (final(self).run, over) == old(self).polled(lines, now),
            final(self).wf(),
    {
        match self.run {
            Run::Stopped => None,
            Run::Waiting { wanted, dispensed, last_unit, was_active } => {
                if self.is_faulted(lines) {
                    self.listen(dispensed, lines, now, true);
                    return None;
                }
                let active = lines.coin_low;
                if active && !was_active {
                    // A pulse has started. Time it: too short is electrical noise, and too long is a unit
                    // that has stopped in front of the sensor, which is a jam whatever the hopper's own
                    // error line says.
                    self.run = Run::Passing { wanted, dispensed, last_unit, started: now };
                    return None;
                }
                if now - last_unit >= HOPPER_COIN_TIMEOUT_MS {
                    self.run = Run::Stopped;
                    return Some((dispensed, Some(HopperError::Jammed)));
                }
                self.run = Run::Waiting { wanted, dispensed, last_unit, was_active: active };
                None
            },
            Run::Passing { wanted, dispensed, last_unit, started } => {
                match self.measure_pulse(started, lines.coin_low, now) {
                    None => None,
                    Some(PulseResult::Unit) => {
                        let dispensed = dispensed + 1;
                        if dispensed >= wanted {
                            self.run = Run::Stopped;
                            return Some((dispensed, None));
                        }
                        self.run = Run::Waiting { wanted, dispensed, last_unit: now, was_active: false };
                        None
                    },
                    Some(PulseResult::Noise) => {
                        self.run = Run::Waiting { wanted, dispensed, last_unit, was_active: false };
                        None
                    },
                    Some(PulseResult::Stuck) => {
                        self.run = Run::Stopped;
                        Some((dispensed, Some(HopperError::Jammed)))
                    },
                }
            },
            Run::Listening { .. } => self.read_fault_code(lines, now),
        }
    }
}

/// The motor is off whenever a dispense has ended, whatever the reason, and a hopper that reports a fault
/// when it is asked to dispense is never started.
pub proof fn law_motor_stops(h: Hopper, count: u16, lines: HopperLines, now: u64)
    ensures
        h.dispensing(count, lines, now).1 is Some ==> !(Hopper {
            run: h.dispensing(count, lines, now).0,
            ..h
        }).runs_motor(),
        h.run !is Stopped && h.polled(lines, now).1 is Some ==> !(Hopper {
            run: h.polled(lines, now).0,
            ..h
        }).runs_motor(),
        lines.error_low ==> !(Hopper { run: h.dispensing(count, lines, now).0, ..h }).runs_motor(),
        h.run is Stopped ==> !h.runs_motor() && h.polled(lines, now) == (Run::Stopped, None::<Outcome>),
{
}

/// A dispense counts what comes out and nothing else: the number goes up by exactly one when a pulse of the
/// right length ends, and never otherwise; what is reported at the end is that number, never more than was
/// asked for; and unless a reason for stopping early is given, it is all of it.
pub proof fn law_dispense_counts_units(h: Hopper, lines: HopperLines, now: u64)
    requires
        h.wf(),
        h.since() <= now,
    ensures
        ({
            let (run, over) = h.polled(lines, now);
            let unit = h.run matches Run::Passing { started, .. } && !lines.coin_low && now - started
                >= h.kind.window().0;
            let count = match over {
                Some((n, _)) => n as int,
                None => (Hopper { run, ..h }).out_so_far(),
            };
            &&& count == h.out_so_far() + (if unit { 1int } else { 0 })
            &&& over matches Some((n, None)) ==> (h.run matches Run::Passing { wanted, .. } && n == wanted)
            &&& over matches Some((n, _)) ==> (h.run matches Run::Passing { wanted, .. } ==> n <= wanted)
        }),
{
}

/// A dispense does not go on for ever: with the motor running and no unit for two seconds it is a jam, a unit
/// that stays in front of the sensor past the longest pulse is a jam, and a fault code is given up on after
/// three seconds.
pub proof fn law_dispense_ends(h: Hopper, lines: HopperLines, now: u64)
    requires
        h.wf(),
        h.since() <= now,
    ensures
        h.run matches Run::Waiting { last_unit, .. } && !lines.error_low && now - last_unit
            >= HOPPER_COIN_TIMEOUT_MS ==> h.polled(lines, now).1 is Some || h.polled(
            lines,
            now,
        ).0 is Passing,
        h.run matches Run::Passing { started, .. } && now - started >= h.kind.window().1
            && lines.coin_low ==> h.polled(lines, now).1 matches Some((_, Some(HopperError::Jammed))),
        h.run matches Run::Listening { deadline, .. } && now >= deadline ==> h.polled(lines, now).1 matches Some(
            (_, Some(HopperError::Faulted { .. })),
        ),
{
}

/// The pulse of a pair of covers lasts from 5 to 500 ms, and that of a coin from 10 to 70 ms. Both are looked at every millisecond.
pub proof fn law_pulse_windows(kind: HopperKind)
    ensures
        POLL_MS == 1,
        kind is ItemDispenser ==> kind.window() == (5u64, 500u64),
        kind is CoinHopper ==> kind.window() == (10u64, 70u64),
{
}

/// A hopper that is asked for units and reports no fault starts its motor and gives them two seconds from that moment,
/// none having come out; one that reports a fault is listened to for three seconds, with the motor off; and one that is
/// asked for nothing is done at once.
pub proof fn law_dispense_starts(h: Hopper, count: u16, lines: HopperLines, now: u64)
    requires
        now + 3_000 <= u64::MAX,
    ensures
        ({
            let (run, over) = h.dispensing(count, lines, now);
            let after = Hopper { run, ..h };
            &&& count == 0 ==> over == Some((0u16, None::<HopperError>)) && run is Stopped
            &&& count > 0 ==> over is None && after.out_so_far() == 0
            &&& count > 0 && !lines.error_low ==> after.runs_motor() && run == (Run::Waiting {
                wanted: count,
                dispensed: 0,
                last_unit: now,
                was_active: lines.coin_low,
            })
            &&& count > 0 && lines.error_low ==> !after.runs_motor() && (run matches Run::Listening {
                deadline,
                pulses,
                was_low,
                last_edge,
                ..
            } && deadline == now + 3_000 && pulses == 0 && was_low && last_edge == now)
        }),
{
}

/// A hopper that is waited for is given its two seconds: as long as its error line is released and less than two seconds
/// have passed since the last unit, or since the motor was started, the dispense goes on, whichever kind of hopper it
/// is and however often it is looked at. A sensor that has been clear and is now blocked starts a pulse, and
/// nothing else does.
pub proof fn law_no_jam_before_its_time(h: Hopper, lines: HopperLines, now: u64)
    requires
        h.wf(),
        h.since() <= now,
        !lines.error_low,
        h.run is Waiting,
        now - h.run->Waiting_last_unit < 2_000,
    ensures
        ({
            let (run, over) = h.polled(lines, now);
            &&& over is None
            &&& (Hopper { run, ..h }).runs_motor()
            &&& match (h.run, run) {
                (
                    Run::Waiting { wanted, dispensed, last_unit, was_active },
                    Run::Waiting { wanted: w, dispensed: d, last_unit: l, was_active: a },
                ) => w == wanted && d == dispensed && l == last_unit && a == lines.coin_low && !(lines.coin_low
                    && !was_active),
                (
                    Run::Waiting { wanted, dispensed, last_unit, was_active },
                    Run::Passing { wanted: w, dispensed: d, last_unit: l, started },
                ) => w == wanted && d == dispensed && l == last_unit && started == now && lines.coin_low
                    && !was_active,
                _ => false,
            }
        }),
{
}

/// With nothing passing and the error line released for two seconds, a dispense is a jam, with what had come out.
pub proof fn law_two_seconds_without_a_unit_is_a_jam(h: Hopper, lines: HopperLines, now: u64)
    requires
        h.wf(),
        h.since() <= now,
        !lines.error_low,
        h.run matches Run::Waiting { last_unit, was_active, .. } && now - last_unit >= 2_000 && (
        !lines.coin_low || was_active),
    ensures
        h.polled(lines, now) == (
            Run::Stopped,
            Some((h.out_so_far() as u16, Some(HopperError::Jammed))),
        ),
{
}

/// Something that comes in front of a sensor that was clear is watched pass, however late it comes.
pub proof fn law_late_unit_is_still_a_unit(h: Hopper, lines: HopperLines, now: u64)
    requires
        h.wf(),
        h.since() <= now,
        !lines.error_low,
        lines.coin_low,
        h.run matches Run::Waiting { was_active: false, .. },
    ensures
        ({
            let (run, over) = h.polled(lines, now);
            &&& over is None
            &&& run == (Run::Passing {
                wanted: h.run->Waiting_wanted,
                dispensed: h.run->Waiting_dispensed,
                last_unit: h.run->Waiting_last_unit,
                started: now,
            })
        }),
{
}

/// What passes the sensor is judged by how long it takes, and by nothing else: while it is there it is waited for, up to
/// the longest pulse of its kind, when it is a jam; if it was there for at least the shortest pulse of its kind it
/// is a unit, which ends the dispense if it was the last of those wanted and gives the next one two seconds more
/// otherwise; and if it was shorter it was noise, and nothing has changed.
pub proof fn law_passing_is_judged_by_its_length(h: Hopper, lines: HopperLines, now: u64)
    requires
        h.wf(),
        h.since() <= now,
        h.run is Passing,
    ensures
        ({
            let (run, over) = h.polled(lines, now);
            let (shortest, longest) = if h.kind is ItemDispenser {
                (5int, 500int)
            } else {
                (10, 70)
            };
            let held = now - h.run->started;
            let wanted = h.run->Passing_wanted;
            let dispensed = h.run->Passing_dispensed;
            let last_unit = h.run->Passing_last_unit;
            &&& lines.coin_low && held < longest ==> over is None && run == h.run
            &&& lines.coin_low && held >= longest ==> run is Stopped && over == Some(
                (dispensed, Some(HopperError::Jammed)),
            )
            &&& !lines.coin_low && held < shortest ==> over is None && run == (Run::Waiting {
                wanted,
                dispensed,
                last_unit,
                was_active: false,
            })
            &&& !lines.coin_low && held >= shortest && dispensed + 1 == wanted ==> run is Stopped && over
                == Some((wanted, None::<HopperError>))
            &&& !lines.coin_low && held >= shortest && dispensed + 1 < wanted ==> over is None && run == (
            Run::Waiting {
                wanted,
                dispensed: (dispensed + 1) as u16,
                last_unit: now,
                was_active: false,
            })
        }),
{
}

/// A hopper whose error line goes low while it is waited for is listened to for three seconds from then on, with the
/// motor running and what has come out kept.
pub proof fn law_fault_is_listened_to(h: Hopper, lines: HopperLines, now: u64)
    requires
        h.wf(),
        h.since() <= now,
        now + 3_000 <= u64::MAX,
        h.run is Waiting,
        lines.error_low,
    ensures
        ({
            let (run, over) = h.polled(lines, now);
            &&& over is None
            &&& run matches Run::Listening { dispensed, deadline, pulses, was_low, last_edge, motor }
                && dispensed == h.out_so_far() && deadline == now + 3_000 && pulses == 0 && was_low && last_edge
                == now && motor
        }),
{
}

/// Listening counts a pulse whenever the error line comes back up, and ends in one of two ways: with the count as the
/// code, once the line has been up for 90 ms with at least one pulse counted, or with code 0 at the deadline. What has
/// come out is reported either way.
pub proof fn law_fault_code_counts_pulses(h: Hopper, lines: HopperLines, now: u64)
    requires
        h.since() <= now,
        h.run is Listening,
    ensures
        ({
            let (run, over) = h.polled(lines, now);
            let was_low = h.run->was_low;
            let pulses = h.run->pulses;
            let quiet = !was_low && !lines.error_low && pulses > 0 && now - h.run->last_edge >= 90;
            let dispensed = h.run->Listening_dispensed;
            &&& quiet ==> run is Stopped && over == Some(
                (dispensed, Some(HopperError::Faulted { code: pulses })),
            )
            &&& !quiet && now >= h.run->deadline ==> run is Stopped && over == Some(
                (dispensed, Some(HopperError::Faulted { code: 0 })),
            )
            &&& !quiet && now < h.run->deadline ==> over is None && (run matches Run::Listening {
                dispensed: d,
                deadline,
                pulses: p,
                was_low: w,
                last_edge,
                motor,
            } && d == dispensed && deadline == h.run->deadline && motor == h.run->motor && w == lines.error_low
                && last_edge == (if lines.error_low != was_low {
                now
            } else {
                h.run->last_edge
            }) && p == (if was_low && !lines.error_low && pulses < 255 {
                pulses + 1
            } else {
                pulses as int
            }))
        }),
{
}

/// Something that sits in front of the sensor when a dispense starts is not counted: only a sensor that has
/// been seen clear and is then blocked starts a pulse.
pub proof fn law_blocked_sensor_is_not_a_unit(h: Hopper, lines: HopperLines, now: u64)
    requires
        h.wf(),
        h.since() <= now,
        h.run matches Run::Waiting { was_active: true, .. },
    ensures
        h.polled(lines, now).0 !is Passing,
{
}

/// A burst of `n` pulses on the error line is fault code `n`: each pulse adds one, and a pause that is long enough
/// ends the burst and reports the number.
pub proof fn law_fault_code_is_the_burst(
    h: Hopper,
    fell: HopperLines,
    rose: HopperLines,
    quiet: HopperLines,
    falls: u64,
    rises: u64,
    over: u64,
)
    requires
        fell.error_low,
        !rose.error_low,
        !quiet.error_low,
        falls <= rises,
        rises + HOPPER_ERROR_PULSE_GAP_MS <= over,
        h.run matches Run::Listening { deadline, pulses, was_low, last_edge, .. } && !was_low && last_edge
            <= falls && falls - last_edge < HOPPER_ERROR_PULSE_GAP_MS && rises < deadline && pulses < 255,
    ensures
        ({
            let (low, over1) = h.polled(fell, falls);
            let (high, over2) = (Hopper { run: low, ..h }).polled(rose, rises);
            let (stopped, over3) = (Hopper { run: high, ..h }).polled(quiet, over);
            let n = (h.run->pulses + 1) as u8;
            &&& over1 is None && over2 is None
            &&& high->pulses == n
            &&& stopped is Stopped
            &&& over3 == Some((h.run->Listening_dispensed, Some(HopperError::Faulted { code: n })))
        }),
{
}

} // verus!
