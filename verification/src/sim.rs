//! A machine without the hardware: the same money, stock and menu, worked from a keyboard.
//!
//! A hopper here is a stock count. There is no motor to time, so a payout happens all at once: it comes out, or the
//! hopper is empty. Everything that the machine does is written to a log that somebody at the keyboard can read.
//!
//! This module is the machine itself. [`desk`] says what each key does to it, [`panel`] does it, and [`frame`] is what
//! the screen shows.
pub mod desk;
pub mod frame;
pub mod laws;
pub mod panel;

use vstd::prelude::*;

use crate::change;
use crate::change::plan_change;
use crate::config::HOPPER_COUNT;
use crate::error::{self, Errors};
use crate::state::{AppState, Cash, Counters, Level, Settings};
use crate::text::{self, decimal_row};
use crate::ui::Screen;
use crate::vending::world;

verus! {

/// How many lines of the log are kept.
pub const LOG_LINES: usize = 200;

/// What is kept of a log.
pub open spec fn kept(log: Seq<Seq<char>>) -> Seq<Seq<char>> {
    if log.len() <= LOG_LINES {
        log
    } else {
        log.skip(log.len() - LOG_LINES)
    }
}

/// What the lines of a log say.
pub open spec fn lines_of(log: Seq<String>) -> Seq<Seq<char>> {
    log.map_values(|line: String| line@)
}

/// Write a line to the log, and forget the oldest if it has become too long.
pub fn push_log(log: &mut Vec<String>, line: String)
    ensures
        lines_of(final(log)@) == kept(lines_of(old(log)@).push(line@)),
{
    let ghost all = lines_of(log@).push(line@);
    log.push(line);
    assert(lines_of(log@) =~= all);
    assert(all.skip(0) =~= all);
    while log.len() > LOG_LINES
        invariant
            log@.len() <= all.len(),
            lines_of(log@) == all.skip(all.len() - log@.len()),
            log@.len() >= LOG_LINES || log@.len() == all.len(),
        decreases log@.len(),
    {
        let ghost before = log@;
        log.remove(0);
        proof {
            let rest = all.skip(all.len() - log@.len());
            assert forall|i: int| 0 <= i < log@.len() implies #[trigger] lines_of(log@)[i] == rest[i] by {
                assert(log@[i] == before[i + 1]);
                assert(lines_of(before)[i + 1] == before[i + 1]@);
            }
            assert(lines_of(log@) =~= rest);
        }
    }
}

/// A coin hopper or the item dispenser: a stock count and nothing else.
#[derive(Copy, Clone, Debug, Eq, PartialEq, Structural)]
pub struct SimHopper {
    /// How many are left.
    pub level: Level,
}

/// How many of `count` come out of a stock of `level`: all of them, unless it runs dry partway through.
pub open spec fn comes_out(level: Level, count: Level) -> Level {
    if count <= level {
        count
    } else {
        level
    }
}

impl SimHopper {
    /// Dispense up to `count` units. Returns how many actually came out.
    pub fn dispense(&mut self, count: Level) -> (out: Level)
        ensures
            out == comes_out(old(self).level, count),
            final(self).level == old(self).level - out,
    {
        let out = if count <= self.level {
            count
        } else {
            self.level
        };
        self.level = self.level - out;
        out
    }
}

/// The machine.
pub struct Machine {
    /// How it is set up.
    pub settings: Settings,
    /// What it has counted.
    pub counters: Counters,
    /// The coin hoppers.
    pub hoppers: Vec<SimHopper>,
    /// The item dispenser.
    pub dispenser: SimHopper,
    /// What has happened, newest last.
    pub log: Vec<String>,
    /// What is wrong with it.
    pub faults: Errors,
}

/// What there is to know of a machine.
#[verifier::ext_equal]
pub struct Bench {
    /// How it is set up.
    pub settings: Settings,
    /// What it has counted.
    pub counters: Counters,
    /// The stock of the coin hoppers.
    pub hoppers: Seq<Level>,
    /// The stock of the item dispenser.
    pub dispenser: Level,
    /// What has happened, newest last.
    pub log: Seq<Seq<char>>,
    /// What is wrong with it.
    pub faults: Errors,
}

impl View for Machine {
    type V = Bench;

    open spec fn view(&self) -> Bench {
        Bench {
            settings: self.settings,
            counters: self.counters,
            hoppers: self.hoppers@.map_values(|h: SimHopper| h.level),
            dispenser: self.dispenser.level,
            log: lines_of(self.log@),
            faults: self.faults,
        }
    }
}

impl Bench {
    /// What the machine believes to be in its hoppers is what is in them.
    pub open spec fn wf(self) -> bool {
        &&& self.hoppers.len() == HOPPER_COUNT
        &&& forall|i: int|
            0 <= i < HOPPER_COUNT ==> #[trigger] self.hoppers[i] == self.counters.coin_levels@[i]
        &&& self.dispenser == self.counters.item_level
    }

    /// Can everything that one key press may do still be counted?
    pub open spec fn has_room(self) -> bool {
        let c = self.counters;
        &&& c.items_pending < u16::MAX
        &&& c.free_items_pending < u16::MAX
        &&& c.overall.items_dispensed + c.items_pending < u32::MAX
        &&& c.period.items_dispensed + c.items_pending < u32::MAX
        &&& c.overall.items_free + c.free_items_pending < u32::MAX
        &&& c.period.items_free + c.free_items_pending < u32::MAX
        &&& forall|i: int|
            0 <= i < HOPPER_COUNT ==> #[trigger] c.coins_pending@[i] + c.coin_levels@[i] <= u16::MAX
    }

    /// Something is written to the log.
    pub open spec fn said(self, line: Seq<char>) -> Bench {
        Bench { log: kept(self.log.push(line)), ..self }
    }

    /// The counters changed.
    pub open spec fn counting(self, counters: Counters) -> Bench {
        Bench { counters, ..self }
    }

    /// The customer's progress changed.
    pub open spec fn serving(self, app_state: AppState) -> Bench {
        self.counting(Counters { app_state, ..self.counters })
    }

    /// A fault is present or not.
    pub open spec fn flagged(self, mask: u32, present: bool) -> Bench {
        Bench { faults: self.faults.put(mask, present), ..self }
    }

    /// What a pair costs.
    pub open spec fn price(self) -> Cash {
        self.settings.item_dispenser.unit_value
    }

    /// The screen for the machine's situation.
    pub open spec fn situation(self) -> Screen {
        if self.faults.has(error::FATAL) {
            Screen::Fault(self.faults)
        } else if self.counters.cash > 0 {
            Screen::Credit {
                cash: self.counters.cash,
                price: self.price(),
                currency: self.settings.currency,
            }
        } else {
            Screen::Idle { price: self.price(), currency: self.settings.currency }
        }
    }

    /// A coin is taken.
    pub open spec fn accepted(self, value: Cash) -> Bench {
        self.counting(world::coin_taken(self.counters, value))
    }

    /// One pair comes out of a dispenser that is not empty.
    pub open spec fn pair_out(self) -> Bench {
        let level = (self.dispenser - 1) as Level;
        Bench {
            dispenser: level,
            counters: Counters { item_level: level, ..world::pair_out(self.counters) },
            ..self
        }.flagged(error::ITEM_DISPENSER_EMPTY, level <= self.settings.item_dispenser.min_level)
    }

    /// Up to `n` pairs that are owed come out, and whether all did.
    pub open spec fn pairs_out(self, n: nat) -> (Bench, bool)
        decreases n,
    {
        if n == 0 {
            (self, true)
        } else if self.dispenser == 0 {
            (
                self.flagged(error::ITEM_DISPENSER, true).said("Dispenser: jammed/empty!"@),
                false,
            )
        } else {
            self.pair_out().pairs_out((n - 1) as nat)
        }
    }

    /// How many pairs are owed.
    pub open spec fn pairs_owed(self) -> nat {
        (self.counters.items_pending + self.counters.free_items_pending) as nat
    }

    /// The pairs that are owed come out, those that were paid for first, or as many as there are.
    #[verifier::opaque]
    pub open spec fn items_paid(self) -> Bench {
        let (b, all) = self.pairs_out(self.pairs_owed());
        if all {
            b.serving(AppState::ProcessResidual)
        } else {
            b
        }
    }

    /// One coin comes out of a hopper that is not empty.
    pub open spec fn coin_out(self, i: int) -> Bench {
        let level = (self.hoppers[i] - 1) as Level;
        let c = world::coin_out(self.counters, i, self.settings.coin_hoppers@[i].unit_value);
        Bench {
            hoppers: self.hoppers.update(i, level),
            counters: Counters {
                coin_levels: vstd::array::spec_array_update(c.coin_levels, i, level),
                ..c
            },
            ..self
        }
    }

    /// Up to `n` coins that a hopper owes come out, and whether all did.
    pub open spec fn coins_out(self, i: int, n: nat) -> (Bench, bool)
        decreases n,
    {
        if n == 0 {
            (self, true)
        } else if self.hoppers[i] == 0 {
            (
                self.flagged(error::COIN_HOPPER, true).said(
                    "Hopper "@ + text::decimal((i + 1) as nat) + ": empty, cannot finish payout."@,
                ),
                false,
            )
        } else {
            self.coin_out(i).coins_out(i, (n - 1) as nat)
        }
    }

    /// The coins that are owed come out, of the hoppers from `i` on, until one is empty.
    pub open spec fn change_paid(self, i: int) -> Bench
        decreases HOPPER_COUNT - i,
    {
        if i >= HOPPER_COUNT {
            self
        } else {
            let (b, all) = self.coins_out(i, self.counters.coins_pending@[i] as nat);
            if all {
                b.flagged(
                    error::COIN_HOPPER_EMPTY,
                    b.counters.coin_levels@[i] <= b.settings.coin_hoppers@[i].min_level,
                ).change_paid(i + 1)
            } else {
                b
            }
        }
    }

    /// The credit that is left is turned into change, and paid.
    #[verifier::opaque]
    pub open spec fn residual(self) -> Bench {
        let c = self.counters;
        if c.cash == 0 {
            self.serving(AppState::AcceptCash)
        } else {
            let owed = world::change_owed(self.settings, c);
            let paid = self.counting(world::change_planned(self.settings, c)).flagged(
                error::CANNOT_PAYOUT,
                world::change_short(self.settings, c) > 0,
            ).change_paid(0);
            (if owed > 0 {
                paid.said("Change dispensed: "@ + text::decimal(owed as nat) + " kop."@)
            } else {
                paid
            }).serving(AppState::AcceptCash)
        }
    }

    /// What is shown to the customer when their credit is turned into change, if anything is.
    pub open spec fn residual_popup(self) -> Option<Screen> {
        let owed = world::change_owed(self.settings, self.counters);
        if self.counters.cash == 0 {
            None
        } else if owed > 0 {
            Some(Screen::TakeChange { amount: owed, currency: self.settings.currency })
        } else {
            None
        }
    }

    /// A pair has been bought, and has come out if there is one.
    pub open spec fn bought(self) -> Bench {
        self.counting(world::pair_bought(self.counters, self.price())).said(
            "Sale: dispensing 1 pair."@,
        ).items_paid()
    }

    /// Is a pair sold? Only if it has been paid for and the machine can sell.
    pub open spec fn sells(self) -> bool {
        self.counters.cash >= self.price() && !self.faults.has(error::FATAL)
    }

    /// A pair is sold, if it has been paid for and the machine can sell.
    pub open spec fn sold(self) -> Bench {
        if self.sells() {
            self.bought().residual()
        } else {
            self
        }
    }

    /// What is shown to the customer when a pair is sold, if anything is.
    pub open spec fn sold_popup(self) -> Option<Screen> {
        if self.sells() {
            self.bought().residual_popup()
        } else {
            None
        }
    }

    /// A pair is given away.
    pub open spec fn given(self) -> Bench {
        let c = self.counters;
        self.counting(
            Counters { free_items_pending: (c.free_items_pending + 1) as Level, ..c },
        ).items_paid().said("Menu: gave away 1 pair free."@)
    }
}

/// Nothing but what a payout of covers touches is touched by it.
proof fn lemma_pairs_out(b: Bench, n: nat)
    requires
        b.wf(),
        n == b.pairs_owed(),
    ensures
        b.pairs_out(n).0.wf(),
        b.pairs_out(n).0.settings == b.settings,
        b.pairs_out(n).0.counters.cash == b.counters.cash,
        b.pairs_out(n).0.counters.coins_pending == b.counters.coins_pending,
        b.pairs_out(n).0.counters.coin_levels == b.counters.coin_levels,
        b.pairs_out(n).0.counters.overall.cash_out == b.counters.overall.cash_out,
        b.pairs_out(n).0.counters.overall.cash_in == b.counters.overall.cash_in,
    decreases n,
{
    if n > 0 && b.dispenser > 0 {
        lemma_pairs_out(b.pair_out(), (n - 1) as nat);
    }
}

/// Paying out covers leaves the money and the coins as they were.
pub proof fn lemma_items_paid(b: Bench)
    requires
        b.wf(),
    ensures
        b.items_paid().wf(),
        b.items_paid().settings == b.settings,
        b.items_paid().counters.cash == b.counters.cash,
        b.items_paid().counters.coins_pending == b.counters.coins_pending,
        b.items_paid().counters.coin_levels == b.counters.coin_levels,
        b.items_paid().counters.overall.cash_out == b.counters.overall.cash_out,
        b.items_paid().counters.overall.cash_in == b.counters.overall.cash_in,
{
    reveal(Bench::items_paid);
    lemma_pairs_out(b, b.pairs_owed());
}

impl Machine {
    /// Write a line to the log.
    fn say(&mut self, line: String)
        ensures
            final(self)@ == old(self)@.said(line@),
            final(self).hoppers@ == old(self).hoppers@,
    {
        push_log(&mut self.log, line);
    }

    /// What a pair costs.
    pub fn price(&self) -> (price: Cash)
        ensures
            price == self@.price(),
    {
        self.settings.item_dispenser.unit_value
    }

    /// Can everything that one key press may do still be counted?
    pub fn has_room(&self) -> (b: bool)
        ensures
            b == self@.has_room(),
    {
        let c = &self.counters;
        let mut i: usize = 0;
        while i < HOPPER_COUNT
            invariant
                i <= HOPPER_COUNT,
                c == self.counters,
                forall|j: int|
                    0 <= j < i ==> #[trigger] c.coins_pending@[j] + c.coin_levels@[j] <= u16::MAX,
            decreases HOPPER_COUNT - i,
        {
            if c.coins_pending[i] as u32 + c.coin_levels[i] as u32 > 0xffff {
                assert(c.coins_pending@[i as int] + c.coin_levels@[i as int] > u16::MAX);
                return false;
            }
            i += 1;
        }
        c.items_pending < 0xffff && c.free_items_pending < 0xffff && (c.overall.items_dispensed as u64
            + c.items_pending as u64) < 0xffff_ffff && (c.period.items_dispensed as u64
            + c.items_pending as u64) < 0xffff_ffff && (c.overall.items_free as u64
            + c.free_items_pending as u64) < 0xffff_ffff && (c.period.items_free as u64
            + c.free_items_pending as u64) < 0xffff_ffff
    }

    /// The screen for the machine's situation.
    pub fn refresh_display(&self) -> (screen: Screen)
        ensures
            screen == self@.situation(),
    {
        if !self.faults.can_vend() {
            Screen::Fault(self.faults)
        } else if self.counters.cash > 0 {
            Screen::Credit {
                cash: self.counters.cash,
                price: self.price(),
                currency: self.settings.currency,
            }
        } else {
            Screen::Idle { price: self.price(), currency: self.settings.currency }
        }
    }

    /// Count a coin.
    pub fn accept_coin(&mut self, value: Cash)
        ensures
            final(self)@ == old(self)@.accepted(value),
    {
        self.counters.cash = self.counters.cash.saturating_add(value);
        self.counters.overall.cash_in = self.counters.overall.cash_in.saturating_add(value);
        self.counters.period.cash_in = self.counters.period.cash_in.saturating_add(value);
    }

    /// Pay out items already bought, all in one go.
    pub fn payout_items(&mut self)
        requires
            old(self)@.wf(),
            ({
                let c = old(self).counters;
                &&& c.overall.items_dispensed + c.items_pending <= u32::MAX
                &&& c.period.items_dispensed + c.items_pending <= u32::MAX
                &&& c.overall.items_free + c.free_items_pending <= u32::MAX
                &&& c.period.items_free + c.free_items_pending <= u32::MAX
            }),
        ensures
            final(self)@ == old(self)@.items_paid(),
            final(self)@.wf(),
    {
        proof {
            reveal(Bench::items_paid);
            lemma_items_paid(self@);
        }
        let ghost start = self@;
        while self.counters.items_pending > 0 || self.counters.free_items_pending > 0
            invariant
                self@.wf(),
                self.counters.overall.items_dispensed + self.counters.items_pending <= u32::MAX,
                self.counters.period.items_dispensed + self.counters.items_pending <= u32::MAX,
                self.counters.overall.items_free + self.counters.free_items_pending <= u32::MAX,
                self.counters.period.items_free + self.counters.free_items_pending <= u32::MAX,
                start.pairs_out(start.pairs_owed()) == self@.pairs_out(self@.pairs_owed()),
                start == old(self)@,
                start.items_paid().wf(),
                start.items_paid() == (if start.pairs_out(start.pairs_owed()).1 {
                    start.pairs_out(start.pairs_owed()).0.serving(AppState::ProcessResidual)
                } else {
                    start.pairs_out(start.pairs_owed()).0
                }),
            decreases self.counters.items_pending + self.counters.free_items_pending,
        {
            let ghost before = self@;
            let free = self.counters.items_pending == 0;
            let dispensed = self.dispenser.dispense(1);
            if dispensed > 0 {
                if free {
                    self.counters.free_items_pending = self.counters.free_items_pending - 1;
                    self.counters.overall.items_free = self.counters.overall.items_free + 1;
                    self.counters.period.items_free = self.counters.period.items_free + 1;
                } else {
                    self.counters.items_pending = self.counters.items_pending - 1;
                    self.counters.overall.items_dispensed = self.counters.overall.items_dispensed + 1;
                    self.counters.period.items_dispensed = self.counters.period.items_dispensed + 1;
                }
                self.counters.item_level = self.dispenser.level;
            } else {
                error::raise(&mut self.faults, error::ITEM_DISPENSER);
                assert(self@ =~= before.flagged(error::ITEM_DISPENSER, true));
                self.say("Dispenser: jammed/empty!".to_owned());
                return ;
            }
            error::set(
                &mut self.faults,
                error::ITEM_DISPENSER_EMPTY,
                self.counters.item_level <= self.settings.item_dispenser.min_level,
            );
            assert(self@ =~= before.pair_out());
        }
        self.counters.app_state = AppState::ProcessResidual;
        assert(self@ =~= start.items_paid());
    }

    /// Pay the coins that one hopper owes. Returns whether all came out.
    fn payout_hopper(&mut self, i: usize) -> (all: bool)
        requires
            i < HOPPER_COUNT,
            old(self)@.wf(),
        ensures
            (final(self)@, all) == old(self)@.coins_out(
                i as int,
                old(self).counters.coins_pending@[i as int] as nat,
            ),
            final(self)@.wf(),
    {
        let ghost start = self@;
        let ghost owed = start.counters.coins_pending@[i as int] as nat;
        while self.counters.coins_pending[i] > 0
            invariant
                i < HOPPER_COUNT,
                self@.wf(),
                start == old(self)@,
                owed == start.counters.coins_pending@[i as int],
                start.coins_out(i as int, owed) == self@.coins_out(
                    i as int,
                    self.counters.coins_pending@[i as int] as nat,
                ),
            decreases self.counters.coins_pending@[i as int],
        {
            let ghost before = self@;
            let mut hopper = self.hoppers[i];
            let dispensed = hopper.dispense(1);
            assert(before.hoppers[i as int] == self.hoppers@[i as int].level);
            if dispensed > 0 {
                self.hoppers.set(i, hopper);
                self.counters.coins_pending[i] = self.counters.coins_pending[i] - 1;
                self.counters.coin_levels[i] = hopper.level;
                let value = self.settings.coin_hoppers[i].unit_value;
                self.counters.overall.cash_out = self.counters.overall.cash_out.saturating_add(value);
                self.counters.period.cash_out = self.counters.period.cash_out.saturating_add(value);
                proof {
                    let after = before.coin_out(i as int);
                    assert(self@.hoppers =~= after.hoppers);
                    assert(self.counters.coins_pending =~= after.counters.coins_pending);
                    assert(self.counters.coin_levels =~= after.counters.coin_levels);
                    assert(self@ =~= after);
                }
            } else {
                error::raise(&mut self.faults, error::COIN_HOPPER);
                assert(self@ =~= before.flagged(error::COIN_HOPPER, true));
                let mut line = "Hopper ".to_owned();
                line.append(decimal_row(i as u32 + 1).as_str());
                line.append(": empty, cannot finish payout.");
                self.say(line);
                return false;
            }
        }
        true
    }

    /// Pay the coins that are owed, of one hopper after another, until one is empty.
    pub fn payout_change(&mut self)
        requires
            old(self)@.wf(),
        ensures
            final(self)@ == old(self)@.change_paid(0),
            final(self)@.wf(),
    {
        let ghost start = self@;
        let mut i: usize = 0;
        while i < HOPPER_COUNT
            invariant
                i <= HOPPER_COUNT,
                self@.wf(),
                start == old(self)@,
                start.change_paid(0) == self@.change_paid(i as int),
            decreases HOPPER_COUNT - i,
        {
            if !self.payout_hopper(i) {
                return ;
            }
            let ghost paid = self@;
            error::set(
                &mut self.faults,
                error::COIN_HOPPER_EMPTY,
                self.counters.coin_levels[i] <= self.settings.coin_hoppers[i].min_level,
            );
            assert(self@ =~= paid.flagged(
                error::COIN_HOPPER_EMPTY,
                paid.counters.coin_levels@[i as int] <= paid.settings.coin_hoppers@[i as int].min_level,
            ));
            i += 1;
        }
    }

    /// Add the coins of a plan to those that are owed.
    fn owe(&mut self, plan: &Vec<u16>)
        requires
            plan@.len() == HOPPER_COUNT,
            forall|i: int|
                0 <= i < HOPPER_COUNT ==> old(self).counters.coins_pending@[i] + #[trigger] plan@[i]
                    <= u16::MAX,
        ensures
            final(self)@ == old(self)@.counting(
                Counters {
                    coins_pending: world::owing_more(
                        old(self).counters.coins_pending,
                        plan@,
                        HOPPER_COUNT as nat,
                    ),
                    ..old(self).counters
                },
            ),
    {
        let ghost start = self.counters;
        let mut i: usize = 0;
        while i < HOPPER_COUNT
            invariant
                i <= HOPPER_COUNT,
                plan@.len() == HOPPER_COUNT,
                start == old(self).counters,
                forall|j: int|
                    0 <= j < HOPPER_COUNT ==> start.coins_pending@[j] + #[trigger] plan@[j] <= u16::MAX,
                self.counters.coins_pending =~= world::owing_more(start.coins_pending, plan@, i as nat),
                forall|j: int|
                    i <= j < HOPPER_COUNT ==> #[trigger] self.counters.coins_pending@[j]
                        == start.coins_pending@[j],
                self@ == old(self)@.counting(
                    Counters { coins_pending: self.counters.coins_pending, ..start },
                ),
            decreases HOPPER_COUNT - i,
        {
            assert(start.coins_pending@[i as int] + plan@[i as int] <= u16::MAX);
            self.counters.coins_pending[i] = self.counters.coins_pending[i] + plan[i];
            i += 1;
            assert(self.counters.coins_pending =~= world::owing_more(
                start.coins_pending,
                plan@,
                i as nat,
            ));
        }
    }

    /// Turn the credit that is left into change, and pay it. Returns what to show to the customer, if there is
    /// anything to show.
    pub fn process_residual(&mut self) -> (popup: Option<Screen>)
        requires
            old(self)@.wf(),
            world::change_counts(old(self).settings, old(self).counters),
        ensures
            final(self)@ == old(self)@.residual(),
            popup == old(self)@.residual_popup(),
            final(self)@.wf(),
    {
        proof {
            reveal(Bench::residual);
        }
        let ghost start = self@;
        if self.counters.cash == 0 {
            self.counters.app_state = AppState::AcceptCash;
            assert(self@ =~= start.residual());
            return None;
        }
        let cash = self.counters.cash;
        let (plan, unpayable) = plan_change(
            self.settings.coin_hoppers.as_slice(),
            self.counters.coin_levels.as_slice(),
            cash,
        );
        proof {
            change::law_change_adds_up(
                self.settings.coin_hoppers@,
                self.counters.coin_levels@,
                cash,
            );
            assert forall|i: int| 0 <= i < HOPPER_COUNT implies self.counters.coins_pending@[i]
                + #[trigger] plan@[i] <= u16::MAX by {
                assert(world::change_plan(start.settings, start.counters)[i] == plan@[i]);
            }
        }
        self.owe(&plan);
        self.counters.cash = unpayable;
        self.counters.app_state = AppState::PayoutReminder;
        error::set(&mut self.faults, error::CANNOT_PAYOUT, unpayable > 0);
        let owed = cash - unpayable;
        let ghost planned = start.counting(
            world::change_planned(start.settings, start.counters),
        ).flagged(
            error::CANNOT_PAYOUT,
            world::change_short(start.settings, start.counters) > 0,
        );
        assert(self@ =~= planned);
        self.payout_change();
        let currency = self.settings.currency;
        let mut popup: Option<Screen> = None;
        proof {
            lemma_change_paid_keeps(planned, 0);
        }
        if owed > 0 {
            popup = Some(Screen::TakeChange { amount: owed, currency });
            let mut line = "Change dispensed: ".to_owned();
            line.append(decimal_row(owed).as_str());
            line.append(" kop.");
            self.say(line);
        }
        if self.counters.cash == 0 && owed == 0 {
            popup = Some(Screen::Thanks);
        }
        let ghost told = self@;
        self.counters.app_state = AppState::AcceptCash;
        assert(self@ =~= told.serving(AppState::AcceptCash));
        popup
    }

    /// Sell a pair, if it has been paid for and the machine can sell. Returns what to show to the customer, if
    /// there is anything to show.
    pub fn sell(&mut self) -> (popup: Option<Screen>)
        requires
            old(self)@.wf(),
            old(self)@.has_room(),
        ensures
            final(self)@ == old(self)@.sold(),
            popup == old(self)@.sold_popup(),
            final(self)@.wf(),
    {
        let ghost start = self@;
        let price = self.price();
        if self.counters.cash < price || !self.faults.can_vend() {
            return None;
        }
        self.counters.cash = self.counters.cash - price;
        self.counters.items_pending = self.counters.items_pending + 1;
        self.counters.app_state = AppState::PayoutItems;
        assert(self@ =~= start.counting(world::pair_bought(start.counters, start.price())));
        self.say("Sale: dispensing 1 pair.".to_owned());
        proof {
            lemma_items_paid(self@);
        }
        self.payout_items();
        proof {
            lemma_room_for_change(self@);
        }
        self.process_residual()
    }

    /// Give a pair away.
    pub fn dispense_free(&mut self)
        requires
            old(self)@.wf(),
            old(self)@.has_room(),
        ensures
            final(self)@ == old(self)@.given(),
            final(self)@.wf(),
    {
        let ghost start = self@;
        self.counters.free_items_pending = self.counters.free_items_pending + 1;
        assert(self@ =~= start.counting(
            Counters {
                free_items_pending: (start.counters.free_items_pending + 1) as Level,
                ..start.counters
            },
        ));
        self.payout_items();
        self.say("Menu: gave away 1 pair free.".to_owned());
    }
}

/// Paying coins leaves the credit and the settings as they were.
proof fn lemma_coins_out_keeps(b: Bench, i: int, n: nat)
    requires
        b.wf(),
        0 <= i < HOPPER_COUNT,
        n <= b.counters.coins_pending@[i],
    ensures
        b.coins_out(i, n).0.wf(),
        b.coins_out(i, n).0.settings == b.settings,
        b.coins_out(i, n).0.counters.cash == b.counters.cash,
    decreases n,
{
    if n > 0 && b.hoppers[i] > 0 {
        lemma_coins_out_keeps(b.coin_out(i), i, (n - 1) as nat);
    }
}

/// Paying change leaves the credit and the settings as they were.
proof fn lemma_change_paid_keeps(b: Bench, i: int)
    requires
        b.wf(),
        0 <= i,
    ensures
        b.change_paid(i).wf(),
        b.change_paid(i).settings == b.settings,
        b.change_paid(i).counters.cash == b.counters.cash,
    decreases HOPPER_COUNT - i,
{
    if i < HOPPER_COUNT {
        lemma_coins_out_keeps(b, i, b.counters.coins_pending@[i] as nat);
        let (paid, all) = b.coins_out(i, b.counters.coins_pending@[i] as nat);
        if all {
            lemma_change_paid_keeps(
                paid.flagged(
                    error::COIN_HOPPER_EMPTY,
                    paid.counters.coin_levels@[i] <= paid.settings.coin_hoppers@[i].min_level,
                ),
                i + 1,
            );
        }
    }
}

/// Where the coins that are owed and the coins in stock can be counted together, the change can be.
pub proof fn lemma_room_for_change(b: Bench)
    requires
        forall|i: int|
            0 <= i < HOPPER_COUNT ==> #[trigger] b.counters.coins_pending@[i]
                + b.counters.coin_levels@[i] <= u16::MAX,
    ensures
        world::change_counts(b.settings, b.counters),
{
    change::law_change_adds_up(b.settings.coin_hoppers@, b.counters.coin_levels@, b.counters.cash);
    assert forall|i: int| 0 <= i < HOPPER_COUNT implies b.counters.coins_pending@[i]
        + #[trigger] world::change_plan(b.settings, b.counters)[i] <= u16::MAX by {
        assert(b.counters.coins_pending@[i] + b.counters.coin_levels@[i] <= u16::MAX);
    }
}

/// The coins that a hopper owes come out if it has them, and are counted.
proof fn lemma_coins_come_out(b: Bench, i: int, n: nat)
    requires
        b.wf(),
        0 <= i < HOPPER_COUNT,
        n == b.counters.coins_pending@[i],
        n <= b.hoppers[i],
        b.counters.overall.cash_out + n * b.settings.coin_hoppers@[i].unit_value <= u32::MAX,
    ensures
        b.coins_out(i, n).1,
        b.coins_out(i, n).0.counters.coins_pending@[i] == 0,
        b.coins_out(i, n).0.hoppers == b.hoppers.update(i, (b.hoppers[i] - n) as Level),
        b.coins_out(i, n).0.counters.overall.cash_out == b.counters.overall.cash_out + n
            * b.settings.coin_hoppers@[i].unit_value,
    decreases n,
{
    if n > 0 {
        let value = b.settings.coin_hoppers@[i].unit_value;
        let after = b.coin_out(i);
        assert(n * value == value + (n - 1) * value) by (nonlinear_arith);
        assert(0 <= (n - 1) * value) by (nonlinear_arith)
            requires
                n > 0,
        ;
        lemma_coins_come_out(after, i, (n - 1) as nat);
        assert(after.hoppers.update(i, (after.hoppers[i] - (n - 1)) as Level) =~= b.hoppers.update(
            i,
            (b.hoppers[i] - n) as Level,
        ));
    } else {
        assert(b.hoppers.update(i, b.hoppers[i]) =~= b.hoppers);
        assert(0 * b.settings.coin_hoppers@[i].unit_value == 0);
    }
}

/// A machine that owes no coins gives all the change it has coins for: what is left as credit is what the plan
/// could not pay, what came out is the rest, and afterwards it owes no coins.
pub proof fn law_change_comes_out(b: Bench)
    requires
        b.wf(),
        forall|i: int| 0 <= i < HOPPER_COUNT ==> #[trigger] b.counters.coins_pending@[i] == 0,
        b.counters.overall.cash_out + b.counters.cash <= u32::MAX,
    ensures
        ({
            let after = b.residual();
            &&& after.counters.cash == (if b.counters.cash == 0 {
                0
            } else {
                world::change_short(b.settings, b.counters)
            })
            &&& after.counters.overall.cash_out - b.counters.overall.cash_out + after.counters.cash
                == b.counters.cash
            &&& forall|i: int|
                0 <= i < HOPPER_COUNT ==> #[trigger] after.counters.coins_pending@[i] == 0
        }),
{
    reveal(Bench::residual);
    let c = b.counters;
    let hoppers = b.settings.coin_hoppers@;
    if c.cash > 0 {
        change::law_change_adds_up(hoppers, c.coin_levels@, c.cash);
        let plan = world::change_plan(b.settings, c);
        let planned = b.counting(world::change_planned(b.settings, c)).flagged(
            error::CANNOT_PAYOUT,
            world::change_short(b.settings, c) > 0,
        );
        reveal_with_fuel(change::worth, 2);
        reveal_with_fuel(world::owing_more, 2);
        reveal_with_fuel(Bench::change_paid, 2);
        assert(planned.counters.coins_pending@[0] == plan[0]);
        assert(plan[0] <= c.coin_levels@[0]);
        assert(b.hoppers[0] == c.coin_levels@[0]);
        assert(plan[0] as nat * hoppers[0].unit_value as nat == plan[0] * hoppers[0].unit_value);
        lemma_coins_come_out(planned, 0, plan[0] as nat);
        lemma_change_paid_keeps(planned, 0);
    }
}

/// A sale takes the price, no more and no less: what the customer had put in is the price, what came out as change,
/// and what is left as credit.
pub proof fn law_sale_takes_the_price(b: Bench)
    requires
        b.wf(),
        b.sells(),
        b.has_room(),
        forall|i: int| 0 <= i < HOPPER_COUNT ==> #[trigger] b.counters.coins_pending@[i] == 0,
        b.counters.overall.cash_out + b.counters.cash <= u32::MAX,
    ensures
        b.sold().counters.overall.cash_out - b.counters.overall.cash_out + b.sold().counters.cash + b.price()
            == b.counters.cash,
        forall|i: int| 0 <= i < HOPPER_COUNT ==> #[trigger] b.sold().counters.coins_pending@[i] == 0,
{
    let paid = b.counting(world::pair_bought(b.counters, b.price())).said("Sale: dispensing 1 pair."@);
    lemma_items_paid(paid);
    assert forall|i: int| 0 <= i < HOPPER_COUNT implies #[trigger] b.bought().counters.coins_pending@[i]
        == 0 by {
        assert(b.counters.coins_pending@[i] == 0);
    }
    law_change_comes_out(b.bought());
}

/// A pair that is sold comes out if there is one, and otherwise stays owed while the machine stops selling.
pub proof fn law_sold_pair_comes_out(b: Bench)
    requires
        b.wf(),
        b.sells(),
        b.has_room(),
        b.counters.items_pending == 0,
        b.counters.free_items_pending == 0,
    ensures
        b.dispenser > 0 ==> b.bought().dispenser == b.dispenser - 1 && b.bought().counters.items_pending == 0
            && b.bought().counters.overall.items_dispensed == b.counters.overall.items_dispensed + 1,
        b.dispenser == 0 ==> b.bought().dispenser == 0 && b.bought().counters.items_pending == 1
            && b.bought().faults.has(error::FATAL),
{
    reveal(Bench::items_paid);
    reveal_with_fuel(Bench::pairs_out, 2);
    let f = b.faults;
    error::law_only_fatal_faults_stop_sales(f.with(error::ITEM_DISPENSER));
    error::law_faults_are_independent(f, error::ITEM_DISPENSER, true, 0);
}

} // verus!
