//! Selling shoe covers.
//!
//! One machine owns the money, the counters and the hoppers' debts, and everything else sends it events. That
//! is the whole design: there is exactly one place where the machine's idea of what it owes can change, so
//! there is no way for two parts to disagree about whether a customer has been served.
//!
//! The state is written to flash at every point where losing it would cost somebody money, after taking a
//! coin, and after each unit dispensed, so that a machine which loses power mid-payout comes back knowing
//! what it still owes and finishes the job.
//!
//! The machine never waits itself. It is told what happened, as an [`Input`], answers with what is to be done
//! at once, as a list of [`Effect`]s, and then says with [`Machine::wait`] what to wait for next.
use vstd::prelude::*;

use crate::change::{self, plan_change};
use crate::config::HOPPER_COUNT;
use crate::error::{self, Errors};
use crate::event::{Button, Event};
use crate::hopper::HopperError;
use crate::menu::{self, Access, Item, KEY_SLOTS};
use crate::nvram::event_log::{EventLog, EventWrite};
use crate::nvram::flash::NVRAM_LEN;
use crate::nvram::journal::{self, Journal, JournalSave};
use crate::nvram::stored::{self, load_settings};
use crate::report;
use crate::state::{Accounting, AppState, Cash, Counters, EventKind, Settings};
use crate::ui::Screen;
use crate::vending::world::World;

pub mod durability;
pub mod engineer;
pub mod laws;
pub mod promises;
pub mod service;
pub mod steps;
pub mod visit;
pub mod world;

verus! {

/// How long an idle machine without credit waits at a time, in seconds.
pub const IDLE_SECONDS: u64 = 3_600;

/// How long the message about an unknown key stays up, in seconds.
pub const UNKNOWN_KEY_SECONDS: u64 = 2;

/// Where in the menu somebody is.
#[derive(Copy, Clone, Debug, Eq, PartialEq, Structural)]
pub struct Place {
    /// How far their key lets them.
    pub access: Access,
    /// Which of the items they see is in front of them.
    pub cursor: usize,
}

/// Why covers are being dispensed, which decides what comes after.
#[derive(Copy, Clone, Debug, Eq, PartialEq, Structural)]
pub enum Purpose {
    /// The machine was switched on owing something.
    Resume,
    /// Somebody bought a pair.
    Sale,
    /// A pair is given away from the menu.
    Free(Place),
}

/// Which report is being read.
#[derive(Copy, Clone, Debug, Eq, PartialEq, Structural)]
pub enum ReportKind {
    /// What has been taken and sold.
    Accounting,
    /// What is left, and what was wrong when the report was opened.
    State(Errors),
    /// What happened lately.
    Events,
}

/// What the machine is in the middle of.
#[derive(Copy, Clone, Debug, Eq, PartialEq, Structural)]
pub enum Stage {
    /// Waiting for a customer.
    Idle,
    /// The dispenser has been asked for one pair.
    Items(Purpose),
    /// A hopper has been asked for one coin.
    Coins {
        /// Which hopper.
        hopper: usize,
        /// What the change being paid comes to, or nothing if these are debts from before a power cut.
        owed: Option<Cash>,
    },
    /// The customer is told to take their change.
    TakeChange,
    /// The customer is thanked.
    Thanks,
    /// Somebody is told that their key is not known.
    UnknownKey,
    /// The menu is open.
    Menu(Place),
    /// A number is being edited.
    Edit {
        /// Where to go back to.
        place: Place,
        /// What the number is.
        item: Item,
        /// The number so far.
        value: u32,
    },
    /// A report is being read.
    Report {
        /// Where to go back to.
        place: Place,
        /// Which report.
        kind: ReportKind,
        /// The line at the top of the display.
        at: usize,
        /// How many lines there are.
        lines: usize,
    },
    /// The key table is being looked through.
    Keys {
        /// Where to go back to.
        place: Place,
        /// The slot in front of them.
        slot: u8,
    },
}

/// Something to be done, at once and in the order given.
#[derive(Debug)]
pub enum Effect {
    /// Show a screen.
    Show(Screen),
    /// Show what [`Machine::screen`] gives, now that the machine is where it is.
    ShowStage,
    /// Write counters to the journal.
    Save(JournalSave),
    /// Write an entry to the event log.
    Log(EventWrite),
    /// Write the settings to their segment.
    Store(Settings),
    /// Shut the coin acceptor, or let it take money again.
    Inhibit(bool),
}

/// What to wait for.
#[derive(Copy, Clone, Debug, Eq, PartialEq, Structural)]
pub enum Wait {
    /// The next event, or so many seconds.
    Event(u64),
    /// The dispenser, having asked it for one pair.
    Dispenser,
    /// A hopper, having asked it for one coin.
    Hopper(usize),
    /// So many seconds, whatever happens meanwhile.
    Delay(u64),
}

/// What the machine is told.
#[derive(Copy, Clone, Debug, Eq, PartialEq)]
pub enum Input {
    /// Something happened.
    Happened(Event),
    /// The time to wait ran out.
    Elapsed,
    /// The dispenser or hopper that was asked for one unit has finished.
    Dispensed {
        /// How many units came out.
        count: u16,
        /// Why it stopped, if it stopped early.
        failure: Option<HopperError>,
    },
}

/// Everything the sale needs, in one place.
#[derive(Copy, Clone, Debug, Eq, PartialEq)]
pub struct Machine {
    /// What an engineer configured.
    pub settings: Settings,
    /// What the machine has counted, and what it owes.
    pub counters: Counters,
    /// Where the counters are persisted.
    pub journal: Journal,
    /// Where what happens is remembered.
    pub events: EventLog,
    /// What the machine is in the middle of.
    pub stage: Stage,
}

impl Machine {
    /// The journal and the log are in order, and what the machine is in the middle of makes sense: it waits
    /// for a dispenser or a hopper only if something is owed, and for a place in the menu only if it exists.
    pub open spec fn wf(self) -> bool {
        &&& self.journal.wf()
        &&& self.events.wf()
        &&& match self.stage {
            Stage::Items(_) => world::owes_items(self.counters),
            Stage::Coins { hopper, .. } => hopper < HOPPER_COUNT && self.counters.coins_pending@[hopper as int]
                > 0,
            Stage::Menu(place) => place.cursor < menu::visible(place.access).len(),
            Stage::Edit { item, .. } => item.edits(),
            Stage::Report { at, lines, .. } => at < lines,
            Stage::Keys { slot, .. } => slot < KEY_SLOTS,
            _ => true,
        }
    }

    /// Is the machine waiting for this kind of input?
    pub open spec fn expects(self, input: Input) -> bool {
        match input {
            Input::Happened(_) => self.stage is Idle || self.stage is Menu || self.stage is Edit
                || self.stage is Report || self.stage is Keys,
            Input::Elapsed => !(self.stage is Items) && !(self.stage is Coins),
            Input::Dispensed { .. } => self.stage is Items || self.stage is Coins,
        }
    }

    /// Can everything that this input makes the machine count still be counted?
    pub open spec fn counts(self, input: Input, faults: Errors) -> bool {
        let c = self.counters;
        let price = self.settings.item_dispenser.unit_value;
        match (input, self.stage) {
            (Input::Happened(Event::Coin { value, .. }), Stage::Idle) => world::plus(c.cash, value) >= price
                && !faults.has(error::FATAL) ==> c.items_pending < u16::MAX,
            (Input::Happened(Event::Button(Button::Accept)), Stage::Idle) => c.cash >= price
                && !faults.has(error::FATAL) ==> c.items_pending < u16::MAX,
            (Input::Happened(Event::Button(Button::Cancel)), Stage::Idle) => world::change_counts(
                self.settings,
                c,
            ),
            (Input::Happened(Event::Button(Button::Accept)), Stage::Menu(place)) => Item::all()[menu::visible(
                place.access,
            )[place.cursor as int] as int] == Item::FreeItem ==> c.free_items_pending < u16::MAX,
            (Input::Elapsed, Stage::Idle) => world::change_counts(self.settings, c),
            (Input::Dispensed { count, failure }, Stage::Items(purpose)) => {
                let after = if count > 0 {
                    world::pair_out(c)
                } else {
                    c
                };
                let done = failure is Some || !world::owes_items(after);
                &&& count > 0 ==> world::pair_counts(c)
                &&& done && (purpose is Sale || purpose is Resume && world::next_debt(c, 0) is None)
                    ==> world::change_counts(self.settings, c)
            },
            (Input::Dispensed { count, failure }, Stage::Coins { hopper, owed }) => {
                let after = if count > 0 {
                    world::coin_out(c, hopper as int, self.settings.coin_hoppers@[hopper as int].unit_value)
                } else {
                    c
                };
                owed is None && (failure is Some || world::next_debt(after, hopper as int) is None)
                    ==> world::change_counts(self.settings, after)
            },
            _ => true,
        }
    }

    /// A machine that has not been started yet.
    pub fn new(settings: Settings, counters: Counters, journal: Journal, events: EventLog) -> (m: Machine)
        requires
            journal.wf(),
            events.wf(),
        ensures
            m == (Machine { settings, counters, journal, events, stage: Stage::Idle }),
            m.wf(),
    {
        Machine { settings, counters, journal, events, stage: Stage::Idle }
    }

    /// What a pair of covers costs.
    pub fn price(&self) -> (price: Cash)
        ensures
            price == self.settings.item_dispenser.unit_value,
    {
        self.settings.item_dispenser.unit_value
    }

    /// Write the counters down.
    ///
    /// Called at every point where a power cut would otherwise lose money. Each call is a flash write of
    /// some milliseconds, which is why it is called at those points and not more often.
    fn persist(&mut self, out: &mut Vec<Effect>)
        requires
            old(self).journal.wf(),
        ensures
            final(self).journal.wf(),
            forall|f: Errors| #[trigger]
                world::of(*final(self), f, final(out)@) == world::of(*old(self), f, old(out)@).persisted(),
    {
        let save = self.journal.save(&self.counters);
        out.push(Effect::Save(save));
    }

    /// Remember that something happened.
    fn log(&mut self, kind: EventKind, value: u32, out: &mut Vec<Effect>)
        requires
            old(self).events.wf(),
        ensures
            final(self).events.wf(),
            forall|f: Errors| #[trigger]
                world::of(*final(self), f, final(out)@) == world::of(*old(self), f, old(out)@).logged(kind, value),
    {
        let write = self.events.record(kind, value);
        out.push(Effect::Log(write));
    }

    /// Record a fault as present, and remember it.
    fn raise(&mut self, mask: u32, faults: &mut Errors, out: &mut Vec<Effect>)
        requires
            old(self).events.wf(),
        ensures
            final(self).events.wf(),
            world::of(*final(self), *final(faults), final(out)@) == world::of(
                *old(self),
                *old(faults),
                old(out)@,
            ).raised(mask),
    {
        error::raise(faults, mask);
        self.log(EventKind::ErrorRaised, mask, out);
        assert(world::of(*self, *faults, out@) == world::of(*old(self), *faults, old(out)@).logged(
            EventKind::ErrorRaised,
            mask,
        ));
    }

    /// The screen for the machine's situation.
    fn situation(&self, faults: &Errors) -> (screen: Screen)
        ensures
            forall|o: Seq<Effect>| screen == #[trigger] world::of(*self, *faults, o).situation(),
    {
        if !faults.can_vend() {
            Screen::Fault(*faults)
        } else if self.counters.cash > 0 {
            Screen::Credit {
                cash: self.counters.cash,
                price: self.price(),
                currency: self.settings.currency,
            }
        } else {
            Screen::Idle { price: self.price(), currency: self.settings.currency }
        }
    }

    /// Show whatever the machine's situation currently is.
    fn refresh_display(&self, faults: &Errors, out: &mut Vec<Effect>)
        ensures
            world::of(*self, *faults, final(out)@) == world::of(*self, *faults, old(out)@).refreshed(),
    {
        out.push(Effect::Show(self.situation(faults)));
        assert(out@.last() == Effect::Show(world::of(*self, *faults, old(out)@).situation()));
    }

    /// Take a coin.
    fn accept_coin(&mut self, value: Cash, faults: &Errors, out: &mut Vec<Effect>)
        requires
            old(self).wf(),
        ensures
            final(self).journal.wf(),
            final(self).events.wf(),
            world::of(*final(self), *faults, final(out)@) == world::of(*old(self), *faults, old(out)@).accepted(
                value,
            ),
    {
        proof {
            reveal(World::accepted);
        }
        self.counters.cash = self.counters.cash.saturating_add(value);
        self.counters.overall.cash_in = self.counters.overall.cash_in.saturating_add(value);
        self.counters.period.cash_in = self.counters.period.cash_in.saturating_add(value);
        let ghost w0 = world::of(*old(self), *faults, old(out)@);
        let ghost w1 = w0.counting(world::coin_taken(old(self).counters, value));
        assert(world::of(*self, *faults, out@) == w1);
        self.persist(out);
        assert(world::of(*self, *faults, out@) == w1.persisted());
        self.log(EventKind::Coin, value, out);
        assert(world::of(*self, *faults, out@) == w1.persisted().logged(EventKind::Coin, value));
        self.refresh_display(faults, out);
    }

    /// The journal and the log are in order.
    pub open spec fn books_wf(self) -> bool {
        self.journal.wf() && self.events.wf()
    }

    /// Turn to waiting for customers again.
    fn finish(&mut self, faults: &Errors, out: &mut Vec<Effect>)
        requires
            old(self).books_wf(),
        ensures
            final(self).wf(),
            world::of(*final(self), *faults, final(out)@) == world::of(*old(self), *faults, old(out)@).finished(),
    {
        proof {
            reveal(World::finished);
        }
        let ghost w0 = world::of(*old(self), *faults, old(out)@);
        self.counters.app_state = AppState::AcceptCash;
        assert(world::of(*self, *faults, out@) == w0.serving(AppState::AcceptCash));
        self.persist(out);
        assert(world::of(*self, *faults, out@) == w0.serving(AppState::AcceptCash).persisted());
        self.refresh_display(faults, out);
        self.stage = Stage::Idle;
    }

    /// The customer has taken their change. Credit that could not be paid out stays as credit: the customer
    /// can put in more money and buy another pair with it, which is better than the machine keeping it.
    fn change_taken(&mut self, faults: &Errors, out: &mut Vec<Effect>)
        requires
            old(self).books_wf(),
        ensures
            final(self).wf(),
            world::of(*final(self), *faults, final(out)@) == world::of(
                *old(self),
                *faults,
                old(out)@,
            ).change_taken(),
    {
        proof {
            reveal(World::change_taken);
        }
        if self.counters.cash == 0 {
            out.push(Effect::Show(Screen::Thanks));
            self.stage = Stage::Thanks;
        } else {
            self.finish(faults, out);
        }
    }

    /// Tell the customer to take the change that has been paid.
    fn change_paid(&mut self, owed: Cash, faults: &Errors, out: &mut Vec<Effect>)
        requires
            old(self).books_wf(),
        ensures
            final(self).wf(),
            world::of(*final(self), *faults, final(out)@) == world::of(*old(self), *faults, old(out)@).change_paid(
                owed,
            ),
    {
        proof {
            reveal(World::change_paid);
        }
        if owed > 0 {
            out.push(
                Effect::Show(
                    Screen::TakeChange { amount: owed, currency: self.settings.currency },
                ),
            );
            self.stage = Stage::TakeChange;
        } else {
            self.change_taken(faults, out);
        }
    }

    /// Find the next hopper that owes coins, and note of those passed over whether they are empty.
    fn pass_hoppers(&self, low: &[bool], from: usize, faults: &mut Errors) -> (debt: Option<usize>)
        requires
            low@.len() == HOPPER_COUNT,
            from <= HOPPER_COUNT,
        ensures
            match debt {
                Some(h) => world::next_debt(self.counters, from as int) == Some(h as int) && h < HOPPER_COUNT
                    && self.counters.coins_pending@[h as int] > 0,
                None => world::next_debt(self.counters, from as int) is None,
            },
            forall|o: Seq<Effect>| #[trigger]
                world::of(*self, *final(faults), o) == world::of(*self, *old(faults), o).passed(
                    low@,
                    from as int,
                    match debt {
                        Some(h) => h as int,
                        None => HOPPER_COUNT as int,
                    },
                ),
    {
        let mut i = from;
        while i < HOPPER_COUNT && self.counters.coins_pending[i] == 0
            invariant
                from <= i <= HOPPER_COUNT,
                low@.len() == HOPPER_COUNT,
                world::next_debt(self.counters, from as int) == world::next_debt(self.counters, i as int),
                forall|o: Seq<Effect>| #[trigger]
                    world::of(*self, *faults, o) == world::of(*self, *old(faults), o).passed(
                        low@,
                        from as int,
                        i as int,
                    ),
            decreases HOPPER_COUNT - i,
        {
            let ghost before = *faults;
            // Two ways to know a hopper is empty, and either is enough. The counter is what the machine
            // believes; the level line is what the hopper can see.
            let empty = low[i] || self.counters.coin_levels[i] <= self.settings.coin_hoppers[i].min_level;
            error::set(faults, error::COIN_HOPPER_EMPTY, empty);
            assert forall|o: Seq<Effect>| #[trigger]
                world::of(*self, *faults, o) == world::of(*self, *old(faults), o).passed(
                    low@,
                    from as int,
                    i + 1,
                ) by {
                assert(world::of(*self, before, o) == world::of(*self, *old(faults), o).passed(
                    low@,
                    from as int,
                    i as int,
                ));
            }
            i += 1;
        }
        if i < HOPPER_COUNT {
            Some(i)
        } else {
            None
        }
    }

    /// Pay out coins of change, from hopper `from` on.
    fn pay_change(
        &mut self,
        low: &[bool],
        from: usize,
        owed: Cash,
        faults: &mut Errors,
        out: &mut Vec<Effect>,
    )
        requires
            old(self).books_wf(),
            low@.len() == HOPPER_COUNT,
            from <= HOPPER_COUNT,
        ensures
            final(self).wf(),
            world::of(*final(self), *final(faults), final(out)@) == world::of(
                *old(self),
                *old(faults),
                old(out)@,
            ).paying(low@, from as int, owed),
    {
        proof {
            reveal(World::paying);
        }
        let ghost w0 = world::of(*self, *faults, out@);
        match self.pass_hoppers(low, from, faults) {
            Some(h) => {
                assert(world::of(*self, *faults, out@) == w0.passed(low@, from as int, h as int));
                self.stage = Stage::Coins { hopper: h, owed: Some(owed) };
            },
            None => {
                assert(world::of(*self, *faults, out@) == w0.passed(low@, from as int, HOPPER_COUNT as int));
                self.change_paid(owed, faults, out);
            },
        }
    }

    /// Add the coins of a plan to those owed.
    fn owe_plan(&mut self, plan: &Vec<u16>)
        requires
            plan@.len() == HOPPER_COUNT,
            forall|i: int|
                0 <= i < HOPPER_COUNT ==> old(self).counters.coins_pending@[i] + #[trigger] plan@[i]
                    <= u16::MAX,
        ensures
            *final(self) == (Machine {
                counters: Counters {
                    coins_pending: world::owing_more(
                        old(self).counters.coins_pending,
                        plan@,
                        HOPPER_COUNT as nat,
                    ),
                    ..old(self).counters
                },
                ..*old(self)
            }),
    {
        let ghost start = self.counters.coins_pending;
        let mut i: usize = 0;
        while i < HOPPER_COUNT
            invariant
                i <= HOPPER_COUNT,
                plan@.len() == HOPPER_COUNT,
                forall|j: int|
                    0 <= j < HOPPER_COUNT ==> start@[j] + #[trigger] plan@[j] <= u16::MAX,
                forall|j: int|
                    i <= j < HOPPER_COUNT ==> #[trigger] self.counters.coins_pending@[j] == start@[j],
                self.counters.coins_pending == world::owing_more(start, plan@, i as nat),
                start == old(self).counters.coins_pending,
                *self == (Machine {
                    counters: Counters {
                        coins_pending: self.counters.coins_pending,
                        ..old(self).counters
                    },
                    ..*old(self)
                }),
            decreases HOPPER_COUNT - i,
        {
            assert(start@[i as int] + plan@[i as int] <= u16::MAX);
            self.counters.coins_pending[i] = self.counters.coins_pending[i] + plan[i];
            i += 1;
            assert(self.counters.coins_pending =~= world::owing_more(start, plan@, i as nat));
        }
    }

    /// Turn the credit that is left into a change plan, and pay it.
    fn process_residual(&mut self, low: &[bool], faults: &mut Errors, out: &mut Vec<Effect>)
        requires
            old(self).books_wf(),
            low@.len() == HOPPER_COUNT,
            world::change_counts(old(self).settings, old(self).counters),
        ensures
            final(self).wf(),
            world::of(*final(self), *final(faults), final(out)@) == world::of(
                *old(self),
                *old(faults),
                old(out)@,
            ).residual(low@),
    {
        proof {
            reveal(World::residual);
        }
        let ghost w0 = world::of(*self, *faults, out@);
        if self.counters.cash == 0 {
            self.finish(faults, out);
            return;
        }
        let cash = self.counters.cash;
        let (plan, short) = plan_change(
            self.settings.coin_hoppers.as_slice(),
            self.counters.coin_levels.as_slice(),
            cash,
        );
        proof {
            change::law_change_adds_up(self.settings.coin_hoppers@, self.counters.coin_levels@, cash);
        }
        let owed = cash - short;
        // The plan is written down before a single coin moves. A machine that loses power between planning
        // and paying must come back owing coins, not owing credit it has already spent.
        self.owe_plan(&plan);
        self.counters.cash = short;
        self.counters.app_state = AppState::PayoutReminder;
        let ghost w1 = w0.counting(world::change_planned(old(self).settings, old(self).counters));
        assert(world::of(*self, *faults, out@) == w1);
        self.persist(out);
        assert(world::of(*self, *faults, out@) == w1.persisted());
        error::set(faults, error::CANNOT_PAYOUT, short > 0);
        assert(world::of(*self, *faults, out@) == w1.persisted().flagged(error::CANNOT_PAYOUT, short > 0));
        self.pay_change(low, 0, owed, faults, out);
    }

    /// Go on after the debts from before a power cut.
    fn resumed(&mut self, low: &[bool], faults: &mut Errors, out: &mut Vec<Effect>)
        requires
            old(self).books_wf(),
            low@.len() == HOPPER_COUNT,
            world::change_counts(old(self).settings, old(self).counters),
        ensures
            final(self).wf(),
            world::of(*final(self), *final(faults), final(out)@) == world::of(
                *old(self),
                *old(faults),
                old(out)@,
            ).resumed(low@),
    {
        proof {
            reveal(World::resumed);
        }
        if self.counters.cash > 0 {
            self.process_residual(low, faults, out);
        } else {
            self.refresh_display(faults, out);
            self.stage = Stage::Idle;
        }
    }

    /// Pay out coins owed from before a power cut, from hopper `from` on.
    fn repay(&mut self, low: &[bool], from: usize, faults: &mut Errors, out: &mut Vec<Effect>)
        requires
            old(self).books_wf(),
            low@.len() == HOPPER_COUNT,
            from <= HOPPER_COUNT,
            world::next_debt(old(self).counters, from as int) is None ==> world::change_counts(
                old(self).settings,
                old(self).counters,
            ),
        ensures
            final(self).wf(),
            world::of(*final(self), *final(faults), final(out)@) == world::of(
                *old(self),
                *old(faults),
                old(out)@,
            ).repaying(low@, from as int),
    {
        proof {
            reveal(World::repaying);
        }
        let ghost w0 = world::of(*self, *faults, out@);
        match self.pass_hoppers(low, from, faults) {
            Some(h) => {
                assert(world::of(*self, *faults, out@) == w0.passed(low@, from as int, h as int));
                self.stage = Stage::Coins { hopper: h, owed: None };
            },
            None => {
                assert(world::of(*self, *faults, out@) == w0.passed(low@, from as int, HOPPER_COUNT as int));
                self.resumed(low, faults, out);
            },
        }
    }

    /// Go on after covers have been dispensed.
    fn items_paid(
        &mut self,
        purpose: Purpose,
        low: &[bool],
        faults: &mut Errors,
        out: &mut Vec<Effect>,
    )
        requires
            old(self).books_wf(),
            low@.len() == HOPPER_COUNT,
            purpose is Sale || purpose is Resume && world::next_debt(old(self).counters, 0) is None
                ==> world::change_counts(old(self).settings, old(self).counters),
        ensures
            final(self).wf(),
            world::of(*final(self), *final(faults), final(out)@) == world::of(
                *old(self),
                *old(faults),
                old(out)@,
            ).items_paid(purpose, low@),
    {
        proof {
            reveal(World::items_paid);
        }
        match purpose {
            Purpose::Resume => self.repay(low, 0, faults, out),
            Purpose::Sale => self.process_residual(low, faults, out),
            Purpose::Free(place) => {
                self.refresh_display(faults, out);
                self.list(place, faults, out);
            },
        }
    }

    /// Dispense the covers that are owed, one at a time.
    fn payout_items(
        &mut self,
        purpose: Purpose,
        low: &[bool],
        faults: &mut Errors,
        out: &mut Vec<Effect>,
    )
        requires
            old(self).books_wf(),
            low@.len() == HOPPER_COUNT,
            !world::owes_items(old(self).counters) && (purpose is Sale || purpose is Resume && world::next_debt(
                old(self).counters,
                0,
            ) is None) ==> world::change_counts(old(self).settings, old(self).counters),
        ensures
            final(self).wf(),
            world::of(*final(self), *final(faults), final(out)@) == world::of(
                *old(self),
                *old(faults),
                old(out)@,
            ).dispensing(purpose, low@),
    {
        proof {
            reveal(World::dispensing);
        }
        let ghost w0 = world::of(*self, *faults, out@);
        if self.counters.items_pending > 0 || self.counters.free_items_pending > 0 {
            out.push(Effect::Show(Screen::Dispensing));
            self.stage = Stage::Items(purpose);
        } else {
            self.counters.app_state = AppState::ProcessResidual;
            assert(world::of(*self, *faults, out@) == w0.serving(AppState::ProcessResidual));
            self.persist(out);
            assert(world::of(*self, *faults, out@) == w0.serving(AppState::ProcessResidual).persisted());
            proof {
                lemma_same_debts(self.counters, old(self).counters, 0);
                lemma_same_change(self.settings, self.counters, old(self).counters);
            }
            self.items_paid(purpose, low, faults, out);
        }
    }
}

/// Whether change can be counted depends on the credit, the levels and what is owed alone.
pub proof fn lemma_same_change(settings: Settings, a: Counters, b: Counters)
    requires
        a.cash == b.cash,
        a.coin_levels == b.coin_levels,
        a.coins_pending == b.coins_pending,
    ensures
        world::change_counts(settings, a) == world::change_counts(settings, b),
{
    assert(world::change_plan(settings, a) == world::change_plan(settings, b));
    if world::change_counts(settings, a) && a.cash != 0 {
        assert forall|i: int| 0 <= i < HOPPER_COUNT implies b.coins_pending@[i]
            + #[trigger] world::change_plan(settings, b)[i] <= u16::MAX by {
            assert(a.coins_pending@[i] + world::change_plan(settings, a)[i] <= u16::MAX);
        }
    }
    if world::change_counts(settings, b) && b.cash != 0 {
        assert forall|i: int| 0 <= i < HOPPER_COUNT implies a.coins_pending@[i]
            + #[trigger] world::change_plan(settings, a)[i] <= u16::MAX by {
            assert(b.coins_pending@[i] + world::change_plan(settings, b)[i] <= u16::MAX);
        }
    }
}

/// The next debt depends on what is owed alone.
pub proof fn lemma_same_debts(a: Counters, b: Counters, i: int)
    requires
        a.coins_pending == b.coins_pending,
    ensures
        world::next_debt(a, i) == world::next_debt(b, i),
    decreases HOPPER_COUNT - i,
{
    if i < HOPPER_COUNT {
        lemma_same_debts(a, b, i + 1);
    }
}

/// The counters after a pair came out.
fn with_pair_out(c: &Counters) -> (after: Counters)
    requires
        world::owes_items(*c),
        world::pair_counts(*c),
    ensures
        after == world::pair_out(*c),
{
    let mut after = *c;
    if c.items_pending == 0 {
        after.free_items_pending = after.free_items_pending - 1;
        after.overall.items_free = after.overall.items_free + 1;
        after.period.items_free = after.period.items_free + 1;
    } else {
        after.items_pending = after.items_pending - 1;
        after.overall.items_dispensed = after.overall.items_dispensed + 1;
        after.period.items_dispensed = after.period.items_dispensed + 1;
    }
    after.item_level = after.item_level.saturating_sub(1);
    after
}

/// The counters after a coin of change came out of a hopper.
fn with_coin_out(c: &Counters, hopper: usize, value: Cash) -> (after: Counters)
    requires
        hopper < HOPPER_COUNT,
        c.coins_pending@[hopper as int] > 0,
    ensures
        after == world::coin_out(*c, hopper as int, value),
{
    let mut after = *c;
    after.coins_pending[hopper] = after.coins_pending[hopper] - 1;
    after.coin_levels[hopper] = after.coin_levels[hopper].saturating_sub(1);
    after.overall.cash_out = after.overall.cash_out.saturating_add(value);
    after.period.cash_out = after.period.cash_out.saturating_add(value);
    assert(after.coins_pending =~= world::coin_out(*c, hopper as int, value).coins_pending);
    assert(after.coin_levels =~= world::coin_out(*c, hopper as int, value).coin_levels);
    after
}

impl Machine {
    /// Count a pair that came out.
    ///
    /// Each unit is written down as it comes out, not at the end. A dispenser that jams after the second of
    /// three pairs must leave the machine owing one, and it can only know that if the two that came out were
    /// recorded while it was still running.
    fn count_pair(&mut self, faults: &Errors, out: &mut Vec<Effect>)
        requires
            old(self).books_wf(),
            world::owes_items(old(self).counters),
            world::pair_counts(old(self).counters),
        ensures
            final(self).books_wf(),
            world::of(*final(self), *faults, final(out)@) == world::of(
                *old(self),
                *faults,
                old(out)@,
            ).pair_counted(),
            final(self).counters == world::pair_out(old(self).counters),
            final(self).settings == old(self).settings,
    {
        proof {
            reveal(World::pair_counted);
        }
        let ghost w0 = world::of(*self, *faults, out@);
        let free = self.counters.items_pending == 0;
        self.counters = with_pair_out(&self.counters);
        let ghost w1 = w0.counting(world::pair_out(old(self).counters));
        assert(world::of(*self, *faults, out@) == w1);
        self.persist(out);
        assert(world::of(*self, *faults, out@) == w1.persisted());
        let paid: u32 = if free {
            0
        } else {
            1
        };
        self.log(EventKind::ItemDispensed, paid, out);
        assert(world::of(*self, *faults, out@) == w1.persisted().logged(EventKind::ItemDispensed, paid));
    }

    /// Stop after the dispenser would not dispense.
    fn item_failed(
        &mut self,
        purpose: Purpose,
        low: &[bool],
        faults: &mut Errors,
        out: &mut Vec<Effect>,
    )
        requires
            old(self).books_wf(),
            low@.len() == HOPPER_COUNT,
            purpose is Sale || purpose is Resume && world::next_debt(old(self).counters, 0) is None
                ==> world::change_counts(old(self).settings, old(self).counters),
        ensures
            final(self).wf(),
            world::of(*final(self), *final(faults), final(out)@) == world::of(
                *old(self),
                *old(faults),
                old(out)@,
            ).item_failed(purpose, low@),
    {
        proof {
            reveal(World::item_failed);
        }
        let ghost w0 = world::of(*self, *faults, out@);
        self.raise(error::ITEM_DISPENSER, faults, out);
        assert(world::of(*self, *faults, out@) == w0.raised(error::ITEM_DISPENSER));
        self.persist(out);
        assert(world::of(*self, *faults, out@) == w0.raised(error::ITEM_DISPENSER).persisted());
        self.items_paid(purpose, low, faults, out);
    }

    /// Go on after the dispenser did what it was asked.
    fn item_came(
        &mut self,
        purpose: Purpose,
        low: &[bool],
        faults: &mut Errors,
        out: &mut Vec<Effect>,
    )
        requires
            old(self).books_wf(),
            low@.len() == HOPPER_COUNT,
            !world::owes_items(old(self).counters) && (purpose is Sale || purpose is Resume && world::next_debt(
                old(self).counters,
                0,
            ) is None) ==> world::change_counts(old(self).settings, old(self).counters),
        ensures
            final(self).wf(),
            world::of(*final(self), *final(faults), final(out)@) == world::of(
                *old(self),
                *old(faults),
                old(out)@,
            ).item_came(purpose, low@),
    {
        proof {
            reveal(World::item_came);
        }
        let ghost w0 = world::of(*self, *faults, out@);
        let empty = self.counters.item_level <= self.settings.item_dispenser.min_level;
        error::set(faults, error::ITEM_DISPENSER_EMPTY, empty);
        assert(world::of(*self, *faults, out@) == w0.flagged(error::ITEM_DISPENSER_EMPTY, empty));
        self.payout_items(purpose, low, faults, out);
    }

    /// The dispenser has answered.
    fn item_dispensed(
        &mut self,
        purpose: Purpose,
        count: u16,
        failure: Option<HopperError>,
        low: &[bool],
        faults: &mut Errors,
        out: &mut Vec<Effect>,
    )
        requires
            old(self).wf(),
            old(self).stage == Stage::Items(purpose),
            old(self).counts((Input::Dispensed { count, failure }), *old(faults)),
            low@.len() == HOPPER_COUNT,
        ensures
            final(self).wf(),
            world::of(*final(self), *final(faults), final(out)@) == world::of(
                *old(self),
                *old(faults),
                old(out)@,
            ).item_answered(purpose, count, failure, low@),
    {
        proof {
            reveal(World::item_answered);
            reveal(World::pair_counted);
        }
        if count > 0 {
            self.count_pair(faults, out);
        }
        proof {
            lemma_same_debts(self.counters, old(self).counters, 0);
            lemma_same_change(self.settings, self.counters, old(self).counters);
        }
        if failure.is_some() {
            self.item_failed(purpose, low, faults, out);
        } else {
            self.item_came(purpose, low, faults, out);
        }
    }

    /// Count a coin of change that came out.
    fn count_coin(&mut self, hopper: usize, faults: &Errors, out: &mut Vec<Effect>)
        requires
            old(self).books_wf(),
            hopper < HOPPER_COUNT,
            old(self).counters.coins_pending@[hopper as int] > 0,
        ensures
            final(self).books_wf(),
            world::of(*final(self), *faults, final(out)@) == world::of(
                *old(self),
                *faults,
                old(out)@,
            ).coin_counted(hopper as int),
            final(self).counters == world::coin_out(
                old(self).counters,
                hopper as int,
                old(self).settings.coin_hoppers@[hopper as int].unit_value,
            ),
            final(self).settings == old(self).settings,
    {
        proof {
            reveal(World::coin_counted);
        }
        let ghost w0 = world::of(*self, *faults, out@);
        let value = self.settings.coin_hoppers[hopper].unit_value;
        self.counters = with_coin_out(&self.counters, hopper, value);
        let ghost w1 = w0.counting(world::coin_out(old(self).counters, hopper as int, value));
        assert(world::of(*self, *faults, out@) == w1);
        self.persist(out);
        assert(world::of(*self, *faults, out@) == w1.persisted());
        self.log(EventKind::HopperPayout, hopper as u32, out);
        assert(world::of(*self, *faults, out@) == w1.persisted().logged(
            EventKind::HopperPayout,
            hopper as u32,
        ));
    }

    /// Stop after a hopper would not pay.
    ///
    /// That is a fault, but not one that stops the machine selling: it can still take exact money. What the
    /// machine must not do is quietly forget the coins it still owes, so they stay pending.
    fn coin_failed(
        &mut self,
        owed: Option<Cash>,
        low: &[bool],
        faults: &mut Errors,
        out: &mut Vec<Effect>,
    )
        requires
            old(self).books_wf(),
            low@.len() == HOPPER_COUNT,
            owed is None ==> world::change_counts(old(self).settings, old(self).counters),
        ensures
            final(self).wf(),
            world::of(*final(self), *final(faults), final(out)@) == world::of(
                *old(self),
                *old(faults),
                old(out)@,
            ).coin_failed(owed, low@),
    {
        proof {
            reveal(World::coin_failed);
        }
        let ghost w0 = world::of(*self, *faults, out@);
        self.raise(error::COIN_HOPPER, faults, out);
        assert(world::of(*self, *faults, out@) == w0.raised(error::COIN_HOPPER));
        self.persist(out);
        assert(world::of(*self, *faults, out@) == w0.raised(error::COIN_HOPPER).persisted());
        match owed {
            Some(owed) => self.change_paid(owed, faults, out),
            None => self.resumed(low, faults, out),
        }
    }

    /// A hopper has answered.
    fn coin_dispensed(
        &mut self,
        hopper: usize,
        owed: Option<Cash>,
        count: u16,
        failure: Option<HopperError>,
        low: &[bool],
        faults: &mut Errors,
        out: &mut Vec<Effect>,
    )
        requires
            old(self).wf(),
            old(self).stage == (Stage::Coins { hopper, owed }),
            old(self).counts((Input::Dispensed { count, failure }), *old(faults)),
            low@.len() == HOPPER_COUNT,
        ensures
            final(self).wf(),
            world::of(*final(self), *final(faults), final(out)@) == world::of(
                *old(self),
                *old(faults),
                old(out)@,
            ).coin_answered(hopper as int, owed, count, failure, low@),
    {
        proof {
            reveal(World::coin_answered);
        }
        if count > 0 {
            self.count_coin(hopper, faults, out);
        }
        if failure.is_some() {
            self.coin_failed(owed, low, faults, out);
        } else {
            match owed {
                Some(owed) => self.pay_change(low, hopper, owed, faults, out),
                None => self.repay(low, hopper, faults, out),
            }
        }
    }

    /// A customer has paid enough. Sell them a pair.
    fn sell(&mut self, low: &[bool], faults: &mut Errors, out: &mut Vec<Effect>)
        requires
            old(self).wf(),
            old(self).stage is Idle,
            low@.len() == HOPPER_COUNT,
            old(self).counters.cash >= old(self).settings.item_dispenser.unit_value && !old(faults).has(
                error::FATAL,
            ) ==> old(self).counters.items_pending < u16::MAX,
        ensures
            final(self).wf(),
            world::of(*final(self), *final(faults), final(out)@) == world::of(
                *old(self),
                *old(faults),
                old(out)@,
            ).sold(low@),
    {
        proof {
            reveal(World::sold);
        }
        let ghost w0 = world::of(*self, *faults, out@);
        let price = self.price();
        if self.counters.cash < price || !faults.can_vend() {
            return;
        }
        self.counters.cash = self.counters.cash - price;
        self.counters.items_pending = self.counters.items_pending + 1;
        self.counters.app_state = AppState::PayoutItems;
        let ghost w1 = w0.counting(world::pair_bought(old(self).counters, price));
        assert(world::of(*self, *faults, out@) == w1);
        self.persist(out);
        assert(world::of(*self, *faults, out@) == w1.persisted());
        self.payout_items(Purpose::Sale, low, faults, out);
    }

    /// Give away a pair, from the service menu.
    fn dispense_free(&mut self, place: Place, low: &[bool], faults: &mut Errors, out: &mut Vec<Effect>)
        requires
            old(self).books_wf(),
            low@.len() == HOPPER_COUNT,
            old(self).counters.free_items_pending < u16::MAX,
        ensures
            final(self).wf(),
            world::of(*final(self), *final(faults), final(out)@) == world::of(
                *old(self),
                *old(faults),
                old(out)@,
            ).given(place, low@),
    {
        proof {
            reveal(World::given);
        }
        let ghost w0 = world::of(*self, *faults, out@);
        self.counters.free_items_pending = self.counters.free_items_pending + 1;
        self.counters.app_state = AppState::PayoutItems;
        let ghost w1 = w0.counting(world::pair_given(old(self).counters));
        assert(world::of(*self, *faults, out@) == w1);
        self.persist(out);
        assert(world::of(*self, *faults, out@) == w1.persisted());
        self.payout_items(Purpose::Free(place), low, faults, out);
    }

    /// Finish whatever the machine was doing when it last lost power, and show its situation.
    ///
    /// This comes before any event is handled, so a customer cannot start a new transaction on top of an
    /// unfinished one.
    pub fn resume(&mut self, low: &[bool], faults: &mut Errors) -> (effects: Vec<Effect>)
        requires
            old(self).wf(),
            low@.len() == HOPPER_COUNT,
        ensures
            final(self).wf(),
            world::of(*final(self), *final(faults), effects@) == world::of(
                *old(self),
                *old(faults),
                Seq::empty(),
            ).started(low@),
    {
        proof {
            reveal(World::started);
        }
        let mut out: Vec<Effect> = Vec::new();
        let ghost w0 = world::of(*self, *faults, out@);
        assert(w0 == world::of(*old(self), *old(faults), Seq::empty()));
        if !self.counters.owes_anything() {
            self.counters.app_state = AppState::AcceptCash;
            assert(world::of(*self, *faults, out@) == w0.serving(AppState::AcceptCash));
            self.refresh_display(faults, &mut out);
            self.stage = Stage::Idle;
            return out;
        }
        proof {
            if !world::owes_items(self.counters) {
                lemma_owes_coins(self.counters, 0);
            }
        }
        self.payout_items(Purpose::Resume, low, faults, &mut out);
        out
    }
}

/// A machine that owes something, but no covers, owes coins.
pub proof fn lemma_owes_coins(c: Counters, i: int)
    requires
        exists|j: int| i <= j < HOPPER_COUNT && #[trigger] c.coins_pending@[j] > 0,
        0 <= i,
    ensures
        world::next_debt(c, i) is Some,
    decreases HOPPER_COUNT - i,
{
    if c.coins_pending@[i] == 0 {
        lemma_owes_coins(c, i + 1);
    }
}

impl Machine {
    /// Does this input open the event log?
    pub open spec fn opens_log(self, input: Input) -> bool {
        &&& input == Input::Happened(Event::Button(Button::Accept))
        &&& self.stage matches Stage::Menu(place) && Item::all()[menu::visible(
            place.access,
        )[place.cursor as int] as int] == Item::EventLog
    }

    /// Serve a customer who is there, or whoever else comes to the machine while it waits.
    fn serve(&mut self, event: Event, low: &[bool], faults: &mut Errors, out: &mut Vec<Effect>)
        requires
            old(self).wf(),
            old(self).stage is Idle,
            old(self).counts(Input::Happened(event), *old(faults)),
            low@.len() == HOPPER_COUNT,
        ensures
            final(self).wf(),
            world::of(*final(self), *final(faults), final(out)@) == world::of(
                *old(self),
                *old(faults),
                old(out)@,
            ).served(event, low@),
    {
        proof {
            reveal(World::served);
            reveal(World::accepted);
        }
        match event {
            Event::Coin { value, .. } => {
                self.accept_coin(value, faults, out);
                // The machine sells as soon as it can. Asking the customer to press a button after paying
                // is one more thing to explain on a sticker.
                if self.counters.cash >= self.price() {
                    self.sell(low, faults, out);
                }
            },
            Event::Button(Button::Accept) => self.sell(low, faults, out),
            Event::Button(Button::Cancel) => {
                if self.counters.cash > 0 {
                    self.process_residual(low, faults, out);
                } else {
                    self.refresh_display(faults, out);
                }
            },
            Event::Button(_) => {},
            Event::Door { .. } => self.refresh_display(faults, out),
            Event::Key(key) => self.present_key(key, faults, out),
        }
    }

    /// Act on one event.
    fn handle(
        &mut self,
        event: Event,
        low: &[bool],
        log_lines: usize,
        faults: &mut Errors,
        out: &mut Vec<Effect>,
    )
        requires
            old(self).wf(),
            old(self).counts(Input::Happened(event), *old(faults)),
            low@.len() == HOPPER_COUNT,
        ensures
            final(self).wf(),
            world::of(*final(self), *final(faults), final(out)@) == world::of(
                *old(self),
                *old(faults),
                old(out)@,
            ).handled(event, low@, log_lines as nat),
    {
        proof {
            reveal(World::handled);
        }
        match self.stage {
            Stage::Idle => self.serve(event, low, faults, out),
            _ => match event {
                Event::Button(b) => self.button(Some(b), low, log_lines, faults, out),
                Event::Key(key) => match self.stage {
                    Stage::Keys { slot, .. } => self.enroll_key(slot, key, faults, out),
                    _ => {},
                },
                _ => {},
            },
        }
    }

    /// Act on the time to wait running out.
    fn elapse(
        &mut self,
        low: &[bool],
        log_lines: usize,
        faults: &mut Errors,
        out: &mut Vec<Effect>,
    )
        requires
            old(self).wf(),
            old(self).counts(Input::Elapsed, *old(faults)),
            low@.len() == HOPPER_COUNT,
        ensures
            final(self).wf(),
            world::of(*final(self), *final(faults), final(out)@) == world::of(
                *old(self),
                *old(faults),
                old(out)@,
            ).elapsed(low@, log_lines as nat),
    {
        proof {
            reveal(World::elapsed);
        }
        match self.stage {
            Stage::Idle => {
                if self.counters.cash > 0 {
                    self.process_residual(low, faults, out);
                }
            },
            Stage::TakeChange => self.change_taken(faults, out),
            Stage::Thanks => self.finish(faults, out),
            Stage::UnknownKey => {
                self.refresh_display(faults, out);
                self.stage = Stage::Idle;
            },
            _ => self.button(None, low, log_lines, faults, out),
        }
    }

    /// Take one step: act on what the machine is told, and say what is to be done.
    ///
    /// `low` is what the hoppers' level lines read, and `flash` is the region, for the event log.
    pub fn step(&mut self, input: Input, low: &[bool], flash: &[u8], faults: &mut Errors) -> (effects: Vec<
        Effect,
    >)
        requires
            old(self).wf(),
            old(self).expects(input),
            old(self).counts(input, *old(faults)),
            low@.len() == HOPPER_COUNT,
            flash@.len() == NVRAM_LEN,
        ensures
            final(self).wf(),
            exists|log_lines: nat|
                (old(self).opens_log(input) ==> service::log_has_lines(flash@, log_lines)) && world::of(
                    *final(self),
                    *final(faults),
                    effects@,
                ) == #[trigger] world::of(*old(self), *old(faults), Seq::empty()).stepped(
                    input,
                    low@,
                    log_lines,
                ),
    {
        proof {
            reveal(World::stepped);
        }
        let mut out: Vec<Effect> = Vec::new();
        let ghost w0 = world::of(*self, *faults, Seq::empty());
        assert(out@ =~= Seq::empty());
        let mut log_lines: usize = 0;
        if let Stage::Menu(place) = self.stage {
            if let Input::Happened(Event::Button(Button::Accept)) = input {
                if menu::visible_item(place.access, place.cursor) == Item::EventLog {
                    let text = report::events(&self.events, flash);
                    log_lines = menu::line_count(text.as_str());
                }
            }
        }
        assert(self.opens_log(input) ==> service::log_has_lines(flash@, log_lines as nat));
        match input {
            Input::Happened(event) => self.handle(event, low, log_lines, faults, &mut out),
            Input::Elapsed => self.elapse(low, log_lines, faults, &mut out),
            Input::Dispensed { count, failure } => match self.stage {
                Stage::Items(purpose) => self.item_dispensed(
                    purpose,
                    count,
                    failure,
                    low,
                    faults,
                    &mut out,
                ),
                Stage::Coins { hopper, owed } => self.coin_dispensed(
                    hopper,
                    owed,
                    count,
                    failure,
                    low,
                    faults,
                    &mut out,
                ),
                _ => {},
            },
        }
        assert(world::of(*self, *faults, out@) == w0.stepped(input, low@, log_lines as nat));
        out
    }

    /// What to wait for next.
    pub open spec fn waits(self) -> Wait {
        match self.stage {
            Stage::Idle => Wait::Event(
                if self.counters.cash > 0 {
                    self.settings.cash_clear_timeout as u64
                } else {
                    IDLE_SECONDS
                },
            ),
            Stage::Items(_) => Wait::Dispenser,
            Stage::Coins { hopper, .. } => Wait::Hopper(hopper),
            Stage::TakeChange => Wait::Delay(self.settings.payout_message_delay as u64),
            Stage::Thanks => Wait::Delay(self.settings.thanks_message_delay as u64),
            Stage::UnknownKey => Wait::Delay(UNKNOWN_KEY_SECONDS),
            _ => Wait::Event(self.settings.menu_exit_timeout as u64),
        }
    }

    /// What to wait for next.
    ///
    /// Credit left sitting with nobody around is returned rather than kept, so with credit the wait is
    /// short. The wait for a button in the menu starts afresh with every event.
    pub fn wait(&self) -> (wait: Wait)
        ensures
            wait == self.waits(),
    {
        match self.stage {
            Stage::Idle => Wait::Event(
                if self.counters.cash > 0 {
                    self.settings.cash_clear_timeout as u64
                } else {
                    IDLE_SECONDS
                },
            ),
            Stage::Items(_) => Wait::Dispenser,
            Stage::Coins { hopper, .. } => Wait::Hopper(hopper),
            Stage::TakeChange => Wait::Delay(self.settings.payout_message_delay as u64),
            Stage::Thanks => Wait::Delay(self.settings.thanks_message_delay as u64),
            Stage::UnknownKey => Wait::Delay(UNKNOWN_KEY_SECONDS),
            _ => Wait::Event(self.settings.menu_exit_timeout as u64),
        }
    }

}

/// Can the coins owed still be counted once the credit is turned into change?
fn change_fits(settings: &Settings, c: &Counters) -> (b: bool)
    ensures
        b == world::change_counts(*settings, *c),
{
    if c.cash == 0 {
        return true;
    }
    let (plan, _) = plan_change(settings.coin_hoppers.as_slice(), c.coin_levels.as_slice(), c.cash);
    let mut i: usize = 0;
    while i < HOPPER_COUNT
        invariant
            i <= HOPPER_COUNT,
            plan@ == world::change_plan(*settings, *c),
            plan@.len() == HOPPER_COUNT,
            c.cash != 0,
            forall|j: int|
                0 <= j < i ==> c.coins_pending@[j] + #[trigger] world::change_plan(*settings, *c)[j]
                    <= u16::MAX,
        decreases HOPPER_COUNT - i,
    {
        if plan[i] > u16::MAX - c.coins_pending[i] {
            assert(c.coins_pending@[i as int] + world::change_plan(*settings, *c)[i as int] > u16::MAX);
            return false;
        }
        i += 1;
    }
    true
}

/// Does a hopper from `from` on owe coins?
fn owes_coins(c: &Counters, from: usize) -> (b: bool)
    requires
        from <= HOPPER_COUNT,
    ensures
        b == world::next_debt(*c, from as int) is Some,
{
    let mut i = from;
    while i < HOPPER_COUNT
        invariant
            from <= i <= HOPPER_COUNT,
            world::next_debt(*c, from as int) == world::next_debt(*c, i as int),
        decreases HOPPER_COUNT - i,
    {
        if c.coins_pending[i] > 0 {
            return true;
        }
        i += 1;
    }
    false
}

impl Machine {
    /// Can the pair that comes out next still be counted?
    fn pair_fits(&self) -> (b: bool)
        ensures
            b == world::pair_counts(self.counters),
    {
        if self.counters.items_pending == 0 {
            self.counters.overall.items_free < u32::MAX && self.counters.period.items_free < u32::MAX
        } else {
            self.counters.overall.items_dispensed < u32::MAX && self.counters.period.items_dispensed
                < u32::MAX
        }
    }

    /// Can everything that the dispenser's answer makes the machine count still be counted?
    fn item_fits(&self, purpose: Purpose, count: u16, failed: bool) -> (b: bool)
        requires
            self.wf(),
            self.stage == Stage::Items(purpose),
        ensures
            forall|failure: Option<HopperError>, faults: Errors|
                failure is Some == failed ==> b == #[trigger] self.counts(
                    (Input::Dispensed { count, failure }),
                    faults,
                ),
    {
        if count > 0 && !self.pair_fits() {
            return false;
        }
        let after = if count > 0 {
            with_pair_out(&self.counters)
        } else {
            self.counters
        };
        let done = failed || !(after.items_pending > 0 || after.free_items_pending > 0);
        let turns_to_change = match purpose {
            Purpose::Sale => true,
            Purpose::Resume => !owes_coins(&self.counters, 0),
            Purpose::Free(_) => false,
        };
        !(done && turns_to_change) || change_fits(&self.settings, &self.counters)
    }

    /// Can everything that a hopper's answer makes the machine count still be counted?
    fn coin_fits(&self, hopper: usize, owed: Option<Cash>, count: u16, failed: bool) -> (b: bool)
        requires
            self.wf(),
            self.stage == (Stage::Coins { hopper, owed }),
        ensures
            forall|failure: Option<HopperError>, faults: Errors|
                failure is Some == failed ==> b == #[trigger] self.counts(
                    (Input::Dispensed { count, failure }),
                    faults,
                ),
    {
        if owed.is_some() {
            return true;
        }
        let after = if count > 0 {
            with_coin_out(&self.counters, hopper, self.settings.coin_hoppers[hopper].unit_value)
        } else {
            self.counters
        };
        !(failed || !owes_coins(&after, hopper)) || change_fits(&self.settings, &after)
    }

    /// Is the machine waiting for this input, and can everything that it makes the machine count still be
    /// counted?
    ///
    /// The counters are wide enough for the life of any machine, but they are not endless, and a machine
    /// that cannot count what it owes must not go on as if it could.
    pub fn accepts(&self, input: &Input, faults: &Errors) -> (b: bool)
        requires
            self.wf(),
        ensures
            b == (self.expects(*input) && self.counts(*input, *faults)),
    {
        match input {
            Input::Happened(event) => match self.stage {
                Stage::Idle => match event {
                    Event::Coin { value, .. } => {
                        let cash = self.counters.cash.saturating_add(*value);
                        !(cash >= self.price() && faults.can_vend()) || self.counters.items_pending < u16::MAX
                    },
                    Event::Button(Button::Accept) => !(self.counters.cash >= self.price()
                        && faults.can_vend()) || self.counters.items_pending < u16::MAX,
                    Event::Button(Button::Cancel) => change_fits(&self.settings, &self.counters),
                    _ => true,
                },
                Stage::Menu(place) => match event {
                    Event::Button(Button::Accept) => menu::visible_item(place.access, place.cursor)
                        != Item::FreeItem || self.counters.free_items_pending < u16::MAX,
                    _ => true,
                },
                Stage::Edit { .. } => true,
                Stage::Report { .. } => true,
                Stage::Keys { .. } => true,
                _ => false,
            },
            Input::Elapsed => match self.stage {
                Stage::Idle => change_fits(&self.settings, &self.counters),
                Stage::Items(_) => false,
                Stage::Coins { .. } => false,
                _ => true,
            },
            Input::Dispensed { count, failure } => match self.stage {
                Stage::Items(purpose) => self.item_fits(purpose, *count, failure.is_some()),
                Stage::Coins { hopper, owed } => self.coin_fits(hopper, owed, *count, failure.is_some()),
                _ => false,
            },
        }
    }
}

/// Load what the machine knew before it was switched off.
pub fn restore(flash: &[u8], faults: &mut Errors) -> (known: (Settings, Counters, Journal))
    requires
        flash@.len() == NVRAM_LEN,
    ensures
        known.0 == stored::settings_in(flash@),
        (known.2, known.1) == Journal::opened(flash@),
        known.2.wf(),
        *final(faults) == journal::faults_after_scan(
            old(faults).with(stored::settings_fault(flash@)),
            flash@,
            journal::RECORDS as nat,
        ),
{
    let settings = load_settings(flash, faults);
    let (journal, counters) = Journal::open(flash, faults);
    (settings, counters, journal)
}

} // verus!
