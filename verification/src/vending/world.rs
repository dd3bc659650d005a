//! What each step of the machine does, as a function from the world before to the world after.
use vstd::prelude::*;

use crate::change;
use crate::config::HOPPER_COUNT;
use crate::error::{self, Errors};
use crate::event::{Button, Event};
use crate::hopper::HopperError;
use crate::menu::{self, Item, KEY_SLOTS};
use crate::report;
use crate::state::{
    self, Accounting, AppState, Cash, Counters, EventKind, HopperSettings, IbuttonKey, Level, Settings,
};
use crate::ui::Screen;
use crate::vending::{Effect, Input, Machine, Place, Purpose, ReportKind, Stage};

verus! {

/// The sum of two amounts, or the most that can be counted.
pub open spec fn plus(a: Cash, b: Cash) -> Cash {
    if a + b <= u32::MAX {
        (a + b) as Cash
    } else {
        u32::MAX
    }
}

/// One less, but not below nothing.
pub open spec fn one_less(n: Level) -> Level {
    if n > 0 {
        (n - 1) as Level
    } else {
        0
    }
}

/// The counters after a coin.
pub open spec fn coin_taken(c: Counters, value: Cash) -> Counters {
    Counters {
        cash: plus(c.cash, value),
        overall: Accounting { cash_in: plus(c.overall.cash_in, value), ..c.overall },
        period: Accounting { cash_in: plus(c.period.cash_in, value), ..c.period },
        ..c
    }
}

/// The counters after a pair was bought and before it came out.
pub open spec fn pair_bought(c: Counters, price: Cash) -> Counters {
    Counters {
        cash: (c.cash - price) as Cash,
        items_pending: (c.items_pending + 1) as Level,
        app_state: AppState::PayoutItems,
        ..c
    }
}

/// The counters after a pair was given away and before it came out.
pub open spec fn pair_given(c: Counters) -> Counters {
    Counters {
        free_items_pending: (c.free_items_pending + 1) as Level,
        app_state: AppState::PayoutItems,
        ..c
    }
}

/// Is the next pair to come out one that was not paid for?
pub open spec fn next_is_free(c: Counters) -> bool {
    c.items_pending == 0
}

/// The counters after a pair came out.
pub open spec fn pair_out(c: Counters) -> Counters {
    if next_is_free(c) {
        Counters {
            free_items_pending: (c.free_items_pending - 1) as Level,
            overall: Accounting { items_free: (c.overall.items_free + 1) as u32, ..c.overall },
            period: Accounting { items_free: (c.period.items_free + 1) as u32, ..c.period },
            item_level: one_less(c.item_level),
            ..c
        }
    } else {
        Counters {
            items_pending: (c.items_pending - 1) as Level,
            overall: Accounting { items_dispensed: (c.overall.items_dispensed + 1) as u32, ..c.overall },
            period: Accounting { items_dispensed: (c.period.items_dispensed + 1) as u32, ..c.period },
            item_level: one_less(c.item_level),
            ..c
        }
    }
}

/// The counters after a coin of change worth `value` came out of a hopper.
pub open spec fn coin_out(c: Counters, hopper: int, value: Cash) -> Counters {
    Counters {
        coins_pending: vstd::array::spec_array_update(
            c.coins_pending,
            hopper,
            (c.coins_pending@[hopper] - 1) as Level,
        ),
        coin_levels: vstd::array::spec_array_update(
            c.coin_levels,
            hopper,
            one_less(c.coin_levels@[hopper]),
        ),
        overall: Accounting { cash_out: plus(c.overall.cash_out, value), ..c.overall },
        period: Accounting { cash_out: plus(c.period.cash_out, value), ..c.period },
        ..c
    }
}

/// What each hopper is to give towards the credit.
pub open spec fn change_plan(settings: Settings, c: Counters) -> Seq<u16> {
    change::planned(settings.coin_hoppers@, c.coin_levels@, c.cash)
}

/// What of the credit cannot be paid.
pub open spec fn change_short(settings: Settings, c: Counters) -> Cash {
    change::unpayable(settings.coin_hoppers@, c.coin_levels@, c.cash)
}

/// What the change to be paid comes to.
pub open spec fn change_owed(settings: Settings, c: Counters) -> Cash {
    (c.cash - change_short(settings, c)) as Cash
}

/// The coins owed after those of a plan are added, for the first `n` hoppers.
pub open spec fn owing_more(
    pending: [Level; HOPPER_COUNT],
    plan: Seq<u16>,
    n: nat,
) -> [Level; HOPPER_COUNT]
    decreases n,
{
    if n == 0 {
        pending
    } else {
        vstd::array::spec_array_update(
            owing_more(pending, plan, (n - 1) as nat),
            n - 1,
            (pending@[n - 1] + plan[n - 1]) as Level,
        )
    }
}

/// The counters after change was planned and before a coin of it came out.
pub open spec fn change_planned(settings: Settings, c: Counters) -> Counters {
    Counters {
        coins_pending: owing_more(c.coins_pending, change_plan(settings, c), HOPPER_COUNT as nat),
        cash: change_short(settings, c),
        app_state: AppState::PayoutReminder,
        ..c
    }
}

/// Can the coins owed still be counted once the credit is turned into change?
pub open spec fn change_counts(settings: Settings, c: Counters) -> bool {
    c.cash == 0 || forall|i: int|
        0 <= i < HOPPER_COUNT ==> c.coins_pending@[i] + #[trigger] change_plan(settings, c)[i] <= u16::MAX
}

/// Can the pair that comes out next still be counted?
pub open spec fn pair_counts(c: Counters) -> bool {
    if next_is_free(c) {
        c.overall.items_free < u32::MAX && c.period.items_free < u32::MAX
    } else {
        c.overall.items_dispensed < u32::MAX && c.period.items_dispensed < u32::MAX
    }
}

/// Are covers owed?
pub open spec fn owes_items(c: Counters) -> bool {
    c.items_pending > 0 || c.free_items_pending > 0
}

/// The first hopper from `i` on that owes coins.
pub open spec fn next_debt(c: Counters, i: int) -> Option<int>
    decreases HOPPER_COUNT - i,
{
    if i >= HOPPER_COUNT {
        None
    } else if c.coins_pending@[i] > 0 {
        Some(i)
    } else {
        next_debt(c, i + 1)
    }
}

/// Does the machine's hopper count as empty? Either the counter or the hopper's own level line is enough:
/// they disagree whenever somebody has refilled it without saying so, or coins have been taken out by hand.
pub open spec fn hopper_empty(m: Machine, low: Seq<bool>, i: int) -> bool {
    low[i] || m.counters.coin_levels@[i] <= m.settings.coin_hoppers@[i].min_level
}

/// The machine, the faults, and what is to be done: everything a step changes.
#[verifier::ext_equal]
pub struct World {
    /// The machine.
    pub m: Machine,
    /// The faults.
    pub faults: Errors,
    /// What is to be done.
    pub out: Seq<Effect>,
}

/// A world with these parts.
pub open spec fn of(m: Machine, faults: Errors, out: Seq<Effect>) -> World {
    World { m, faults, out }
}

impl World {
    /// One more thing to do.
    pub open spec fn doing(self, e: Effect) -> World {
        World { out: self.out.push(e), ..self }
    }

    /// The counters changed.
    pub open spec fn counting(self, counters: Counters) -> World {
        World { m: Machine { counters, ..self.m }, ..self }
    }

    /// The customer's progress changed.
    pub open spec fn serving(self, app_state: AppState) -> World {
        self.counting(Counters { app_state, ..self.m.counters })
    }

    /// The machine is in the middle of something else.
    pub open spec fn at(self, stage: Stage) -> World {
        World { m: Machine { stage, ..self.m }, ..self }
    }

    /// The counters are written down.
    pub open spec fn persisted(self) -> World {
        World { m: Machine { journal: self.m.journal.advanced(), ..self.m }, ..self }.doing(
            Effect::Save(self.m.journal.saving(self.m.counters)),
        )
    }

    /// Something is remembered.
    pub open spec fn logged(self, kind: EventKind, value: u32) -> World {
        World { m: Machine { events: self.m.events.advanced(), ..self.m }, ..self }.doing(
            Effect::Log(self.m.events.recording(kind, value)),
        )
    }

    /// A fault appeared.
    pub open spec fn raised(self, mask: u32) -> World {
        World { faults: self.faults.with(mask), ..self }.logged(EventKind::ErrorRaised, mask)
    }

    /// A fault is present or not.
    pub open spec fn flagged(self, mask: u32, present: bool) -> World {
        World { faults: self.faults.put(mask, present), ..self }
    }

    /// What a pair costs.
    pub open spec fn price(self) -> Cash {
        self.m.settings.item_dispenser.unit_value
    }

    /// The screen for the machine's situation.
    pub open spec fn situation(self) -> Screen {
        if self.faults.has(error::FATAL) {
            Screen::Fault(self.faults)
        } else if self.m.counters.cash > 0 {
            Screen::Credit {
                cash: self.m.counters.cash,
                price: self.price(),
                currency: self.m.settings.currency,
            }
        } else {
            Screen::Idle { price: self.price(), currency: self.m.settings.currency }
        }
    }

    /// The machine's situation is shown.
    pub open spec fn refreshed(self) -> World {
        self.doing(Effect::Show(self.situation()))
    }

    /// A coin is taken.
    #[verifier::opaque]
    pub open spec fn accepted(self, value: Cash) -> World {
        self.counting(coin_taken(self.m.counters, value)).persisted().logged(
            EventKind::Coin,
            value,
        ).refreshed()
    }

    /// A customer is done with: back to waiting.
    #[verifier::opaque]
    pub open spec fn finished(self) -> World {
        self.serving(AppState::AcceptCash).persisted().refreshed().at(Stage::Idle)
    }

    /// The customer has taken their change, or there was none.
    #[verifier::opaque]
    pub open spec fn change_taken(self) -> World {
        if self.m.counters.cash == 0 {
            self.doing(Effect::Show(Screen::Thanks)).at(Stage::Thanks)
        } else {
            self.finished()
        }
    }

    /// Change has been paid, or as much of it as would come out.
    #[verifier::opaque]
    pub open spec fn change_paid(self, owed: Cash) -> World {
        if owed > 0 {
            self.doing(
                Effect::Show(
                    Screen::TakeChange { amount: owed, currency: self.m.settings.currency },
                ),
            ).at(Stage::TakeChange)
        } else {
            self.change_taken()
        }
    }

    /// The hoppers from `i` up to `j` owe nothing, and whether they are empty is noted of each.
    pub open spec fn passed(self, low: Seq<bool>, i: int, j: int) -> World
        decreases j - i,
    {
        if i >= j {
            self
        } else {
            self.passed(low, i, j - 1).flagged(
                error::COIN_HOPPER_EMPTY,
                hopper_empty(self.m, low, j - 1),
            )
        }
    }

    /// Coins of change are paid, from hopper `i` on.
    #[verifier::opaque]
    pub open spec fn paying(self, low: Seq<bool>, i: int, owed: Cash) -> World {
        match next_debt(self.m.counters, i) {
            Some(h) => self.passed(low, i, h).at(
                Stage::Coins { hopper: h as usize, owed: Some(owed) },
            ),
            None => self.passed(low, i, HOPPER_COUNT as int).change_paid(owed),
        }
    }

    /// The credit that is left is turned into change, and paid.
    ///
    /// The plan is written down before a single coin moves. A machine that loses power between planning and
    /// paying must come back owing coins, not owing credit it has already spent.
    #[verifier::opaque]
    pub open spec fn residual(self, low: Seq<bool>) -> World {
        let c = self.m.counters;
        let settings = self.m.settings;
        if c.cash == 0 {
            self.finished()
        } else {
            self.counting(change_planned(settings, c)).persisted().flagged(
                error::CANNOT_PAYOUT,
                change_short(settings, c) > 0,
            ).paying(low, 0, change_owed(settings, c))
        }
    }

    /// The debts from before a power cut are paid, or as far as they would come out.
    #[verifier::opaque]
    pub open spec fn resumed(self, low: Seq<bool>) -> World {
        if self.m.counters.cash > 0 {
            self.residual(low)
        } else {
            self.refreshed().at(Stage::Idle)
        }
    }

    /// Coins owed from before a power cut are paid, from hopper `i` on.
    #[verifier::opaque]
    pub open spec fn repaying(self, low: Seq<bool>, i: int) -> World {
        match next_debt(self.m.counters, i) {
            Some(h) => self.passed(low, i, h).at(Stage::Coins { hopper: h as usize, owed: None }),
            None => self.passed(low, i, HOPPER_COUNT as int).resumed(low),
        }
    }

    /// Covers have been dispensed, or as many as would come out.
    #[verifier::opaque]
    pub open spec fn items_paid(self, purpose: Purpose, low: Seq<bool>) -> World {
        match purpose {
            Purpose::Resume => self.repaying(low, 0),
            Purpose::Sale => self.residual(low),
            Purpose::Free(place) => self.refreshed().listed(place),
        }
    }

    /// Covers are dispensed, one at a time.
    #[verifier::opaque]
    pub open spec fn dispensing(self, purpose: Purpose, low: Seq<bool>) -> World {
        if owes_items(self.m.counters) {
            self.doing(Effect::Show(Screen::Dispensing)).at(Stage::Items(purpose))
        } else {
            self.serving(AppState::ProcessResidual).persisted().items_paid(purpose, low)
        }
    }

    /// A pair came out, and is counted.
    #[verifier::opaque]
    pub open spec fn pair_counted(self) -> World {
        self.counting(pair_out(self.m.counters)).persisted().logged(
            EventKind::ItemDispensed,
            if next_is_free(self.m.counters) {
                0
            } else {
                1
            },
        )
    }

    /// The dispenser will not dispense, which stops the machine: there is nothing to sell.
    #[verifier::opaque]
    pub open spec fn item_failed(self, purpose: Purpose, low: Seq<bool>) -> World {
        self.raised(error::ITEM_DISPENSER).persisted().items_paid(purpose, low)
    }

    /// The dispenser is well, and goes on if more is owed.
    #[verifier::opaque]
    pub open spec fn item_came(self, purpose: Purpose, low: Seq<bool>) -> World {
        self.flagged(
            error::ITEM_DISPENSER_EMPTY,
            self.m.counters.item_level <= self.m.settings.item_dispenser.min_level,
        ).dispensing(purpose, low)
    }

    /// The dispenser has answered.
    #[verifier::opaque]
    pub open spec fn item_answered(
        self,
        purpose: Purpose,
        count: u16,
        failure: Option<HopperError>,
        low: Seq<bool>,
    ) -> World {
        let counted = if count > 0 {
            self.pair_counted()
        } else {
            self
        };
        if failure is Some {
            counted.item_failed(purpose, low)
        } else {
            counted.item_came(purpose, low)
        }
    }

    /// A coin of change came out of a hopper, and is counted.
    #[verifier::opaque]
    pub open spec fn coin_counted(self, hopper: int) -> World {
        self.counting(
            coin_out(
                self.m.counters,
                hopper,
                self.m.settings.coin_hoppers@[hopper].unit_value,
            ),
        ).persisted().logged(EventKind::HopperPayout, hopper as u32)
    }

    /// A hopper will not pay. That is a fault, but not one that stops the machine selling: it can still take
    /// exact money. The coins it still owes stay pending.
    #[verifier::opaque]
    pub open spec fn coin_failed(self, owed: Option<Cash>, low: Seq<bool>) -> World {
        let stopped = self.raised(error::COIN_HOPPER).persisted();
        match owed {
            Some(owed) => stopped.change_paid(owed),
            None => stopped.resumed(low),
        }
    }

    /// A hopper has answered.
    #[verifier::opaque]
    pub open spec fn coin_answered(
        self,
        hopper: int,
        owed: Option<Cash>,
        count: u16,
        failure: Option<HopperError>,
        low: Seq<bool>,
    ) -> World {
        let counted = if count > 0 {
            self.coin_counted(hopper)
        } else {
            self
        };
        if failure is Some {
            counted.coin_failed(owed, low)
        } else {
            match owed {
                Some(owed) => counted.paying(low, hopper, owed),
                None => counted.repaying(low, hopper),
            }
        }
    }

    /// A pair is sold, if it has been paid for and the machine can sell.
    #[verifier::opaque]
    pub open spec fn sold(self, low: Seq<bool>) -> World {
        if self.m.counters.cash < self.price() || self.faults.has(error::FATAL) {
            self
        } else {
            self.counting(pair_bought(self.m.counters, self.price())).persisted().dispensing(
                Purpose::Sale,
                low,
            )
        }
    }

    /// A pair is given away.
    #[verifier::opaque]
    pub open spec fn given(self, place: Place, low: Seq<bool>) -> World {
        self.counting(pair_given(self.m.counters)).persisted().dispensing(Purpose::Free(place), low)
    }

    /// The machine is switched on.
    #[verifier::opaque]
    pub open spec fn started(self, low: Seq<bool>) -> World {
        if self.m.counters.owes() {
            self.dispensing(Purpose::Resume, low)
        } else {
            self.serving(AppState::AcceptCash).refreshed().at(Stage::Idle)
        }
    }

    /// The menu is left.
    #[verifier::opaque]
    pub open spec fn left_menu(self) -> World {
        self.logged(EventKind::ServiceExited, 0).doing(Effect::Inhibit(false)).refreshed().at(
            Stage::Idle,
        )
    }

    /// The menu is shown, at a place in it.
    #[verifier::opaque]
    pub open spec fn listed(self, place: Place) -> World {
        let count = menu::visible(place.access).len();
        if count == 0 {
            self.left_menu()
        } else {
            let cursor = if place.cursor < count {
                place.cursor
            } else {
                (count - 1) as usize
            };
            self.at(Stage::Menu(Place { cursor, ..place })).doing(Effect::ShowStage)
        }
    }

    /// A key is presented to a machine that is waiting for customers.
    #[verifier::opaque]
    pub open spec fn keyed(self, key: IbuttonKey) -> World {
        match menu::access_of(key, self.m.settings) {
            // The acceptor is shut for the whole visit, so that a coin cannot arrive in the middle of a
            // refill and be counted against a level the engineer is editing.
            Some(access) => self.doing(Effect::Inhibit(true)).logged(
                EventKind::ServiceEntered,
                access.level() as u32,
            ).listed(Place { access, cursor: 0 }),
            None => self.at(Stage::UnknownKey).doing(Effect::ShowStage),
        }
    }

    /// A report is opened.
    #[verifier::opaque]
    pub open spec fn reading(self, place: Place, kind: ReportKind, lines: nat) -> World {
        if lines == 0 {
            self.listed(place)
        } else {
            self.at(Stage::Report { place, kind, at: 0, lines: lines as usize }).doing(Effect::ShowStage)
        }
    }

    /// An item of the menu is chosen. `log_lines` is how many lines the event log's report has.
    #[verifier::opaque]
    pub open spec fn chosen(self, place: Place, item: Item, low: Seq<bool>, log_lines: nat) -> World {
        match item {
            Item::Accounting => self.reading(
                place,
                ReportKind::Accounting,
                menu::lines(report::accounting_report(self.m.counters, self.m.settings)).len(),
            ),
            Item::State => self.reading(
                place,
                ReportKind::State(self.faults),
                menu::lines(
                    report::state_report(self.m.counters, self.m.settings, self.faults),
                ).len(),
            ),
            Item::EventLog => self.reading(place, ReportKind::Events, log_lines),
            Item::RefillItems => self.editing(place, item),
            Item::RefillHopper(i) => if i < HOPPER_COUNT {
                self.editing(place, item)
            } else {
                self.listed(place)
            },
            Item::FreeItem => self.given(place, low),
            Item::Price => self.editing(place, item),
            Item::ClearPeriod => self.counting(
                Counters { period: Accounting::zero(), ..self.m.counters },
            ).persisted().listed(place),
            Item::Keys => self.at(Stage::Keys { place, slot: 0 }).doing(Effect::ShowStage),
        }
    }

    /// A number is edited from where it stands.
    #[verifier::opaque]
    pub open spec fn editing(self, place: Place, item: Item) -> World {
        self.at(
            Stage::Edit { place, item, value: item.edit_start(self.m.settings, self.m.counters) },
        ).doing(Effect::ShowStage)
    }

    /// A number that was edited is taken over. A refill is not taken beyond what there is room for.
    #[verifier::opaque]
    pub open spec fn edited(self, item: Item, value: u32) -> World {
        let max = item.edit_max(self.m.settings);
        let clamped = if value <= max {
            value
        } else {
            max
        };
        match item {
            Item::RefillItems => self.counting(
                Counters { item_level: clamped as Level, ..self.m.counters },
            ).persisted().flagged(error::ITEM_DISPENSER_EMPTY, false),
            Item::RefillHopper(i) => self.counting(
                Counters {
                    coin_levels: vstd::array::spec_array_update(
                        self.m.counters.coin_levels,
                        i as int,
                        clamped as Level,
                    ),
                    ..self.m.counters
                },
            ).persisted().flagged(error::COIN_HOPPER_EMPTY, false),
            _ => {
                let item_dispenser = HopperSettings {
                    unit_value: value,
                    ..self.m.settings.item_dispenser
                };
                let settings = Settings { item_dispenser, ..self.m.settings };
                World { m: Machine { settings, ..self.m }, ..self }.doing(Effect::Store(settings))
            },
        }
    }

    /// A slot of the key table is filled or cleared.
    #[verifier::opaque]
    pub open spec fn enrolled(self, slot: u8, key: IbuttonKey) -> World {
        let (level, i) = menu::key_slot(slot);
        let settings = Settings {
            keys: vstd::array::spec_array_update(
                self.m.settings.keys,
                level,
                vstd::array::spec_array_update(self.m.settings.keys@[level], i, key),
            ),
            ..self.m.settings
        };
        World { m: Machine { settings, ..self.m }, ..self }.doing(Effect::Store(settings)).doing(
            Effect::ShowStage,
        )
    }

    /// A button is pressed, or the time to press one ran out, while the menu is open.
    #[verifier::opaque]
    pub open spec fn menu_pressed(
        self,
        place: Place,
        button: Option<Button>,
        low: Seq<bool>,
        log_lines: nat,
    ) -> World {
        let items = menu::visible(place.access);
        match button {
            None => self.left_menu(),
            Some(Button::Cancel) => self.left_menu(),
            Some(Button::Next) => self.listed(
                Place { cursor: ((place.cursor + 1) % items.len() as int) as usize, ..place },
            ),
            Some(Button::Prev) => self.listed(
                Place {
                    cursor: if place.cursor == 0 {
                        (items.len() - 1) as usize
                    } else {
                        (place.cursor - 1) as usize
                    },
                    ..place
                },
            ),
            Some(Button::Accept) => self.chosen(
                place,
                Item::all()[items[place.cursor as int] as int],
                low,
                log_lines,
            ),
        }
    }

    /// A button is pressed, or the time to press one ran out, while a number is edited.
    #[verifier::opaque]
    pub open spec fn edit_pressed(
        self,
        place: Place,
        item: Item,
        value: u32,
        button: Option<Button>,
    ) -> World {
        match button {
            None => self.listed(place),
            Some(Button::Cancel) => self.listed(place),
            Some(Button::Next) => self.at(
                Stage::Edit {
                    place,
                    item,
                    value: menu::stepped_up(value, item.edit_step(), item.edit_max(self.m.settings)),
                },
            ).doing(Effect::ShowStage),
            Some(Button::Prev) => self.at(
                Stage::Edit { place, item, value: menu::stepped_down(value, item.edit_step()) },
            ).doing(Effect::ShowStage),
            Some(Button::Accept) => self.edited(item, value).listed(place),
        }
    }

    /// A button is pressed, or the time to press one ran out, while a report is read.
    #[verifier::opaque]
    pub open spec fn report_pressed(
        self,
        place: Place,
        kind: ReportKind,
        at: usize,
        lines: usize,
        button: Option<Button>,
    ) -> World {
        if button is None || at + 2 >= lines {
            self.listed(place)
        } else {
            self.at(Stage::Report { place, kind, at: (at + 2) as usize, lines }).doing(Effect::ShowStage)
        }
    }

    /// A button is pressed, or the time to press one ran out, while the key table is looked through.
    #[verifier::opaque]
    pub open spec fn keys_pressed(self, place: Place, slot: u8, button: Option<Button>) -> World {
        match button {
            None => self.listed(place),
            Some(Button::Accept) => self.listed(place),
            Some(Button::Cancel) => self.enrolled(slot, state::no_key()),
            Some(Button::Next) => self.at(
                Stage::Keys { place, slot: ((slot + 1) % KEY_SLOTS as int) as u8 },
            ).doing(Effect::ShowStage),
            Some(Button::Prev) => self.at(
                Stage::Keys {
                    place,
                    slot: if slot == 0 {
                        (KEY_SLOTS - 1) as u8
                    } else {
                        (slot - 1) as u8
                    },
                },
            ).doing(Effect::ShowStage),
        }
    }

    /// A button is pressed, or the time to press one ran out, in the menu.
    #[verifier::opaque]
    pub open spec fn pressed(self, button: Option<Button>, low: Seq<bool>, log_lines: nat) -> World {
        match self.m.stage {
            Stage::Menu(place) => self.menu_pressed(place, button, low, log_lines),
            Stage::Edit { place, item, value } => self.edit_pressed(place, item, value, button),
            Stage::Report { place, kind, at, lines } => self.report_pressed(
                place,
                kind,
                at,
                lines,
                button,
            ),
            Stage::Keys { place, slot } => self.keys_pressed(place, slot, button),
            _ => self,
        }
    }

    /// Something happens to a machine that is waiting for customers.
    #[verifier::opaque]
    pub open spec fn served(self, event: Event, low: Seq<bool>) -> World {
        match event {
            Event::Coin { value, .. } => {
                let w = self.accepted(value);
                // The machine sells as soon as it can. Asking the customer to press a button after paying
                // is one more thing to explain on a sticker.
                if w.m.counters.cash >= w.price() {
                    w.sold(low)
                } else {
                    w
                }
            },
            Event::Button(Button::Accept) => self.sold(low),
            Event::Button(Button::Cancel) => if self.m.counters.cash > 0 {
                self.residual(low)
            } else {
                self.refreshed()
            },
            Event::Button(_) => self,
            Event::Door { .. } => self.refreshed(),
            Event::Key(key) => self.keyed(key),
        }
    }

    /// Something happens.
    ///
    /// While the menu is open, coins and doors are ignored rather than queued: acting on them later, after
    /// the engineer has changed the price, would be worse than losing them, and the acceptor is inhibited so
    /// there should not be any. A key is only looked at where it can be enrolled.
    #[verifier::opaque]
    pub open spec fn handled(self, event: Event, low: Seq<bool>, log_lines: nat) -> World {
        if self.m.stage is Idle {
            self.served(event, low)
        } else {
            match event {
                Event::Button(b) => self.pressed(Some(b), low, log_lines),
                Event::Key(key) => match self.m.stage {
                    Stage::Keys { slot, .. } => self.enrolled(slot, key),
                    _ => self,
                },
                _ => self,
            }
        }
    }

    /// The time to wait runs out.
    #[verifier::opaque]
    pub open spec fn elapsed(self, low: Seq<bool>, log_lines: nat) -> World {
        match self.m.stage {
            // Credit left sitting with nobody around is returned rather than kept.
            Stage::Idle => if self.m.counters.cash > 0 {
                self.residual(low)
            } else {
                self
            },
            Stage::TakeChange => self.change_taken(),
            Stage::Thanks => self.finished(),
            Stage::UnknownKey => self.refreshed().at(Stage::Idle),
            _ => self.pressed(None, low, log_lines),
        }
    }

    /// One step.
    #[verifier::opaque]
    pub open spec fn stepped(self, input: Input, low: Seq<bool>, log_lines: nat) -> World {
        match input {
            Input::Happened(event) => self.handled(event, low, log_lines),
            Input::Elapsed => self.elapsed(low, log_lines),
            Input::Dispensed { count, failure } => match self.m.stage {
                Stage::Items(purpose) => self.item_answered(purpose, count, failure, low),
                Stage::Coins { hopper, owed } => self.coin_answered(
                    hopper as int,
                    owed,
                    count,
                    failure,
                    low,
                ),
                _ => self,
            },
        }
    }
}

/// Noting whether hoppers are empty changes nothing but the faults.
pub proof fn lemma_passed(w: World, low: Seq<bool>, i: int, j: int)
    ensures
        w.passed(low, i, j).m == w.m,
        w.passed(low, i, j).out == w.out,
    decreases j - i,
{
    if i < j {
        lemma_passed(w, low, i, j - 1);
    }
}

} // verus!
