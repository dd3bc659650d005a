//! What holds of the machine whatever happens to it.
use vstd::prelude::*;

use crate::change;
use crate::config::HOPPER_COUNT;
use crate::error::{self, Errors};
use crate::event::{Button, Event};
use crate::hopper::HopperError;
use crate::menu::{self, Item};
use crate::state::{Accounting, AppState, Cash, Counters, HopperSettings, Level, Settings};
use crate::vending::world::{self, World};
use crate::vending::{Effect, Input, Machine, Place, Purpose, Stage};

verus! {

/// The customer's money in the machine: the credit, and what the coins still owed come to.
pub open spec fn held(settings: Settings, c: Counters) -> int {
    c.cash + change::worth(settings.coin_hoppers@, c.coins_pending@, HOPPER_COUNT as nat)
}

/// What goes in and out of the machine in one step.
pub struct Flow {
    /// What a coin that went in is worth.
    pub coin: Cash,
    /// Whether a pair is sold.
    pub sells: bool,
    /// Whether a pair is given away.
    pub gives: bool,
    /// Whether a pair that was paid for came out.
    pub paid_out: bool,
    /// Whether a pair that was given away came out.
    pub free_out: bool,
    /// What a coin of change that came out is worth.
    pub change: Cash,
    /// Whether an engineer starts a new accounting period.
    pub closes: bool,
}

/// Is there enough credit for a pair, and nothing that stops the machine selling it?
pub open spec fn can_sell(m: Machine, faults: Errors, cash: Cash) -> bool {
    cash >= m.settings.item_dispenser.unit_value && !faults.has(error::FATAL)
}

/// What goes in and out of the machine in a step.
pub open spec fn flow(w: World, input: Input) -> Flow {
    let c = w.m.counters;
    let none = Flow {
        coin: 0,
        sells: false,
        gives: false,
        paid_out: false,
        free_out: false,
        change: 0,
        closes: false,
    };
    match (input, w.m.stage) {
        (Input::Happened(Event::Coin { value, .. }), Stage::Idle) => Flow {
            coin: value,
            sells: can_sell(w.m, w.faults, world::plus(c.cash, value)),
            ..none
        },
        (Input::Happened(Event::Button(Button::Accept)), Stage::Idle) => Flow {
            sells: can_sell(w.m, w.faults, c.cash),
            ..none
        },
        (Input::Happened(Event::Button(Button::Accept)), Stage::Menu(place)) => Flow {
            gives: Item::all()[menu::visible(place.access)[place.cursor as int] as int]
                == Item::FreeItem,
            closes: Item::all()[menu::visible(place.access)[place.cursor as int] as int]
                == Item::ClearPeriod,
            ..none
        },
        (Input::Dispensed { count, .. }, Stage::Items(_)) => Flow {
            paid_out: count > 0 && !world::next_is_free(c),
            free_out: count > 0 && world::next_is_free(c),
            ..none
        },
        (Input::Dispensed { count, .. }, Stage::Coins { hopper, .. }) => Flow {
            change: if count > 0 {
                w.m.settings.coin_hoppers@[hopper as int].unit_value
            } else {
                0
            },
            ..none
        },
        _ => none,
    }
}

/// One, if so.
pub open spec fn one_if(b: bool) -> int {
    if b {
        1
    } else {
        0
    }
}

/// The second totals follow from the first by this flow.
pub open spec fn totals_follow(a: Accounting, b: Accounting, f: Flow) -> bool {
    &&& b.cash_in == world::plus(a.cash_in, f.coin)
    &&& b.cash_out == world::plus(a.cash_out, f.change)
    &&& b.items_dispensed == a.items_dispensed + one_if(f.paid_out)
    &&& b.items_free == a.items_free + one_if(f.free_out)
}

/// The second counters follow from the first by this flow: every coin, pair and coin of change is counted
/// once, overall and in the accounting period, and nothing else is. Starting a new period clears the period's totals
/// and no others.
pub open spec fn accounts_for(settings: Settings, a: Counters, b: Counters, f: Flow) -> bool {
    let credited = world::plus(a.cash, f.coin) - a.cash;
    let price = if f.sells {
        settings.item_dispenser.unit_value as int
    } else {
        0
    };
    &&& held(settings, b) == held(settings, a) + credited - price - f.change
    &&& b.items_pending == a.items_pending + one_if(f.sells) - one_if(f.paid_out)
    &&& b.free_items_pending == a.free_items_pending + one_if(f.gives) - one_if(f.free_out)
    &&& totals_follow(a.overall, b.overall, f)
    &&& if f.closes {
        b.period == Accounting::zero()
    } else {
        totals_follow(a.period, b.period, f)
    }
    &&& b.version == a.version
}

/// Nothing that counts has changed, except that credit may have become coins owed.
pub open spec fn kept(settings: Settings, a: Counters, b: Counters) -> bool {
    &&& held(settings, a) == held(settings, b)
    &&& a.items_pending == b.items_pending
    &&& a.free_items_pending == b.free_items_pending
    &&& a.item_level == b.item_level
    &&& a.coin_levels == b.coin_levels
    &&& a.overall == b.overall
    &&& a.period == b.period
    &&& a.version == b.version
}

/// The machine's settings, money and debts are as they were.
pub open spec fn keeps(a: World, b: World) -> bool {
    &&& b.m.settings == a.m.settings
    &&& kept(a.m.settings, a.m.counters, b.m.counters)
}

/// What is owed after a plan was added, hopper by hopper.
pub proof fn lemma_owing_more(pending: [Level; HOPPER_COUNT], plan: Seq<u16>, n: nat)
    requires
        n <= HOPPER_COUNT,
        plan.len() == HOPPER_COUNT,
        forall|i: int| 0 <= i < n ==> pending@[i] + #[trigger] plan[i] <= u16::MAX,
    ensures
        forall|i: int|
            0 <= i < HOPPER_COUNT ==> #[trigger] world::owing_more(pending, plan, n)@[i] == (if i < n {
                pending@[i] + plan[i]
            } else {
                pending@[i] as int
            }),
    decreases n,
{
    if n > 0 {
        lemma_owing_more(pending, plan, (n - 1) as nat);
        assert(pending@[n - 1] + plan[n - 1] <= u16::MAX);
    }
}

/// Sums of plans come to sums of what they come to.
proof fn lemma_worth_adds(
    hoppers: Seq<HopperSettings>,
    a: Seq<u16>,
    b: Seq<u16>,
    sum: Seq<u16>,
    n: nat,
)
    requires
        forall|i: int| 0 <= i < n ==> #[trigger] sum[i] == a[i] + b[i],
    ensures
        change::worth(hoppers, sum, n) == change::worth(hoppers, a, n) + change::worth(hoppers, b, n),
    decreases n,
{
    if n > 0 {
        lemma_worth_adds(hoppers, a, b, sum, (n - 1) as nat);
        let x = a[n - 1] as nat;
        let y = b[n - 1] as nat;
        let u = hoppers[n - 1].unit_value as nat;
        assert(sum[n - 1] == x + y);
        assert((x + y) * u == x * u + y * u) by (nonlinear_arith);
    }
}

/// Turning credit into coins owed keeps the money.
pub proof fn lemma_change_planned(settings: Settings, c: Counters)
    requires
        world::change_counts(settings, c),
        c.cash > 0,
    ensures
        kept(settings, c, world::change_planned(settings, c)),
{
    let hoppers = settings.coin_hoppers@;
    let plan = world::change_plan(settings, c);
    change::law_change_adds_up(hoppers, c.coin_levels@, c.cash);
    assert forall|i: int| 0 <= i < HOPPER_COUNT implies c.coins_pending@[i] + #[trigger] plan[i]
        <= u16::MAX by {}
    lemma_owing_more(c.coins_pending, plan, HOPPER_COUNT as nat);
    let after = world::change_planned(settings, c).coins_pending;
    lemma_worth_adds(hoppers, c.coins_pending@, plan, after@, HOPPER_COUNT as nat);
}

/// Turning to waiting keeps the money.
proof fn lemma_finished(w: World)
    ensures
        keeps(w, w.finished()),
{
    reveal(World::finished);
}

/// Thanking keeps the money.
proof fn lemma_change_taken(w: World)
    ensures
        keeps(w, w.change_taken()),
{
    reveal(World::change_taken);
    lemma_finished(w);
}

/// Showing what has been paid keeps the money.
proof fn lemma_change_paid(w: World, owed: Cash)
    ensures
        keeps(w, w.change_paid(owed)),
{
    reveal(World::change_paid);
    lemma_change_taken(w);
}

/// Turning to the next hopper keeps the money.
proof fn lemma_paying(w: World, low: Seq<bool>, i: int, owed: Cash)
    ensures
        keeps(w, w.paying(low, i, owed)),
{
    reveal(World::paying);
    match world::next_debt(w.m.counters, i) {
        Some(h) => world::lemma_passed(w, low, i, h),
        None => {
            world::lemma_passed(w, low, i, HOPPER_COUNT as int);
            lemma_change_paid(w.passed(low, i, HOPPER_COUNT as int), owed);
        },
    }
}

/// Turning what is left into change keeps the money.
proof fn lemma_residual(w: World, low: Seq<bool>)
    requires
        world::change_counts(w.m.settings, w.m.counters),
    ensures
        keeps(w, w.residual(low)),
{
    reveal(World::residual);
    if w.m.counters.cash == 0 {
        lemma_finished(w);
    } else {
        let s = w.m.settings;
        let c = w.m.counters;
        lemma_change_planned(s, c);
        let w1 = w.counting(world::change_planned(s, c)).persisted().flagged(
            error::CANNOT_PAYOUT,
            world::change_short(s, c) > 0,
        );
        lemma_paying(w1, low, 0, world::change_owed(s, c));
    }
}

/// Going on after the debts keeps the money.
proof fn lemma_resumed(w: World, low: Seq<bool>)
    requires
        world::change_counts(w.m.settings, w.m.counters),
    ensures
        keeps(w, w.resumed(low)),
{
    reveal(World::resumed);
    if w.m.counters.cash > 0 {
        lemma_residual(w, low);
    }
}

/// Turning to the next hopper keeps the money.
proof fn lemma_repaying(w: World, low: Seq<bool>, i: int)
    requires
        world::next_debt(w.m.counters, i) is None ==> world::change_counts(w.m.settings, w.m.counters),
    ensures
        keeps(w, w.repaying(low, i)),
{
    reveal(World::repaying);
    match world::next_debt(w.m.counters, i) {
        Some(h) => world::lemma_passed(w, low, i, h),
        None => {
            world::lemma_passed(w, low, i, HOPPER_COUNT as int);
            lemma_resumed(w.passed(low, i, HOPPER_COUNT as int), low);
        },
    }
}

/// Showing the menu keeps the money.
proof fn lemma_listed(w: World, place: Place)
    ensures
        keeps(w, w.listed(place)),
{
    reveal(World::listed);
    reveal(World::left_menu);
}

/// When is there credit to be turned into change after covers have been dispensed?
pub open spec fn change_follows(w: World, purpose: Purpose) -> bool {
    purpose is Sale || purpose is Resume && world::next_debt(w.m.counters, 0) is None
}

/// Going on after covers have been dispensed keeps the money.
proof fn lemma_items_paid(w: World, purpose: Purpose, low: Seq<bool>)
    requires
        change_follows(w, purpose) ==> world::change_counts(w.m.settings, w.m.counters),
    ensures
        keeps(w, w.items_paid(purpose, low)),
{
    reveal(World::items_paid);
    match purpose {
        Purpose::Resume => lemma_repaying(w, low, 0),
        Purpose::Sale => lemma_residual(w, low),
        Purpose::Free(place) => lemma_listed(w.refreshed(), place),
    }
}

/// Asking the dispenser for the next pair keeps the money.
proof fn lemma_dispensing(w: World, purpose: Purpose, low: Seq<bool>)
    requires
        !world::owes_items(w.m.counters) && change_follows(w, purpose) ==> world::change_counts(
            w.m.settings,
            w.m.counters,
        ),
    ensures
        keeps(w, w.dispensing(purpose, low)),
{
    reveal(World::dispensing);
    if !world::owes_items(w.m.counters) {
        let w1 = w.serving(AppState::ProcessResidual).persisted();
        crate::vending::lemma_same_debts(w1.m.counters, w.m.counters, 0);
        crate::vending::lemma_same_change(w.m.settings, w1.m.counters, w.m.counters);
        lemma_items_paid(w1, purpose, low);
    }
}

/// What the dispenser's answer does to the money.
proof fn lemma_item_answered(
    w: World,
    purpose: Purpose,
    count: u16,
    failure: Option<HopperError>,
    low: Seq<bool>,
)
    requires
        w.m.wf(),
        w.m.stage == Stage::Items(purpose),
        w.m.counts((Input::Dispensed { count, failure }), w.faults),
    ensures
        ({
            let after = w.item_answered(purpose, count, failure, low);
            &&& after.m.settings == w.m.settings
            &&& accounts_for(
                w.m.settings,
                w.m.counters,
                after.m.counters,
                flow(w, (Input::Dispensed { count, failure })),
            )
        }),
{
    reveal(World::item_answered);
    reveal(World::pair_counted);
    let counted = if count > 0 {
        w.pair_counted()
    } else {
        w
    };
    crate::vending::lemma_same_debts(counted.m.counters, w.m.counters, 0);
    crate::vending::lemma_same_change(w.m.settings, counted.m.counters, w.m.counters);
    if failure is Some {
        reveal(World::item_failed);
        lemma_items_paid(counted.raised(error::ITEM_DISPENSER).persisted(), purpose, low);
    } else {
        reveal(World::item_came);
        let w1 = counted.flagged(
            error::ITEM_DISPENSER_EMPTY,
            counted.m.counters.item_level <= counted.m.settings.item_dispenser.min_level,
        );
        lemma_dispensing(w1, purpose, low);
    }
}

/// A coin of change that came out is no longer owed.
proof fn lemma_coin_out(settings: Settings, c: Counters, h: int, n: nat)
    requires
        0 <= h < HOPPER_COUNT,
        n <= HOPPER_COUNT,
        c.coins_pending@[h] > 0,
    ensures
        ({
            let unit = settings.coin_hoppers@[h].unit_value;
            change::worth(settings.coin_hoppers@, world::coin_out(c, h, unit).coins_pending@, n)
                == change::worth(settings.coin_hoppers@, c.coins_pending@, n) - (if h < n {
                unit as int
            } else {
                0
            })
        }),
    decreases n,
{
    let unit = settings.coin_hoppers@[h].unit_value;
    if n > 0 {
        lemma_coin_out(settings, c, h, (n - 1) as nat);
        let p = c.coins_pending@[n - 1] as int;
        let u = settings.coin_hoppers@[n - 1].unit_value as int;
        assert((p - 1) * u == p * u - u) by (nonlinear_arith);
    }
}

/// What a hopper's answer does to the money.
proof fn lemma_coin_answered(
    w: World,
    hopper: usize,
    owed: Option<Cash>,
    count: u16,
    failure: Option<HopperError>,
    low: Seq<bool>,
)
    requires
        w.m.wf(),
        w.m.stage == (Stage::Coins { hopper, owed }),
        w.m.counts((Input::Dispensed { count, failure }), w.faults),
    ensures
        ({
            let after = w.coin_answered(hopper as int, owed, count, failure, low);
            &&& after.m.settings == w.m.settings
            &&& accounts_for(
                w.m.settings,
                w.m.counters,
                after.m.counters,
                flow(w, (Input::Dispensed { count, failure })),
            )
        }),
{
    reveal(World::coin_answered);
    reveal(World::coin_counted);
    let counted = if count > 0 {
        w.coin_counted(hopper as int)
    } else {
        w
    };
    lemma_coin_out(w.m.settings, w.m.counters, hopper as int, HOPPER_COUNT as nat);
    if failure is Some {
        reveal(World::coin_failed);
        let stopped = counted.raised(error::COIN_HOPPER).persisted();
        match owed {
            Some(owed) => lemma_change_paid(stopped, owed),
            None => lemma_resumed(stopped, low),
        }
    } else {
        match owed {
            Some(owed) => lemma_paying(counted, low, hopper as int, owed),
            None => lemma_repaying(counted, low, hopper as int),
        }
    }
}

/// What a sale does to the money.
proof fn lemma_sold(w: World, low: Seq<bool>)
    requires
        can_sell(w.m, w.faults, w.m.counters.cash) ==> w.m.counters.items_pending < u16::MAX,
    ensures
        ({
            let after = w.sold(low);
            let f = Flow {
                coin: 0,
                sells: can_sell(w.m, w.faults, w.m.counters.cash),
                gives: false,
                paid_out: false,
                free_out: false,
                change: 0,
                closes: false,
            };
            &&& after.m.settings == w.m.settings
            &&& accounts_for(w.m.settings, w.m.counters, after.m.counters, f)
        }),
{
    reveal(World::sold);
    if can_sell(w.m, w.faults, w.m.counters.cash) {
        let w1 = w.counting(world::pair_bought(w.m.counters, w.price())).persisted();
        lemma_dispensing(w1, Purpose::Sale, low);
    }
}

/// What happens to the money while the machine waits for customers.
proof fn lemma_served(w: World, event: Event, low: Seq<bool>)
    requires
        w.m.wf(),
        w.m.stage is Idle,
        w.m.counts(Input::Happened(event), w.faults),
    ensures
        ({
            let after = w.served(event, low);
            &&& after.m.settings == w.m.settings
            &&& accounts_for(
                w.m.settings,
                w.m.counters,
                after.m.counters,
                flow(w, Input::Happened(event)),
            )
        }),
{
    reveal(World::served);
    match event {
        Event::Coin { value, .. } => {
            reveal(World::accepted);
            let w1 = w.accepted(value);
            lemma_sold(w1, low);
        },
        Event::Button(Button::Accept) => lemma_sold(w, low),
        Event::Button(Button::Cancel) => if w.m.counters.cash > 0 {
            lemma_residual(w, low);
        },
        Event::Button(_) => {},
        Event::Door { .. } => {},
        Event::Key(key) => {
            reveal(World::keyed);
            if let Some(access) = menu::access_of(key, w.m.settings) {
                let w1 = w.doing(Effect::Inhibit(true)).logged(
                    crate::state::EventKind::ServiceEntered,
                    access.level() as u32,
                );
                lemma_listed(w1, Place { access, cursor: 0 });
            }
        },
    }
}

/// What choosing an item does to the money.
proof fn lemma_chosen(w: World, place: Place, item: Item, low: Seq<bool>, log_lines: nat)
    requires
        item == Item::FreeItem ==> w.m.counters.free_items_pending < u16::MAX,
    ensures
        ({
            let after = w.chosen(place, item, low, log_lines);
            let f = Flow {
                coin: 0,
                sells: false,
                gives: item == Item::FreeItem,
                paid_out: false,
                free_out: false,
                change: 0,
                closes: item == Item::ClearPeriod,
            };
            &&& after.m.settings == w.m.settings
            &&& accounts_for(w.m.settings, w.m.counters, after.m.counters, f)
        }),
{
    reveal(World::chosen);
    reveal(World::reading);
    reveal(World::editing);
    lemma_listed(w, place);
    match item {
        Item::FreeItem => {
            reveal(World::given);
            let w1 = w.counting(world::pair_given(w.m.counters)).persisted();
            lemma_dispensing(w1, Purpose::Free(place), low);
        },
        Item::ClearPeriod => {
            let w1 = w.counting(
                Counters { period: Accounting::zero(), ..w.m.counters },
            ).persisted();
            lemma_listed(w1, place);
        },
        _ => {},
    }
}

/// What a button in the menu does to the money.
proof fn lemma_pressed(w: World, button: Option<Button>, low: Seq<bool>, log_lines: nat)
    requires
        w.m.wf(),
        button == Some(Button::Accept) ==> w.m.counts(
            Input::Happened(Event::Button(Button::Accept)),
            w.faults,
        ),
        !(w.m.stage is Idle),
    ensures
        ({
            let after = w.pressed(button, low, log_lines);
            let f = match button {
                Some(b) => flow(w, Input::Happened(Event::Button(b))),
                None => flow(w, Input::Elapsed),
            };
            &&& after.m.settings.coin_hoppers == w.m.settings.coin_hoppers
            &&& accounts_for(w.m.settings, w.m.counters, after.m.counters, f)
        }),
{
    reveal(World::pressed);
    match w.m.stage {
        Stage::Menu(place) => {
            reveal(World::menu_pressed);
            reveal(World::left_menu);
            let items = menu::visible(place.access);
            match button {
                Some(Button::Next) => lemma_listed(
                    w,
                    Place { cursor: ((place.cursor + 1) % items.len() as int) as usize, ..place },
                ),
                Some(Button::Prev) => lemma_listed(
                    w,
                    Place {
                        cursor: if place.cursor == 0 {
                            (items.len() - 1) as usize
                        } else {
                            (place.cursor - 1) as usize
                        },
                        ..place
                    },
                ),
                Some(Button::Accept) => lemma_chosen(
                    w,
                    place,
                    Item::all()[items[place.cursor as int] as int],
                    low,
                    log_lines,
                ),
                _ => {},
            }
        },
        Stage::Edit { place, item, value } => {
            reveal(World::edit_pressed);
            reveal(World::edited);
            lemma_listed(w, place);
            lemma_listed(w.edited(item, value), place);
        },
        Stage::Report { place, .. } => {
            reveal(World::report_pressed);
            lemma_listed(w, place);
        },
        Stage::Keys { place, slot } => {
            reveal(World::keys_pressed);
            reveal(World::enrolled);
            lemma_listed(w, place);
        },
        _ => {},
    }
}

/// Money is conserved. In every step the customer's money in the machine, credit and coins owed together,
/// changes by exactly what goes in and out of it: a coin put in adds what it is worth, a pair sold takes its
/// price, a coin of change takes what it is worth, and nothing else changes it. Every pair is counted once
/// when it is owed and once when it comes out, and the totals, overall and of the accounting period, follow. A dispenser or hopper that gives nothing leaves the debt as it
/// was, and a machine that cannot pay everything keeps the rest as credit.
pub proof fn law_money_is_conserved(w: World, input: Input, low: Seq<bool>, log_lines: nat)
    requires
        w.m.wf(),
        w.m.expects(input),
        w.m.counts(input, w.faults),
    ensures
        ({
            let after = w.stepped(input, low, log_lines);
            &&& after.m.settings.coin_hoppers == w.m.settings.coin_hoppers
            &&& accounts_for(w.m.settings, w.m.counters, after.m.counters, flow(w, input))
        }),
{
    reveal(World::stepped);
    match input {
        Input::Happened(event) => {
            reveal(World::handled);
            if w.m.stage is Idle {
                lemma_served(w, event, low);
            } else {
                match event {
                    Event::Button(b) => lemma_pressed(w, Some(b), low, log_lines),
                    Event::Key(_) => {
                        reveal(World::enrolled);
                    },
                    _ => {},
                }
            }
        },
        Input::Elapsed => {
            reveal(World::elapsed);
            match w.m.stage {
                Stage::Idle => if w.m.counters.cash > 0 {
                    lemma_residual(w, low);
                },
                Stage::TakeChange => lemma_change_taken(w),
                Stage::Thanks => lemma_finished(w),
                Stage::UnknownKey => {},
                _ => lemma_pressed(w, None, low, log_lines),
            }
        },
        Input::Dispensed { count, failure } => match w.m.stage {
            Stage::Items(purpose) => lemma_item_answered(w, purpose, count, failure, low),
            Stage::Coins { hopper, owed } => lemma_coin_answered(w, hopper, owed, count, failure, low),
            _ => {},
        },
    }
}

} // verus!
