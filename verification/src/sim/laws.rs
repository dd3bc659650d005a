//! What the machine at the desk does, in the terms of those who use it.
use vstd::prelude::*;

use crate::change;
use crate::config::HOPPER_COUNT;
use crate::error::{self, Errors};
use crate::event::Button;
use crate::menu::{self, Access, Item};
use crate::report;
use crate::sim::desk::{self, Desk, Doing, Key};
use crate::sim::frame;
use crate::sim::panel;
use crate::sim::{self, Bench};
use crate::state::{Accounting, AppState, Cash, Counters, HopperSettings, Level, Settings};
use crate::text;
use crate::ui::Screen;
use crate::vending::steps::{self, Ills};
use crate::vending::world;

verus! {

/// The lesser of two numbers.
pub open spec fn least(a: int, b: int) -> int {
    if a <= b {
        a
    } else {
        b
    }
}

/// An amount, or the most that can be counted.
pub open spec fn at_most(a: int) -> Cash {
    least(a, 0xffff_ffff) as Cash
}

/// The log keeps its newest two hundred lines, in order.
pub proof fn law_log_keeps_the_newest(log: Seq<Seq<char>>, k: int)
    requires
        0 <= k < sim::kept(log).len(),
    ensures
        sim::kept(log).len() == least(log.len() as int, 200),
        sim::kept(log)[k] == log[log.len() - sim::kept(log).len() + k],
{
}

/// Can the pairs that are owed be counted when they come out?
pub open spec fn pairs_count(c: Counters) -> bool {
    &&& c.overall.items_dispensed + c.items_pending <= u32::MAX
    &&& c.period.items_dispensed + c.items_pending <= u32::MAX
    &&& c.overall.items_free + c.free_items_pending <= u32::MAX
    &&& c.period.items_free + c.free_items_pending <= u32::MAX
}

/// As many of the pairs that are owed as there are have come out, those that were paid for first; each is counted once, and
/// that not all came out is a fault. The money is not touched.
pub open spec fn gives_pairs(b: Bench, a: Bench) -> bool {
    let c = b.counters;
    let owed = c.items_pending + c.free_items_pending;
    let out = least(b.dispenser as int, owed);
    let paid = least(out, c.items_pending as int);
    let free = out - paid;
    &&& a.settings == b.settings && a.hoppers == b.hoppers
    &&& a.dispenser == b.dispenser - out
    &&& a.counters == (Counters {
        item_level: (c.item_level - out) as Level,
        items_pending: (c.items_pending - paid) as Level,
        free_items_pending: (c.free_items_pending - free) as Level,
        overall: Accounting {
            items_dispensed: (c.overall.items_dispensed + paid) as u32,
            items_free: (c.overall.items_free + free) as u32,
            ..c.overall
        },
        period: Accounting {
            items_dispensed: (c.period.items_dispensed + paid) as u32,
            items_free: (c.period.items_free + free) as u32,
            ..c.period
        },
        app_state: a.counters.app_state,
        ..c
    })
    &&& steps::ills(a.faults) == (Ills {
        dispenser: steps::ills(b.faults).dispenser || out < owed,
        no_covers: if out > 0 {
            a.dispenser <= b.settings.item_dispenser.min_level
        } else {
            steps::ills(b.faults).no_covers
        },
        ..steps::ills(b.faults)
    })
    &&& out == owed ==> a.log == b.log
    &&& out < owed ==> a.log.last() == "Dispenser: jammed/empty!"@
}

/// Pairs coming out.
proof fn lemma_pairs(b: Bench, n: nat)
    requires
        b.wf(),
        n == b.pairs_owed(),
        pairs_count(b.counters),
    ensures
        gives_pairs(b, b.pairs_out(n).0),
        b.pairs_out(n).1 == (b.dispenser >= n),
        b.pairs_out(n).0.counters.app_state == b.counters.app_state,
    decreases n,
{
    lemma_said(b.flagged(error::ITEM_DISPENSER, true), "Dispenser: jammed/empty!"@);
    steps::lemma_ills(b.faults, true);
    if n > 0 && b.dispenser > 0 {
        let level = (b.dispenser - 1) as Level;
        steps::lemma_ills(b.faults, level <= b.settings.item_dispenser.min_level);
        lemma_pairs(b.pair_out(), (n - 1) as nat);
    }
}

/// What is said last is the last line.
proof fn lemma_said(b: Bench, line: Seq<char>)
    ensures
        b.said(line).log.last() == line,
        b.said(line) == (Bench { log: b.said(line).log, ..b }),
{
}

/// The pairs that are owed come out, as far as there are any.
pub proof fn law_owed_pairs_come_out(b: Bench)
    requires
        b.wf(),
        pairs_count(b.counters),
    ensures
        gives_pairs(b, b.items_paid()),
{
    reveal(Bench::items_paid);
    lemma_pairs(b, b.pairs_owed());
}

/// Coins coming out of one hopper.
proof fn lemma_coins(b: Bench, i: int, n: nat)
    requires
        b.wf(),
        0 <= i < HOPPER_COUNT,
        n == b.counters.coins_pending@[i],
    ensures
        ({
            let (a, all) = b.coins_out(i, n);
            let c = b.counters;
            let d = a.counters;
            let unit = b.settings.coin_hoppers@[i].unit_value;
            let out = least(b.hoppers[i] as int, n as int);
            &&& all == (out == n)
            &&& a.settings == b.settings && a.dispenser == b.dispenser
            &&& a.hoppers == b.hoppers.update(i, (b.hoppers[i] - out) as Level)
            &&& d == (Counters {
                coins_pending: d.coins_pending,
                coin_levels: d.coin_levels,
                overall: Accounting { cash_out: at_most(c.overall.cash_out + out * unit), ..c.overall },
                period: Accounting { cash_out: at_most(c.period.cash_out + out * unit), ..c.period },
                ..c
            })
            &&& forall|j: int|
                0 <= j < HOPPER_COUNT ==> #[trigger] d.coins_pending@[j] == (if j == i {
                    n - out
                } else {
                    c.coins_pending@[j] as int
                })
            &&& forall|j: int|
                0 <= j < HOPPER_COUNT ==> #[trigger] d.coin_levels@[j] == (if j == i {
                    b.hoppers[i] - out
                } else {
                    c.coin_levels@[j] as int
                })
            &&& steps::ills(a.faults) == (Ills {
                hopper: steps::ills(b.faults).hopper || out < n,
                ..steps::ills(b.faults)
            })
            &&& all ==> a.log == b.log
        }),
    decreases n,
{
    let unit = b.settings.coin_hoppers@[i].unit_value;
    steps::lemma_ills(b.faults, true);
    assert(0 * unit == 0) by (nonlinear_arith);
    if n > 0 && b.hoppers[i] > 0 {
        let next = b.coin_out(i);
        let out = least(b.hoppers[i] as int, n as int);
        assert(out * unit == unit + (out - 1) * unit) by (nonlinear_arith);
        assert((out - 1) * unit >= 0) by (nonlinear_arith)
            requires
                out >= 1,
        ;
        lemma_coins(next, i, (n - 1) as nat);
        assert(b.coins_out(i, n).0.hoppers =~= b.hoppers.update(i, (b.hoppers[i] - out) as Level));
    } else {
        assert(b.hoppers.update(i, b.hoppers[i]) =~= b.hoppers);
    }
}

/// Credit has been turned into coins, and as many coins as are owed and there are have come out. No fault keeps a hopper from
/// paying. What is left as credit is less than one coin of a hopper that still has some, and no money is lost: what the
/// credit was less by is what the coins that were added to those owed come to.
pub open spec fn gives_change(b: Bench, a: Bench) -> bool {
    let c = b.counters;
    let d = a.counters;
    let hoppers = b.settings.coin_hoppers@;
    let plan = change::planned(hoppers, c.coin_levels@, c.cash);
    &&& a.settings == b.settings && a.dispenser == b.dispenser
    &&& d == (Counters {
        cash: d.cash,
        coins_pending: d.coins_pending,
        coin_levels: d.coin_levels,
        overall: Accounting { cash_out: d.overall.cash_out, ..c.overall },
        period: Accounting { cash_out: d.period.cash_out, ..c.period },
        app_state: AppState::AcceptCash,
        ..c
    })
    &&& c.cash == 0 ==> a == (Bench { counters: Counters { app_state: AppState::AcceptCash, ..c }, ..b })
    &&& c.cash > 0 ==> {
        &&& d.cash == change::unpayable(hoppers, c.coin_levels@, c.cash)
        &&& c.cash - d.cash == change::worth(hoppers, plan, HOPPER_COUNT as nat)
        &&& forall|i: int|
            0 <= i < HOPPER_COUNT && hoppers[i].enabled && hoppers[i].unit_value > 0 && #[trigger] a.hoppers[i] > 0
                ==> d.cash < hoppers[i].unit_value
        &&& forall|i: int|
            0 <= i < HOPPER_COUNT ==> {
                let owed = c.coins_pending@[i] + plan[i];
                let out = least(b.hoppers[i] as int, owed);
                &&& #[trigger] a.hoppers[i] == b.hoppers[i] - out
                &&& d.coin_levels@[i] == a.hoppers[i]
                &&& d.coins_pending@[i] == owed - out
                &&& d.overall.cash_out == at_most(c.overall.cash_out + out * hoppers[i].unit_value)
                &&& d.period.cash_out == at_most(c.period.cash_out + out * hoppers[i].unit_value)
                &&& steps::ills(a.faults) == (Ills {
                    no_change: d.cash > 0,
                    hopper: steps::ills(b.faults).hopper || out < owed,
                    few_coins: if out == owed {
                        a.hoppers[i] <= hoppers[i].min_level
                    } else {
                        steps::ills(b.faults).few_coins
                    },
                    ..steps::ills(b.faults)
                })
                &&& out == owed && c.cash == d.cash ==> a.log == b.log
            }
        &&& c.cash > d.cash ==> a.log.last() == "Change dispensed: "@ + text::decimal((c.cash - d.cash) as nat)
            + " kop."@
    }
}

/// Credit that is returned comes out as coins as far as there are any, and the customer is told to take as much as the credit
/// is less by.
pub proof fn law_credit_is_returned(b: Bench)
    requires
        b.wf(),
        world::change_counts(b.settings, b.counters),
    ensures
        gives_change(b, b.residual()),
        ({
            let paid = b.counters.cash - b.residual().counters.cash;
            b.residual_popup() == if paid > 0 {
                Some(Screen::TakeChange { amount: paid as Cash, currency: b.settings.currency })
            } else {
                None
            }
        }),
{
    reveal(Bench::residual);
    let c = b.counters;
    let s = b.settings;
    if c.cash > 0 {
        steps::lemma_change_planned(s, c);
        change::law_change_adds_up(s.coin_hoppers@, c.coin_levels@, c.cash);
        let counters = world::change_planned(s, c);
        let short = world::change_short(s, c) > 0;
        let planned = b.counting(counters).flagged(error::CANNOT_PAYOUT, short);
        steps::lemma_ills(b.faults, short);
        reveal_with_fuel(Bench::change_paid, 2);
        assert(b.hoppers[0] == c.coin_levels@[0]);
        assert(counters.coins_pending@[0] == c.coins_pending@[0] + change::planned(
            s.coin_hoppers@,
            c.coin_levels@,
            c.cash,
        )[0]);
        lemma_coins(planned, 0, counters.coins_pending@[0] as nat);
        let paid = planned.coins_out(0, counters.coins_pending@[0] as nat).0;
        steps::lemma_ills(paid.faults, true);
        steps::lemma_ills(paid.faults, false);
        let a = b.residual();
        assert(a.hoppers[0] == paid.hoppers[0]);
        if a.hoppers[0] > 0 {
            assert(counters.coins_pending@[0] < c.coins_pending@[0] + c.coin_levels@[0]);
        }
    }
}

/// A sale takes the price off the credit, lets a pair out, and returns what is left. It happens only if the credit covers the
/// price and the machine is fit; otherwise nothing happens at all.
pub proof fn law_sale(b: Bench)
    requires
        b.wf(),
        b.has_room(),
    ensures
        ({
            let c = b.counters;
            let price = b.settings.item_dispenser.unit_value;
            if c.cash >= price && steps::fit(b.faults) {
                exists|paid: Bench, mid: Bench|
                    #![trigger gives_pairs(paid, mid)]
                    paid == (Bench {
                        counters: Counters {
                            cash: (c.cash - price) as Cash,
                            items_pending: (c.items_pending + 1) as Level,
                            app_state: AppState::PayoutItems,
                            ..c
                        },
                        log: paid.log,
                        ..b
                    }) && paid.log.last() == "Sale: dispensing 1 pair."@ && gives_pairs(paid, mid) && gives_change(mid, b.sold())
            } else {
                b.sold() == b && b.sold_popup() is None
            }
        }),
{
    steps::lemma_fit(b.faults);
    if b.sells() {
        let paid = b.counting(world::pair_bought(b.counters, b.price())).said(
            "Sale: dispensing 1 pair."@,
        );
        let mid = paid.items_paid();
        law_owed_pairs_come_out(paid);
        sim::lemma_items_paid(paid);
        sim::lemma_room_for_change(mid);
        law_credit_is_returned(mid);
        assert(gives_pairs(paid, mid));
    }
}

/// A pair that is given away is owed without being paid for, and comes out like any other.
pub proof fn law_gift(b: Bench)
    requires
        b.wf(),
        b.has_room(),
    ensures
        ({
            let c = b.counters;
            let owed = Bench {
                counters: Counters { free_items_pending: (c.free_items_pending + 1) as Level, ..c },
                ..b
            };
            exists|mid: Bench| #[trigger]
                gives_pairs(owed, mid) && b.given() == (Bench { log: b.given().log, ..mid }) && b.given().log.last()
                == "Menu: gave away 1 pair free."@
        }),
{
    let c = b.counters;
    let owed = b.counting(Counters { free_items_pending: (c.free_items_pending + 1) as Level, ..c });
    law_owed_pairs_come_out(owed);
    assert(gives_pairs(owed, owed.items_paid()));
}

/// An edited number becomes what it stands for, and nothing else changes: covers in the dispenser, coins in one hopper and in
/// no other, or the price. What was refilled is not empty any more.
pub proof fn law_edit_is_taken_over(b: Bench, item: Item, value: u32)
    requires
        b.wf(),
        item.edits(),
        !(item is Price) ==> value <= u16::MAX,
    ensures
        ({
            let a = b.edited(item, value);
            let c = b.counters;
            &&& a.wf()
            &&& item is RefillItems ==> {
                &&& a.dispenser == value && a.hoppers == b.hoppers && a.settings == b.settings
                &&& a.counters == (Counters { item_level: value as Level, ..c })
                &&& steps::ills(a.faults) == (Ills { no_covers: false, ..steps::ills(b.faults) })
                &&& a.log.last() == "Refilled covers to "@ + text::decimal(value as nat) + "."@
            }
            &&& item matches Item::RefillHopper(i) ==> {
                &&& a.dispenser == b.dispenser && a.settings == b.settings
                &&& a.hoppers == b.hoppers.update(i as int, value as Level)
                &&& a.counters == (Counters { coin_levels: a.counters.coin_levels, ..c })
                &&& forall|j: int|
                    0 <= j < HOPPER_COUNT ==> #[trigger] a.counters.coin_levels@[j] == (if j == i {
                        value as int
                    } else {
                        c.coin_levels@[j] as int
                    })
                &&& steps::ills(a.faults) == (Ills { few_coins: false, ..steps::ills(b.faults) })
                &&& a.log.last() == "Refilled hopper "@ + text::decimal((i + 1) as nat) + " to "@
                    + text::decimal(value as nat) + "."@
            }
            &&& item is Price ==> {
                &&& a == (Bench { settings: a.settings, log: a.log, ..b })
                &&& a.settings == (Settings {
                    item_dispenser: HopperSettings { unit_value: value, ..b.settings.item_dispenser },
                    ..b.settings
                })
                &&& a.log.last() == "Price set to "@ + text::decimal(value as nat) + " kop."@
            }
        }),
{
    steps::lemma_ills(b.faults, false);
}

/// Letting one out by hand takes one from the stock, if there is one, and owes nobody anything less. A dispenser that is down
/// to its smallest stock is empty.
pub proof fn law_pulse_by_hand(b: Bench, i: int)
    requires
        b.wf(),
        0 <= i,
    ensures
        ({
            let a = b.hopper_pulsed(i);
            &&& i >= HOPPER_COUNT ==> a == (Bench { log: a.log, ..b }) && a.log.last() == "Hopper "@ + text::decimal(
                (i + 1) as nat,
            ) + ": not configured (this build has "@ + text::decimal(1) + " coin hopper(s))."@
            &&& i < HOPPER_COUNT ==> {
                let level = if b.hoppers[i] > 0 {
                    b.hoppers[i] - 1
                } else {
                    0
                };
                &&& a.wf()
                &&& a.hoppers == b.hoppers.update(i, level as Level)
                &&& a.counters == (Counters { coin_levels: a.counters.coin_levels, ..b.counters })
                &&& a.settings == b.settings && a.dispenser == b.dispenser && a.faults == b.faults
                &&& a.log.last() == "Hopper "@ + text::decimal((i + 1) as nat) + (if b.hoppers[i] > 0 {
                    ": manual payout pulse, 1 coin (level now "@ + text::decimal(level as nat) + ")."@
                } else {
                    ": empty, no coin to pay out."@
                })
            }
        }),
        ({
            let a = b.dispenser_pulsed();
            let level = if b.dispenser > 0 {
                b.dispenser - 1
            } else {
                0
            };
            &&& a.dispenser == level
            &&& a.counters == (Counters { item_level: level as Level, ..b.counters })
            &&& a.settings == b.settings && a.hoppers == b.hoppers
            &&& steps::ills(a.faults) == (Ills {
                no_covers: level <= b.settings.item_dispenser.min_level,
                ..steps::ills(b.faults)
            })
            &&& a.log.last() == if b.dispenser > 0 {
                "Dispenser: manual pulse, 1 pair (level now "@ + text::decimal(level as nat) + ")."@
            } else {
                "Dispenser: empty, no pair to dispense."@
            }
        }),
{
    steps::lemma_ills(b.faults, true);
    steps::lemma_ills(b.faults, false);
    let name = "Hopper "@ + text::decimal((i + 1) as nat);
    assert forall|x: Seq<char>, y: Seq<char>, z: Seq<char>| #[trigger] (name + x + y + z) =~= name + (x + y + z) by {}
}

/// A coin of a channel is worth what the settings say. It is credited and counted, and a pair is sold as soon as the credit
/// covers the price; if it does not, nothing else changes.
pub proof fn law_coin_is_credited(d: Desk, channel: int)
    requires
        d.doing is Vending,
        0 <= channel < 6,
    ensures
        ({
            let a = d.coined(channel);
            let c = d.bench.counters;
            let value = d.bench.settings.coin_acceptor.channel_values@[channel];
            let taken = d.coin_in(channel);
            &&& a.doing is Vending
            &&& taken == (Bench {
                counters: Counters {
                    cash: steps::sum_or_most(c.cash, value) as Cash,
                    overall: Accounting {
                        cash_in: steps::sum_or_most(c.overall.cash_in, value) as Cash,
                        ..c.overall
                    },
                    period: Accounting {
                        cash_in: steps::sum_or_most(c.period.cash_in, value) as Cash,
                        ..c.period
                    },
                    ..c
                },
                log: taken.log,
                ..d.bench
            })
            &&& taken.log.last() == "Coin: channel "@ + text::decimal((channel + 1) as nat) + " (+"@ + text::decimal(
                value as nat,
            ) + " kop.)"@
            &&& if steps::sum_or_most(c.cash, value) >= d.bench.settings.item_dispenser.unit_value {
                a.bench == taken.sold() && d.coined_popup(channel) == taken.sold_popup()
            } else {
                a.bench == taken && d.coined_popup(channel) is None
            }
        }),
{
}

/// While it is selling, the accept button sells and the cancel button returns the credit; the other two do nothing.
pub proof fn law_customer_buttons(d: Desk, button: Button)
    requires
        d.doing is Vending,
    ensures
        ({
            let a = d.pressed(button);
            &&& a.doing is Vending
            &&& a.bench == (match button {
                Button::Accept => d.bench.sold(),
                Button::Cancel => if d.bench.counters.cash > 0 {
                    d.bench.residual()
                } else {
                    d.bench
                },
                Button::Next => d.bench,
                Button::Prev => d.bench,
            })
            &&& d.pressed_popup(button) == (match button {
                Button::Accept => d.bench.sold_popup(),
                Button::Cancel => d.bench.residual_popup(),
                Button::Next => None,
                Button::Prev => None,
            })
        }),
{
}

/// What somebody with a key sees: reports for everybody, refills and gifts for whoever services the machine, and the price for
/// the owner alone.
pub proof fn law_items_on_offer()
    ensures
        desk::offered(Access::Collector) == seq![Item::Accounting, Item::State],
        desk::offered(Access::Service) == seq![
            Item::Accounting,
            Item::State,
            Item::RefillItems,
            Item::RefillHopper(0),
            Item::FreeItem,
            Item::ClearPeriod,
        ],
        desk::offered(Access::Owner) == seq![
            Item::Accounting,
            Item::State,
            Item::RefillItems,
            Item::RefillHopper(0),
            Item::FreeItem,
            Item::Price,
            Item::ClearPeriod,
        ],
{
    let items = desk::all_items();
    assert(items =~= seq![
        Item::Accounting,
        Item::State,
        Item::RefillItems,
        Item::RefillHopper(0),
        Item::FreeItem,
        Item::Price,
        Item::ClearPeriod,
    ]);
    lemma_offered_step(items, 7);
    lemma_offered_step(items, 6);
    lemma_offered_step(items, 5);
    lemma_offered_step(items, 4);
    lemma_offered_step(items, 3);
    lemma_offered_step(items, 2);
    lemma_offered_step(items, 1);
    assert(items.take(7) =~= items);
    assert(items.take(0) =~= Seq::empty());
}

/// One more item on offer.
proof fn lemma_offered_step(items: Seq<Item>, n: int)
    requires
        0 < n <= items.len(),
    ensures
        forall|access: Access| #[trigger]
            desk::offered_of(items.take(n), access) == (if items[n - 1].shown_to(access) {
                desk::offered_of(items.take(n - 1), access).push(items[n - 1])
            } else {
                desk::offered_of(items.take(n - 1), access)
            }),
{
    assert(items.take(n).drop_last() =~= items.take(n - 1));
    assert(items.take(n).last() == items[n - 1]);
}

/// In the menu, the next and previous buttons go round the items, and the cancel button leaves. None of them changes the
/// machine.
pub proof fn law_menu_goes_round(d: Desk, cursor: int, access: Access)
    requires
        d.doing == (Doing::Menu { cursor, access }),
        0 <= cursor < desk::offered(access).len(),
    ensures
        ({
            let n = desk::offered(access).len();
            &&& d.pressed(Button::Next) == (Desk {
                doing: Doing::Menu {
                    cursor: if cursor + 1 < n {
                        cursor + 1
                    } else {
                        0
                    },
                    access,
                },
                ..d
            })
            &&& d.pressed(Button::Prev) == (Desk {
                doing: Doing::Menu {
                    cursor: if cursor > 0 {
                        cursor - 1
                    } else {
                        n - 1
                    },
                    access,
                },
                ..d
            })
            &&& d.pressed(Button::Cancel) == (Desk { doing: Doing::Vending, ..d })
        }),
{
    let n = desk::offered(access).len() as int;
    if cursor + 1 < n {
        vstd::arithmetic::div_mod::lemma_small_mod((cursor + 1) as nat, n as nat);
    } else {
        vstd::arithmetic::div_mod::lemma_mod_self_0(n);
    }
}

/// Choosing an item opens its report at the top, starts an edit from the number as it stands, gives a pair away, or starts a
/// new period, which forgets what was counted in the last one and nothing else.
pub proof fn law_item_is_chosen(d: Desk, cursor: int, access: Access)
    requires
        d.doing == (Doing::Menu { cursor, access }),
        0 <= cursor < desk::offered(access).len(),
    ensures
        ({
            let a = d.pressed(Button::Accept);
            let b = d.bench;
            match desk::offered(access)[cursor] {
                Item::Accounting => a == (Desk {
                    doing: Doing::Report {
                        lines: menu::lines(report::accounting_report(b.counters, b.settings)),
                        at: 0,
                        access,
                    },
                    ..d
                }),
                Item::State => a == (Desk {
                    doing: Doing::Report {
                        lines: menu::lines(report::state_report(b.counters, b.settings, b.faults)),
                        at: 0,
                        access,
                    },
                    ..d
                }),
                Item::RefillItems => a == (Desk {
                    doing: Doing::Editing {
                        item: Item::RefillItems,
                        value: b.counters.item_level as u32,
                        step: 5,
                        max: b.settings.item_dispenser.max_level as u32,
                        access,
                    },
                    ..d
                }),
                Item::RefillHopper(i) => a == (Desk {
                    doing: Doing::Editing {
                        item: Item::RefillHopper(i),
                        value: b.counters.coin_levels@[i as int] as u32,
                        step: 5,
                        max: b.settings.coin_hoppers@[i as int].max_level as u32,
                        access,
                    },
                    ..d
                }),
                Item::Price => a == (Desk {
                    doing: Doing::Editing {
                        item: Item::Price,
                        value: b.settings.item_dispenser.unit_value,
                        step: 50,
                        max: 100_000,
                        access,
                    },
                    ..d
                }),
                Item::FreeItem => a == (Desk { bench: b.given(), ..d }),
                Item::ClearPeriod => a == (Desk {
                    bench: Bench {
                        counters: Counters {
                            period: Accounting { cash_in: 0, cash_out: 0, items_dispensed: 0, items_free: 0 },
                            ..b.counters
                        },
                        log: a.bench.log,
                        ..b
                    },
                    ..d
                }),
                _ => false,
            }
        }),
{
    desk::lemma_offered(desk::all_items(), access);
    assert(desk::all_items().contains(desk::offered(access)[cursor]));
}

/// While a number is edited, the next and previous buttons change it by one step, not above the limit and not below nothing;
/// the cancel button changes nothing; and the accept button takes the number over. Either of the latter goes back to the
/// menu.
pub proof fn law_number_is_edited(d: Desk, item: Item, value: u32, step: u32, max: u32, access: Access)
    requires
        d.doing == (Doing::Editing { item, value, step, max, access }),
    ensures
        d.pressed(Button::Next) == (Desk {
            doing: Doing::Editing { item, value: least(value + step, max as int) as u32, step, max, access },
            ..d
        }),
        d.pressed(Button::Prev) == (Desk {
            doing: Doing::Editing {
                item,
                value: if value >= step {
                    (value - step) as u32
                } else {
                    0
                },
                step,
                max,
                access,
            },
            ..d
        }),
        d.pressed(Button::Cancel) == (Desk { doing: Doing::Menu { cursor: 0, access }, ..d }),
        d.pressed(Button::Accept) == (Desk {
            doing: Doing::Menu { cursor: 0, access },
            bench: d.bench.edited(item, value),
        }),
{
}

/// A report is read two lines at a time; after its last lines the menu is open again, and the cancel button leaves at once.
/// Reading changes nothing.
pub proof fn law_report_is_read(d: Desk, lines: Seq<Seq<char>>, at: int, access: Access, button: Button)
    requires
        d.doing == (Doing::Report { lines, at, access }),
    ensures
        ({
            let a = d.pressed(button);
            &&& a.bench == d.bench
            &&& a.doing == if button is Cancel {
                Doing::Vending
            } else if at + 2 < lines.len() {
                Doing::Report { lines, at: at + 2, access }
            } else {
                Doing::Menu { cursor: 0, access }
            }
        }),
{
}

/// Presenting the key of a role opens the menu for the level at which it is enrolled, at its first item, and otherwise changes
/// nothing but the log.
pub proof fn law_key_opens_the_menu(d: Desk, role: Access)
    requires
        d.doing is Vending,
    ensures
        ({
            let a = d.presented(role);
            &&& a.bench == (Bench { log: a.bench.log, ..d.bench })
            &&& match menu::access_of(desk::role_key(role), d.bench.settings) {
                Some(access) => a.doing == (Doing::Menu { cursor: 0, access }) && a.bench.log.last() == "iButton: "@
                    + desk::role_name(role) + " presented -> service menu ("@ + desk::role_name(access) + ")."@,
                None => a.doing is Vending && a.bench.log.last() == "iButton: "@ + desk::role_name(role)
                    + " key not enrolled."@,
            }
        }),
{
}

/// What the keys of the keyboard are: the arrows, enter and any of delete, backspace and the backslash are the four buttons,
/// the digits are coins of the six channels, three letters are the keys of the three roles, three capitals let something
/// out by hand, and escape and `q` stop.
#[verifier::rlimit(40)]
pub proof fn law_keyboard(d: Desk)
    ensures
        d.keyed(Key::Left) == d.pressed(Button::Prev),
        d.keyed(Key::Right) == d.pressed(Button::Next),
        d.keyed(Key::Enter) == d.pressed(Button::Accept),
        d.keyed(Key::Delete) == d.pressed(Button::Cancel),
        d.keyed(Key::Backspace) == d.pressed(Button::Cancel),
        d.keyed(Key::Letter('\\')) == d.pressed(Button::Cancel),
        d.keyed_popup(Key::Left) == d.pressed_popup(Button::Prev),
        d.keyed_popup(Key::Right) == d.pressed_popup(Button::Next),
        d.keyed_popup(Key::Enter) == d.pressed_popup(Button::Accept),
        d.keyed_popup(Key::Delete) == d.pressed_popup(Button::Cancel),
        d.keyed_popup(Key::Backspace) == d.pressed_popup(Button::Cancel),
        d.keyed_popup(Key::Letter('\\')) == d.pressed_popup(Button::Cancel),
        d.keyed(Key::Letter('1')) == d.coined(0) && d.keyed_popup(Key::Letter('1')) == d.coined_popup(0),
        d.keyed(Key::Letter('2')) == d.coined(1) && d.keyed_popup(Key::Letter('2')) == d.coined_popup(1),
        d.keyed(Key::Letter('3')) == d.coined(2) && d.keyed_popup(Key::Letter('3')) == d.coined_popup(2),
        d.keyed(Key::Letter('4')) == d.coined(3) && d.keyed_popup(Key::Letter('4')) == d.coined_popup(3),
        d.keyed(Key::Letter('5')) == d.coined(4) && d.keyed_popup(Key::Letter('5')) == d.coined_popup(4),
        d.keyed(Key::Letter('6')) == d.coined(5) && d.keyed_popup(Key::Letter('6')) == d.coined_popup(5),
        d.keyed(Key::Letter('o')) == d.presented(Access::Owner),
        d.keyed(Key::Letter('s')) == d.presented(Access::Service),
        d.keyed(Key::Letter('c')) == d.presented(Access::Collector),
        d.keyed(Key::Letter('A')) == (Desk { bench: d.bench.hopper_pulsed(0), ..d }),
        d.keyed(Key::Letter('S')) == (Desk { bench: d.bench.hopper_pulsed(1), ..d }),
        d.keyed(Key::Letter('D')) == (Desk { bench: d.bench.dispenser_pulsed(), ..d }),
        d.keyed(Key::Letter('h')) == (Desk {
            bench: Bench { log: d.keyed(Key::Letter('h')).bench.log, ..d.bench },
            ..d
        }),
        d.keyed(Key::Escape) == d && d.keyed(Key::Other) == d && d.keyed(Key::Letter('q')) == d,
        desk::reaction_to(Key::Escape) is Quit,
        desk::reaction_to(Key::Letter('q')) is Quit,
{
}

/// Only escape and `q` stop, and a key that does nothing draws nothing: whatever is drawn again is what may have changed.
pub proof fn law_idle_keys_change_nothing(d: Desk, key: Key)
    ensures
        desk::reaction_to(key) is Quit <==> key is Escape || key == Key::Letter('q'),
        !(desk::reaction_to(key) is Redraw) ==> d.keyed(key) == d && d.keyed_popup(key) is None,
{
}

/// The display says what is wrong if the machine cannot sell, how far the customer has got if there is credit, and the price
/// otherwise.
pub proof fn law_display_shows_the_situation(b: Bench)
    ensures
        b.situation() == (if !steps::fit(b.faults) {
            Screen::Fault(b.faults)
        } else if b.counters.cash > 0 {
            Screen::Credit {
                cash: b.counters.cash,
                price: b.settings.item_dispenser.unit_value,
                currency: b.settings.currency,
            }
        } else {
            Screen::Idle { price: b.settings.item_dispenser.unit_value, currency: b.settings.currency }
        }),
{
    steps::lemma_fit(b.faults);
}

/// At the start there are fifty pairs and thirty coins, nothing is owed, nothing has been counted, nothing is wrong, and the
/// settings are the factory's but for the keys.
pub proof fn law_start()
    ensures
        ({
            let b = panel::start_bench();
            let c = b.counters;
            &&& b.wf() && b.has_room()
            &&& b.dispenser == 50
            &&& forall|i: int| 0 <= i < HOPPER_COUNT ==> #[trigger] b.hoppers[i] == 30
            &&& b.faults == (Errors { bits: 0 })
            &&& c.cash == 0 && c.items_pending == 0 && c.free_items_pending == 0
            &&& forall|i: int| 0 <= i < HOPPER_COUNT ==> #[trigger] c.coins_pending@[i] == 0
            &&& c.overall == (Accounting { cash_in: 0, cash_out: 0, items_dispensed: 0, items_free: 0 })
            &&& c.period == c.overall
            &&& b.settings == (Settings { keys: b.settings.keys, ..Settings::factory() })
        }),
{
    let b = panel::start_bench();
    assert(b.counters.coin_levels@[0] == 30);
    assert(b.counters.coins_pending@[0] == 0);
}

/// What is read at the desk while the machine is not selling: the item under the cursor and where it stands, the number that is
/// edited, or two lines of a report, as much of each as the display is wide.
pub proof fn law_what_is_read_at_the_desk(doing: Doing)
    ensures
        ({
            let rows = panel::rows_of(doing);
            match doing {
                Doing::Vending => rows.0.len() == 0 && rows.1.len() == 0,
                Doing::Menu { cursor, access } => 0 <= cursor < desk::offered(access).len() ==> {
                    &&& rows.0.is_prefix_of(desk::label_of(desk::offered(access)[cursor]))
                    &&& rows.0.len() == least(desk::label_of(desk::offered(access)[cursor]).len() as int, 16)
                    &&& rows.1 == text::decimal((cursor + 1) as nat) + "/"@ + text::decimal(
                        desk::offered(access).len(),
                    )
                },
                Doing::Editing { item, value, .. } => {
                    &&& rows.0 == (match item {
                        Item::RefillItems => "Covers"@,
                        Item::RefillHopper(_) => "Coins"@,
                        _ => "Price, kop."@,
                    })
                    &&& text::reads(rows.1, 10) == value
                },
                Doing::Report { lines, at, .. } => {
                    &&& 0 <= at < lines.len() ==> rows.0.is_prefix_of(lines[at]) && rows.0.len() == least(
                        lines[at].len() as int,
                        16,
                    )
                    &&& 0 <= at && at + 1 < lines.len() ==> rows.1.is_prefix_of(lines[at + 1]) && rows.1.len()
                        == least(lines[at + 1].len() as int, 16)
                    &&& at + 1 >= lines.len() ==> rows.1.len() == 0
                },
            }
        }),
{
    if let Doing::Editing { value, .. } = doing {
        text::law_decimal_reads_back(value as nat);
    }
}

/// The screen shows the credit, the price, the covers and the coins as they are, each as a number, and the faults by name.
pub proof fn law_screen_shows_what_the_machine_holds(b: Bench)
    ensures
        frame::holdings_text(b) == "\r\n  Cash: "@ + frame::right_aligned(b.counters.cash as nat, 6)
            + " kop.   Price: "@ + frame::right_aligned(b.settings.item_dispenser.unit_value as nat, 6)
            + " kop.   Items left: "@ + frame::right_aligned(b.counters.item_level as nat, 4) + "   Errors: "@
            + frame::faults_text(b.faults) + "\x1b[K\r\n"@,
        frame::levels_text(b.counters, HOPPER_COUNT as nat) == "hopper1="@ + text::decimal(
            b.counters.coin_levels@[0] as nat,
        ),
        b.faults.bits == 0 ==> frame::faults_text(b.faults) == "Errors(0x0)"@,
{
    reveal_strlit("hopper");
    reveal_strlit("hopper1=");
    reveal_strlit("=");
    reveal_strlit("Errors(");
    reveal_strlit("0x0");
    reveal_strlit(")");
    reveal_strlit("Errors(0x0)");
    reveal_with_fuel(frame::levels_text, 2);
    assert(text::decimal(1) =~= seq!['1']);
    assert(frame::levels_text(b.counters, 1) =~= "hopper1="@ + text::decimal(b.counters.coin_levels@[0] as nat));
    if b.faults.bits == 0 {
        lemma_no_names(b.faults, 16);
        assert("Errors("@ + "0x0"@ + ")"@ =~= "Errors(0x0)"@);
    }
}

/// Where nothing is wrong, no fault is named.
proof fn lemma_no_names(faults: Errors, n: nat)
    requires
        faults.bits == 0,
    ensures
        frame::fault_names(faults, n).len() == 0,
    decreases n,
{
    if n > 0 {
        lemma_no_names(faults, (n - 1) as nat);
        let m = frame::fault_bit(n - 1);
        error::law_nothing_is_no_fault(m);
    }
}

/// A machine whose counters have room takes every key, and one whose counters are full every key that counts nothing: while it is
/// not selling, all but the one that gives a pair away.
pub proof fn law_keys_are_taken(d: Desk, key: Key)
    ensures
        d.bench.has_room() ==> d.takes_key(key),
        !(d.doing is Vending) && key != Key::Enter ==> d.takes_key(key),
        d.doing is Editing || d.doing is Report ==> d.takes_key(key),
{
}

/// There is room as long as no count is at its limit.
pub proof fn law_room(b: Bench)
    requires
        b.counters.items_pending < 1_000 && b.counters.free_items_pending < 1_000,
        b.counters.overall.items_dispensed < 1_000_000_000 && b.counters.overall.items_free < 1_000_000_000,
        b.counters.period.items_dispensed < 1_000_000_000 && b.counters.period.items_free < 1_000_000_000,
        forall|i: int|
            0 <= i < HOPPER_COUNT ==> #[trigger] b.counters.coins_pending@[i] + b.counters.coin_levels@[i] <= 0xffff,
    ensures
        b.has_room(),
{
}

/// After a key that returns change the customer is told to take it, and as much as came off their credit; after any other key the
/// display of a machine that is selling shows its situation.
pub proof fn law_display_after_a_key(screen: Screen, d: Desk, key: Key)
    requires
        !(key is Escape),
        key != Key::Letter('q'),
    ensures
        ({
            let after = d.keyed(key);
            let shown = panel::screen_after(screen, d, after, key);
            &&& d.keyed_popup(key) matches Some(popup) ==> shown == popup
            &&& d.keyed_popup(key) is None && after.doing is Vending ==> shown == after.bench.situation()
            &&& !(d.doing is Vending) && !(after.doing is Vending) ==> shown == screen
        }),
        d.doing is Vending && d.bench.wf() && d.bench.has_room() && (key is Delete || key is Backspace || key
            == Key::Letter('\\')) ==> {
            let paid = d.bench.counters.cash - d.keyed(key).bench.counters.cash;
            paid > 0 ==> panel::screen_after(screen, d, d.keyed(key), key) == (Screen::TakeChange {
                amount: paid as Cash,
                currency: d.bench.settings.currency,
            })
        },
{
    if d.doing is Vending && d.bench.wf() && d.bench.has_room() && (key is Delete || key is Backspace || key
        == Key::Letter('\\')) {
        sim::lemma_room_for_change(d.bench);
        law_credit_is_returned(d.bench);
    }
}

} // verus!
