//! What every step of the machine keeps to, whatever happens.
use vstd::prelude::*;

use crate::change;
use crate::config::HOPPER_COUNT;
use crate::error::Errors;
use crate::event::{Button, Event};
use crate::hopper::HopperError;
use crate::menu::Item;
use crate::state::{Accounting, Cash, Counters, Settings};
use crate::vending::engineer;
use crate::vending::steps;
use crate::vending::world::{self, World};
use crate::vending::{Input, Machine, Place, Purpose, Stage, Wait};

verus! {

/// Is it time to return the credit? It is if the customer cancels or has not done anything for long enough, and after a sale
/// once the last pair is out, or none will come.
pub open spec fn change_is_due(w: World, input: Input) -> bool {
    let c = w.m.counters;
    match (w.m.stage, input) {
        (Stage::Idle, Input::Happened(Event::Button(Button::Cancel))) => c.cash > 0,
        (Stage::Idle, Input::Elapsed) => c.cash > 0,
        (Stage::Items(Purpose::Sale), Input::Dispensed { count, failure }) => c.cash > 0 && (failure is Some
            || c.items_pending + c.free_items_pending == 1 && count > 0),
        _ => false,
    }
}

/// Credit that is due is returned as far as there are coins for it, whatever else is the matter with the machine. Afterwards
/// less is left of it than one coin of any hopper that has coins left is worth; what is left and what every hopper owes are
/// what paying with the largest coins first comes to.
pub proof fn law_credit_due_is_returned(w: World, input: Input, low: Seq<bool>, log_lines: nat)
    requires
        w.m.wf(),
        w.m.expects(input),
        w.m.counts(input, w.faults),
        change_is_due(w, input),
    ensures
        ({
            let b = w.stepped(input, low, log_lines);
            let c = w.m.counters;
            let d = b.m.counters;
            let hoppers = w.m.settings.coin_hoppers@;
            &&& forall|i: int|
                0 <= i < HOPPER_COUNT && hoppers[i].enabled && hoppers[i].unit_value > 0
                    && #[trigger] d.coins_pending@[i] < c.coins_pending@[i] + c.coin_levels@[i] ==> d.cash
                    < hoppers[i].unit_value
            &&& d.cash == change::unpayable(hoppers, c.coin_levels@, c.cash)
            &&& forall|i: int|
                0 <= i < HOPPER_COUNT ==> #[trigger] d.coins_pending@[i] == c.coins_pending@[i] + change::planned(
                    hoppers,
                    c.coin_levels@,
                    c.cash,
                )[i]
        }),
{
    let b = w.stepped(input, low, log_lines);
    match (w.m.stage, input) {
        (Stage::Idle, _) => {
            steps::law_cancel_and_timeout_return_the_credit(w, low, log_lines);
        },
        (Stage::Items(purpose), Input::Dispensed { count, failure }) => {
            steps::law_pair_is_counted(w, purpose, count, failure, low, log_lines);
            let mid = choose|mid: World|
                steps::pair_is_counted(w, mid, count, failure is Some) && #[trigger] steps::follows_pair(
                    mid,
                    b,
                    purpose,
                    failure is Some,
                    low,
                );
            assert(steps::returns_credit(mid, b, low));
        },
        _ => {},
    }
}

/// How many covers there are after a step: one fewer if one came out, and what the engineer says if they say so, but not
/// more than there is room for.
pub open spec fn covers_then(w: World, input: Input) -> int {
    let level = w.m.counters.item_level;
    match (w.m.stage, input) {
        (Stage::Items(_), Input::Dispensed { count, .. }) => if count > 0 && level > 0 {
            level - 1
        } else {
            level as int
        },
        (
            Stage::Edit { item: Item::RefillItems, value, .. },
            Input::Happened(Event::Button(Button::Accept)),
        ) => if value <= w.m.settings.item_dispenser.max_level {
            value as int
        } else {
            w.m.settings.item_dispenser.max_level as int
        },
        _ => level as int,
    }
}

/// How many coins hopper `i` has after a step: one fewer if it gave one out, and what the engineer says if they say so of this
/// hopper, but not more than there is room for.
pub open spec fn coins_then(w: World, input: Input, i: int) -> int {
    let level = w.m.counters.coin_levels@[i];
    match (w.m.stage, input) {
        (Stage::Coins { hopper, .. }, Input::Dispensed { count, .. }) => if hopper == i && count > 0 && level > 0 {
            level - 1
        } else {
            level as int
        },
        (
            Stage::Edit { item: Item::RefillHopper(n), value, .. },
            Input::Happened(Event::Button(Button::Accept)),
        ) => if n != i {
            level as int
        } else if value <= w.m.settings.coin_hoppers@[i].max_level {
            value as int
        } else {
            w.m.settings.coin_hoppers@[i].max_level as int
        },
        _ => level as int,
    }
}

/// May a step change the settings? Only by an edited price that is accepted, and by a key that is enrolled or cleared.
pub open spec fn may_change_settings(w: World, input: Input) -> bool {
    match (w.m.stage, input) {
        (
            Stage::Edit { item: Item::Price, .. },
            Input::Happened(Event::Button(Button::Accept)),
        ) => true,
        (Stage::Keys { .. }, Input::Happened(Event::Button(Button::Cancel))) => true,
        (Stage::Keys { .. }, Input::Happened(Event::Key(_))) => true,
        _ => false,
    }
}

/// What has been counted in all, after a step: a coin that came in, a coin of change that went out, and a pair that went out,
/// paid for or not.
pub open spec fn totals_then(w: World, input: Input, t: Accounting) -> Accounting {
    let c = w.m.counters;
    match (w.m.stage, input) {
        (Stage::Idle, Input::Happened(Event::Coin { value, .. })) => Accounting {
            cash_in: steps::sum_or_most(t.cash_in, value) as Cash,
            ..t
        },
        (Stage::Items(_), Input::Dispensed { count, .. }) => Accounting {
            items_dispensed: (t.items_dispensed + steps::one_if(count > 0 && c.items_pending > 0)) as u32,
            items_free: (t.items_free + steps::one_if(count > 0 && c.items_pending == 0)) as u32,
            ..t
        },
        (Stage::Coins { hopper, .. }, Input::Dispensed { count, .. }) => Accounting {
            cash_out: if count > 0 {
                steps::sum_or_most(t.cash_out, w.m.settings.coin_hoppers@[hopper as int].unit_value) as Cash
            } else {
                t.cash_out
            },
            ..t
        },
        _ => t,
    }
}

/// Does an engineer start a new accounting period in this step?
pub open spec fn starts_period(w: World, input: Input) -> bool {
    w.m.stage matches Stage::Menu(place) && input == Input::Happened(Event::Button(Button::Accept))
        && engineer::under_cursor(place) is ClearPeriod
}

/// What becomes of the stock, the settings and the totals in a step.
spec fn keeps_to_the_books(w: World, input: Input, b: World) -> bool {
    &&& b.m.counters.item_level == covers_then(w, input)
    &&& forall|i: int| 0 <= i < HOPPER_COUNT ==> #[trigger] b.m.counters.coin_levels@[i] == coins_then(w, input, i)
    &&& !may_change_settings(w, input) ==> b.m.settings == w.m.settings
    &&& b.m.counters.overall == totals_then(w, input, w.m.counters.overall)
    &&& b.m.counters.period == (if starts_period(w, input) {
        Accounting { cash_in: 0, cash_out: 0, items_dispensed: 0, items_free: 0 }
    } else {
        totals_then(w, input, w.m.counters.period)
    })
}

/// What becomes of them when an engineer chooses an item of the menu.
proof fn lemma_chosen(w: World, place: Place, low: Seq<bool>, log_lines: nat)
    requires
        w.m.wf(),
        w.m.stage == Stage::Menu(place),
        w.m.counts(Input::Happened(Event::Button(Button::Accept)), w.faults),
    ensures
        keeps_to_the_books(
            w,
            Input::Happened(Event::Button(Button::Accept)),
            w.stepped(Input::Happened(Event::Button(Button::Accept)), low, log_lines),
        ),
{
    match engineer::under_cursor(place) {
        Item::FreeItem => engineer::law_pair_is_given_away(w, place, low, log_lines),
        Item::ClearPeriod => engineer::law_period_is_cleared(w, place, low, log_lines),
        Item::RefillItems | Item::RefillHopper(_) | Item::Price | Item::Keys => {
            engineer::law_edits_start_from_what_is(w, place, low, log_lines);
        },
        Item::Accounting | Item::State | Item::EventLog => {
            reveal(World::stepped);
            reveal(World::handled);
            reveal(World::pressed);
            reveal(World::menu_pressed);
            reveal(World::chosen);
            reveal(World::reading);
            steps::lemma_listed(w, place);
        },
    }
}

/// What becomes of them during a service visit.
proof fn lemma_visit(w: World, input: Input, low: Seq<bool>, log_lines: nat)
    requires
        w.m.wf(),
        w.m.expects(input),
        w.m.counts(input, w.faults),
        w.m.stage is Menu || w.m.stage is Edit || w.m.stage is Report || w.m.stage is Keys,
    ensures
        keeps_to_the_books(w, input, w.stepped(input, low, log_lines)),
{
    match (w.m.stage, input) {
        (Stage::Menu(place), Input::Happened(Event::Button(Button::Accept))) => {
            lemma_chosen(w, place, low, log_lines);
        },
        (Stage::Menu(place), _) => {
            engineer::law_menu_goes_round(w, place, low, log_lines);
            engineer::law_visit_ends(w, place, low, log_lines);
        },
        (Stage::Edit { place, item, value }, _) => {
            engineer::law_number_is_edited(w, place, item, value, low, log_lines);
            engineer::law_cancelled_edit_changes_nothing(w, place, item, value, low, log_lines);
            engineer::law_accepted_edit_is_taken_over(w, place, item, value, low, log_lines);
        },
        (Stage::Report { place, kind, at, lines }, _) => {
            engineer::law_report_is_read(w, place, kind, at, lines, Button::Next, low, log_lines);
            if let Input::Happened(Event::Button(button)) = input {
                engineer::law_report_is_read(w, place, kind, at, lines, button, low, log_lines);
            }
        },
        (Stage::Keys { place, slot }, _) => {
            engineer::law_keys_are_looked_through(w, place, slot, low, log_lines);
            if let Input::Happened(Event::Key(key)) = input {
                engineer::law_key_is_enrolled(w, place, slot, key, low, log_lines);
            } else {
                engineer::law_key_is_enrolled(w, place, slot, crate::state::no_key(), low, log_lines);
            }
        },
        _ => {},
    }
    reveal(World::stepped);
    reveal(World::handled);
}

/// What becomes of them while customers are served.
proof fn lemma_customer(w: World, input: Input, low: Seq<bool>, log_lines: nat)
    requires
        w.m.wf(),
        w.m.expects(input),
        w.m.counts(input, w.faults),
        !(w.m.stage is Menu || w.m.stage is Edit || w.m.stage is Report || w.m.stage is Keys),
    ensures
        keeps_to_the_books(w, input, w.stepped(input, low, log_lines)),
{
    let b = w.stepped(input, low, log_lines);
    match (w.m.stage, input) {
        (Stage::Idle, Input::Happened(Event::Coin { channel, value })) => {
            steps::law_coin_is_credited(w, channel, value, low, log_lines);
        },
        (Stage::Idle, Input::Happened(Event::Button(Button::Accept))) => {
            steps::law_accept_sells(w, low, log_lines);
        },
        (Stage::Idle, Input::Happened(Event::Button(Button::Cancel))) => {
            steps::law_cancel_and_timeout_return_the_credit(w, low, log_lines);
        },
        (Stage::Idle, Input::Elapsed) => {
            steps::law_cancel_and_timeout_return_the_credit(w, low, log_lines);
        },
        (Stage::Idle, Input::Happened(Event::Button(_))) => {
            steps::law_other_events_sell_nothing(w, 0, true, low, log_lines);
        },
        (Stage::Idle, Input::Happened(Event::Door { index, open })) => {
            steps::law_other_events_sell_nothing(w, index, open, low, log_lines);
        },
        (Stage::Idle, Input::Happened(Event::Key(key))) => {
            engineer::law_key_opens_the_menu(w, key, low, log_lines);
        },
        (Stage::Items(purpose), Input::Dispensed { count, failure }) => {
            steps::law_pair_is_counted(w, purpose, count, failure, low, log_lines);
            let mid = choose|mid: World|
                steps::pair_is_counted(w, mid, count, failure is Some) && #[trigger] steps::follows_pair(
                    mid,
                    b,
                    purpose,
                    failure is Some,
                    low,
                );
            assert(b.m.counters.coin_levels == w.m.counters.coin_levels);
        },
        (Stage::Coins { hopper, owed }, Input::Dispensed { count, failure }) => {
            steps::law_coin_of_change_is_counted(w, hopper, owed, count, failure, low, log_lines);
            let mid = choose|mid: World|
                steps::coin_is_counted(w, mid, hopper as int, count, failure is Some)
                    && #[trigger] steps::follows_coin(mid, b, hopper as int, owed, failure is Some, low);
            assert(b.m.counters.coin_levels == mid.m.counters.coin_levels);
        },
        _ => {
            steps::law_messages_pass(w, low, log_lines);
        },
    }
}

/// What becomes of them in any step.
proof fn lemma_any_step(w: World, input: Input, low: Seq<bool>, log_lines: nat)
    requires
        w.m.wf(),
        w.m.expects(input),
        w.m.counts(input, w.faults),
    ensures
        keeps_to_the_books(w, input, w.stepped(input, low, log_lines)),
{
    if w.m.stage is Menu || w.m.stage is Edit || w.m.stage is Report || w.m.stage is Keys {
        lemma_visit(w, input, low, log_lines);
    } else {
        lemma_customer(w, input, low, log_lines);
    }
}

/// What is known of the stock changes only when something came out of the machine or an engineer put something in: covers
/// only by a pair that came out or a refill of covers, and the coins of a hopper only by a coin that came out of it or a
/// refill of that hopper.
pub proof fn law_stock_changes_only_by_what_moves(w: World, input: Input, low: Seq<bool>, log_lines: nat)
    requires
        w.m.wf(),
        w.m.expects(input),
        w.m.counts(input, w.faults),
    ensures
        ({
            let b = w.stepped(input, low, log_lines);
            &&& b.m.counters.item_level == covers_then(w, input)
            &&& forall|i: int|
                0 <= i < HOPPER_COUNT ==> #[trigger] b.m.counters.coin_levels@[i] == coins_then(w, input, i)
        }),
{
    lemma_any_step(w, input, low, log_lines);
}

/// The settings change only by an edited price that is accepted, and by a key that is enrolled or cleared.
pub proof fn law_settings_change_only_by_an_edit(w: World, input: Input, low: Seq<bool>, log_lines: nat)
    requires
        w.m.wf(),
        w.m.expects(input),
        w.m.counts(input, w.faults),
        !may_change_settings(w, input),
    ensures
        w.stepped(input, low, log_lines).m.settings == w.m.settings,
{
    lemma_any_step(w, input, low, log_lines);
}

/// The totals count each coin and each pair once, when it goes in or out, and nothing else. Those of the period begin anew
/// when an engineer says so, and otherwise grow as the overall ones do.
pub proof fn law_totals_count_what_moves(w: World, input: Input, low: Seq<bool>, log_lines: nat)
    requires
        w.m.wf(),
        w.m.expects(input),
        w.m.counts(input, w.faults),
    ensures
        ({
            let b = w.stepped(input, low, log_lines);
            &&& b.m.counters.overall == totals_then(w, input, w.m.counters.overall)
            &&& !starts_period(w, input) ==> b.m.counters.period == totals_then(w, input, w.m.counters.period)
            &&& starts_period(w, input) ==> b.m.counters.period == (Accounting {
                cash_in: 0,
                cash_out: 0,
                items_dispensed: 0,
                items_free: 0,
            })
        }),
{
    lemma_any_step(w, input, low, log_lines);
}

/// Is there room in the counters for whatever a step can count?
pub open spec fn has_room(c: Counters) -> bool {
    &&& c.items_pending < 0xffff && c.free_items_pending < 0xffff
    &&& c.overall.items_dispensed < 0xffff_ffff && c.overall.items_free < 0xffff_ffff
    &&& c.period.items_dispensed < 0xffff_ffff && c.period.items_free < 0xffff_ffff
    &&& forall|i: int| 0 <= i < HOPPER_COUNT ==> #[trigger] c.coins_pending@[i] + c.coin_levels@[i] <= 0xffff
}

/// Where the coins that are owed and the coins in stock can be counted together, the change can be.
proof fn lemma_room_for_change(settings: Settings, c: Counters)
    requires
        forall|i: int| 0 <= i < HOPPER_COUNT ==> #[trigger] c.coins_pending@[i] + c.coin_levels@[i] <= 0xffff,
    ensures
        world::change_counts(settings, c),
{
    change::law_change_adds_up(settings.coin_hoppers@, c.coin_levels@, c.cash);
    assert forall|i: int| 0 <= i < HOPPER_COUNT implies c.coins_pending@[i] + #[trigger] world::change_plan(
        settings,
        c,
    )[i] <= u16::MAX by {
        assert(c.coins_pending@[i] + c.coin_levels@[i] <= 0xffff);
    }
}

/// A machine whose counters have room takes every input that it waits for, whatever is the matter with it.
pub proof fn law_machine_with_room_takes_every_input(m: Machine, input: Input, faults: Errors)
    requires
        m.wf(),
        m.expects(input),
        has_room(m.counters),
    ensures
        m.counts(input, faults),
{
    lemma_room_for_change(m.settings, m.counters);
    if let (Stage::Coins { hopper, .. }, Input::Dispensed { count, .. }) = (m.stage, input) {
        let c = m.counters;
        let after = world::coin_out(c, hopper as int, m.settings.coin_hoppers@[hopper as int].unit_value);
        assert forall|i: int| 0 <= i < HOPPER_COUNT implies #[trigger] after.coins_pending@[i]
            + after.coin_levels@[i] <= 0xffff by {
            assert(c.coins_pending@[i] + c.coin_levels@[i] <= 0xffff);
        }
        lemma_room_for_change(m.settings, after);
    }
}

/// The machine takes what it waits for and nothing else: an event, or that none came in time; what became of the pair or the
/// coin that it asked for; or that a message has been up for long enough.
pub proof fn law_machine_takes_what_it_waits_for(m: Machine, event: Event, count: u16, failure: Option<HopperError>)
    ensures
        ({
            let happened = m.expects(Input::Happened(event));
            let elapsed = m.expects(Input::Elapsed);
            let answered = m.expects(Input::Dispensed { count, failure });
            match m.waits() {
                Wait::Event(_) => happened && elapsed && !answered,
                Wait::Dispenser => !happened && !elapsed && answered,
                Wait::Hopper(_) => !happened && !elapsed && answered,
                Wait::Delay(_) => !happened && elapsed && !answered,
            }
        }),
{
}

} // verus!
