//! What each step does, in the terms of those it does it to.
//!
//! For everything that can happen to the machine, a law here says what becomes of the credit, the coins and the covers
//! that are owed, the stock, the totals, the faults, the display and the log.
use vstd::prelude::*;

use crate::change;
use crate::config::HOPPER_COUNT;
use crate::error::{self, Errors};
use crate::event::{Button, Event};
use crate::hopper::HopperError;
use crate::menu::{self, ITEM_COUNT};
use crate::state::{Accounting, AppState, Cash, Counters, EventKind, Level, Settings};
use crate::ui::Screen;
use crate::vending::laws;
use crate::vending::world::{self, World};
use crate::vending::{Effect, Input, Machine, Place, Purpose, Stage, Wait};

verus! {

/// What was last put on the display, if anything was.
pub open spec fn last_screen(out: Seq<Effect>) -> Option<Effect>
    decreases out.len(),
{
    if out.len() == 0 {
        None
    } else {
        match out.last() {
            Effect::Show(_) => Some(out.last()),
            Effect::ShowStage => Some(out.last()),
            _ => last_screen(out.drop_last()),
        }
    }
}

/// What was remembered in the log, in order.
pub open spec fn remembered_events(out: Seq<Effect>) -> Seq<(EventKind, u32)>
    decreases out.len(),
{
    if out.len() == 0 {
        Seq::empty()
    } else {
        let before = remembered_events(out.drop_last());
        match out.last() {
            Effect::Log(write) => before.push((write.entry.kind, write.entry.value)),
            _ => before,
        }
    }
}

/// The counters that were written down, in order.
pub open spec fn written_counters(out: Seq<Effect>) -> Seq<Counters>
    decreases out.len(),
{
    if out.len() == 0 {
        Seq::empty()
    } else {
        let before = written_counters(out.drop_last());
        match out.last() {
            Effect::Save(save) => before.push(save.counters),
            _ => before,
        }
    }
}

/// The settings that were stored, in order.
pub open spec fn stored_settings(out: Seq<Effect>) -> Seq<Settings>
    decreases out.len(),
{
    if out.len() == 0 {
        Seq::empty()
    } else {
        let before = stored_settings(out.drop_last());
        match out.last() {
            Effect::Store(settings) => before.push(settings),
            _ => before,
        }
    }
}

/// One more thing to do.
pub broadcast proof fn lemma_one_more(out: Seq<Effect>, e: Effect)
    ensures
        last_screen(#[trigger] out.push(e)) == (match e {
            Effect::Show(_) => Some(e),
            Effect::ShowStage => Some(e),
            _ => last_screen(out),
        }),
        remembered_events(out.push(e)) == (match e {
            Effect::Log(write) => remembered_events(out).push((write.entry.kind, write.entry.value)),
            _ => remembered_events(out),
        }),
        written_counters(out.push(e)) == (match e {
            Effect::Save(save) => written_counters(out).push(save.counters),
            _ => written_counters(out),
        }),
        stored_settings(out.push(e)) == (match e {
            Effect::Store(settings) => stored_settings(out).push(settings),
            _ => stored_settings(out),
        }),
{
    assert(out.push(e).drop_last() =~= out);
}

/// The faults that a step can change, one by one, and all the others together.
pub struct Ills {
    /// The dispenser is broken.
    pub dispenser: bool,
    /// A hopper is broken.
    pub hopper: bool,
    /// The dispenser is empty.
    pub no_covers: bool,
    /// A hopper is empty.
    pub few_coins: bool,
    /// There is credit that cannot be paid out.
    pub no_change: bool,
    /// All other faults.
    pub others: u32,
}

/// The faults, one by one.
pub open spec fn ills(faults: Errors) -> Ills {
    Ills {
        dispenser: faults.bits & 0x0200 != 0,
        hopper: faults.bits & 0x0400 != 0,
        no_covers: faults.bits & 0x1000 != 0,
        few_coins: faults.bits & 0x2000 != 0,
        no_change: faults.bits & 0x4000 != 0,
        others: faults.bits & 0xffff_89ff,
    }
}

/// Saying something of one fault leaves the others alone.
pub proof fn lemma_ills(faults: Errors, present: bool)
    ensures
        ills(faults.put(error::ITEM_DISPENSER, present)) == (Ills { dispenser: present, ..ills(faults) }),
        ills(faults.put(error::COIN_HOPPER, present)) == (Ills { hopper: present, ..ills(faults) }),
        ills(faults.put(error::ITEM_DISPENSER_EMPTY, present)) == (Ills {
            no_covers: present,
            ..ills(faults)
        }),
        ills(faults.put(error::COIN_HOPPER_EMPTY, present)) == (Ills { few_coins: present, ..ills(faults) }),
        ills(faults.put(error::CANNOT_PAYOUT, present)) == (Ills { no_change: present, ..ills(faults) }),
{
    lemma_one_ill(faults.bits, error::ITEM_DISPENSER);
    lemma_one_ill(faults.bits, error::COIN_HOPPER);
    lemma_one_ill(faults.bits, error::ITEM_DISPENSER_EMPTY);
    lemma_one_ill(faults.bits, error::COIN_HOPPER_EMPTY);
    lemma_one_ill(faults.bits, error::CANNOT_PAYOUT);
}

/// What setting and clearing one of these faults does to the bits.
proof fn lemma_one_ill(b: u32, m: u32)
    by (bit_vector)
    requires
        m == 0x0200 || m == 0x0400 || m == 0x1000 || m == 0x2000 || m == 0x4000,
    ensures
        (b | m) & 0x0200 != 0 <==> b & 0x0200 != 0 || m == 0x0200,
        (b | m) & 0x0400 != 0 <==> b & 0x0400 != 0 || m == 0x0400,
        (b | m) & 0x1000 != 0 <==> b & 0x1000 != 0 || m == 0x1000,
        (b | m) & 0x2000 != 0 <==> b & 0x2000 != 0 || m == 0x2000,
        (b | m) & 0x4000 != 0 <==> b & 0x4000 != 0 || m == 0x4000,
        (b | m) & 0xffff_89ff == b & 0xffff_89ff,
        (b & !m) & 0x0200 != 0 <==> b & 0x0200 != 0 && m != 0x0200,
        (b & !m) & 0x0400 != 0 <==> b & 0x0400 != 0 && m != 0x0400,
        (b & !m) & 0x1000 != 0 <==> b & 0x1000 != 0 && m != 0x1000,
        (b & !m) & 0x2000 != 0 <==> b & 0x2000 != 0 && m != 0x2000,
        (b & !m) & 0x4000 != 0 <==> b & 0x4000 != 0 && m != 0x4000,
        (b & !m) & 0xffff_89ff == b & 0xffff_89ff,
{
}

/// Can the machine sell: is the firmware in order, the dispenser neither broken nor empty, and every door shut?
pub open spec fn fit(faults: Errors) -> bool {
    !faults.has(0x0001) && !faults.has(0x0200) && !faults.has(0x1000) && !faults.has(0x8000)
}

/// The machine is fit to sell unless a fatal fault is present.
pub proof fn lemma_fit(faults: Errors)
    ensures
        fit(faults) == !faults.has(error::FATAL),
{
    error::law_only_fatal_faults_stop_sales(faults);
}

/// What is shown to whoever comes by: what is wrong if the machine cannot sell, how far the customer has got if there is
/// credit, and the price otherwise.
pub open spec fn shows_situation(w: World) -> bool {
    let currency = w.m.settings.currency;
    let price = w.m.settings.item_dispenser.unit_value;
    let cash = w.m.counters.cash;
    last_screen(w.out) == Some(
        if !fit(w.faults) {
            Effect::Show(Screen::Fault(w.faults))
        } else if cash > 0 {
            Effect::Show(Screen::Credit { cash, price, currency })
        } else {
            Effect::Show(Screen::Idle { price, currency })
        },
    )
}

/// Is a hopper from `i` on owing coins?
pub open spec fn owes_from(c: Counters, i: int) -> bool {
    exists|h: int| i <= h < HOPPER_COUNT && #[trigger] c.coins_pending@[h] > 0
}

/// Is `h` the first hopper from `i` on that owes coins?
pub open spec fn first_owing(c: Counters, i: int, h: int) -> bool {
    &&& i <= h < HOPPER_COUNT
    &&& c.coins_pending@[h] > 0
    &&& forall|j: int| i <= j < h ==> #[trigger] c.coins_pending@[j] == 0
}

/// The search for the next debt finds the first one.
proof fn lemma_next_debt(c: Counters, i: int)
    requires
        0 <= i,
    ensures
        world::next_debt(c, i) matches Some(h) ==> first_owing(c, i, h),
        world::next_debt(c, i) is Some <==> owes_from(c, i),
    decreases HOPPER_COUNT - i,
{
    if i < HOPPER_COUNT {
        lemma_next_debt(c, i + 1);
        if c.coins_pending@[i] == 0 && owes_from(c, i) {
            let h = choose|h: int| i <= h < HOPPER_COUNT && #[trigger] c.coins_pending@[h] > 0;
            assert(i + 1 <= h < HOPPER_COUNT && c.coins_pending@[h] > 0);
        }
        if owes_from(c, i + 1) {
            let h = choose|h: int| i + 1 <= h < HOPPER_COUNT && #[trigger] c.coins_pending@[h] > 0;
            assert(i <= h < HOPPER_COUNT && c.coins_pending@[h] > 0);
        }
    }
}

/// Of the counters, only the credit, the coins owed and how far serving the customer has got may differ.
pub open spec fn only_credit_moves(a: Counters, b: Counters) -> bool {
    b == (Counters { cash: b.cash, coins_pending: b.coins_pending, app_state: b.app_state, ..a })
}

/// The second counters follow from the first by turning credit into coins owed. No hopper is asked for more than it has,
/// nor one that is not fitted or whose coins are worth nothing for any. What is left as credit is less than one coin of
/// every hopper that has any left, and is what the coins do not come to.
pub open spec fn turned_into_coins(settings: Settings, a: Counters, b: Counters) -> bool {
    &&& only_credit_moves(a, b)
    &&& forall|i: int|
        0 <= i < HOPPER_COUNT ==> a.coins_pending@[i] <= #[trigger] b.coins_pending@[i] <= a.coins_pending@[i]
            + a.coin_levels@[i]
    &&& forall|i: int|
        0 <= i < HOPPER_COUNT && (!settings.coin_hoppers@[i].enabled || settings.coin_hoppers@[i].unit_value
            == 0) ==> #[trigger] b.coins_pending@[i] == a.coins_pending@[i]
    &&& forall|i: int|
        0 <= i < HOPPER_COUNT && settings.coin_hoppers@[i].enabled && settings.coin_hoppers@[i].unit_value > 0
            && #[trigger] b.coins_pending@[i] < a.coins_pending@[i] + a.coin_levels@[i] ==> b.cash
            < settings.coin_hoppers@[i].unit_value
    &&& b.cash <= a.cash
    &&& laws::held(settings, b) == laws::held(settings, a)
    &&& b.cash == change::unpayable(settings.coin_hoppers@, a.coin_levels@, a.cash)
    &&& forall|i: int|
        0 <= i < HOPPER_COUNT ==> #[trigger] b.coins_pending@[i] == a.coins_pending@[i] + change::planned(
            settings.coin_hoppers@,
            a.coin_levels@,
            a.cash,
        )[i]
}

/// Is the last hopper empty: does its level line say so, or is it down to its smallest stock?
pub open spec fn last_hopper_empty(m: Machine, low: Seq<bool>) -> bool {
    low[HOPPER_COUNT - 1] || m.counters.coin_levels@[HOPPER_COUNT - 1]
        <= m.settings.coin_hoppers@[HOPPER_COUNT - 1].min_level
}

/// The machine waits for customers again, and says so.
pub open spec fn waits_again(b: World) -> bool {
    &&& b.m.stage is Idle
    &&& shows_situation(b)
}

/// What is left of a customer's visit once no more coins come out: they are told to take `owed`, if it is anything, or else
/// thanked if nothing is left of their credit, or else what is left stays on the display.
pub open spec fn sees_off(a: World, b: World, owed: Cash) -> bool {
    &&& b.m.settings == a.m.settings
    &&& b.m.counters == (Counters {
        app_state: if owed == 0 && a.m.counters.cash > 0 {
            AppState::AcceptCash
        } else {
            a.m.counters.app_state
        },
        ..a.m.counters
    })
    &&& owed > 0 ==> b.m.stage is TakeChange && last_screen(b.out) == Some(
        Effect::Show(Screen::TakeChange { amount: owed, currency: a.m.settings.currency }),
    )
    &&& owed == 0 && a.m.counters.cash == 0 ==> b.m.stage is Thanks && last_screen(b.out) == Some(
        Effect::Show(Screen::Thanks),
    )
    &&& owed == 0 && a.m.counters.cash > 0 ==> waits_again(b)
}

/// The credit is returned: as much of it as there are coins for is owed as coins, and the first hopper that owes some is
/// asked for one, once what is owed has been written down; if none does, the machine waits again. That not all can be
/// paid is a fault, and that all can is none.
/// Nothing is remembered in the log, and how empty a hopper is, or any other fault, does not keep it from paying.
pub open spec fn returns_credit(a: World, b: World, low: Seq<bool>) -> bool {
    &&& b.m.settings == a.m.settings
    &&& remembered_events(b.out) == remembered_events(a.out)
    &&& if a.m.counters.cash == 0 {
        &&& b.m.counters == (Counters { app_state: AppState::AcceptCash, ..a.m.counters })
        &&& ills(b.faults) == ills(a.faults)
        &&& waits_again(b)
    } else {
        &&& turned_into_coins(a.m.settings, a.m.counters, b.m.counters)
        &&& ills(b.faults) == (Ills {
            no_change: b.m.counters.cash > 0,
            few_coins: ills(b.faults).few_coins,
            ..ills(a.faults)
        })
        &&& owes_from(b.m.counters, 0) ==> (b.m.stage matches Stage::Coins { hopper, owed } && first_owing(
            b.m.counters,
            0,
            hopper as int,
        ) && owed == Some((a.m.counters.cash - b.m.counters.cash) as Cash) && (hopper == 0 ==> ills(
            b.faults,
        ).few_coins == ills(a.faults).few_coins)) && b.m.counters.app_state == AppState::PayoutReminder
            && written_counters(b.out) == written_counters(a.out).push(b.m.counters)
        &&& !owes_from(b.m.counters, 0) ==> waits_again(b) && b.m.counters.app_state == AppState::AcceptCash
            && ills(b.faults).few_coins
            == last_hopper_empty(b.m, low)
    }
}

/// Noting which hoppers are empty changes nothing else, and the last one noted is what is known in the end.
proof fn lemma_noted(w: World, low: Seq<bool>, i: int, j: int)
    requires
        i <= j,
    ensures
        w.passed(low, i, j).m == w.m,
        w.passed(low, i, j).out == w.out,
        ills(w.passed(low, i, j).faults) == (Ills {
            few_coins: if i < j {
                low[j - 1] || w.m.counters.coin_levels@[j - 1] <= w.m.settings.coin_hoppers@[j - 1].min_level
            } else {
                ills(w.faults).few_coins
            },
            ..ills(w.faults)
        }),
    decreases j - i,
{
    world::lemma_passed(w, low, i, j);
    if i < j {
        lemma_noted(w, low, i, j - 1);
        lemma_ills(w.passed(low, i, j - 1).faults, true);
        lemma_ills(w.passed(low, i, j - 1).faults, false);
    }
}

/// Turning to waiting.
proof fn lemma_finished(w: World)
    ensures
        ({
            let b = w.finished();
            &&& b.m.settings == w.m.settings
            &&& b.m.counters == (Counters { app_state: AppState::AcceptCash, ..w.m.counters })
            &&& b.faults == w.faults
            &&& remembered_events(b.out) == remembered_events(w.out)
            &&& waits_again(b)
        }),
{
    broadcast use lemma_one_more;

    reveal(World::finished);
    lemma_fit(w.faults);
}

/// Seeing a customer off.
proof fn lemma_change_paid(w: World, owed: Cash)
    ensures
        ({
            let b = w.change_paid(owed);
            &&& sees_off(w, b, owed)
            &&& b.faults == w.faults
            &&& remembered_events(b.out) == remembered_events(w.out)
        }),
{
    broadcast use lemma_one_more;

    reveal(World::change_paid);
    reveal(World::change_taken);
    lemma_finished(w);
}

/// Turning credit into coins.
pub proof fn lemma_change_planned(settings: Settings, c: Counters)
    requires
        world::change_counts(settings, c),
        c.cash > 0,
    ensures
        turned_into_coins(settings, c, world::change_planned(settings, c)),
{
    let hoppers = settings.coin_hoppers@;
    let plan = world::change_plan(settings, c);
    let b = world::change_planned(settings, c);
    change::law_change_adds_up(hoppers, c.coin_levels@, c.cash);
    laws::lemma_change_planned(settings, c);
    assert forall|i: int| 0 <= i < HOPPER_COUNT implies c.coins_pending@[i] + #[trigger] plan[i]
        <= u16::MAX by {}
    laws::lemma_owing_more(c.coins_pending, plan, HOPPER_COUNT as nat);
    assert forall|i: int| 0 <= i < HOPPER_COUNT implies #[trigger] b.coins_pending@[i] == c.coins_pending@[i]
        + plan[i] && plan[i] <= c.coin_levels@[i] by {}
}

/// Where nothing is added to what is owed, the credit stays.
proof fn lemma_no_coins_no_change(settings: Settings, a: Counters, b: Counters)
    requires
        turned_into_coins(settings, a, b),
        forall|i: int| 0 <= i < HOPPER_COUNT ==> #[trigger] b.coins_pending@[i] == 0,
    ensures
        b.cash == a.cash,
{
    assert(a.coins_pending =~= b.coins_pending) by {
        assert forall|i: int| 0 <= i < HOPPER_COUNT implies #[trigger] a.coins_pending@[i]
            == b.coins_pending@[i] by {
            assert(b.coins_pending@[i] == 0);
        }
    }
}

/// Returning the credit.
proof fn lemma_residual(w: World, low: Seq<bool>)
    requires
        world::change_counts(w.m.settings, w.m.counters),
    ensures
        returns_credit(w, w.residual(low), low),
{
    broadcast use lemma_one_more;

    reveal(World::residual);
    let c = w.m.counters;
    let s = w.m.settings;
    let b = w.residual(low);
    if c.cash == 0 {
        lemma_finished(w);
    } else {
        lemma_change_planned(s, c);
        let planned = world::change_planned(s, c);
        let short = planned.cash > 0;
        lemma_ills(w.faults, short);
        let w1 = w.counting(planned).persisted().flagged(
            error::CANNOT_PAYOUT,
            world::change_short(s, c) > 0,
        );
        lemma_paying(w1, low, 0, world::change_owed(s, c));
        if !owes_from(planned, 0) {
            assert forall|i: int| 0 <= i < HOPPER_COUNT implies #[trigger] planned.coins_pending@[i] == 0 by {
                assert(!(planned.coins_pending@[i] > 0));
            }
            lemma_no_coins_no_change(s, c, planned);
        }
    }
}

/// Going on to the next hopper that owes coins, or seeing the customer off.
proof fn lemma_paying(w: World, low: Seq<bool>, i: int, owed: Cash)
    requires
        0 <= i < HOPPER_COUNT,
    ensures
        ({
            let b = w.paying(low, i, owed);
            &&& b.m.settings == w.m.settings
            &&& remembered_events(b.out) == remembered_events(w.out)
            &&& ills(b.faults) == (Ills { few_coins: ills(b.faults).few_coins, ..ills(w.faults) })
            &&& owes_from(w.m.counters, i) ==> b.m.counters == w.m.counters && (b.m.stage matches Stage::Coins {
                hopper,
                owed: o,
            } && first_owing(w.m.counters, i, hopper as int) && o == Some(owed) && (hopper == i ==> ills(
                b.faults,
            ).few_coins == ills(w.faults).few_coins)) && b.out == w.out
            &&& !owes_from(w.m.counters, i) ==> sees_off(w, b, owed) && ills(b.faults).few_coins
                == last_hopper_empty(b.m, low)
        }),
{
    reveal(World::paying);
    lemma_next_debt(w.m.counters, i);
    match world::next_debt(w.m.counters, i) {
        Some(h) => lemma_noted(w, low, i, h),
        None => {
            lemma_noted(w, low, i, HOPPER_COUNT as int);
            lemma_change_paid(w.passed(low, i, HOPPER_COUNT as int), owed);
        },
    }
}

/// Debts from before a power cut have been paid: the credit is returned, if there is any, or else the machine waits.
pub open spec fn goes_on_after_debts(a: World, b: World, low: Seq<bool>) -> bool {
    if a.m.counters.cash > 0 {
        returns_credit(a, b, low)
    } else {
        &&& b.m.settings == a.m.settings
        &&& b.m.counters == a.m.counters
        &&& b.faults == a.faults
        &&& remembered_events(b.out) == remembered_events(a.out)
        &&& waits_again(b)
    }
}

/// Going on after debts.
proof fn lemma_resumed(w: World, low: Seq<bool>)
    requires
        world::change_counts(w.m.settings, w.m.counters),
    ensures
        goes_on_after_debts(w, w.resumed(low), low),
{
    broadcast use lemma_one_more;

    reveal(World::resumed);
    lemma_fit(w.faults);
    if w.m.counters.cash > 0 {
        lemma_residual(w, low);
    }
}

/// Debts from before a power cut are paid, from hopper `i` on: the first that owes coins is asked for one, and once none
/// does, the machine goes on.
pub open spec fn pays_debts(a: World, b: World, low: Seq<bool>, i: int) -> bool {
    &&& owes_from(a.m.counters, i) ==> {
        &&& b.m.settings == a.m.settings && b.m.counters == a.m.counters && b.out == a.out
        &&& b.m.stage matches Stage::Coins { hopper, owed } && first_owing(a.m.counters, i, hopper as int)
            && owed is None
        &&& ills(b.faults) == (Ills { few_coins: ills(b.faults).few_coins, ..ills(a.faults) })
        &&& a.m.counters.coins_pending@[i] > 0 ==> ills(b.faults) == ills(a.faults)
    }
    &&& !owes_from(a.m.counters, i) ==> exists|noted: World|
        noted.m == a.m && noted.out == a.out && ills(noted.faults) == (Ills {
            few_coins: last_hopper_empty(a.m, low),
            ..ills(a.faults)
        }) && #[trigger] goes_on_after_debts(noted, b, low)
}

/// Paying debts from before a power cut.
proof fn lemma_repaying(w: World, low: Seq<bool>, i: int)
    requires
        0 <= i < HOPPER_COUNT,
        !owes_from(w.m.counters, i) ==> world::change_counts(w.m.settings, w.m.counters),
    ensures
        pays_debts(w, w.repaying(low, i), low, i),
{
    reveal(World::repaying);
    lemma_next_debt(w.m.counters, i);
    match world::next_debt(w.m.counters, i) {
        Some(h) => {
            lemma_noted(w, low, i, h);
            if w.m.counters.coins_pending@[i] > 0 {
                assert(h == i);
            }
        },
        None => {
            lemma_noted(w, low, i, HOPPER_COUNT as int);
            let noted = w.passed(low, i, HOPPER_COUNT as int);
            lemma_resumed(noted, low);
            assert(goes_on_after_debts(noted, w.repaying(low, i), low));
        },
    }
}

/// The menu is open at a place, and shown; the cursor stays where it was, or at the last item if there is none there.
pub open spec fn opens_menu_at(b: World, place: Place) -> bool {
    &&& b.m.stage matches Stage::Menu(p) && p.access == place.access && p.cursor == (if place.cursor
        < menu::visible(place.access).len() {
        place.cursor as int
    } else {
        menu::visible(place.access).len() - 1
    })
    &&& last_screen(b.out) == Some(Effect::ShowStage)
}

/// Opening the menu changes nothing else.
pub proof fn lemma_listed(w: World, place: Place)
    ensures
        ({
            let b = w.listed(place);
            &&& opens_menu_at(b, place)
            &&& b.m == (Machine { stage: b.m.stage, ..w.m })
            &&& b.faults == w.faults
            &&& b.out == w.out.push(Effect::ShowStage)
        }),
{
    broadcast use lemma_one_more;

    reveal(World::listed);
    menu::lemma_visible(place.access, ITEM_COUNT as nat);
}

/// What comes after covers have been dispensed, or as many as would come out: after a sale the credit is returned, after a
/// pair was given away the menu is open again, and after switching on the coins that are owed are paid.
pub open spec fn goes_on_after_covers(a: World, b: World, purpose: Purpose, low: Seq<bool>) -> bool {
    match purpose {
        Purpose::Sale => returns_credit(a, b, low),
        Purpose::Free(place) => {
            &&& b.m.settings == a.m.settings && b.m.counters == a.m.counters && b.faults == a.faults
            &&& remembered_events(b.out) == remembered_events(a.out)
            &&& opens_menu_at(b, place)
        },
        Purpose::Resume => pays_debts(a, b, low, 0),
    }
}

/// Going on after covers.
proof fn lemma_items_paid(w: World, purpose: Purpose, low: Seq<bool>)
    requires
        laws::change_follows(w, purpose) ==> world::change_counts(w.m.settings, w.m.counters),
    ensures
        goes_on_after_covers(w, w.items_paid(purpose, low), purpose, low),
{
    broadcast use lemma_one_more;

    reveal(World::items_paid);
    lemma_next_debt(w.m.counters, 0);
    match purpose {
        Purpose::Resume => lemma_repaying(w, low, 0),
        Purpose::Sale => lemma_residual(w, low),
        Purpose::Free(place) => lemma_listed(w.refreshed(), place),
    }
}

/// The sum of two amounts, or the most that can be counted.
pub open spec fn sum_or_most(a: u32, b: u32) -> int {
    if a + b <= 0xffff_ffff {
        a + b
    } else {
        0xffff_ffff
    }
}

/// One, if so.
pub open spec fn one_if(b: bool) -> int {
    if b {
        1
    } else {
        0
    }
}

/// A stock after one has come out, if one has.
pub open spec fn one_fewer(level: Level, out: bool) -> int {
    if out && level > 0 {
        level - 1
    } else {
        level as int
    }
}

/// A pair is sold: the price is taken off the credit, a pair is owed and asked for, and the customer is told to wait.
pub open spec fn sells(a: World, b: World) -> bool {
    let c = a.m.counters;
    &&& b.m.settings == a.m.settings && b.faults == a.faults
    &&& b.m.counters == (Counters {
        cash: (c.cash - a.m.settings.item_dispenser.unit_value) as Cash,
        items_pending: (c.items_pending + 1) as Level,
        app_state: AppState::PayoutItems,
        ..c
    })
    &&& b.m.stage == Stage::Items(Purpose::Sale)
    &&& last_screen(b.out) == Some(Effect::Show(Screen::Dispensing))
    &&& remembered_events(b.out) == remembered_events(a.out)
    &&& written_counters(b.out) == written_counters(a.out).push(b.m.counters)
}

/// Selling.
proof fn lemma_sold(w: World, low: Seq<bool>)
    requires
        w.m.counters.cash >= w.m.settings.item_dispenser.unit_value && fit(w.faults)
            ==> w.m.counters.items_pending < u16::MAX,
    ensures
        w.m.counters.cash >= w.m.settings.item_dispenser.unit_value && fit(w.faults) ==> sells(
            w,
            w.sold(low),
        ),
        !(w.m.counters.cash >= w.m.settings.item_dispenser.unit_value && fit(w.faults)) ==> w.sold(low) == w,
{
    broadcast use lemma_one_more;

    reveal(World::sold);
    reveal(World::dispensing);
    lemma_fit(w.faults);
}

/// A coin put into a machine that waits for customers is worth its value: the credit and what has been taken, overall and in
/// the period, go up by it, and it is remembered and written down. If the credit then covers the price and the machine is fit,
/// a pair is sold at once; otherwise the credit is shown, and nothing else changes.
pub proof fn law_coin_is_credited(w: World, channel: u8, value: Cash, low: Seq<bool>, log_lines: nat)
    requires
        w.m.wf(),
        w.m.stage is Idle,
        w.m.counts(Input::Happened(Event::Coin { channel, value }), w.faults),
    ensures
        ({
            let b = w.stepped(Input::Happened(Event::Coin { channel, value }), low, log_lines);
            let c = w.m.counters;
            let credit = sum_or_most(c.cash, value);
            let price = w.m.settings.item_dispenser.unit_value;
            let sale = credit >= price && fit(w.faults);
            &&& b.m.settings == w.m.settings && b.faults == w.faults
            &&& b.m.counters == (Counters {
                cash: (if sale {
                    credit - price
                } else {
                    credit
                }) as Cash,
                items_pending: (c.items_pending + one_if(sale)) as Level,
                app_state: if sale {
                    AppState::PayoutItems
                } else {
                    c.app_state
                },
                overall: Accounting {
                    cash_in: sum_or_most(c.overall.cash_in, value) as Cash,
                    ..c.overall
                },
                period: Accounting {
                    cash_in: sum_or_most(c.period.cash_in, value) as Cash,
                    ..c.period
                },
                ..c
            })
            &&& remembered_events(b.out) == remembered_events(w.out).push((EventKind::Coin, value))
            &&& written_counters(b.out).last() == b.m.counters
            &&& sale ==> b.m.stage == Stage::Items(Purpose::Sale) && last_screen(b.out) == Some(
                Effect::Show(Screen::Dispensing),
            )
            &&& !sale ==> waits_again(b)
        }),
{
    broadcast use lemma_one_more;

    reveal(World::stepped);
    reveal(World::handled);
    reveal(World::served);
    reveal(World::accepted);
    lemma_fit(w.faults);
    let w1 = w.accepted(value);
    lemma_sold(w1, low);
}

/// The accept button sells a pair if the credit covers the price and the machine is fit, and otherwise does nothing at all.
pub proof fn law_accept_sells(w: World, low: Seq<bool>, log_lines: nat)
    requires
        w.m.wf(),
        w.m.stage is Idle,
        w.m.counts(Input::Happened(Event::Button(Button::Accept)), w.faults),
    ensures
        ({
            let b = w.stepped(Input::Happened(Event::Button(Button::Accept)), low, log_lines);
            if w.m.counters.cash >= w.m.settings.item_dispenser.unit_value && fit(w.faults) {
                sells(w, b)
            } else {
                b == w
            }
        }),
{
    reveal(World::stepped);
    reveal(World::handled);
    reveal(World::served);
    lemma_fit(w.faults);
    lemma_sold(w, low);
}

/// The cancel button returns the credit, and so does leaving it alone until the time to wait has run out. Without credit,
/// cancelling only shows the situation again, and waiting does nothing at all.
pub proof fn law_cancel_and_timeout_return_the_credit(w: World, low: Seq<bool>, log_lines: nat)
    requires
        w.m.wf(),
        w.m.stage is Idle,
        w.m.counts(Input::Elapsed, w.faults),
    ensures
        ({
            let cancelled = w.stepped(Input::Happened(Event::Button(Button::Cancel)), low, log_lines);
            let waited = w.stepped(Input::Elapsed, low, log_lines);
            &&& w.m.counters.cash > 0 ==> returns_credit(w, cancelled, low) && returns_credit(w, waited, low)
            &&& w.m.counters.cash == 0 ==> waited == w && cancelled.m == w.m && cancelled.faults == w.faults
                && waits_again(cancelled) && remembered_events(cancelled.out) == remembered_events(w.out)
        }),
{
    broadcast use lemma_one_more;

    reveal(World::stepped);
    reveal(World::handled);
    reveal(World::served);
    reveal(World::elapsed);
    lemma_fit(w.faults);
    if w.m.counters.cash > 0 {
        lemma_residual(w, low);
    }
}

/// The other two buttons do nothing to a machine that waits for customers, and a door only makes it show its situation.
pub proof fn law_other_events_sell_nothing(w: World, index: usize, open: bool, low: Seq<bool>, log_lines: nat)
    requires
        w.m.stage is Idle,
    ensures
        w.stepped(Input::Happened(Event::Button(Button::Next)), low, log_lines) == w,
        w.stepped(Input::Happened(Event::Button(Button::Prev)), low, log_lines) == w,
        ({
            let b = w.stepped(Input::Happened(Event::Door { index, open }), low, log_lines);
            &&& b.m == w.m && b.faults == w.faults && waits_again(b)
            &&& remembered_events(b.out) == remembered_events(w.out)
        }),
{
    broadcast use lemma_one_more;

    reveal(World::stepped);
    reveal(World::handled);
    reveal(World::served);
    lemma_fit(w.faults);
}

/// What follows an answer of the dispenser: the next pair is asked for if one is still owed and the dispenser works, and
/// otherwise the machine goes on.
pub open spec fn follows_pair(a: World, b: World, purpose: Purpose, failed: bool, low: Seq<bool>) -> bool {
    if !failed && (a.m.counters.items_pending > 0 || a.m.counters.free_items_pending > 0) {
        &&& b.m.settings == a.m.settings && b.m.counters == a.m.counters && b.faults == a.faults
        &&& b.m.stage == Stage::Items(purpose)
        &&& last_screen(b.out) == Some(Effect::Show(Screen::Dispensing))
        &&& remembered_events(b.out) == remembered_events(a.out)
    } else {
        goes_on_after_covers(a, b, purpose, low)
    }
}

/// What an answer of the dispenser itself does, before the machine goes on.
pub open spec fn pair_is_counted(w: World, mid: World, count: u16, failed: bool) -> bool {
    let c = w.m.counters;
    let paid = c.items_pending > 0;
    let out = count > 0;
    &&& mid.m.settings == w.m.settings
    &&& mid.m.counters == (Counters {
        item_level: one_fewer(c.item_level, out) as Level,
        items_pending: (c.items_pending - one_if(out && paid)) as Level,
        free_items_pending: (c.free_items_pending - one_if(out && !paid)) as Level,
        overall: Accounting {
            items_dispensed: (c.overall.items_dispensed + one_if(out && paid)) as u32,
            items_free: (c.overall.items_free + one_if(out && !paid)) as u32,
            ..c.overall
        },
        period: Accounting {
            items_dispensed: (c.period.items_dispensed + one_if(out && paid)) as u32,
            items_free: (c.period.items_free + one_if(out && !paid)) as u32,
            ..c.period
        },
        app_state: mid.m.counters.app_state,
        ..c
    })
    &&& ills(mid.faults) == (Ills {
        dispenser: failed || ills(w.faults).dispenser,
        no_covers: if failed {
            ills(w.faults).no_covers
        } else {
            mid.m.counters.item_level <= w.m.settings.item_dispenser.min_level
        },
        ..ills(w.faults)
    })
    &&& remembered_events(mid.out) == remembered_events(w.out) + (if out {
        seq![
            (
                EventKind::ItemDispensed,
                if paid {
                    1u32
                } else {
                    0
                },
            ),
        ]
    } else {
        Seq::empty()
    }) + (if failed {
        seq![(EventKind::ErrorRaised, 0x0200u32)]
    } else {
        Seq::empty()
    })
}

/// A pair that came out is counted once: it is no longer owed, one that was paid for before one that was not; the stock goes
/// down by one; the totals, overall and of the period, go up by one where it belongs; and it is remembered. If none came
/// out, none of that happens, and the pair stays owed. A dispenser that fails is a fault, which is remembered, and is not
/// asked again; one that works but is down to its smallest stock is empty.
pub proof fn law_pair_is_counted(
    w: World,
    purpose: Purpose,
    count: u16,
    failure: Option<HopperError>,
    low: Seq<bool>,
    log_lines: nat,
)
    requires
        w.m.wf(),
        w.m.stage == Stage::Items(purpose),
        w.m.counts((Input::Dispensed { count, failure }), w.faults),
    ensures
        exists|mid: World|
            pair_is_counted(w, mid, count, failure is Some) && #[trigger] follows_pair(
                mid,
                w.stepped((Input::Dispensed { count, failure }), low, log_lines),
                purpose,
                failure is Some,
                low,
            ),
{
    broadcast use lemma_one_more;

    reveal(World::stepped);
    reveal(World::item_answered);
    reveal(World::pair_counted);
    let b = w.stepped((Input::Dispensed { count, failure }), low, log_lines);
    let counted = if count > 0 {
        w.pair_counted()
    } else {
        w
    };
    crate::vending::lemma_same_debts(counted.m.counters, w.m.counters, 0);
    crate::vending::lemma_same_change(w.m.settings, counted.m.counters, w.m.counters);
    lemma_ills(counted.faults, true);
    lemma_ills(counted.faults, false);
    if failure is Some {
        reveal(World::item_failed);
        let mid = counted.raised(error::ITEM_DISPENSER).persisted();
        lemma_items_paid(mid, purpose, low);
        assert(remembered_events(mid.out) =~= remembered_events(w.out) + (if count > 0 {
            seq![
                (
                    EventKind::ItemDispensed,
                    if w.m.counters.items_pending > 0 {
                        1u32
                    } else {
                        0
                    },
                ),
            ]
        } else {
            Seq::empty()
        }) + seq![(EventKind::ErrorRaised, 0x0200u32)]);
        assert(pair_is_counted(w, mid, count, true));
        assert(follows_pair(mid, b, purpose, true, low));
    } else {
        reveal(World::item_came);
        reveal(World::dispensing);
        let flagged = counted.flagged(
            error::ITEM_DISPENSER_EMPTY,
            counted.m.counters.item_level <= counted.m.settings.item_dispenser.min_level,
        );
        assert(remembered_events(flagged.out) =~= remembered_events(w.out) + (if count > 0 {
            seq![
                (
                    EventKind::ItemDispensed,
                    if w.m.counters.items_pending > 0 {
                        1u32
                    } else {
                        0
                    },
                ),
            ]
        } else {
            Seq::empty()
        }) + Seq::empty());
        if world::owes_items(flagged.m.counters) {
            assert(pair_is_counted(w, flagged, count, false));
            assert(follows_pair(flagged, b, purpose, false, low));
        } else {
            let mid = flagged.serving(AppState::ProcessResidual).persisted();
            crate::vending::lemma_same_debts(mid.m.counters, w.m.counters, 0);
            crate::vending::lemma_same_change(w.m.settings, mid.m.counters, w.m.counters);
            lemma_items_paid(mid, purpose, low);
            assert(pair_is_counted(w, mid, count, false));
            assert(follows_pair(mid, b, purpose, false, low));
        }
    }
}

/// What an answer of a hopper itself does, before the machine goes on.
pub open spec fn coin_is_counted(w: World, mid: World, hopper: int, count: u16, failed: bool) -> bool {
    let c = w.m.counters;
    let d = mid.m.counters;
    let out = count > 0;
    let value = if out {
        w.m.settings.coin_hoppers@[hopper].unit_value
    } else {
        0
    };
    &&& mid.m.settings == w.m.settings
    &&& d == (Counters {
        coin_levels: d.coin_levels,
        coins_pending: d.coins_pending,
        overall: Accounting { cash_out: sum_or_most(c.overall.cash_out, value) as Cash, ..c.overall },
        period: Accounting { cash_out: sum_or_most(c.period.cash_out, value) as Cash, ..c.period },
        ..c
    })
    &&& forall|i: int|
        0 <= i < HOPPER_COUNT ==> #[trigger] d.coin_levels@[i] == one_fewer(c.coin_levels@[i], out && i == hopper)
    &&& forall|i: int|
        0 <= i < HOPPER_COUNT ==> #[trigger] d.coins_pending@[i] == c.coins_pending@[i] - one_if(
            out && i == hopper,
        )
    &&& ills(mid.faults) == (Ills { hopper: failed || ills(w.faults).hopper, ..ills(w.faults) })
    &&& remembered_events(mid.out) == remembered_events(w.out) + (if out {
        seq![(EventKind::HopperPayout, hopper as u32)]
    } else {
        Seq::empty()
    }) + (if failed {
        seq![(EventKind::ErrorRaised, 0x0400u32)]
    } else {
        Seq::empty()
    })
}

/// What follows an answer of a hopper. One that failed is not asked again, nor any other, for this customer. One that works
/// is asked for the next coin as long as it owes one, and then the next hopper that does; and when none is left, the customer
/// is seen off, or the machine goes on after its debts.
pub open spec fn follows_coin(
    a: World,
    b: World,
    hopper: int,
    owed: Option<Cash>,
    failed: bool,
    low: Seq<bool>,
) -> bool {
    match owed {
        Some(change) => {
            &&& b.m.settings == a.m.settings
            &&& remembered_events(b.out) == remembered_events(a.out)
            &&& ills(b.faults) == (Ills { few_coins: ills(b.faults).few_coins, ..ills(a.faults) })
            &&& failed ==> sees_off(a, b, change) && ills(b.faults) == ills(a.faults)
            &&& !failed && owes_from(a.m.counters, hopper) ==> b.m.counters == a.m.counters && (
            b.m.stage matches Stage::Coins { hopper: next, owed: o } && first_owing(
                a.m.counters,
                hopper,
                next as int,
            ) && o == owed && (next == hopper ==> ills(b.faults) == ills(a.faults)))
            &&& !failed && !owes_from(a.m.counters, hopper) ==> sees_off(a, b, change) && ills(
                b.faults,
            ).few_coins == last_hopper_empty(b.m, low)
        },
        None => if failed {
            goes_on_after_debts(a, b, low)
        } else {
            pays_debts(a, b, low, hopper)
        },
    }
}

/// A coin of change that came out is counted once: it is no longer owed by its hopper, whose stock goes down by one; what has
/// been paid out, overall and in the period, goes up by what it is worth; and it is remembered. If none came out, none of
/// that happens, and the coin stays owed. A hopper that fails is a fault, which is remembered.
pub proof fn law_coin_of_change_is_counted(
    w: World,
    hopper: usize,
    owed: Option<Cash>,
    count: u16,
    failure: Option<HopperError>,
    low: Seq<bool>,
    log_lines: nat,
)
    requires
        w.m.wf(),
        w.m.stage == (Stage::Coins { hopper, owed }),
        w.m.counts((Input::Dispensed { count, failure }), w.faults),
    ensures
        exists|mid: World|
            coin_is_counted(w, mid, hopper as int, count, failure is Some) && #[trigger] follows_coin(
                mid,
                w.stepped((Input::Dispensed { count, failure }), low, log_lines),
                hopper as int,
                owed,
                failure is Some,
                low,
            ),
{
    broadcast use lemma_one_more;

    reveal(World::stepped);
    reveal(World::coin_answered);
    reveal(World::coin_counted);
    let h = hopper as int;
    let b = w.stepped((Input::Dispensed { count, failure }), low, log_lines);
    let counted = if count > 0 {
        w.coin_counted(h)
    } else {
        w
    };
    lemma_ills(counted.faults, true);
    lemma_next_debt(counted.m.counters, h);
    assert(remembered_events(counted.out) =~= remembered_events(w.out) + (if count > 0 {
        seq![(EventKind::HopperPayout, hopper as u32)]
    } else {
        Seq::empty()
    }));
    if failure is Some {
        reveal(World::coin_failed);
        let mid = counted.raised(error::COIN_HOPPER).persisted();
        assert(remembered_events(mid.out) =~= remembered_events(counted.out) + seq![
            (EventKind::ErrorRaised, 0x0400u32),
        ]);
        match owed {
            Some(change) => lemma_change_paid(mid, change),
            None => lemma_resumed(mid, low),
        }
        assert(coin_is_counted(w, mid, h, count, true));
        assert(follows_coin(mid, b, h, owed, true, low));
    } else {
        assert(remembered_events(counted.out) =~= remembered_events(counted.out) + Seq::empty());
        match owed {
            Some(change) => lemma_paying(counted, low, h, change),
            None => lemma_repaying(counted, low, h),
        }
        assert(coin_is_counted(w, counted, h, count, false));
        assert(follows_coin(counted, b, h, owed, false, low));
    }
}

/// Messages pass. Told to take their change, a customer is then thanked if nothing is left of their credit, and otherwise
/// what is left is shown again; thanked, or told that their key is not known, they make room for the next.
pub proof fn law_messages_pass(w: World, low: Seq<bool>, log_lines: nat)
    requires
        w.m.stage is TakeChange || w.m.stage is Thanks || w.m.stage is UnknownKey,
    ensures
        ({
            let b = w.stepped(Input::Elapsed, low, log_lines);
            let c = w.m.counters;
            &&& b.m.settings == w.m.settings && b.faults == w.faults
            &&& remembered_events(b.out) == remembered_events(w.out)
            &&& w.m.stage is TakeChange && c.cash == 0 ==> b.m.stage is Thanks && b.m.counters == c
                && last_screen(b.out) == Some(Effect::Show(Screen::Thanks))
            &&& w.m.stage is UnknownKey ==> waits_again(b) && b.m.counters == c
            &&& w.m.stage is Thanks || w.m.stage is TakeChange && c.cash > 0 ==> waits_again(b)
                && b.m.counters == (Counters { app_state: AppState::AcceptCash, ..c })
        }),
{
    broadcast use lemma_one_more;

    reveal(World::stepped);
    reveal(World::elapsed);
    reveal(World::change_taken);
    lemma_fit(w.faults);
    lemma_finished(w);
}

/// Switched on, the machine first pays what it owes, covers before coins, and otherwise waits for customers.
pub proof fn law_switched_on(w: World, low: Seq<bool>)
    ensures
        ({
            let b = w.started(low);
            let c = w.m.counters;
            &&& b.m.settings == w.m.settings
            &&& remembered_events(b.out) == remembered_events(w.out)
            &&& b.m.counters == (Counters { app_state: b.m.counters.app_state, ..c })
            &&& c.items_pending > 0 || c.free_items_pending > 0 ==> b.m.stage == Stage::Items(Purpose::Resume)
                && last_screen(b.out) == Some(Effect::Show(Screen::Dispensing)) && b.faults == w.faults
            &&& c.items_pending == 0 && c.free_items_pending == 0 && owes_from(c, 0) ==> (
            b.m.stage matches Stage::Coins { hopper, owed } && first_owing(c, 0, hopper as int) && owed is None)
            &&& c.items_pending == 0 && c.free_items_pending == 0 && !owes_from(c, 0) ==> waits_again(b)
                && b.faults == w.faults && b.m.counters.app_state == AppState::AcceptCash
        }),
{
    broadcast use lemma_one_more;

    reveal(World::started);
    reveal(World::dispensing);
    reveal(World::items_paid);
    let c = w.m.counters;
    lemma_fit(w.faults);
    lemma_next_debt(c, 0);
    if c.items_pending == 0 && c.free_items_pending == 0 {
        if owes_from(c, 0) {
            let h = choose|h: int| 0 <= h < HOPPER_COUNT && #[trigger] c.coins_pending@[h] > 0;
            assert(c.coins_pending@[h] > 0);
            let mid = w.serving(AppState::ProcessResidual).persisted();
            assert(owes_from(mid.m.counters, 0)) by {
                assert(mid.m.counters.coins_pending@[h] > 0);
            }
            lemma_repaying(mid, low, 0);
        } else if exists|i: int| 0 <= i < HOPPER_COUNT && #[trigger] c.coins_pending@[i] > 0 {
            assert(owes_from(c, 0));
        }
    }
}

/// How long the machine waits, and for what. Credit that nobody spends is returned after a set time, and an engineer who does
/// nothing is taken to have left after another; a machine without credit looks up once an hour, and a message stays for
/// as long as its setting says, or two seconds for a key that is not known.
pub proof fn law_waiting_times(m: Machine)
    ensures
        m.stage is Idle && m.counters.cash > 0 ==> m.waits() == Wait::Event(
            m.settings.cash_clear_timeout as u64,
        ),
        m.stage is Idle && m.counters.cash == 0 ==> m.waits() == Wait::Event(3_600),
        m.stage is Items ==> m.waits() == Wait::Dispenser,
        m.stage matches Stage::Coins { hopper, .. } ==> m.waits() == Wait::Hopper(hopper),
        m.stage is TakeChange ==> m.waits() == Wait::Delay(m.settings.payout_message_delay as u64),
        m.stage is Thanks ==> m.waits() == Wait::Delay(m.settings.thanks_message_delay as u64),
        m.stage is UnknownKey ==> m.waits() == Wait::Delay(2),
        m.stage is Menu || m.stage is Edit || m.stage is Report || m.stage is Keys ==> m.waits()
            == Wait::Event(m.settings.menu_exit_timeout as u64),
{
}

} // verus!
