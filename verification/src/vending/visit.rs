//! What holds of an engineer's visit.
use vstd::prelude::*;

use crate::config::HOPPER_COUNT;
use crate::error;
use crate::event::{Button, Event};
use crate::hopper::HopperError;
use crate::menu::{self, Item, ITEM_COUNT};
use crate::state::{Accounting, AppState, Cash, Counters, EventKind};
use crate::ui::Screen;
use crate::vending::world::{self, World};
use crate::vending::{Effect, Input, Machine, Place, Purpose, Stage};

verus! {

/// Is somebody in the menu, or waiting for a pair they gave away from it?
pub open spec fn in_menu(stage: Stage) -> bool {
    match stage {
        Stage::Menu(_) => true,
        Stage::Edit { .. } => true,
        Stage::Report { .. } => true,
        Stage::Keys { .. } => true,
        Stage::Items(Purpose::Free(_)) => true,
        _ => false,
    }
}

/// Is the coin acceptor shut once what is to be done has been done, if it was `before`?
pub open spec fn shut_after(out: Seq<Effect>, before: bool) -> bool
    decreases out.len(),
{
    if out.len() == 0 {
        before
    } else {
        match out.last() {
            Effect::Inhibit(on) => on,
            _ => shut_after(out.drop_last(), before),
        }
    }
}

/// The acceptor is shut exactly while somebody is in the menu.
pub open spec fn guarded(w: World, before: bool) -> bool {
    shut_after(w.out, before) == in_menu(w.m.stage)
}

/// What one more thing to do does to the acceptor.
proof fn lemma_doing(w: World, e: Effect, before: bool)
    ensures
        shut_after(w.doing(e).out, before) == (match e {
            Effect::Inhibit(on) => on,
            _ => shut_after(w.out, before),
        }),
{
    assert(w.out.push(e).drop_last() =~= w.out);
}

/// Writing down and remembering leave the acceptor alone.
proof fn lemma_written(w: World, kind: EventKind, value: u32, before: bool)
    ensures
        shut_after(w.persisted().out, before) == shut_after(w.out, before),
        shut_after(w.logged(kind, value).out, before) == shut_after(w.out, before),
        shut_after(w.refreshed().out, before) == shut_after(w.out, before),
{
    lemma_doing(w, Effect::Save(w.m.journal.saving(w.m.counters)), before);
    lemma_doing(w, Effect::Log(w.m.events.recording(kind, value)), before);
    lemma_doing(w, Effect::Show(w.situation()), before);
}

/// Turning to waiting leaves the acceptor open.
proof fn lemma_finished(w: World, before: bool)
    requires
        !shut_after(w.out, before),
    ensures
        guarded(w.finished(), before),
{
    reveal(World::finished);
    let w1 = w.serving(AppState::AcceptCash);
    lemma_written(w1, EventKind::Coin, 0, before);
    lemma_written(w1.persisted(), EventKind::Coin, 0, before);
}

/// So does thanking.
proof fn lemma_change_taken(w: World, before: bool)
    requires
        !shut_after(w.out, before),
    ensures
        guarded(w.change_taken(), before),
{
    reveal(World::change_taken);
    lemma_doing(w, Effect::Show(Screen::Thanks), before);
    lemma_finished(w, before);
}

/// So does showing what has been paid.
proof fn lemma_change_paid(w: World, owed: Cash, before: bool)
    requires
        !shut_after(w.out, before),
    ensures
        guarded(w.change_paid(owed), before),
{
    reveal(World::change_paid);
    lemma_doing(
        w,
        Effect::Show(Screen::TakeChange { amount: owed, currency: w.m.settings.currency }),
        before,
    );
    lemma_change_taken(w, before);
}

/// So does paying change.
proof fn lemma_paying(w: World, low: Seq<bool>, i: int, owed: Cash, before: bool)
    requires
        !shut_after(w.out, before),
    ensures
        guarded(w.paying(low, i, owed), before),
{
    reveal(World::paying);
    match world::next_debt(w.m.counters, i) {
        Some(h) => world::lemma_passed(w, low, i, h),
        None => {
            world::lemma_passed(w, low, i, HOPPER_COUNT as int);
            lemma_change_paid(w.passed(low, i, HOPPER_COUNT as int), owed, before);
        },
    }
}

/// So does turning what is left into change.
proof fn lemma_residual(w: World, low: Seq<bool>, before: bool)
    requires
        !shut_after(w.out, before),
    ensures
        guarded(w.residual(low), before),
{
    reveal(World::residual);
    if w.m.counters.cash == 0 {
        lemma_finished(w, before);
    } else {
        let s = w.m.settings;
        let c = w.m.counters;
        let w1 = w.counting(world::change_planned(s, c));
        lemma_written(w1, EventKind::Coin, 0, before);
        let w2 = w1.persisted().flagged(error::CANNOT_PAYOUT, world::change_short(s, c) > 0);
        lemma_paying(w2, low, 0, world::change_owed(s, c), before);
    }
}

/// So does going on after the debts.
proof fn lemma_resumed(w: World, low: Seq<bool>, before: bool)
    requires
        !shut_after(w.out, before),
    ensures
        guarded(w.resumed(low), before),
{
    reveal(World::resumed);
    lemma_written(w, EventKind::Coin, 0, before);
    if w.m.counters.cash > 0 {
        lemma_residual(w, low, before);
    }
}

/// So does paying debts.
proof fn lemma_repaying(w: World, low: Seq<bool>, i: int, before: bool)
    requires
        !shut_after(w.out, before),
    ensures
        guarded(w.repaying(low, i), before),
{
    reveal(World::repaying);
    match world::next_debt(w.m.counters, i) {
        Some(h) => world::lemma_passed(w, low, i, h),
        None => {
            world::lemma_passed(w, low, i, HOPPER_COUNT as int);
            lemma_resumed(w.passed(low, i, HOPPER_COUNT as int), low, before);
        },
    }
}

/// Leaving the menu opens the acceptor.
proof fn lemma_left_menu(w: World, before: bool)
    ensures
        guarded(w.left_menu(), before),
{
    reveal(World::left_menu);
    let w1 = w.logged(EventKind::ServiceExited, 0);
    lemma_doing(w1, Effect::Inhibit(false), before);
    lemma_written(w1.doing(Effect::Inhibit(false)), EventKind::Coin, 0, before);
}

/// Staying in the menu keeps it shut.
proof fn lemma_listed(w: World, place: Place, before: bool)
    requires
        shut_after(w.out, before),
    ensures
        guarded(w.listed(place), before),
{
    reveal(World::listed);
    lemma_left_menu(w, before);
    lemma_doing(w, Effect::ShowStage, before);
}

/// Going on after covers have been dispensed: back to the menu, or to the customer.
proof fn lemma_items_paid(w: World, purpose: Purpose, low: Seq<bool>, before: bool)
    requires
        shut_after(w.out, before) == purpose is Free,
    ensures
        guarded(w.items_paid(purpose, low), before),
{
    reveal(World::items_paid);
    match purpose {
        Purpose::Resume => lemma_repaying(w, low, 0, before),
        Purpose::Sale => lemma_residual(w, low, before),
        Purpose::Free(place) => {
            lemma_written(w, EventKind::Coin, 0, before);
            lemma_listed(w.refreshed(), place, before);
        },
    }
}

/// Dispensing leaves the acceptor as it is.
proof fn lemma_dispensing(w: World, purpose: Purpose, low: Seq<bool>, before: bool)
    requires
        shut_after(w.out, before) == purpose is Free,
    ensures
        guarded(w.dispensing(purpose, low), before),
{
    reveal(World::dispensing);
    lemma_doing(w, Effect::Show(Screen::Dispensing), before);
    let w1 = w.serving(AppState::ProcessResidual);
    lemma_written(w1, EventKind::Coin, 0, before);
    lemma_items_paid(w1.persisted(), purpose, low, before);
}

/// So does acting on the dispenser's answer.
proof fn lemma_item_answered(
    w: World,
    purpose: Purpose,
    count: u16,
    failure: Option<HopperError>,
    low: Seq<bool>,
    before: bool,
)
    requires
        shut_after(w.out, before) == purpose is Free,
    ensures
        guarded(w.item_answered(purpose, count, failure, low), before),
{
    reveal(World::item_answered);
    reveal(World::pair_counted);
    let free: u32 = if world::next_is_free(w.m.counters) {
        0
    } else {
        1
    };
    let w1 = w.counting(world::pair_out(w.m.counters));
    lemma_written(w1, EventKind::Coin, 0, before);
    lemma_written(w1.persisted(), EventKind::ItemDispensed, free, before);
    let counted = if count > 0 {
        w.pair_counted()
    } else {
        w
    };
    if failure is Some {
        reveal(World::item_failed);
        let mask = error::ITEM_DISPENSER;
        let w2 = World { faults: counted.faults.with(mask), ..counted };
        lemma_written(w2, EventKind::ErrorRaised, mask, before);
        lemma_written(counted.raised(mask), EventKind::Coin, 0, before);
        lemma_items_paid(counted.raised(mask).persisted(), purpose, low, before);
    } else {
        reveal(World::item_came);
        let w2 = counted.flagged(
            error::ITEM_DISPENSER_EMPTY,
            counted.m.counters.item_level <= counted.m.settings.item_dispenser.min_level,
        );
        lemma_dispensing(w2, purpose, low, before);
    }
}

/// So does acting on a hopper's answer.
proof fn lemma_coin_answered(
    w: World,
    hopper: int,
    owed: Option<Cash>,
    count: u16,
    failure: Option<HopperError>,
    low: Seq<bool>,
    before: bool,
)
    requires
        !shut_after(w.out, before),
    ensures
        guarded(w.coin_answered(hopper, owed, count, failure, low), before),
{
    reveal(World::coin_answered);
    reveal(World::coin_counted);
    let unit = w.m.settings.coin_hoppers@[hopper].unit_value;
    let w1 = w.counting(world::coin_out(w.m.counters, hopper, unit));
    lemma_written(w1, EventKind::Coin, 0, before);
    lemma_written(w1.persisted(), EventKind::HopperPayout, hopper as u32, before);
    let counted = if count > 0 {
        w.coin_counted(hopper)
    } else {
        w
    };
    if failure is Some {
        reveal(World::coin_failed);
        let mask = error::COIN_HOPPER;
        let w2 = World { faults: counted.faults.with(mask), ..counted };
        lemma_written(w2, EventKind::ErrorRaised, mask, before);
        lemma_written(counted.raised(mask), EventKind::Coin, 0, before);
        let stopped = counted.raised(mask).persisted();
        match owed {
            Some(owed) => lemma_change_paid(stopped, owed, before),
            None => lemma_resumed(stopped, low, before),
        }
    } else {
        match owed {
            Some(owed) => lemma_paying(counted, low, hopper, owed, before),
            None => lemma_repaying(counted, low, hopper, before),
        }
    }
}

/// So does a sale.
proof fn lemma_sold(w: World, low: Seq<bool>, before: bool)
    requires
        !shut_after(w.out, before),
        w.m.stage is Idle,
    ensures
        guarded(w.sold(low), before),
{
    reveal(World::sold);
    let w1 = w.counting(world::pair_bought(w.m.counters, w.price()));
    lemma_written(w1, EventKind::Coin, 0, before);
    lemma_dispensing(w1.persisted(), Purpose::Sale, low, before);
}

/// A known key shuts the acceptor, and nothing else does.
proof fn lemma_served(w: World, event: Event, low: Seq<bool>, before: bool)
    requires
        !shut_after(w.out, before),
        w.m.stage is Idle,
    ensures
        guarded(w.served(event, low), before),
{
    reveal(World::served);
    lemma_written(w, EventKind::Coin, 0, before);
    match event {
        Event::Coin { value, .. } => {
            reveal(World::accepted);
            let w1 = w.counting(world::coin_taken(w.m.counters, value));
            lemma_written(w1, EventKind::Coin, value, before);
            lemma_written(w1.persisted(), EventKind::Coin, value, before);
            lemma_written(w1.persisted().logged(EventKind::Coin, value), EventKind::Coin, 0, before);
            lemma_sold(w.accepted(value), low, before);
        },
        Event::Button(Button::Accept) => lemma_sold(w, low, before),
        Event::Button(Button::Cancel) => lemma_residual(w, low, before),
        Event::Button(_) => {},
        Event::Door { .. } => {},
        Event::Key(key) => {
            reveal(World::keyed);
            lemma_doing(w, Effect::ShowStage, before);
            lemma_doing(w, Effect::Inhibit(true), before);
            if let Some(access) = menu::access_of(key, w.m.settings) {
                let w1 = w.doing(Effect::Inhibit(true));
                lemma_written(w1, EventKind::ServiceEntered, access.level() as u32, before);
                lemma_listed(
                    w1.logged(EventKind::ServiceEntered, access.level() as u32),
                    Place { access, cursor: 0 },
                    before,
                );
            }
        },
    }
}

/// Choosing an item keeps the acceptor shut.
proof fn lemma_chosen(
    w: World,
    place: Place,
    item: Item,
    low: Seq<bool>,
    log_lines: nat,
    before: bool,
)
    requires
        shut_after(w.out, before),
    ensures
        guarded(w.chosen(place, item, low, log_lines), before),
{
    reveal(World::chosen);
    reveal(World::reading);
    reveal(World::editing);
    lemma_listed(w, place, before);
    lemma_doing(w, Effect::ShowStage, before);
    match item {
        Item::FreeItem => {
            reveal(World::given);
            let w1 = w.counting(world::pair_given(w.m.counters));
            lemma_written(w1, EventKind::Coin, 0, before);
            lemma_dispensing(w1.persisted(), Purpose::Free(place), low, before);
        },
        Item::ClearPeriod => {
            let w1 = w.counting(Counters { period: Accounting::zero(), ..w.m.counters });
            lemma_written(w1, EventKind::Coin, 0, before);
            lemma_listed(w1.persisted(), place, before);
        },
        _ => {},
    }
}

/// So does a button anywhere in the menu, unless it leaves it.
proof fn lemma_pressed(
    w: World,
    button: Option<Button>,
    low: Seq<bool>,
    log_lines: nat,
    before: bool,
)
    requires
        shut_after(w.out, before),
        in_menu(w.m.stage),
    ensures
        guarded(w.pressed(button, low, log_lines), before),
{
    reveal(World::pressed);
    lemma_doing(w, Effect::ShowStage, before);
    match w.m.stage {
        Stage::Menu(place) => {
            reveal(World::menu_pressed);
            lemma_left_menu(w, before);
            let items = menu::visible(place.access);
            match button {
                Some(Button::Next) => lemma_listed(
                    w,
                    Place { cursor: ((place.cursor + 1) % items.len() as int) as usize, ..place },
                    before,
                ),
                Some(Button::Prev) => lemma_listed(
                    w,
                    Place {
                        cursor: if place.cursor == 0 {
                            (items.len() - 1) as usize
                        } else {
                            (place.cursor - 1) as usize
                        },
                        ..place
                    },
                    before,
                ),
                Some(Button::Accept) => lemma_chosen(
                    w,
                    place,
                    Item::all()[items[place.cursor as int] as int],
                    low,
                    log_lines,
                    before,
                ),
                _ => {},
            }
        },
        Stage::Edit { place, item, value } => {
            reveal(World::edit_pressed);
            reveal(World::edited);
            lemma_listed(w, place, before);
            let w1 = w.edited(item, value);
            assert(shut_after(w1.out, before)) by {
                assert(w1.out.drop_last() =~= w.out);
            }
            lemma_listed(w1, place, before);
        },
        Stage::Report { place, .. } => {
            reveal(World::report_pressed);
            lemma_listed(w, place, before);
        },
        Stage::Keys { place, slot } => {
            reveal(World::keys_pressed);
            lemma_listed(w, place, before);
            lemma_enrolled(w, slot, crate::state::no_key(), before);
        },
        _ => {},
    }
}

/// So does filling or clearing a slot of the key table.
proof fn lemma_enrolled(w: World, slot: u8, key: crate::state::IbuttonKey, before: bool)
    ensures
        shut_after(w.enrolled(slot, key).out, before) == shut_after(w.out, before),
        w.enrolled(slot, key).m.stage == w.m.stage,
{
    reveal(World::enrolled);
    let settings = w.enrolled(slot, key).m.settings;
    let w1 = World { m: Machine { settings, ..w.m }, ..w };
    lemma_doing(w1, Effect::Store(settings), before);
    lemma_doing(w1.doing(Effect::Store(settings)), Effect::ShowStage, before);
}

/// The acceptor is shut for the whole of an engineer's visit, and only then: a coin cannot arrive in the middle
/// of a refill and be counted against a level that is being edited, and a machine nobody is servicing takes
/// money.
pub proof fn law_acceptor_is_shut_during_a_visit(
    w: World,
    input: Input,
    low: Seq<bool>,
    log_lines: nat,
    shut: bool,
)
    requires
        w.out.len() == 0,
        w.m.expects(input),
        shut == in_menu(w.m.stage),
    ensures
        ({
            let after = w.stepped(input, low, log_lines);
            shut_after(after.out, shut) == in_menu(after.m.stage)
        }),
{
    reveal(World::stepped);
    match input {
        Input::Happened(event) => {
            reveal(World::handled);
            if w.m.stage is Idle {
                lemma_served(w, event, low, shut);
            } else {
                match event {
                    Event::Button(b) => lemma_pressed(w, Some(b), low, log_lines, shut),
                    Event::Key(key) => match w.m.stage {
                        Stage::Keys { slot, .. } => lemma_enrolled(w, slot, key, shut),
                        _ => {},
                    },
                    _ => {},
                }
            }
        },
        Input::Elapsed => {
            reveal(World::elapsed);
            lemma_written(w, EventKind::Coin, 0, shut);
            match w.m.stage {
                Stage::Idle => lemma_residual(w, low, shut),
                Stage::TakeChange => lemma_change_taken(w, shut),
                Stage::Thanks => lemma_finished(w, shut),
                Stage::UnknownKey => {},
                _ => lemma_pressed(w, None, low, log_lines, shut),
            }
        },
        Input::Dispensed { count, failure } => match w.m.stage {
            Stage::Items(purpose) => lemma_item_answered(w, purpose, count, failure, low, shut),
            Stage::Coins { hopper, owed } => lemma_coin_answered(
                w,
                hopper as int,
                owed,
                count,
                failure,
                low,
                shut,
            ),
            _ => {},
        },
    }
}

/// A coin or a door that comes to the machine's notice while the menu is open changes nothing at all, and
/// neither does a key, unless the key table is open.
pub proof fn law_menu_ignores_customers(w: World, event: Event, low: Seq<bool>, log_lines: nat)
    requires
        in_menu(w.m.stage),
        w.m.expects(Input::Happened(event)),
        event is Coin || event is Door || event is Key && !(w.m.stage is Keys),
    ensures
        w.stepped(Input::Happened(event), low, log_lines) == w,
{
    reveal(World::stepped);
    reveal(World::handled);
}

/// An engineer who walks away leaves things as they were: however deep in the menu, if no button is pressed
/// the machine is back to trading after at most two waits, and the counters and settings have not changed.
pub proof fn law_walking_away_changes_nothing(w: World, low: Seq<bool>, log_lines: nat)
    requires
        w.m.stage is Menu || w.m.stage is Edit || w.m.stage is Report || w.m.stage is Keys,
    ensures
        ({
            let once = w.stepped(Input::Elapsed, low, log_lines);
            let twice = once.stepped(Input::Elapsed, low, log_lines);
            &&& once.m.counters == w.m.counters && once.m.settings == w.m.settings
            &&& w.m.stage is Menu ==> once.m.stage is Idle
            &&& !(w.m.stage is Menu) ==> once.m.stage is Menu && twice.m.stage is Idle
                && twice.m.counters == w.m.counters && twice.m.settings == w.m.settings
        }),
{
    reveal(World::stepped);
    reveal(World::elapsed);
    reveal(World::pressed);
    reveal(World::menu_pressed);
    reveal(World::edit_pressed);
    reveal(World::report_pressed);
    reveal(World::keys_pressed);
    reveal(World::left_menu);
    reveal(World::listed);
    match w.m.stage {
        Stage::Edit { place, .. } => menu::lemma_visible(place.access, ITEM_COUNT as nat),
        Stage::Report { place, .. } => menu::lemma_visible(place.access, ITEM_COUNT as nat),
        Stage::Keys { place, .. } => menu::lemma_visible(place.access, ITEM_COUNT as nat),
        _ => {},
    }
}

/// A key opens the menu if and only if it is enrolled; an unknown one gets a message, and changes nothing.
pub proof fn law_only_enrolled_keys_open_the_menu(
    w: World,
    key: crate::state::IbuttonKey,
    low: Seq<bool>,
    log_lines: nat,
)
    requires
        w.m.stage is Idle,
    ensures
        ({
            let after = w.stepped(Input::Happened(Event::Key(key)), low, log_lines);
            &&& in_menu(after.m.stage) <==> menu::access_of(key, w.m.settings) is Some
            &&& after.m.stage is UnknownKey <==> menu::access_of(key, w.m.settings) is None
            &&& after.m.counters == w.m.counters && after.m.settings == w.m.settings
            &&& after.m.stage matches Stage::Menu(place) ==> menu::access_of(key, w.m.settings) == Some(
                place.access,
            )
        }),
{
    reveal(World::stepped);
    reveal(World::handled);
    reveal(World::served);
    reveal(World::keyed);
    reveal(World::listed);
    if let Some(access) = menu::access_of(key, w.m.settings) {
        menu::lemma_visible(access, ITEM_COUNT as nat);
    }
}

/// A key that has been enrolled in a slot opens the menu, and clearing the slot takes that away again unless it
/// is enrolled elsewhere.
pub proof fn law_enrolled_key_opens_the_menu(w: World, slot: u8, key: crate::state::IbuttonKey)
    requires
        slot < menu::KEY_SLOTS,
        !key.blank(),
    ensures
        ({
            let (level, i) = menu::key_slot(slot);
            let settings = w.enrolled(slot, key).m.settings;
            let cleared = w.enrolled(slot, key).enrolled(slot, crate::state::no_key()).m.settings;
            &&& menu::access_of(key, settings) matches Some(access) && access.level() <= level
            &&& settings.keys@[level]@[i] == key
            &&& cleared.keys@[level]@[i].blank()
        }),
{
    reveal(World::enrolled);
    let (level, i) = menu::key_slot(slot);
    let settings = w.enrolled(slot, key).m.settings;
    assert(settings.keys@[level]@[i] == key);
    assert(menu::enrolled(settings, level, key));
}

/// What a machine owes comes before everything else: switched on owing something, it turns to its dispenser or
/// a hopper at once, and no customer is served on top of the unfinished business.
pub proof fn law_debts_come_first(w: World, low: Seq<bool>)
    ensures
        w.m.counters.owes() ==> (w.started(low).m.stage is Items || w.started(low).m.stage is Coins),
        !w.m.counters.owes() ==> w.started(low).m.stage is Idle,
{
    reveal(World::started);
    reveal(World::dispensing);
    reveal(World::items_paid);
    reveal(World::repaying);
    let c = w.m.counters;
    if c.owes() && !world::owes_items(c) {
        let w1 = w.serving(AppState::ProcessResidual).persisted();
        crate::vending::lemma_same_debts(w1.m.counters, c, 0);
        crate::vending::lemma_owes_coins(c, 0);
    }
}

} // verus!
