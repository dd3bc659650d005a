//! What each step of a service visit does, in the terms of the engineer who takes it.
use vstd::prelude::*;

use crate::config::HOPPER_COUNT;
use crate::event::{Button, Event};
use crate::menu::{self, Access, Item, ITEM_COUNT};
use crate::report;
use crate::state::{
    Accounting, AppState, Counters, EventKind, HopperSettings, IbuttonKey, Level, Settings, KEYS_PER_LEVEL,
    KEY_ACCESS_LEVELS, KEY_LEN,
};
use crate::text;
use crate::ui::Screen;
use crate::vending::service;
use crate::vending::steps::{self, Ills};
use crate::vending::world::World;
use crate::vending::{Effect, Input, Machine, Place, Purpose, ReportKind, Stage};

verus! {

/// A step of the menu that touches nothing of the machine but the place in the menu, and the display.
pub open spec fn only_looks(a: World, b: World) -> bool {
    &&& b.m.settings == a.m.settings && b.m.counters == a.m.counters && b.faults == a.faults
    &&& steps::remembered_events(b.out) == steps::remembered_events(a.out)
    &&& steps::written_counters(b.out) == steps::written_counters(a.out)
    &&& steps::stored_settings(b.out) == steps::stored_settings(a.out)
    &&& steps::last_screen(b.out) == Some(Effect::ShowStage)
}

/// The item under the cursor.
pub open spec fn under_cursor(place: Place) -> Item {
    Item::all()[menu::visible(place.access)[place.cursor as int] as int]
}

/// A key that is enrolled opens the menu at its first item, for the level it is enrolled at, and the visit is remembered.
/// Somebody with any other key is told that it is not known. Neither changes anything else.
pub proof fn law_key_opens_the_menu(w: World, key: IbuttonKey, low: Seq<bool>, log_lines: nat)
    requires
        w.m.stage is Idle,
    ensures
        ({
            let b = w.stepped(Input::Happened(Event::Key(key)), low, log_lines);
            &&& b.m.settings == w.m.settings && b.m.counters == w.m.counters && b.faults == w.faults
            &&& steps::last_screen(b.out) == Some(Effect::ShowStage)
            &&& match menu::access_of(key, w.m.settings) {
                Some(access) => {
                    &&& b.m.stage == Stage::Menu(Place { access, cursor: 0 })
                    &&& steps::remembered_events(b.out) == steps::remembered_events(w.out).push(
                        (
                            EventKind::ServiceEntered,
                            match access {
                                Access::Owner => 0u32,
                                Access::Service => 1,
                                Access::Collector => 2,
                            },
                        ),
                    )
                },
                None => {
                    &&& b.m.stage is UnknownKey
                    &&& steps::remembered_events(b.out) == steps::remembered_events(w.out)
                },
            }
        }),
{
    broadcast use steps::lemma_one_more;

    reveal(World::stepped);
    reveal(World::handled);
    reveal(World::served);
    reveal(World::keyed);
    match menu::access_of(key, w.m.settings) {
        Some(access) => {
            menu::lemma_visible(access, ITEM_COUNT as nat);
            steps::lemma_listed(
                w.doing(Effect::Inhibit(true)).logged(EventKind::ServiceEntered, access.level() as u32),
                Place { access, cursor: 0 },
            );
        },
        None => {},
    }
}

/// The next and previous buttons go round the items, one at a time.
pub proof fn law_menu_goes_round(w: World, place: Place, low: Seq<bool>, log_lines: nat)
    requires
        w.m.wf(),
        w.m.stage == Stage::Menu(place),
    ensures
        ({
            let n = menu::visible(place.access).len();
            let next = w.stepped(Input::Happened(Event::Button(Button::Next)), low, log_lines);
            let prev = w.stepped(Input::Happened(Event::Button(Button::Prev)), low, log_lines);
            &&& only_looks(w, next) && only_looks(w, prev)
            &&& next.m.stage matches Stage::Menu(p) && p.access == place.access && p.cursor == (if place.cursor + 1
                < n {
                place.cursor + 1
            } else {
                0
            })
            &&& prev.m.stage matches Stage::Menu(p) && p.access == place.access && p.cursor == (if place.cursor
                > 0 {
                place.cursor - 1
            } else {
                n - 1
            })
        }),
{
    broadcast use steps::lemma_one_more;

    reveal(World::stepped);
    reveal(World::handled);
    reveal(World::pressed);
    reveal(World::menu_pressed);
    menu::lemma_visible(place.access, ITEM_COUNT as nat);
    let n = menu::visible(place.access).len() as int;
    assert((place.cursor + 1) % n == (if place.cursor + 1 < n {
        place.cursor + 1
    } else {
        0
    })) by {
        if place.cursor + 1 < n {
            vstd::arithmetic::div_mod::lemma_small_mod((place.cursor + 1) as nat, n as nat);
        } else {
            vstd::arithmetic::div_mod::lemma_mod_self_0(n);
        }
    }
    steps::lemma_listed(w, Place { cursor: ((place.cursor + 1) % n) as usize, ..place });
    steps::lemma_listed(
        w,
        Place {
            cursor: if place.cursor == 0 {
                (n - 1) as usize
            } else {
                (place.cursor - 1) as usize
            },
            ..place
        },
    );
}

/// The cancel button ends the visit, and so does doing nothing for long enough. The machine waits for customers again, the
/// end is remembered, and nothing else changes.
pub proof fn law_visit_ends(w: World, place: Place, low: Seq<bool>, log_lines: nat)
    requires
        w.m.stage == Stage::Menu(place),
    ensures
        ({
            let b = w.stepped(Input::Happened(Event::Button(Button::Cancel)), low, log_lines);
            &&& b == w.stepped(Input::Elapsed, low, log_lines)
            &&& b.m.settings == w.m.settings && b.m.counters == w.m.counters && b.faults == w.faults
            &&& steps::waits_again(b)
            &&& steps::remembered_events(b.out) == steps::remembered_events(w.out).push(
                (EventKind::ServiceExited, 0u32),
            )
            &&& steps::written_counters(b.out) == steps::written_counters(w.out)
            &&& steps::stored_settings(b.out) == steps::stored_settings(w.out)
        }),
{
    broadcast use steps::lemma_one_more;

    reveal(World::stepped);
    reveal(World::handled);
    reveal(World::elapsed);
    reveal(World::pressed);
    reveal(World::menu_pressed);
    reveal(World::left_menu);
    steps::lemma_fit(w.faults);
}

/// Choosing an item that shows something opens its report at the top: what has been taken and sold, what is left, or what
/// happened. A report without lines is not opened.
pub proof fn law_reports_open(w: World, place: Place, low: Seq<bool>, log_lines: nat)
    requires
        w.m.wf(),
        w.m.stage == Stage::Menu(place),
        log_lines <= usize::MAX,
        menu::lines(report::accounting_report(w.m.counters, w.m.settings)).len() <= usize::MAX,
        menu::lines(report::state_report(w.m.counters, w.m.settings, w.faults)).len() <= usize::MAX,
    ensures
        ({
            let b = w.stepped(Input::Happened(Event::Button(Button::Accept)), low, log_lines);
            let item = under_cursor(place);
            let opened = match item {
                Item::Accounting => Some(
                    (
                        ReportKind::Accounting,
                        menu::lines(report::accounting_report(w.m.counters, w.m.settings)).len(),
                    ),
                ),
                Item::State => Some(
                    (
                        ReportKind::State(w.faults),
                        menu::lines(report::state_report(w.m.counters, w.m.settings, w.faults)).len(),
                    ),
                ),
                Item::EventLog => Some((ReportKind::Events, log_lines)),
                _ => None,
            };
            opened matches Some((kind, lines)) ==> only_looks(w, b) && if lines == 0 {
                b.m.stage == Stage::Menu(place)
            } else {
                b.m.stage == (Stage::Report { place, kind, at: 0, lines: lines as usize })
            }
        }),
{
    broadcast use steps::lemma_one_more;

    reveal(World::stepped);
    reveal(World::handled);
    reveal(World::pressed);
    reveal(World::menu_pressed);
    reveal(World::chosen);
    reveal(World::reading);
    steps::lemma_listed(w, place);
}

/// Choosing an item whose number is edited starts from the number as it stands: the covers in the machine, the coins in the
/// hopper, or the price. Choosing the keys starts at the first slot.
pub proof fn law_edits_start_from_what_is(w: World, place: Place, low: Seq<bool>, log_lines: nat)
    requires
        w.m.wf(),
        w.m.stage == Stage::Menu(place),
    ensures
        ({
            let b = w.stepped(Input::Happened(Event::Button(Button::Accept)), low, log_lines);
            let item = under_cursor(place);
            let value = match item {
                Item::RefillItems => Some(w.m.counters.item_level as u32),
                Item::RefillHopper(i) => Some(w.m.counters.coin_levels@[i as int] as u32),
                Item::Price => Some(w.m.settings.item_dispenser.unit_value),
                _ => None,
            };
            &&& value matches Some(value) ==> only_looks(w, b) && b.m.stage == (Stage::Edit { place, item, value })
            &&& item is Keys ==> only_looks(w, b) && b.m.stage == (Stage::Keys { place, slot: 0 })
        }),
{
    broadcast use steps::lemma_one_more;

    reveal(World::stepped);
    reveal(World::handled);
    reveal(World::pressed);
    reveal(World::menu_pressed);
    reveal(World::chosen);
    reveal(World::editing);
    menu::lemma_visible(place.access, ITEM_COUNT as nat);
    assert(under_cursor(place).shown_to(place.access));
}

/// Giving a pair away makes one more owed that nobody pays for, and asks for it. Nothing else changes.
pub proof fn law_pair_is_given_away(w: World, place: Place, low: Seq<bool>, log_lines: nat)
    requires
        w.m.wf(),
        w.m.stage == Stage::Menu(place),
        under_cursor(place) is FreeItem,
        w.m.counts(Input::Happened(Event::Button(Button::Accept)), w.faults),
    ensures
        ({
            let b = w.stepped(Input::Happened(Event::Button(Button::Accept)), low, log_lines);
            &&& b.m.settings == w.m.settings && b.faults == w.faults
            &&& b.m.counters == (Counters {
                free_items_pending: (w.m.counters.free_items_pending + 1) as Level,
                app_state: AppState::PayoutItems,
                ..w.m.counters
            })
            &&& b.m.stage == Stage::Items(Purpose::Free(place))
            &&& steps::last_screen(b.out) == Some(Effect::Show(Screen::Dispensing))
            &&& steps::remembered_events(b.out) == steps::remembered_events(w.out)
            &&& steps::written_counters(b.out).last() == b.m.counters
        }),
{
    broadcast use steps::lemma_one_more;

    reveal(World::stepped);
    reveal(World::handled);
    reveal(World::pressed);
    reveal(World::menu_pressed);
    reveal(World::chosen);
    reveal(World::given);
    reveal(World::dispensing);
}

/// Starting a new period forgets what was counted in the last one, and nothing else.
pub proof fn law_period_is_cleared(w: World, place: Place, low: Seq<bool>, log_lines: nat)
    requires
        w.m.wf(),
        w.m.stage == Stage::Menu(place),
        under_cursor(place) is ClearPeriod,
    ensures
        ({
            let b = w.stepped(Input::Happened(Event::Button(Button::Accept)), low, log_lines);
            &&& b.m.settings == w.m.settings && b.faults == w.faults
            &&& b.m.counters == (Counters {
                period: Accounting { cash_in: 0, cash_out: 0, items_dispensed: 0, items_free: 0 },
                ..w.m.counters
            })
            &&& b.m.stage == Stage::Menu(place)
            &&& steps::last_screen(b.out) == Some(Effect::ShowStage)
            &&& steps::remembered_events(b.out) == steps::remembered_events(w.out)
            &&& steps::written_counters(b.out) == steps::written_counters(w.out).push(b.m.counters)
        }),
{
    broadcast use steps::lemma_one_more;

    reveal(World::stepped);
    reveal(World::handled);
    reveal(World::pressed);
    reveal(World::menu_pressed);
    reveal(World::chosen);
    steps::lemma_listed(
        w.counting(Counters { period: Accounting::zero(), ..w.m.counters }).persisted(),
        place,
    );
}

/// While a number is edited, the next and previous buttons change it by one step, covers by a hundred, coins by ten and the
/// price by fifty, up to what there is room for, or a thousand roubles, and down to nothing. Nothing else changes.
pub proof fn law_number_is_edited(w: World, place: Place, item: Item, value: u32, low: Seq<bool>, log_lines: nat)
    requires
        w.m.wf(),
        w.m.stage == (Stage::Edit { place, item, value }),
    ensures
        ({
            let up = w.stepped(Input::Happened(Event::Button(Button::Next)), low, log_lines);
            let down = w.stepped(Input::Happened(Event::Button(Button::Prev)), low, log_lines);
            let (step, most): (int, int) = match item {
                Item::RefillItems => (100, w.m.settings.item_dispenser.max_level as int),
                Item::RefillHopper(i) => (10, w.m.settings.coin_hoppers@[i as int].max_level as int),
                _ => (50, 100_000),
            };
            &&& only_looks(w, up) && only_looks(w, down)
            &&& up.m.stage matches Stage::Edit { place: p, item: it, value: v } && p == place && it == item && v == (
            if value + step <= most {
                value + step
            } else {
                most
            })
            &&& down.m.stage matches Stage::Edit { place: p, item: it, value: v } && p == place && it == item && v
                == (if value >= step {
                value - step
            } else {
                0
            })
        }),
{
    broadcast use steps::lemma_one_more;

    reveal(World::stepped);
    reveal(World::handled);
    reveal(World::pressed);
    reveal(World::edit_pressed);
}

/// Cancelling an edit, or leaving it alone for long enough, changes nothing.
pub proof fn law_cancelled_edit_changes_nothing(
    w: World,
    place: Place,
    item: Item,
    value: u32,
    low: Seq<bool>,
    log_lines: nat,
)
    requires
        w.m.stage == (Stage::Edit { place, item, value }),
    ensures
        ({
            let b = w.stepped(Input::Happened(Event::Button(Button::Cancel)), low, log_lines);
            b == w.stepped(Input::Elapsed, low, log_lines) && only_looks(w, b) && steps::opens_menu_at(b, place)
        }),
{
    broadcast use steps::lemma_one_more;

    reveal(World::stepped);
    reveal(World::handled);
    reveal(World::elapsed);
    reveal(World::pressed);
    reveal(World::edit_pressed);
    steps::lemma_listed(w, place);
}

/// An edited number that is accepted becomes what it stands for, and nothing else changes. A refill of covers becomes the
/// number of covers, and one of coins the number of coins in that hopper and in no other, but neither more than there is
/// room for; and what was refilled is not empty any more. A price becomes the price.
pub proof fn law_accepted_edit_is_taken_over(
    w: World,
    place: Place,
    item: Item,
    value: u32,
    low: Seq<bool>,
    log_lines: nat,
)
    requires
        w.m.wf(),
        w.m.stage == (Stage::Edit { place, item, value }),
    ensures
        ({
            let b = w.stepped(Input::Happened(Event::Button(Button::Accept)), low, log_lines);
            let c = w.m.counters;
            let d = b.m.counters;
            &&& steps::opens_menu_at(b, place)
            &&& steps::remembered_events(b.out) == steps::remembered_events(w.out)
            &&& match item {
                Item::RefillItems => {
                    let room = w.m.settings.item_dispenser.max_level;
                    &&& d == (Counters {
                        item_level: if value <= room {
                            value as Level
                        } else {
                            room
                        },
                        ..c
                    })
                    &&& b.m.settings == w.m.settings
                    &&& steps::ills(b.faults) == (Ills { no_covers: false, ..steps::ills(w.faults) })
                    &&& steps::written_counters(b.out) == steps::written_counters(w.out).push(d)
                    &&& steps::stored_settings(b.out) == steps::stored_settings(w.out)
                },
                Item::RefillHopper(i) => {
                    let room = w.m.settings.coin_hoppers@[i as int].max_level;
                    &&& d == (Counters { coin_levels: d.coin_levels, ..c })
                    &&& d.coin_levels@[i as int] == if value <= room {
                        value as Level
                    } else {
                        room
                    }
                    &&& forall|j: int|
                        0 <= j < HOPPER_COUNT && j != i ==> #[trigger] d.coin_levels@[j] == c.coin_levels@[j]
                    &&& b.m.settings == w.m.settings
                    &&& steps::ills(b.faults) == (Ills { few_coins: false, ..steps::ills(w.faults) })
                    &&& steps::written_counters(b.out) == steps::written_counters(w.out).push(d)
                    &&& steps::stored_settings(b.out) == steps::stored_settings(w.out)
                },
                _ => {
                    &&& d == c && b.faults == w.faults
                    &&& b.m.settings == (Settings {
                        item_dispenser: HopperSettings { unit_value: value, ..w.m.settings.item_dispenser },
                        ..w.m.settings
                    })
                    &&& steps::stored_settings(b.out) == steps::stored_settings(w.out).push(b.m.settings)
                    &&& steps::written_counters(b.out) == steps::written_counters(w.out)
                },
            }
        }),
{
    broadcast use steps::lemma_one_more;

    reveal(World::stepped);
    reveal(World::handled);
    reveal(World::pressed);
    reveal(World::edit_pressed);
    reveal(World::edited);
    steps::lemma_listed(w.edited(item, value), place);
    steps::lemma_ills(w.faults, false);
}

/// A report is read two lines at a time, with any button, and the menu is open again after its last lines, or when nobody
/// reads on for long enough. Reading changes nothing.
pub proof fn law_report_is_read(
    w: World,
    place: Place,
    kind: ReportKind,
    at: usize,
    lines: usize,
    button: Button,
    low: Seq<bool>,
    log_lines: nat,
)
    requires
        w.m.wf(),
        w.m.stage == (Stage::Report { place, kind, at, lines }),
    ensures
        ({
            let b = w.stepped(Input::Happened(Event::Button(button)), low, log_lines);
            let left = w.stepped(Input::Elapsed, low, log_lines);
            &&& only_looks(w, b) && only_looks(w, left)
            &&& steps::opens_menu_at(left, place)
            &&& at + 2 < lines ==> b.m.stage == (Stage::Report { place, kind, at: (at + 2) as usize, lines })
            &&& at + 2 >= lines ==> steps::opens_menu_at(b, place)
        }),
{
    broadcast use steps::lemma_one_more;

    reveal(World::stepped);
    reveal(World::handled);
    reveal(World::elapsed);
    reveal(World::pressed);
    reveal(World::report_pressed);
    steps::lemma_listed(w, place);
}

/// The next and previous buttons go round the six slots for keys; accepting, or doing nothing for long enough, goes back to
/// the menu. None of that changes anything.
pub proof fn law_keys_are_looked_through(w: World, place: Place, slot: u8, low: Seq<bool>, log_lines: nat)
    requires
        w.m.wf(),
        w.m.stage == (Stage::Keys { place, slot }),
    ensures
        ({
            let next = w.stepped(Input::Happened(Event::Button(Button::Next)), low, log_lines);
            let prev = w.stepped(Input::Happened(Event::Button(Button::Prev)), low, log_lines);
            let back = w.stepped(Input::Happened(Event::Button(Button::Accept)), low, log_lines);
            &&& only_looks(w, next) && only_looks(w, prev) && only_looks(w, back)
            &&& next.m.stage == (Stage::Keys {
                place,
                slot: if slot == 5 {
                    0
                } else {
                    (slot + 1) as u8
                },
            })
            &&& prev.m.stage == (Stage::Keys {
                place,
                slot: if slot == 0 {
                    5
                } else {
                    (slot - 1) as u8
                },
            })
            &&& steps::opens_menu_at(back, place)
            &&& back == w.stepped(Input::Elapsed, low, log_lines)
        }),
{
    broadcast use steps::lemma_one_more;

    reveal(World::stepped);
    reveal(World::handled);
    reveal(World::elapsed);
    reveal(World::pressed);
    reveal(World::keys_pressed);
    steps::lemma_listed(w, place);
}

/// The settings differ in one key only: that of a slot, two slots for each level, the owner's first.
pub open spec fn one_key_differs(a: Settings, b: Settings, slot: u8, key: IbuttonKey) -> bool {
    &&& b == (Settings { keys: b.keys, ..a })
    &&& forall|level: int, i: int|
        0 <= level < KEY_ACCESS_LEVELS && 0 <= i < KEYS_PER_LEVEL ==> #[trigger] b.keys@[level]@[i] == if 2 * level
            + i == slot {
            key
        } else {
            a.keys@[level]@[i]
        }
}

/// A key that is held to the reader while a slot is shown is enrolled in that slot, and the cancel button clears it. The
/// other slots and everything else stay as they are, and the new keys are kept.
pub proof fn law_key_is_enrolled(w: World, place: Place, slot: u8, key: IbuttonKey, low: Seq<bool>, log_lines: nat)
    requires
        w.m.wf(),
        w.m.stage == (Stage::Keys { place, slot }),
    ensures
        ({
            let held = w.stepped(Input::Happened(Event::Key(key)), low, log_lines);
            let cleared = w.stepped(Input::Happened(Event::Button(Button::Cancel)), low, log_lines);
            &&& one_key_differs(w.m.settings, held.m.settings, slot, key)
            &&& one_key_differs(w.m.settings, cleared.m.settings, slot, IbuttonKey([0u8; KEY_LEN]))
            &&& held.m == (Machine { settings: held.m.settings, ..w.m })
            &&& cleared.m == (Machine { settings: cleared.m.settings, ..w.m })
            &&& held.faults == w.faults && cleared.faults == w.faults
            &&& steps::stored_settings(held.out) == steps::stored_settings(w.out).push(held.m.settings)
            &&& steps::stored_settings(cleared.out) == steps::stored_settings(w.out).push(cleared.m.settings)
            &&& steps::written_counters(held.out) == steps::written_counters(w.out)
            &&& steps::written_counters(cleared.out) == steps::written_counters(w.out)
            &&& steps::remembered_events(held.out) == steps::remembered_events(w.out)
            &&& steps::remembered_events(cleared.out) == steps::remembered_events(w.out)
            &&& steps::last_screen(held.out) == Some(Effect::ShowStage)
            &&& steps::last_screen(cleared.out) == Some(Effect::ShowStage)
        }),
{
    broadcast use steps::lemma_one_more;

    reveal(World::stepped);
    reveal(World::handled);
    reveal(World::pressed);
    reveal(World::keys_pressed);
    reveal(World::enrolled);
}

/// What an engineer reads: the item under the cursor and where among those they see it stands; the number that is edited, under
/// what it is the number of; two lines of a report, as much of each as the display is wide; and a slot for a key, with
/// the key that is in it.
pub proof fn law_what_the_engineer_reads(m: Machine, log: Seq<char>)
    requires
        m.wf(),
    ensures
        ({
            let rows = service::stage_rows(m, log);
            match m.stage {
                Stage::Menu(place) => {
                    &&& rows.0 == (match under_cursor(place) {
                        Item::Accounting => "Отчёт: касса"@,
                        Item::State => "Отчёт: остаток"@,
                        Item::EventLog => "Логи"@,
                        Item::RefillItems => "Загрузка бахил"@,
                        Item::RefillHopper(_) => "Загрузка монет 1"@,
                        Item::FreeItem => "Выдать бахилы"@,
                        Item::Price => "Цена"@,
                        Item::ClearPeriod => "Сброс периода"@,
                        Item::Keys => "Ключи"@,
                    })
                    &&& rows.1 == text::decimal((place.cursor + 1) as nat) + "/"@ + text::decimal(
                        menu::visible(place.access).len(),
                    )
                },
                Stage::Edit { item, value, .. } => {
                    &&& rows.0 == (match item {
                        Item::RefillItems => "Бахилы"@,
                        Item::RefillHopper(_) => "Монеты"@,
                        _ => "Цена, коп."@,
                    })
                    &&& text::reads(rows.1, 10) == value
                },
                Stage::Report { kind, at, .. } => {
                    let lines = menu::lines(
                        match kind {
                            ReportKind::Accounting => report::accounting_report(m.counters, m.settings),
                            ReportKind::State(faults) => report::state_report(m.counters, m.settings, faults),
                            ReportKind::Events => log,
                        },
                    );
                    &&& at < lines.len() ==> rows.0.len() == shown_of(lines[at as int]) && rows.0.is_prefix_of(
                        lines[at as int],
                    )
                    &&& at + 1 < lines.len() ==> rows.1.len() == shown_of(lines[at + 1]) && rows.1.is_prefix_of(
                        lines[at + 1],
                    )
                    &&& at >= lines.len() ==> rows.0.len() == 0
                    &&& at + 1 >= lines.len() ==> rows.1.len() == 0
                },
                Stage::Keys { slot, .. } => {
                    &&& rows.0 == menu::key_title(slot)
                    &&& rows.1 == menu::key_text(m.settings.keys@[slot as int / 2]@[slot as int % 2])
                },
                _ => rows.0 == "Ключ неизвестен"@ && rows.1.len() == 0,
            }
        }),
{
    match m.stage {
        Stage::Menu(place) => {
            menu::lemma_visible(place.access, ITEM_COUNT as nat);
            assert(under_cursor(place).shown_to(place.access));
        },
        Stage::Edit { value, .. } => text::law_decimal_reads_back(value as nat),
        _ => {},
    }
}

/// How much of a line is shown: all of it, or as much as the display is wide.
pub open spec fn shown_of(line: Seq<char>) -> int {
    if line.len() < 16 {
        line.len() as int
    } else {
        16
    }
}

} // verus!
