//! The service menu: who may do what, and what it looks like.
//!
//! What the menu does is part of the vending logic in [`crate::vending`], because it refills hoppers, gives
//! covers away and changes prices, all of which are changes to the same counters the sale owns. Running it
//! apart would be a way for a customer's transaction and an engineer's refill to interleave.
use vstd::prelude::*;

use crate::bounded::{self, list_as_slice, list_new, list_push};
use crate::config::{HOPPER_COUNT, LCD_COLUMNS};
use crate::state::{Counters, IbuttonKey, Settings, KEYS_PER_LEVEL, KEY_ACCESS_LEVELS, KEY_LEN};
use crate::text::{self, decimal_row, hex_padded_row, Row};
use crate::ui::Screen;

verus! {

/// How far into the machine a key lets somebody.
#[derive(Copy, Clone, Debug, Eq, PartialEq, PartialOrd, Ord, Structural)]
pub enum Access {
    /// Everything, including prices and enrolled keys.
    Owner,
    /// Refilling, counters, and clearing the period.
    Service,
    /// Counters only.
    Collector,
}

impl Access {
    /// The level's number, most privileged first.
    pub open spec fn level(self) -> int {
        match self {
            Access::Owner => 0,
            Access::Service => 1,
            Access::Collector => 2,
        }
    }

    /// The level's number, most privileged first.
    pub fn number(self) -> (n: u32)
        ensures
            n == self.level(),
    {
        match self {
            Access::Owner => 0,
            Access::Service => 1,
            Access::Collector => 2,
        }
    }

    /// Which access level `key` has, if any.
    ///
    /// A key enrolled at several levels has the most privileged of them.
    pub fn of(key: &IbuttonKey, settings: &Settings) -> (access: Option<Access>)
        ensures
            access == access_of(*key, *settings),
    {
        let mut level: usize = 0;
        while level < KEY_ACCESS_LEVELS
            invariant
                level <= KEY_ACCESS_LEVELS,
                forall|l: int| 0 <= l < level ==> !#[trigger] enrolled(*settings, l, *key),
            decreases KEY_ACCESS_LEVELS - level,
        {
            let mut i: usize = 0;
            while i < KEYS_PER_LEVEL
                invariant
                    level < KEY_ACCESS_LEVELS,
                    i <= KEYS_PER_LEVEL,
                    forall|l: int| 0 <= l < level ==> !#[trigger] enrolled(*settings, l, *key),
                    forall|j: int|
                        0 <= j < i ==> (#[trigger] settings.keys@[level as int]@[j]).blank()
                            || settings.keys@[level as int]@[j] != *key,
                decreases KEYS_PER_LEVEL - i,
            {
                let slot = settings.keys[level][i];
                if !slot.is_empty() && slot.same(key) {
                    assert(enrolled(*settings, level as int, *key)) by {
                        assert(settings.keys@[level as int]@[i as int] == *key);
                    }
                    if level == 0 {
                        return Some(Access::Owner);
                    } else if level == 1 {
                        assert(!enrolled(*settings, 0, *key));
                        return Some(Access::Service);
                    } else {
                        assert(!enrolled(*settings, 0, *key));
                        assert(!enrolled(*settings, 1, *key));
                        return Some(Access::Collector);
                    }
                }
                i += 1;
            }
            level += 1;
        }
        assert(!enrolled(*settings, 0, *key));
        assert(!enrolled(*settings, 1, *key));
        assert(!enrolled(*settings, 2, *key));
        None
    }
}

/// Is `key` enrolled at `level`? Empty slots enrol nothing.
pub open spec fn enrolled(settings: Settings, level: int, key: IbuttonKey) -> bool {
    exists|i: int|
        0 <= i < KEYS_PER_LEVEL && !(#[trigger] settings.keys@[level]@[i]).blank()
            && settings.keys@[level]@[i] == key
}

/// Which access level `key` has, if any.
pub open spec fn access_of(key: IbuttonKey, settings: Settings) -> Option<Access> {
    if enrolled(settings, 0, key) {
        Some(Access::Owner)
    } else if enrolled(settings, 1, key) {
        Some(Access::Service)
    } else if enrolled(settings, 2, key) {
        Some(Access::Collector)
    } else {
        None
    }
}

/// A key has the level of the most privileged slot it is enrolled in, and none if it is enrolled in no slot. Two slots belong to
/// each level, the owner's first.
pub proof fn law_access_is_of_the_best_slot(key: IbuttonKey, settings: Settings, level: int, i: int)
    requires
        0 <= level < 3,
        0 <= i < 2,
    ensures
        settings.keys@[level]@[i] == key && !key.blank() ==> (access_of(key, settings) matches Some(access)
            && match access {
            Access::Owner => true,
            Access::Service => level >= 1,
            Access::Collector => level >= 2,
        }),
        access_of(key, settings) matches Some(access) ==> {
            let best: int = match access {
                Access::Owner => 0,
                Access::Service => 1,
                Access::Collector => 2,
            };
            !key.blank() && (settings.keys@[best]@[0] == key || settings.keys@[best]@[1] == key)
        },
{
    if settings.keys@[level]@[i] == key && !key.blank() {
        assert(!settings.keys@[level]@[i].blank());
        assert(enrolled(settings, level, key));
    }
}

/// An empty slot lets nobody in: eight zero bytes open nothing, whatever is enrolled.
pub proof fn law_no_key_opens_nothing(key: IbuttonKey, settings: Settings)
    requires
        key.blank(),
    ensures
        access_of(key, settings) is None,
{
}

/// A machine as it comes from the factory knows no key at all.
pub proof fn law_factory_knows_no_key(key: IbuttonKey)
    ensures
        access_of(key, Settings::factory()) is None,
{
    let settings = Settings::factory();
    assert forall|l: int, i: int|
        0 <= l < KEY_ACCESS_LEVELS && 0 <= i < KEYS_PER_LEVEL implies (
    #[trigger] settings.keys@[l]@[i]).blank() by {
        assert(settings.keys@[l]@[i] == IbuttonKey([0u8; KEY_LEN]));
    }
}

/// One line of the menu.
#[derive(Copy, Clone, Debug, Eq, PartialEq, Structural)]
pub enum Item {
    /// Show what has been taken and sold.
    Accounting,
    /// Show what is left in the machine.
    State,
    /// Show what happened lately.
    EventLog,
    /// Add covers to the dispenser's count.
    RefillItems,
    /// Add coins to a hopper's count.
    RefillHopper(usize),
    /// Give away one pair.
    FreeItem,
    /// Change what a pair costs.
    Price,
    /// Zero the period counters.
    ClearPeriod,
    /// Enrol or clear keys.
    Keys,
}

/// How many items there are.
pub const ITEM_COUNT: u16 = 10;

impl Item {
    /// Every item, in the order they appear.
    pub open spec fn all() -> Seq<Item> {
        seq![
            Item::Accounting,
            Item::State,
            Item::EventLog,
            Item::RefillItems,
            Item::RefillHopper(0),
            Item::RefillHopper(1),
            Item::FreeItem,
            Item::Price,
            Item::ClearPeriod,
            Item::Keys,
        ]
    }

    /// The `i`th item.
    pub fn at(i: u16) -> (item: Item)
        requires
            i < ITEM_COUNT,
        ensures
            item == Item::all()[i as int],
    {
        if i == 0 {
            Item::Accounting
        } else if i == 1 {
            Item::State
        } else if i == 2 {
            Item::EventLog
        } else if i == 3 {
            Item::RefillItems
        } else if i == 4 {
            Item::RefillHopper(0)
        } else if i == 5 {
            Item::RefillHopper(1)
        } else if i == 6 {
            Item::FreeItem
        } else if i == 7 {
            Item::Price
        } else if i == 8 {
            Item::ClearPeriod
        } else {
            Item::Keys
        }
    }

    /// The wording of an item.
    pub open spec fn wording(self) -> Seq<char> {
        match self {
            Item::Accounting => "Отчёт: касса"@,
            Item::State => "Отчёт: остаток"@,
            Item::EventLog => "Логи"@,
            Item::RefillItems => "Загрузка бахил"@,
            Item::RefillHopper(i) => if i == 0 {
                "Загрузка монет 1"@
            } else {
                "Загрузка монет 2"@
            },
            Item::FreeItem => "Выдать бахилы"@,
            Item::Price => "Цена"@,
            Item::ClearPeriod => "Сброс периода"@,
            Item::Keys => "Ключи"@,
        }
    }

    /// The label to show.
    pub fn label(self) -> (s: &'static str)
        ensures
            s@ == self.wording(),
            s@.len() <= LCD_COLUMNS,
    {
        proof {
            reveal_strlit("Отчёт: касса");
            reveal_strlit("Отчёт: остаток");
            reveal_strlit("Логи");
            reveal_strlit("Загрузка бахил");
            reveal_strlit("Загрузка монет 1");
            reveal_strlit("Загрузка монет 2");
            reveal_strlit("Выдать бахилы");
            reveal_strlit("Цена");
            reveal_strlit("Сброс периода");
            reveal_strlit("Ключи");
        }
        match self {
            Item::Accounting => "Отчёт: касса",
            Item::State => "Отчёт: остаток",
            Item::EventLog => "Логи",
            Item::RefillItems => "Загрузка бахил",
            Item::RefillHopper(i) => if i == 0 {
                "Загрузка монет 1"
            } else {
                "Загрузка монет 2"
            },
            Item::FreeItem => "Выдать бахилы",
            Item::Price => "Цена",
            Item::ClearPeriod => "Сброс периода",
            Item::Keys => "Ключи",
        }
    }

    /// The lowest access level that may use an item.
    pub open spec fn needed(self) -> Access {
        match self {
            Item::Accounting => Access::Collector,
            Item::State => Access::Collector,
            Item::EventLog => Access::Collector,
            Item::RefillItems => Access::Service,
            Item::RefillHopper(_) => Access::Service,
            Item::FreeItem => Access::Service,
            Item::ClearPeriod => Access::Service,
            Item::Price => Access::Owner,
            Item::Keys => Access::Owner,
        }
    }

    /// The lowest access level that may use this item.
    ///
    /// Ordered so that a collector, who only empties the cashbox, cannot change a price.
    pub fn needs(self) -> (access: Access)
        ensures
            access == self.needed(),
    {
        match self {
            Item::Accounting => Access::Collector,
            Item::State => Access::Collector,
            Item::EventLog => Access::Collector,
            Item::RefillItems => Access::Service,
            Item::RefillHopper(_) => Access::Service,
            Item::FreeItem => Access::Service,
            Item::ClearPeriod => Access::Service,
            Item::Price => Access::Owner,
            Item::Keys => Access::Owner,
        }
    }

    /// Is the item shown to somebody with `access`? Items above their level are not, nor is the refill of a
    /// hopper that this machine does not have.
    pub open spec fn shown_to(self, access: Access) -> bool {
        &&& self.needed().level() >= access.level()
        &&& !(self matches Item::RefillHopper(n) && n >= HOPPER_COUNT)
    }

    /// Is the item shown to somebody with `access`?
    pub fn is_shown_to(self, access: Access) -> (b: bool)
        ensures
            b == self.shown_to(access),
    {
        let fitted = match self {
            Item::RefillHopper(n) => n < HOPPER_COUNT,
            _ => true,
        };
        self.needs().number() >= access.number() && fitted
    }

    /// Is this an item whose number is edited?
    pub open spec fn edits(self) -> bool {
        match self {
            Item::RefillItems => true,
            Item::RefillHopper(i) => i < HOPPER_COUNT,
            Item::Price => true,
            _ => false,
        }
    }

    /// The title over the number.
    pub open spec fn edit_title(self) -> Seq<char> {
        match self {
            Item::RefillItems => "Бахилы"@,
            Item::RefillHopper(_) => "Монеты"@,
            _ => "Цена, коп."@,
        }
    }

    /// What one press changes the number by. Refilling a hopper in ones would take all afternoon.
    pub open spec fn edit_step(self) -> u32 {
        match self {
            Item::RefillItems => 100,
            Item::RefillHopper(_) => 10,
            _ => 50,
        }
    }

    /// How far up the number goes.
    pub open spec fn edit_max(self, settings: Settings) -> u32 {
        match self {
            Item::RefillItems => settings.item_dispenser.max_level as u32,
            Item::RefillHopper(i) => settings.coin_hoppers@[i as int].max_level as u32,
            _ => 100_000,
        }
    }

    /// The number as it is before it is edited.
    pub open spec fn edit_start(self, settings: Settings, counters: Counters) -> u32 {
        match self {
            Item::RefillItems => counters.item_level as u32,
            Item::RefillHopper(i) => counters.coin_levels@[i as int] as u32,
            _ => settings.item_dispenser.unit_value,
        }
    }

    /// The title over the number.
    pub fn title(self) -> (s: &'static str)
        ensures
            s@ == self.edit_title(),
            s@.len() <= LCD_COLUMNS,
    {
        proof {
            reveal_strlit("Бахилы");
            reveal_strlit("Монеты");
            reveal_strlit("Цена, коп.");
        }
        match self {
            Item::RefillItems => "Бахилы",
            Item::RefillHopper(_) => "Монеты",
            _ => "Цена, коп.",
        }
    }

    /// What one press changes the number by.
    pub fn step(self) -> (n: u32)
        ensures
            n == self.edit_step(),
    {
        match self {
            Item::RefillItems => 100,
            Item::RefillHopper(_) => 10,
            _ => 50,
        }
    }

    /// How far up the number goes.
    pub fn max(self, settings: &Settings) -> (n: u32)
        requires
            self.edits(),
        ensures
            n == self.edit_max(*settings),
    {
        match self {
            Item::RefillItems => settings.item_dispenser.max_level as u32,
            Item::RefillHopper(i) => settings.coin_hoppers[i].max_level as u32,
            _ => 100_000,
        }
    }

    /// The number as it is before it is edited.
    pub fn start(self, settings: &Settings, counters: &Counters) -> (n: u32)
        requires
            self.edits(),
        ensures
            n == self.edit_start(*settings, *counters),
    {
        match self {
            Item::RefillItems => counters.item_level as u32,
            Item::RefillHopper(i) => counters.coin_levels[i] as u32,
            _ => settings.item_dispenser.unit_value,
        }
    }
}

/// The items, of the first `n`, that somebody with `access` sees, by their place among all items.
pub open spec fn visible_of(access: Access, n: nat) -> Seq<u16>
    decreases n,
{
    if n == 0 {
        Seq::empty()
    } else {
        let front = visible_of(access, (n - 1) as nat);
        if Item::all()[n - 1].shown_to(access) {
            front.push((n - 1) as u16)
        } else {
            front
        }
    }
}

/// The items that somebody with `access` sees.
pub open spec fn visible(access: Access) -> Seq<u16> {
    visible_of(access, ITEM_COUNT as nat)
}

/// What is known of every visible item.
pub proof fn lemma_visible(access: Access, n: nat)
    requires
        n <= ITEM_COUNT,
    ensures
        visible_of(access, n).len() <= n,
        forall|k: int|
            0 <= k < visible_of(access, n).len() ==> (#[trigger] visible_of(access, n)[k]) < n
                && Item::all()[visible_of(access, n)[k] as int].shown_to(access),
        n >= 1 ==> visible_of(access, n).len() >= 1,
    decreases n,
{
    if n > 0 {
        lemma_visible(access, (n - 1) as nat);
        reveal_with_fuel(visible_of, 2);
    }
}

/// Everybody with a key sees something, and nobody sees an item above their level: a collector never sees
/// the price or the keys.
pub proof fn law_nobody_sees_above_their_level(access: Access, k: int)
    requires
        0 <= k < visible(access).len(),
    ensures
        visible(access)[k] < ITEM_COUNT,
        Item::all()[visible(access)[k] as int].needed().level() >= access.level(),
        access != Access::Owner ==> Item::all()[visible(access)[k] as int] != Item::Price
            && Item::all()[visible(access)[k] as int] != Item::Keys,
{
    lemma_visible(access, ITEM_COUNT as nat);
}

/// What somebody with a key sees: the reports for everybody, refills, gifts and a new period for whoever services the machine,
/// and the price and the keys for the owner alone.
pub proof fn law_items_of_each_level()
    ensures
        visible(Access::Collector).map_values(|i: u16| Item::all()[i as int]) == seq![
            Item::Accounting,
            Item::State,
            Item::EventLog,
        ],
        visible(Access::Service).map_values(|i: u16| Item::all()[i as int]) == seq![
            Item::Accounting,
            Item::State,
            Item::EventLog,
            Item::RefillItems,
            Item::RefillHopper(0),
            Item::FreeItem,
            Item::ClearPeriod,
        ],
        visible(Access::Owner).map_values(|i: u16| Item::all()[i as int]) == seq![
            Item::Accounting,
            Item::State,
            Item::EventLog,
            Item::RefillItems,
            Item::RefillHopper(0),
            Item::FreeItem,
            Item::Price,
            Item::ClearPeriod,
            Item::Keys,
        ],
{
    reveal_with_fuel(visible_of, 11);
    let all = Item::all();
    assert(all[0] == Item::Accounting && all[1] == Item::State && all[2] == Item::EventLog && all[3]
        == Item::RefillItems && all[4] == Item::RefillHopper(0) && all[5] == Item::RefillHopper(1) && all[6]
        == Item::FreeItem && all[7] == Item::Price && all[8] == Item::ClearPeriod && all[9] == Item::Keys);
    assert(visible(Access::Collector) =~= seq![0u16, 1, 2]);
    assert(visible(Access::Service) =~= seq![0u16, 1, 2, 3, 4, 6, 8]);
    assert(visible(Access::Owner) =~= seq![0u16, 1, 2, 3, 4, 6, 7, 8, 9]);
}

/// A more privileged key shows everything that a less privileged one does.
pub proof fn law_more_access_shows_more(more: Access, less: Access, item: Item)
    requires
        more.level() <= less.level(),
        item.shown_to(less),
    ensures
        item.shown_to(more),
{
}

/// The items that somebody with `access` sees.
pub fn visible_items(access: Access) -> (list: heapless::Vec<u16, 32>)
    ensures
        bounded::list_items(list) == visible(access),
        1 <= visible(access).len() <= ITEM_COUNT,
{
    let mut list = list_new();
    let mut i: u16 = 0;
    while i < ITEM_COUNT
        invariant
            i <= ITEM_COUNT,
            bounded::list_items(list) == visible_of(access, i as nat),
        decreases ITEM_COUNT - i,
    {
        proof {
            lemma_visible(access, i as nat);
        }
        if Item::at(i).is_shown_to(access) {
            list_push(&mut list, i);
        }
        i += 1;
    }
    proof {
        lemma_visible(access, ITEM_COUNT as nat);
    }
    list
}

/// How many items somebody with `access` sees.
pub fn visible_count(access: Access) -> (n: usize)
    ensures
        n == visible(access).len(),
        1 <= n <= ITEM_COUNT,
{
    let list = visible_items(access);
    list_as_slice(&list).len()
}

/// The item under the cursor.
pub fn visible_item(access: Access, cursor: usize) -> (item: Item)
    requires
        cursor < visible(access).len(),
    ensures
        item == Item::all()[visible(access)[cursor as int] as int],
        item.shown_to(access),
{
    let list = visible_items(access);
    proof {
        lemma_visible(access, ITEM_COUNT as nat);
    }
    Item::at(list_as_slice(&list)[cursor])
}

/// A number after one press of the up button: one step more, but not above the limit.
pub open spec fn stepped_up(value: u32, step: u32, max: u32) -> u32 {
    if value + step <= max {
        (value + step) as u32
    } else {
        max
    }
}

/// A number after one press of the down button: one step less, but not below nothing.
pub open spec fn stepped_down(value: u32, step: u32) -> u32 {
    if value >= step {
        (value - step) as u32
    } else {
        0
    }
}

/// A number after one press of the up button.
pub fn step_up(value: u32, step: u32, max: u32) -> (n: u32)
    ensures
        n == stepped_up(value, step, max),
{
    let up = value.saturating_add(step);
    if up <= max {
        up
    } else {
        max
    }
}

/// A number after one press of the down button.
pub fn step_down(value: u32, step: u32) -> (n: u32)
    ensures
        n == stepped_down(value, step),
{
    value.saturating_sub(step)
}

/// Where the line that starts at `from` ends: at the next line feed, or at the end.
pub open spec fn line_end(text: Seq<char>, from: int) -> int
    decreases text.len() - from,
{
    if from >= text.len() || text[from] == '\n' {
        from
    } else {
        line_end(text, from + 1)
    }
}

/// The lines of `text` from `from` on, without their line feeds.
pub open spec fn lines_from(text: Seq<char>, from: int) -> Seq<Seq<char>>
    decreases text.len() + 1 - from,
    when 0 <= from
    via lines_from_decreases
{
    if from >= text.len() {
        Seq::empty()
    } else {
        seq![text.subrange(from, line_end(text, from))] + lines_from(text, line_end(text, from) + 1)
    }
}

#[via_fn]
proof fn lines_from_decreases(text: Seq<char>, from: int) {
    lemma_line_end(text, from);
}

/// The lines of `text`, without their line feeds.
pub open spec fn lines(text: Seq<char>) -> Seq<Seq<char>> {
    lines_from(text, 0)
}

/// A line ends at or behind its start, and not behind the text.
proof fn lemma_line_end(text: Seq<char>, from: int)
    ensures
        from <= line_end(text, from),
        from <= text.len() ==> line_end(text, from) <= text.len(),
    decreases text.len() - from,
{
    if from < text.len() && text[from] != '\n' {
        lemma_line_end(text, from + 1);
    }
}

/// Lines put together again, each with its line feed.
pub open spec fn joined(lines: Seq<Seq<char>>) -> Seq<char>
    decreases lines.len(),
{
    if lines.len() == 0 {
        Seq::empty()
    } else {
        lines[0] + seq!['\n'] + joined(lines.drop_first())
    }
}

/// A line goes on to the next line feed, or to the end.
proof fn lemma_line_ends_at_feed(text: Seq<char>, from: int)
    requires
        0 <= from <= text.len(),
    ensures
        from <= line_end(text, from) <= text.len(),
        line_end(text, from) < text.len() ==> text[line_end(text, from)] == '\n',
        forall|i: int| from <= i < line_end(text, from) ==> #[trigger] text[i] != '\n',
    decreases text.len() - from,
{
    if from < text.len() && text[from] != '\n' {
        lemma_line_ends_at_feed(text, from + 1);
    }
}

/// The lines of the rest of a text make up the rest of the text.
proof fn lemma_lines_join(text: Seq<char>, from: int)
    requires
        0 <= from <= text.len(),
    ensures
        joined(lines_from(text, from)) == (if from == text.len() || text.last() == '\n' {
            text.skip(from)
        } else {
            text.skip(from).push('\n')
        }),
        forall|k: int, i: int|
            0 <= k < lines_from(text, from).len() && 0 <= i < lines_from(text, from)[k].len()
                ==> #[trigger] lines_from(text, from)[k][i] != '\n',
    decreases text.len() - from,
{
    if from < text.len() {
        let end = line_end(text, from);
        let first = text.subrange(from, end);
        lemma_line_ends_at_feed(text, from);
        let all = lines_from(text, from);
        let rest = lines_from(text, end + 1);
        if end < text.len() {
            lemma_lines_join(text, end + 1);
        } else {
            assert(rest.len() == 0);
        }
        assert(all =~= seq![first] + rest);
        assert(all.drop_first() =~= rest);
        assert(all[0] == first);
        assert(joined(all) == first + seq!['\n'] + joined(rest));
        if end == text.len() {
            assert(text[text.len() - 1] != '\n');
            assert(joined(rest) =~= Seq::empty());
        } else if end + 1 == text.len() {
            assert(joined(rest) =~= Seq::empty());
        }
        assert(joined(all) =~= (if text.last() == '\n' {
            text.skip(from)
        } else {
            text.skip(from).push('\n')
        }));
        assert forall|k: int, i: int| 0 <= k < all.len() && 0 <= i < all[k].len() implies #[trigger] all[k][i]
            != '\n' by {
            if k > 0 {
                assert(all[k] == rest[k - 1]);
                assert(rest[k - 1][i] != '\n');
            }
        }
    }
}

/// The lines of a text, put together again, are the text, and none of them has a line feed in it. A text that does not end its
/// last line is read as if it did.
pub proof fn law_lines_make_up_the_text(text: Seq<char>)
    ensures
        joined(lines(text)) == (if text.len() == 0 || text.last() == '\n' {
            text
        } else {
            text.push('\n')
        }),
        forall|k: int, i: int|
            0 <= k < lines(text).len() && 0 <= i < lines(text)[k].len() ==> #[trigger] lines(text)[k][i] != '\n',
{
    lemma_lines_join(text, 0);
    assert(text.skip(0) =~= text);
}

/// Where a text starts with something else, its lines behind that are the lines of the rest.
proof fn lemma_lines_behind(front: Seq<char>, rest: Seq<char>, k: int)
    requires
        0 <= k,
    ensures
        lines_from(front + rest, front.len() + k) == lines_from(rest, k),
        line_end(front + rest, front.len() + k) == front.len() + line_end(rest, k),
    decreases rest.len() + 1 - k,
{
    let text = front + rest;
    if k < rest.len() {
        lemma_end_behind(front, rest, k);
        lemma_line_ends_at_feed(rest, k);
        lemma_lines_behind(front, rest, line_end(rest, k) + 1);
        assert(text.subrange(front.len() + k, front.len() + line_end(rest, k)) =~= rest.subrange(
            k,
            line_end(rest, k),
        ));
    }
}

/// Where a line ends does not depend on what is in front of it.
proof fn lemma_end_behind(front: Seq<char>, rest: Seq<char>, k: int)
    requires
        0 <= k,
    ensures
        line_end(front + rest, front.len() + k) == front.len() + line_end(rest, k),
    decreases rest.len() - k,
{
    if k < rest.len() && rest[k] != '\n' {
        lemma_end_behind(front, rest, k + 1);
    }
}

/// A line in front of a text is its first line.
pub proof fn lemma_first_line(line: Seq<char>, rest: Seq<char>)
    requires
        forall|i: int| 0 <= i < line.len() ==> #[trigger] line[i] != '\n',
    ensures
        lines(line + "\n"@ + rest) == seq![line] + lines(rest),
{
    reveal_strlit("\n");
    let front = line + "\n"@;
    let text = front + rest;
    lemma_line_ends_at_feed(text, 0);
    let end = line_end(text, 0);
    assert(end == line.len()) by {
        if end < line.len() {
            assert(text[end] == line[end]);
        } else if end > line.len() {
            assert(text[line.len() as int] == '\n');
        }
    }
    assert(text.subrange(0, end) =~= line);
    lemma_lines_behind(front, rest, 0);
}

/// Where the line that starts at `from` ends.
fn end_of_line(text: &str, from: usize, len: usize) -> (end: usize)
    requires
        len == text@.len(),
        from <= len,
    ensures
        end == line_end(text@, from as int),
        from <= end <= len,
{
    let mut at: usize = from;
    while at < len && text.get_char(at) != '\n'
        invariant
            from <= at <= len,
            len == text@.len(),
            line_end(text@, from as int) == line_end(text@, at as int),
        decreases len - at,
    {
        at += 1;
    }
    at
}

/// How many lines there are.
pub fn line_count(text: &str) -> (n: usize)
    ensures
        n == lines(text@).len(),
{
    let len: usize = text.unicode_len();
    let mut at: usize = 0;
    let mut n: usize = 0;
    while at < len
        invariant
            len == text@.len(),
            n <= at,
            at < len + 1,
            n + lines_from(text@, at as int).len() == lines(text@).len(),
        decreases len - at,
    {
        let end = end_of_line(text, at, len);
        if end == len {
            assert(lines_from(text@, end + 1).len() == 0);
            return n + 1;
        }
        at = end + 1;
        n += 1;
    }
    n
}

/// The `k`th line, counted from zero, or an empty one if there are not so many.
pub fn line_at(text: &str, k: usize) -> (line: &str)
    ensures
        line@ == (if k < lines(text@).len() {
            lines(text@)[k as int]
        } else {
            Seq::empty()
        }),
{
    let len: usize = text.unicode_len();
    let mut at: usize = 0;
    let mut n: usize = 0;
    assert(lines(text@).skip(0) =~= lines(text@));
    while at < len
        invariant
            len == text@.len(),
            n <= at,
            n <= k,
            n <= lines(text@).len(),
            lines_from(text@, at as int) == lines(text@).skip(n as int),
        decreases len - at,
    {
        let end = end_of_line(text, at, len);
        let ghost rest = lines_from(text@, at as int);
        let ghost first = seq![text@.subrange(at as int, end as int)];
        assert(rest == first + lines_from(text@, end + 1));
        assert(rest.len() >= 1);
        assert(rest[0] == lines(text@).skip(n as int)[0]);
        if n == k {
            return text.substring_char(at, end);
        }
        assert(lines_from(text@, end + 1) =~= lines(text@).skip(n + 1)) by {
            assert(rest.skip(1) =~= lines_from(text@, end + 1));
            assert(rest.skip(1) =~= lines(text@).skip(n + 1));
        }
        if end == len {
            assert(lines_from(text@, end + 1).len() == 0);
            assert(lines(text@).len() <= k);
            return text.substring_char(len, len);
        }
        at = end + 1;
        n += 1;
    }
    assert(lines_from(text@, at as int).len() == 0);
    let line = text.substring_char(len, len);
    assert(line@ =~= Seq::empty());
    line
}

/// A page of a report: two lines, as much of each as the display is wide.
pub fn report_page(text: &str, at: usize) -> (rows: (Row, Row))
    requires
        at < usize::MAX,
    ensures
        ({
            let ls = lines(text@);
            &&& rows.0@ == text::cut(if at < ls.len() { ls[at as int] } else { Seq::empty() })
            &&& rows.1@ == text::cut(if at + 1 < ls.len() { ls[at + 1] } else { Seq::empty() })
        }),
{
    (Row::cut(line_at(text, at)), Row::cut(line_at(text, at + 1)))
}

/// Which slot of the key table a number stands for: the access level, and which of its keys.
pub open spec fn key_slot(slot: u8) -> (int, int) {
    (slot as int / KEYS_PER_LEVEL as int, slot as int % KEYS_PER_LEVEL as int)
}

/// How many key slots there are.
pub const KEY_SLOTS: u8 = 6;

/// The top row of the key screen: whose key it is, and which one.
pub open spec fn key_title(slot: u8) -> Seq<char> {
    let (level, i) = key_slot(slot);
    (if level == 0 {
        "Владелец "@
    } else if level == 1 {
        "Сервис "@
    } else {
        "Инкассатор "@
    }) + text::decimal((i + 1) as nat)
}

/// The first `n` bytes of a serial number, in base sixteen.
pub open spec fn key_digits(key: IbuttonKey, n: nat) -> Seq<char>
    decreases n,
{
    if n == 0 {
        Seq::empty()
    } else {
        key_digits(key, (n - 1) as nat) + text::hex_padded(key.0@[n - 1] as nat, 2)
    }
}

/// A serial number, in base sixteen, or that there is none.
pub open spec fn key_text(key: IbuttonKey) -> Seq<char> {
    if key.blank() {
        "(пусто)"@
    } else {
        key_digits(key, KEY_LEN as nat)
    }
}

/// Two digits for every byte.
proof fn lemma_byte_digits(b: u8)
    ensures
        text::hex_padded(b as nat, 2).len() == 2,
{
    reveal_with_fuel(text::hexadecimal, 2);
}

/// A key is spelled out byte for byte, in two digits of base sixteen each, and an empty slot is said to be one.
pub proof fn law_key_is_spelled_out(key: IbuttonKey, n: nat, k: int)
    requires
        n <= KEY_LEN,
        0 <= k < n,
    ensures
        key_digits(key, n).len() == 2 * n,
        text::reads(key_digits(key, n).subrange(2 * k, 2 * k + 2), 16) == key.0@[k],
        text::is_digit(key_digits(key, n)[2 * k], 16) && text::is_digit(key_digits(key, n)[2 * k + 1], 16),
        key_text(key) == (if key.blank() {
            "(пусто)"@
        } else {
            key_digits(key, 8)
        }),
    decreases n,
{
    let byte = text::hex_padded(key.0@[n - 1] as nat, 2);
    let front = key_digits(key, (n - 1) as nat);
    lemma_byte_digits(key.0@[n - 1]);
    text::law_padding_changes_nothing(key.0@[n - 1] as nat, 2);
    if n > 1 {
        law_key_is_spelled_out(
            key,
            (n - 1) as nat,
            if k < n - 1 {
                k
            } else {
                0
            },
        );
    }
    let all = key_digits(key, n);
    if k < n - 1 {
        assert(all.subrange(2 * k, 2 * k + 2) =~= front.subrange(2 * k, 2 * k + 2));
    } else {
        assert(all.subrange(2 * k, 2 * k + 2) =~= byte);
        assert(all[2 * k] == byte[0] && all[2 * k + 1] == byte[1]);
    }
}

/// The slot's owner is named, and which of their two keys it is.
pub proof fn law_slot_is_named(slot: u8)
    requires
        slot < 6,
    ensures
        key_title(slot) == (if slot < 2 {
            "Владелец "@
        } else if slot < 4 {
            "Сервис "@
        } else {
            "Инкассатор "@
        }) + text::decimal(
            if slot % 2 == 0 {
                1
            } else {
                2
            },
        ),
        key_slot(slot).0 == slot / 2 && key_slot(slot).1 == slot % 2,
{
}

/// A serial number, in base sixteen, or that there is none.
fn key_row(key: &IbuttonKey) -> (row: Row)
    ensures
        row@ == key_text(*key),
{
    if key.is_empty() {
        proof {
            reveal_strlit("(пусто)");
        }
        return Row::of("(пусто)");
    }
    let mut row = Row::new();
    let mut i: usize = 0;
    while i < KEY_LEN
        invariant
            i <= KEY_LEN,
            row@ == key_digits(*key, i as nat),
            row@.len() == 2 * i,
        decreases KEY_LEN - i,
    {
        let digits = hex_padded_row(key.0[i] as u32, 2);
        proof {
            lemma_byte_digits(key.0@[i as int]);
        }
        row.push_str(digits.as_str());
        i += 1;
    }
    row
}

/// The screen for one slot of the key table.
pub fn key_screen(slot: u8, key: &IbuttonKey) -> (rows: (Row, Row))
    requires
        slot < KEY_SLOTS,
    ensures
        rows.0@ == key_title(slot),
        rows.1@ == key_text(*key),
{
    proof {
        reveal_strlit("Владелец ");
        reveal_strlit("Сервис ");
        reveal_strlit("Инкассатор ");
        reveal_with_fuel(text::pow10, 2);
        text::lemma_decimal_len((slot as int % 2 + 1) as nat, 1);
    }
    let level = slot / 2;
    let i = slot % 2;
    let mut top = Row::of(if level == 0 {
        "Владелец "
    } else if level == 1 {
        "Сервис "
    } else {
        "Инкассатор "
    });
    top.push_str(decimal_row(i as u32 + 1).as_str());
    (top, key_row(key))
}

/// The greeting shown when an unknown key is presented.
///
/// Silence would be indistinguishable from a broken reader, and somebody holding a key that used to work
/// deserves to know which of the two it is.
pub fn unknown_key_screen() -> (screen: Screen)
    ensures
        screen matches Screen::Text(top, bottom) && top@ == "Ключ неизвестен"@ && bottom@.len() == 0,
{
    proof {
        reveal_strlit("Ключ неизвестен");
    }
    Screen::Text(Row::of("Ключ неизвестен"), Row::new())
}

/// The screen for a line of the menu: what it is, and where among the visible ones it stands.
pub fn item_screen(item: Item, cursor: usize, count: usize) -> (rows: (Row, Row))
    requires
        cursor < count <= ITEM_COUNT,
    ensures
        rows.0@ == item.wording(),
        rows.1@ == text::decimal((cursor + 1) as nat) + "/"@ + text::decimal(count as nat),
{
    proof {
        reveal_strlit("/");
        reveal_with_fuel(text::pow10, 3);
        text::lemma_decimal_len((cursor + 1) as nat, 2);
        text::lemma_decimal_len(count as nat, 2);
    }
    let mut bottom = decimal_row(cursor as u32 + 1);
    bottom.push_str("/");
    bottom.push_str(decimal_row(count as u32).as_str());
    (Row::of(item.label()), bottom)
}

/// The screen for editing a number.
pub fn edit_screen(item: Item, value: u32) -> (rows: (Row, Row))
    ensures
        rows.0@ == item.edit_title(),
        rows.1@ == text::decimal(value as nat),
{
    (Row::of(item.title()), decimal_row(value))
}

} // verus!
