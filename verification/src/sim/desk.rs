//! What each key does, as a function from the machine and its use before to both after.
//!
//! While the menu is open it has the machine to itself. Coins are ignored, as the acceptor of a real machine would
//! be shut, and so are other keys of the key reader.
use vstd::prelude::*;

use crate::config::{HOPPER_COUNT, LCD_COLUMNS};
use crate::error;
use crate::event::Button;
use crate::menu::{self, Access, Item};
use crate::report;
use crate::sim::{self, Bench};
use crate::state::{Accounting, Counters, HopperSettings, IbuttonKey, Level, Settings};
use crate::text::{self, decimal_row, Report};
use crate::ui::Screen;

verus! {

/// The items on offer, in the order they appear.
pub open spec fn all_items() -> Seq<Item> {
    seq![Item::Accounting, Item::State, Item::RefillItems] + Seq::new(
        HOPPER_COUNT as nat,
        |i: int| Item::RefillHopper(i as usize),
    ) + seq![Item::FreeItem, Item::Price, Item::ClearPeriod]
}

/// Of some items, those that somebody with `access` sees.
pub open spec fn offered_of(items: Seq<Item>, access: Access) -> Seq<Item>
    decreases items.len(),
{
    if items.len() == 0 {
        Seq::empty()
    } else {
        let front = offered_of(items.drop_last(), access);
        if items.last().shown_to(access) {
            front.push(items.last())
        } else {
            front
        }
    }
}

/// The items that somebody with `access` sees.
pub open spec fn offered(access: Access) -> Seq<Item> {
    offered_of(all_items(), access)
}

/// What an item is called.
pub open spec fn label_of(item: Item) -> Seq<char> {
    match item {
        Item::Accounting => "Report: takings"@,
        Item::State => "Report: stock"@,
        Item::EventLog => "Report: events"@,
        Item::RefillItems => "Refill covers"@,
        Item::RefillHopper(i) => "Refill coins "@ + text::decimal((i + 1) as nat),
        Item::FreeItem => "Give away pair"@,
        Item::Price => "Price"@,
        Item::ClearPeriod => "Clear period"@,
        Item::Keys => "Keys"@,
    }
}

/// The title over a number that is edited.
pub open spec fn title_of(item: Item) -> Seq<char> {
    match item {
        Item::RefillItems => "Covers"@,
        Item::RefillHopper(_) => "Coins"@,
        _ => "Price, kop."@,
    }
}

/// What one press changes a number by.
pub open spec fn step_of(item: Item) -> u32 {
    match item {
        Item::RefillItems => 5,
        Item::RefillHopper(_) => 5,
        _ => 50,
    }
}

/// What is known of the items that somebody sees.
pub proof fn lemma_offered(items: Seq<Item>, access: Access)
    ensures
        offered_of(items, access).len() <= items.len(),
        forall|k: int|
            0 <= k < offered_of(items, access).len() ==> (#[trigger] offered_of(items, access)[k]).shown_to(
                access,
            ) && items.contains(offered_of(items, access)[k]),
    decreases items.len(),
{
    if items.len() > 0 {
        lemma_offered(items.drop_last(), access);
        let front = offered_of(items.drop_last(), access);
        assert forall|k: int| 0 <= k < offered_of(items, access).len() implies items.contains(
            #[trigger] offered_of(items, access)[k],
        ) by {
            if k < front.len() {
                let j = choose|j: int| 0 <= j < items.len() - 1 && items.drop_last()[j] == front[k];
                assert(items[j] == front[k]);
            } else {
                assert(items[items.len() - 1] == items.last());
            }
        }
    }
}

/// Everybody with a key sees something, and nobody sees an item above their level: a collector sees reports only,
/// and only the owner the price.
pub proof fn law_menu_keeps_to_access(access: Access, k: int)
    requires
        0 <= k < offered(access).len(),
    ensures
        offered(access)[k].shown_to(access),
        access == Access::Collector ==> offered(access)[k] is Accounting || offered(access)[k] is State,
        offered(access)[k] is Price ==> access == Access::Owner,
{
    lemma_offered(all_items(), access);
    assert(all_items().contains(offered(access)[k]));
}

/// Everybody with a key sees something.
pub proof fn law_menu_is_never_empty(access: Access)
    ensures
        offered(access).len() >= 1,
{
    let items = all_items();
    lemma_offered_grows(items, access, 1);
    assert(items.take(1).drop_last() =~= Seq::<Item>::empty());
    assert(items.take(1).last() == Item::Accounting);
    assert(offered_of(items.take(1), access) == offered_of(Seq::empty(), access).push(Item::Accounting));
}

/// More items on offer are no fewer items seen.
proof fn lemma_offered_grows(items: Seq<Item>, access: Access, n: int)
    requires
        0 <= n <= items.len(),
    ensures
        offered_of(items.take(n), access).len() <= offered_of(items, access).len(),
    decreases items.len(),
{
    if n < items.len() {
        lemma_offered_grows(items.drop_last(), access, n);
        assert(items.drop_last().take(n) =~= items.take(n));
    } else {
        assert(items.take(n) =~= items);
    }
}

/// What an item is called.
pub fn label(item: Item) -> (s: String)
    requires
        item matches Item::RefillHopper(i) ==> i < HOPPER_COUNT,
    ensures
        s@ == label_of(item),
{
    match item {
        Item::Accounting => "Report: takings".to_owned(),
        Item::State => "Report: stock".to_owned(),
        Item::EventLog => "Report: events".to_owned(),
        Item::RefillItems => "Refill covers".to_owned(),
        Item::RefillHopper(i) => {
            let mut s = "Refill coins ".to_owned();
            s.append(decimal_row(i as u32 + 1).as_str());
            s
        },
        Item::FreeItem => "Give away pair".to_owned(),
        Item::Price => "Price".to_owned(),
        Item::ClearPeriod => "Clear period".to_owned(),
        Item::Keys => "Keys".to_owned(),
    }
}

/// The title over a number that is edited.
pub fn title(item: Item) -> (s: &'static str)
    ensures
        s@ == title_of(item),
        s@.len() <= LCD_COLUMNS,
{
    proof {
        reveal_strlit("Covers");
        reveal_strlit("Coins");
        reveal_strlit("Price, kop.");
    }
    match item {
        Item::RefillItems => "Covers",
        Item::RefillHopper(_) => "Coins",
        _ => "Price, kop.",
    }
}

/// Every item on offer.
fn items_on_offer() -> (items: Vec<Item>)
    ensures
        items@ == all_items(),
{
    let mut items: Vec<Item> = Vec::new();
    items.push(Item::Accounting);
    items.push(Item::State);
    items.push(Item::RefillItems);
    let mut i: usize = 0;
    while i < HOPPER_COUNT
        invariant
            i <= HOPPER_COUNT,
            items@ =~= all_items().take(3 + i),
        decreases HOPPER_COUNT - i,
    {
        items.push(Item::RefillHopper(i));
        i += 1;
    }
    items.push(Item::FreeItem);
    items.push(Item::Price);
    items.push(Item::ClearPeriod);
    assert(items@ =~= all_items());
    items
}

/// The items that somebody with `access` sees.
pub fn visible(access: Access) -> (seen: Vec<Item>)
    ensures
        seen@ == offered(access),
{
    let items = items_on_offer();
    let mut seen: Vec<Item> = Vec::new();
    let mut i: usize = 0;
    assert(items@.take(0).len() == 0);
    while i < items.len()
        invariant
            i <= items@.len(),
            seen@ == offered_of(items@.take(i as int), access),
        decreases items@.len() - i,
    {
        if items[i].is_shown_to(access) {
            seen.push(items[i]);
        }
        i += 1;
        assert(items@.take(i as int).drop_last() =~= items@.take(i - 1));
    }
    assert(items@.take(i as int) =~= items@);
    seen
}

/// What the machine is being used for.
pub enum Mode {
    /// Selling.
    Vending,
    /// Choosing from the menu.
    Menu {
        /// Which of the visible items is under the cursor.
        cursor: usize,
        /// Whose menu it is.
        access: Access,
    },
    /// Editing a number.
    Editing {
        /// What the number is.
        item: Item,
        /// The number.
        value: u32,
        /// What one press changes it by.
        step: u32,
        /// How far up it goes.
        max: u32,
        /// Whose menu it is.
        access: Access,
    },
    /// Reading a report, two lines at a time.
    Report {
        /// The report.
        text: Report,
        /// How many lines it has.
        lines: usize,
        /// The line at the top.
        at: usize,
        /// Whose menu it is.
        access: Access,
    },
}

/// What there is to know of what the machine is being used for.
pub enum Doing {
    /// Selling.
    Vending,
    /// Choosing from the menu.
    Menu {
        /// Which of the visible items is under the cursor.
        cursor: int,
        /// Whose menu it is.
        access: Access,
    },
    /// Editing a number.
    Editing {
        /// What the number is.
        item: Item,
        /// The number.
        value: u32,
        /// What one press changes it by.
        step: u32,
        /// How far up it goes.
        max: u32,
        /// Whose menu it is.
        access: Access,
    },
    /// Reading a report, two lines at a time.
    Report {
        /// The lines of the report.
        lines: Seq<Seq<char>>,
        /// The line at the top.
        at: int,
        /// Whose menu it is.
        access: Access,
    },
}

impl View for Mode {
    type V = Doing;

    open spec fn view(&self) -> Doing {
        match *self {
            Mode::Vending => Doing::Vending,
            Mode::Menu { cursor, access } => Doing::Menu { cursor: cursor as int, access },
            Mode::Editing { item, value, step, max, access } => Doing::Editing {
                item,
                value,
                step,
                max,
                access,
            },
            Mode::Report { text, lines, at, access } => Doing::Report {
                lines: menu::lines(text@),
                at: at as int,
                access,
            },
        }
    }
}

impl Mode {
    /// The number that is edited can be a stock wherever it is to be one, and the report is as long as is said.
    pub open spec fn wf(self) -> bool {
        match self {
            Mode::Editing { item, value, max, .. } => item.edits() && (!(item is Price) ==> value
                <= u16::MAX && max <= u16::MAX),
            Mode::Report { text, lines, at, .. } => lines == menu::lines(text@).len() && at <= lines,
            _ => true,
        }
    }
}

/// A key of the keyboard.
#[derive(Copy, Clone, Debug, Eq, PartialEq, Structural)]
pub enum Key {
    /// The left arrow.
    Left,
    /// The right arrow.
    Right,
    /// Enter.
    Enter,
    /// Delete.
    Delete,
    /// Backspace.
    Backspace,
    /// Escape.
    Escape,
    /// A character.
    Letter(char),
    /// Any other.
    Other,
}

impl Key {
    /// The key that is meant by a character, typed with or without the control key. Control and `c` stop the program,
    /// as everywhere.
    pub fn typed(c: char, control: bool) -> (key: Key)
        ensures
            key == (if control && (c == 'c' || c == 'C') {
                Key::Escape
            } else {
                Key::Letter(c)
            }),
    {
        if control && (c == 'c' || c == 'C') {
            Key::Escape
        } else {
            Key::Letter(c)
        }
    }
}

/// What is to be done after a key.
#[derive(Copy, Clone, Debug, Eq, PartialEq, Structural)]
pub enum Reaction {
    /// Stop.
    Quit,
    /// Draw the screen again.
    Redraw,
    /// Nothing.
    Ignore,
}

/// A machine, and what it is being used for.
#[verifier::ext_equal]
pub struct Desk {
    /// The machine.
    pub bench: Bench,
    /// What it is being used for.
    pub doing: Doing,
}

/// The keys that are enrolled from the start, most privileged first.
pub open spec fn role_key(access: Access) -> IbuttonKey {
    match access {
        Access::Owner => IbuttonKey([0x01, 0xde, 0xad, 0xbe, 0xef, 0x00, 0x01, 0xaa]),
        Access::Service => IbuttonKey([0x01, 0xde, 0xad, 0xbe, 0xef, 0x00, 0x02, 0xbb]),
        Access::Collector => IbuttonKey([0x01, 0xde, 0xad, 0xbe, 0xef, 0x00, 0x03, 0xcc]),
    }
}

/// What a role is called.
pub open spec fn role_name(access: Access) -> Seq<char> {
    match access {
        Access::Owner => "Owner"@,
        Access::Service => "Service"@,
        Access::Collector => "Collector"@,
    }
}

/// The reminder of what the keys do.
pub open spec fn reminder() -> Seq<char> {
    "Keys: ←/→/Enter/\\=buttons  o/s/c=iButton  1-6=coins  A/S=hopper1/2  D=dispenser  q=quit"@
}

/// Which channel of the acceptor a digit stands for.
pub open spec fn channel_of(c: char) -> Option<int> {
    if '1' <= c <= '6' {
        Some(c as int - '1' as int)
    } else {
        None
    }
}

impl Bench {
    /// A number that was edited is taken over.
    pub open spec fn edited(self, item: Item, value: u32) -> Bench {
        match item {
            Item::RefillItems => Bench {
                counters: Counters { item_level: value as Level, ..self.counters },
                dispenser: value as Level,
                ..self
            }.flagged(error::ITEM_DISPENSER_EMPTY, false).said(
                "Refilled covers to "@ + text::decimal(value as nat) + "."@,
            ),
            Item::RefillHopper(i) => Bench {
                counters: Counters {
                    coin_levels: vstd::array::spec_array_update(
                        self.counters.coin_levels,
                        i as int,
                        value as Level,
                    ),
                    ..self.counters
                },
                hoppers: self.hoppers.update(i as int, value as Level),
                ..self
            }.flagged(error::COIN_HOPPER_EMPTY, false).said(
                "Refilled hopper "@ + text::decimal((i + 1) as nat) + " to "@ + text::decimal(
                    value as nat,
                ) + "."@,
            ),
            Item::Price => Bench {
                settings: Settings {
                    item_dispenser: HopperSettings {
                        unit_value: value,
                        ..self.settings.item_dispenser
                    },
                    ..self.settings
                },
                ..self
            }.said("Price set to "@ + text::decimal(value as nat) + " kop."@),
            _ => self,
        }
    }

    /// One coin is let out of a hopper by hand.
    pub open spec fn hopper_pulsed(self, i: int) -> Bench {
        if i >= HOPPER_COUNT {
            self.said(
                "Hopper "@ + text::decimal((i + 1) as nat) + ": not configured (this build has "@
                    + text::decimal(HOPPER_COUNT as nat) + " coin hopper(s))."@,
            )
        } else {
            let out = sim::comes_out(self.hoppers[i], 1);
            let level = (self.hoppers[i] - out) as Level;
            let after = Bench {
                hoppers: self.hoppers.update(i, level),
                counters: Counters {
                    coin_levels: vstd::array::spec_array_update(self.counters.coin_levels, i, level),
                    ..self.counters
                },
                ..self
            };
            if out > 0 {
                after.said(
                    "Hopper "@ + text::decimal((i + 1) as nat) + ": manual payout pulse, 1 coin (level now "@
                        + text::decimal(level as nat) + ")."@,
                )
            } else {
                after.said(
                    "Hopper "@ + text::decimal((i + 1) as nat) + ": empty, no coin to pay out."@,
                )
            }
        }
    }

    /// One pair is let out of the dispenser by hand.
    pub open spec fn dispenser_pulsed(self) -> Bench {
        let out = sim::comes_out(self.dispenser, 1);
        let level = (self.dispenser - out) as Level;
        let after = Bench {
            dispenser: level,
            counters: Counters { item_level: level, ..self.counters },
            ..self
        };
        (if out > 0 {
            after.said(
                "Dispenser: manual pulse, 1 pair (level now "@ + text::decimal(level as nat) + ")."@,
            )
        } else {
            after.said("Dispenser: empty, no pair to dispense."@)
        }).flagged(error::ITEM_DISPENSER_EMPTY, level <= self.settings.item_dispenser.min_level)
    }
}

impl Desk {
    /// The machine changed.
    pub open spec fn with(self, bench: Bench) -> Desk {
        Desk { bench, ..self }
    }

    /// What the machine is being used for changed.
    pub open spec fn at(self, doing: Doing) -> Desk {
        Desk { doing, ..self }
    }

    /// A number is edited.
    pub open spec fn editing(self, item: Item, value: u32, max: u32, access: Access) -> Desk {
        self.at(Doing::Editing { item, value, step: step_of(item), max, access })
    }

    /// An item of the menu is chosen.
    pub open spec fn chosen(self, item: Item, access: Access) -> Desk {
        let b = self.bench;
        match item {
            Item::Accounting => self.at(
                Doing::Report {
                    lines: menu::lines(report::accounting_report(b.counters, b.settings)),
                    at: 0,
                    access,
                },
            ),
            Item::State => self.at(
                Doing::Report {
                    lines: menu::lines(report::state_report(b.counters, b.settings, b.faults)),
                    at: 0,
                    access,
                },
            ),
            Item::RefillItems => self.editing(
                item,
                b.counters.item_level as u32,
                b.settings.item_dispenser.max_level as u32,
                access,
            ),
            Item::RefillHopper(i) => self.editing(
                item,
                b.counters.coin_levels@[i as int] as u32,
                b.settings.coin_hoppers@[i as int].max_level as u32,
                access,
            ),
            Item::FreeItem => self.with(b.given()),
            Item::Price => self.editing(item, b.settings.item_dispenser.unit_value, 100_000, access),
            Item::ClearPeriod => self.with(
                b.counting(Counters { period: Accounting::zero(), ..b.counters }).said(
                    "Period counters cleared."@,
                ),
            ),
            _ => self,
        }
    }

    /// A button is pressed.
    pub open spec fn pressed(self, button: Button) -> Desk {
        match self.doing {
            Doing::Vending => match button {
                Button::Accept => self.with(self.bench.sold()),
                Button::Cancel => if self.bench.counters.cash > 0 {
                    self.with(self.bench.residual())
                } else {
                    self
                },
                _ => self,
            },
            Doing::Menu { cursor, access } => {
                let items = offered(access);
                let at = if cursor < items.len() {
                    cursor
                } else {
                    items.len() - 1
                };
                if items.len() == 0 {
                    self.at(Doing::Vending)
                } else {
                    match button {
                        Button::Cancel => self.at(Doing::Vending),
                        Button::Next => self.at(
                            Doing::Menu { cursor: (at + 1) % items.len() as int, access },
                        ),
                        Button::Prev => self.at(
                            Doing::Menu {
                                cursor: if at == 0 {
                                    items.len() - 1
                                } else {
                                    at - 1
                                },
                                access,
                            },
                        ),
                        Button::Accept => self.at(Doing::Menu { cursor: at, access }).chosen(
                            items[at],
                            access,
                        ),
                    }
                }
            },
            Doing::Editing { item, value, step, max, access } => match button {
                Button::Next => self.at(
                    Doing::Editing {
                        item,
                        value: menu::stepped_up(value, step, max),
                        step,
                        max,
                        access,
                    },
                ),
                Button::Prev => self.at(
                    Doing::Editing { item, value: menu::stepped_down(value, step), step, max, access },
                ),
                Button::Cancel => self.at(Doing::Menu { cursor: 0, access }),
                Button::Accept => self.with(self.bench.edited(item, value)).at(
                    Doing::Menu { cursor: 0, access },
                ),
            },
            Doing::Report { lines, at, access } => if button is Cancel {
                self.at(Doing::Vending)
            } else if at + 2 >= lines.len() {
                self.at(Doing::Menu { cursor: 0, access })
            } else {
                self.at(Doing::Report { lines, at: at + 2, access })
            },
        }
    }

    /// What is shown to the customer when a button is pressed, if anything is.
    pub open spec fn pressed_popup(self, button: Button) -> Option<Screen> {
        if self.doing is Vending {
            match button {
                Button::Accept => self.bench.sold_popup(),
                Button::Cancel => self.bench.residual_popup(),
                _ => None,
            }
        } else {
            None
        }
    }

    /// What a coin makes of the machine before anything is sold.
    pub open spec fn coin_in(self, channel: int) -> Bench {
        let value = self.bench.settings.coin_acceptor.channel_values@[channel];
        self.bench.said(
            "Coin: channel "@ + text::decimal((channel + 1) as nat) + " (+"@ + text::decimal(value as nat)
                + " kop.)"@,
        ).accepted(value)
    }

    /// A coin is put in. The machine sells as soon as it can.
    pub open spec fn coined(self, channel: int) -> Desk {
        if self.doing is Vending {
            let b = self.coin_in(channel);
            self.with(
                if b.counters.cash >= b.price() {
                    b.sold()
                } else {
                    b
                },
            )
        } else {
            self.with(
                self.bench.said("Coin ignored: acceptor is inhibited while the menu is open."@),
            )
        }
    }

    /// What is shown to the customer when a coin is put in, if anything is.
    pub open spec fn coined_popup(self, channel: int) -> Option<Screen> {
        let b = self.coin_in(channel);
        if self.doing is Vending && b.counters.cash >= b.price() {
            b.sold_popup()
        } else {
            None
        }
    }

    /// A key is presented to the reader.
    pub open spec fn presented(self, role: Access) -> Desk {
        if !(self.doing is Vending) {
            self.with(
                self.bench.said("iButton "@ + role_name(role) + " ignored: menu already open."@),
            )
        } else {
            match menu::access_of(role_key(role), self.bench.settings) {
                Some(access) => self.with(
                    self.bench.said(
                        "iButton: "@ + role_name(role) + " presented -> service menu ("@ + role_name(
                            access,
                        ) + ")."@,
                    ),
                ).at(Doing::Menu { cursor: 0, access }),
                None => self.with(
                    self.bench.said("iButton: "@ + role_name(role) + " key not enrolled."@),
                ),
            }
        }
    }

    /// Does a press of a button count something? Only while selling, and where a pair is given away.
    pub open spec fn counts(self, button: Button) -> bool {
        match self.doing {
            Doing::Vending => button is Accept || button is Cancel,
            Doing::Menu { cursor, access } => {
                let items = offered(access);
                let at = if cursor < items.len() {
                    cursor
                } else {
                    items.len() - 1
                };
                button is Accept && items.len() > 0 && items[at] is FreeItem
            },
            _ => false,
        }
    }

    /// Can everything that a press of a button does be counted?
    pub open spec fn takes(self, button: Button) -> bool {
        self.counts(button) ==> self.bench.has_room()
    }

    /// Can everything that a key of the keyboard does be counted?
    pub open spec fn takes_key(self, key: Key) -> bool {
        match key {
            Key::Enter => self.takes(Button::Accept),
            Key::Delete => self.takes(Button::Cancel),
            Key::Backspace => self.takes(Button::Cancel),
            Key::Letter(c) => if c == '\\' {
                self.takes(Button::Cancel)
            } else {
                self.doing is Vending && channel_of(c) is Some ==> self.bench.has_room()
            },
            _ => true,
        }
    }

    /// A key of the keyboard is pressed.
    pub open spec fn keyed(self, key: Key) -> Desk {
        match key {
            Key::Left => self.pressed(Button::Prev),
            Key::Right => self.pressed(Button::Next),
            Key::Enter => self.pressed(Button::Accept),
            Key::Delete => self.pressed(Button::Cancel),
            Key::Backspace => self.pressed(Button::Cancel),
            Key::Letter(c) => if c == 'h' {
                self.with(self.bench.said(reminder()))
            } else if c == '\\' {
                self.pressed(Button::Cancel)
            } else if c == 'o' {
                self.presented(Access::Owner)
            } else if c == 's' {
                self.presented(Access::Service)
            } else if c == 'c' {
                self.presented(Access::Collector)
            } else if c == 'A' {
                self.with(self.bench.hopper_pulsed(0))
            } else if c == 'S' {
                self.with(self.bench.hopper_pulsed(1))
            } else if c == 'D' {
                self.with(self.bench.dispenser_pulsed())
            } else {
                match channel_of(c) {
                    Some(channel) => self.coined(channel),
                    None => self,
                }
            },
            _ => self,
        }
    }

    /// What is shown to the customer when a key of the keyboard is pressed, if anything is.
    pub open spec fn keyed_popup(self, key: Key) -> Option<Screen> {
        match key {
            Key::Left => self.pressed_popup(Button::Prev),
            Key::Right => self.pressed_popup(Button::Next),
            Key::Enter => self.pressed_popup(Button::Accept),
            Key::Delete => self.pressed_popup(Button::Cancel),
            Key::Backspace => self.pressed_popup(Button::Cancel),
            Key::Letter(c) => if c == '\\' {
                self.pressed_popup(Button::Cancel)
            } else {
                match channel_of(c) {
                    Some(channel) => self.coined_popup(channel),
                    None => None,
                }
            },
            _ => None,
        }
    }
}

/// What is to be done after a key.
pub open spec fn reaction_to(key: Key) -> Reaction {
    match key {
        Key::Escape => Reaction::Quit,
        Key::Other => Reaction::Ignore,
        Key::Letter(c) => if c == 'q' {
            Reaction::Quit
        } else if c == 'h' || c == '\\' || c == 'o' || c == 's' || c == 'c' || c == 'A' || c == 'S' || c
            == 'D' || channel_of(c) is Some {
            Reaction::Redraw
        } else {
            Reaction::Ignore
        },
        _ => Reaction::Redraw,
    }
}

} // verus!
