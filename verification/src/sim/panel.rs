//! The keyboard and the menu.
use vstd::prelude::*;

use crate::config::{HOPPER_COUNT, LCD_COLUMNS};
use crate::error::{self, Errors};
use crate::event::Button;
use crate::menu::{self, Access, Item};
use crate::report;
use crate::sim::desk::{self, label, title, visible, Desk, Doing, Key, Mode, Reaction};
use crate::sim::{self, push_log, Bench, Machine, SimHopper};
use crate::state::{Accounting, Counters, IbuttonKey, Level, Settings};
use crate::text::{self, decimal_row, Row};
use crate::ui::{self, Screen};

verus! {

/// The stock of covers at the start.
pub const START_ITEMS: Level = 50;

/// The stock of every coin hopper at the start.
pub const START_COINS: Level = 30;

/// A machine, what it is being used for, and what its display shows while it is selling.
pub struct Panel {
    /// The machine.
    pub machine: Machine,
    /// What it is being used for.
    pub mode: Mode,
    /// What its display shows while it is selling.
    pub screen: Screen,
}

/// The settings at the start: those of the factory, with a key for each role.
pub open spec fn start_settings() -> Settings {
    let keys = Settings::factory().keys;
    Settings {
        keys: [
            vstd::array::spec_array_update(keys@[0], 0, desk::role_key(Access::Owner)),
            vstd::array::spec_array_update(keys@[1], 0, desk::role_key(Access::Service)),
            vstd::array::spec_array_update(keys@[2], 0, desk::role_key(Access::Collector)),
        ],
        ..Settings::factory()
    }
}

/// The machine at the start.
pub open spec fn start_bench() -> Bench {
    Bench {
        settings: start_settings(),
        counters: Counters {
            item_level: START_ITEMS,
            coin_levels: [START_COINS;HOPPER_COUNT],
            ..Counters::fresh()
        },
        hoppers: Seq::new(HOPPER_COUNT as nat, |i: int| START_COINS),
        dispenser: START_ITEMS,
        log: seq!["Simulator started. Press 'h' for help, 'q' to quit."@],
        faults: Errors { bits: 0 },
    }
}

/// The key of a role.
pub fn key_of(role: Access) -> (key: IbuttonKey)
    ensures
        key == desk::role_key(role),
{
    match role {
        Access::Owner => IbuttonKey([0x01, 0xde, 0xad, 0xbe, 0xef, 0x00, 0x01, 0xaa]),
        Access::Service => IbuttonKey([0x01, 0xde, 0xad, 0xbe, 0xef, 0x00, 0x02, 0xbb]),
        Access::Collector => IbuttonKey([0x01, 0xde, 0xad, 0xbe, 0xef, 0x00, 0x03, 0xcc]),
    }
}

/// What a role is called.
pub fn name_of(role: Access) -> (name: &'static str)
    ensures
        name@ == desk::role_name(role),
{
    match role {
        Access::Owner => "Owner",
        Access::Service => "Service",
        Access::Collector => "Collector",
    }
}

/// Which channel of the acceptor a digit stands for.
fn channel(c: char) -> (channel: Option<usize>)
    ensures
        channel matches Some(n) ==> desk::channel_of(c) == Some(n as int) && n < 6,
        channel is None ==> desk::channel_of(c) is None,
{
    match c {
        '1' => Some(0),
        '2' => Some(1),
        '3' => Some(2),
        '4' => Some(3),
        '5' => Some(4),
        '6' => Some(5),
        _ => None,
    }
}

/// A text, cut to the width of the display.
fn items_truncate(s: &str) -> (row: Row)
    ensures
        row@ == text::cut(s@),
{
    Row::cut(s)
}

/// The `k`th line, or an empty one if there are not so many.
pub open spec fn line_or_empty(lines: Seq<Seq<char>>, k: int) -> Seq<char> {
    if 0 <= k < lines.len() {
        lines[k]
    } else {
        Seq::empty()
    }
}

/// The two rows that the display shows while the machine is not selling.
pub open spec fn rows_of(doing: Doing) -> (Seq<char>, Seq<char>) {
    match doing {
        Doing::Vending => (Seq::empty(), Seq::empty()),
        Doing::Menu { cursor, access } => {
            let items = desk::offered(access);
            let at = if cursor < items.len() {
                cursor
            } else {
                items.len() - 1
            };
            if items.len() == 0 {
                (Seq::empty(), Seq::empty())
            } else {
                (
                    text::cut(desk::label_of(items[at])),
                    text::decimal((at + 1) as nat) + "/"@ + text::decimal(items.len()),
                )
            }
        },
        Doing::Editing { item, value, .. } => (desk::title_of(item), text::decimal(value as nat)),
        Doing::Report { lines, at, .. } => (
            text::cut(line_or_empty(lines, at)),
            text::cut(line_or_empty(lines, at + 1)),
        ),
    }
}

/// What the display shows while the machine is selling, once a key has been pressed: what there is to tell the customer, or else
/// the machine's situation. A key that stops the program, or that is meant for the menu, leaves it as it was.
pub open spec fn screen_after(screen: Screen, before: Desk, after: Desk, key: Key) -> Screen {
    if desk::reaction_to(key) is Quit {
        screen
    } else {
        match before.keyed_popup(key) {
            Some(popup) => popup,
            None => if after.doing is Vending {
                after.bench.situation()
            } else {
                screen
            },
        }
    }
}

impl Machine {
    /// Take over a number that was edited.
    pub fn apply_edit(&mut self, item: Item, value: u32)
        requires
            old(self)@.wf(),
            item.edits(),
            !(item is Price) ==> value <= u16::MAX,
        ensures
            final(self)@ == old(self)@.edited(item, value),
            final(self)@.wf(),
    {
        let ghost start = self@;
        match item {
            Item::RefillItems => {
                self.counters.item_level = value as Level;
                self.dispenser.level = value as Level;
                error::clear(&mut self.faults, error::ITEM_DISPENSER_EMPTY);
                let mut line = "Refilled covers to ".to_owned();
                line.append(decimal_row(value).as_str());
                line.append(".");
                push_log(&mut self.log, line);
                assert(self@ =~= start.edited(item, value));
            },
            Item::RefillHopper(i) => {
                self.counters.coin_levels[i] = value as Level;
                self.hoppers.set(i, SimHopper { level: value as Level });
                error::clear(&mut self.faults, error::COIN_HOPPER_EMPTY);
                let mut line = "Refilled hopper ".to_owned();
                line.append(decimal_row(i as u32 + 1).as_str());
                line.append(" to ");
                line.append(decimal_row(value).as_str());
                line.append(".");
                push_log(&mut self.log, line);
                assert(self@.hoppers =~= start.hoppers.update(i as int, value as Level));
                assert(self.counters.coin_levels =~= vstd::array::spec_array_update(
                    start.counters.coin_levels,
                    i as int,
                    value as Level,
                ));
                assert(self@ =~= start.edited(item, value));
            },
            _ => {
                self.settings.item_dispenser.unit_value = value;
                let mut line = "Price set to ".to_owned();
                line.append(decimal_row(value).as_str());
                line.append(" kop.");
                push_log(&mut self.log, line);
                assert(self@ =~= start.edited(item, value));
            },
        }
    }

    /// Let one coin out of a hopper by hand.
    pub fn manual_hopper(&mut self, index: usize)
        requires
            old(self)@.wf(),
            index < 2,
        ensures
            final(self)@ == old(self)@.hopper_pulsed(index as int),
            final(self)@.wf(),
    {
        let ghost start = self@;
        let mut line = "Hopper ".to_owned();
        line.append(decimal_row(index as u32 + 1).as_str());
        if index >= HOPPER_COUNT {
            line.append(": not configured (this build has ");
            line.append(decimal_row(HOPPER_COUNT as u32).as_str());
            line.append(" coin hopper(s)).");
            push_log(&mut self.log, line);
            return ;
        }
        let mut hopper = self.hoppers[index];
        let dispensed = hopper.dispense(1);
        self.hoppers.set(index, hopper);
        self.counters.coin_levels[index] = hopper.level;
        assert(start.hoppers[index as int] == old(self).hoppers@[index as int].level);
        assert(self@.hoppers =~= start.hoppers.update(index as int, hopper.level));
        assert(self.counters.coin_levels =~= vstd::array::spec_array_update(
            start.counters.coin_levels,
            index as int,
            hopper.level,
        ));
        if dispensed > 0 {
            line.append(": manual payout pulse, 1 coin (level now ");
            line.append(decimal_row(hopper.level as u32).as_str());
            line.append(").");
        } else {
            line.append(": empty, no coin to pay out.");
        }
        push_log(&mut self.log, line);
        assert(self@ =~= start.hopper_pulsed(index as int));
    }

    /// Let one pair out of the dispenser by hand.
    pub fn manual_dispenser(&mut self)
        requires
            old(self)@.wf(),
        ensures
            final(self)@ == old(self)@.dispenser_pulsed(),
            final(self)@.wf(),
    {
        let ghost start = self@;
        let dispensed = self.dispenser.dispense(1);
        self.counters.item_level = self.dispenser.level;
        if dispensed > 0 {
            let mut line = "Dispenser: manual pulse, 1 pair (level now ".to_owned();
            line.append(decimal_row(self.dispenser.level as u32).as_str());
            line.append(").");
            push_log(&mut self.log, line);
        } else {
            push_log(&mut self.log, "Dispenser: empty, no pair to dispense.".to_owned());
        }
        error::set(
            &mut self.faults,
            error::ITEM_DISPENSER_EMPTY,
            self.counters.item_level <= self.settings.item_dispenser.min_level,
        );
        assert(self@ =~= start.dispenser_pulsed());
    }
}

impl Panel {
    /// The machine and its use.
    pub open spec fn desk(self) -> Desk {
        Desk { bench: self.machine@, doing: self.mode@ }
    }

    /// The machine and its use are in order.
    pub open spec fn wf(self) -> bool {
        self.machine@.wf() && self.mode.wf()
    }

    /// A machine at the start.
    pub fn new() -> (p: Panel)
        ensures
            p.desk() == (Desk { bench: start_bench(), doing: Doing::Vending }),
            p.screen == start_bench().situation(),
            p.wf(),
            p.machine@.has_room(),
    {
        let factory = Settings::default();
        let mut keys = factory.keys;
        let mut owners = keys[0];
        owners[0] = key_of(Access::Owner);
        let mut servicers = keys[1];
        servicers[0] = key_of(Access::Service);
        let mut collectors = keys[2];
        collectors[0] = key_of(Access::Collector);
        keys = [owners, servicers, collectors];
        let settings = Settings { keys, ..factory };
        let counters = Counters {
            item_level: START_ITEMS,
            coin_levels: [START_COINS;HOPPER_COUNT],
            ..Counters::new()
        };
        let mut hoppers: Vec<SimHopper> = Vec::new();
        let mut i: usize = 0;
        while i < HOPPER_COUNT
            invariant
                i <= HOPPER_COUNT,
                hoppers@.len() == i,
                forall|j: int| 0 <= j < i ==> (#[trigger] hoppers@[j]).level == START_COINS,
            decreases HOPPER_COUNT - i,
        {
            hoppers.push(SimHopper { level: START_COINS });
            i += 1;
        }
        let mut log: Vec<String> = Vec::new();
        log.push("Simulator started. Press 'h' for help, 'q' to quit.".to_owned());
        let machine = Machine {
            settings,
            counters,
            hoppers,
            dispenser: SimHopper { level: START_ITEMS },
            log,
            faults: Errors::empty(),
        };
        proof {
            let start = start_settings();
            assert(owners =~= start.keys@[0]);
            assert(servicers =~= start.keys@[1]);
            assert(collectors =~= start.keys@[2]);
            assert(keys =~= start.keys);
            assert(machine@.hoppers =~= start_bench().hoppers);
            assert(machine@.log =~= start_bench().log);
            assert(machine@ =~= start_bench());
        }
        let screen = machine.refresh_display();
        Panel { machine, mode: Mode::Vending, screen }
    }

    /// Does a press of a button count something, and so need room in the counters?
    fn counts(&self, button: Button) -> (b: bool)
        requires
            self.wf(),
        ensures
            b == self.desk().counts(button),
    {
        match &self.mode {
            Mode::Vending => match button {
                Button::Accept => true,
                Button::Cancel => true,
                _ => false,
            },
            Mode::Menu { cursor, access } => {
                let seen = visible(*access);
                if seen.len() == 0 {
                    return false;
                }
                let at: usize = if *cursor < seen.len() {
                    *cursor
                } else {
                    seen.len() - 1
                };
                match (button, seen[at]) {
                    (Button::Accept, Item::FreeItem) => true,
                    _ => false,
                }
            },
            _ => false,
        }
    }

    /// Can everything that a key of the keyboard does be counted?
    pub fn takes_key(&self, key: Key) -> (b: bool)
        requires
            self.wf(),
        ensures
            b == self.desk().takes_key(key),
    {
        let counts = match key {
            Key::Enter => self.counts(Button::Accept),
            Key::Delete => self.counts(Button::Cancel),
            Key::Backspace => self.counts(Button::Cancel),
            Key::Letter(c) => {
                if c == '\\' {
                    self.counts(Button::Cancel)
                } else {
                    match &self.mode {
                        Mode::Vending => channel(c).is_some(),
                        _ => false,
                    }
                }
            },
            _ => false,
        };
        !counts || self.machine.has_room()
    }

    /// Do what an item of the menu is for.
    fn run_menu_item(&mut self, item: Item, access: Access)
        requires
            old(self).wf(),
            item is FreeItem ==> old(self).machine@.has_room(),
            item.shown_to(access),
        ensures
            final(self).desk() == old(self).desk().chosen(item, access),
            final(self).wf(),
            final(self).screen == old(self).screen,
    {
        let ghost start = self.desk();
        match item {
            Item::Accounting => {
                let text = report::accounting(&self.machine.counters, &self.machine.settings);
                let lines = menu::line_count(text.as_str());
                self.mode = Mode::Report { text, lines, at: 0, access };
            },
            Item::State => {
                let text = report::state(
                    &self.machine.counters,
                    &self.machine.settings,
                    self.machine.faults,
                );
                let lines = menu::line_count(text.as_str());
                self.mode = Mode::Report { text, lines, at: 0, access };
            },
            Item::RefillItems => {
                self.mode = Mode::Editing {
                    item,
                    value: self.machine.counters.item_level as u32,
                    step: 5,
                    max: self.machine.settings.item_dispenser.max_level as u32,
                    access,
                };
            },
            Item::RefillHopper(i) => {
                self.mode = Mode::Editing {
                    item,
                    value: self.machine.counters.coin_levels[i] as u32,
                    step: 5,
                    max: self.machine.settings.coin_hoppers[i].max_level as u32,
                    access,
                };
            },
            Item::FreeItem => {
                self.machine.dispense_free();
            },
            Item::Price => {
                self.mode = Mode::Editing {
                    item,
                    value: self.machine.settings.item_dispenser.unit_value,
                    step: 50,
                    max: 100_000,
                    access,
                };
            },
            Item::ClearPeriod => {
                self.machine.counters.period = Accounting::default();
                push_log(&mut self.machine.log, "Period counters cleared.".to_owned());
                assert(self.machine@ =~= start.chosen(item, access).bench);
            },
            _ => {},
        }
    }

    /// A button is pressed while the menu is open.
    fn menu_button(&mut self, cursor: usize, access: Access, button: Button)
        requires
            old(self).wf(),
            old(self).desk().takes(button),
            old(self).mode == (Mode::Menu { cursor, access }),
        ensures
            final(self).desk() == old(self).desk().pressed(button),
            final(self).wf(),
            final(self).screen == old(self).screen,
    {
        let seen = visible(access);
        if seen.len() == 0 {
            self.mode = Mode::Vending;
            return ;
        }
        let at: usize = if cursor < seen.len() {
            cursor
        } else {
            seen.len() - 1
        };
        match button {
            Button::Cancel => {
                self.mode = Mode::Vending;
            },
            Button::Next => {
                proof {
                    if at + 1 < seen@.len() {
                        vstd::arithmetic::div_mod::lemma_small_mod((at + 1) as nat, seen@.len());
                    } else {
                        vstd::arithmetic::div_mod::lemma_mod_self_0(seen@.len() as int);
                    }
                }
                self.mode = Mode::Menu {
                    cursor: if at + 1 < seen.len() {
                        at + 1
                    } else {
                        0
                    },
                    access,
                };
            },
            Button::Prev => {
                self.mode = Mode::Menu {
                    cursor: if at == 0 {
                        seen.len() - 1
                    } else {
                        at - 1
                    },
                    access,
                };
            },
            Button::Accept => {
                proof {
                    desk::law_menu_keeps_to_access(access, at as int);
                }
                self.mode = Mode::Menu { cursor: at, access };
                self.run_menu_item(seen[at], access);
            },
        }
    }

    /// A button is pressed. Returns what to show to the customer, if there is anything to show.
    pub fn handle_button(&mut self, button: Button) -> (popup: Option<Screen>)
        requires
            old(self).wf(),
            old(self).desk().takes(button),
        ensures
            final(self).desk() == old(self).desk().pressed(button),
            popup == old(self).desk().pressed_popup(button),
            final(self).wf(),
            final(self).screen == old(self).screen,
    {
        match &self.mode {
            Mode::Vending => {
                match button {
                    Button::Accept => self.machine.sell(),
                    Button::Cancel => {
                        if self.machine.counters.cash > 0 {
                            proof {
                                sim::lemma_room_for_change(self.machine@);
                            }
                            self.machine.process_residual()
                        } else {
                            None
                        }
                    },
                    _ => None,
                }
            },
            Mode::Menu { cursor, access } => {
                let cursor = *cursor;
                let access = *access;
                self.menu_button(cursor, access, button);
                None
            },
            Mode::Editing { item, value, step, max, access } => {
                let item = *item;
                let value = *value;
                let step = *step;
                let max = *max;
                let access = *access;
                match button {
                    Button::Next => {
                        let value = menu::step_up(value, step, max);
                        self.mode = Mode::Editing { item, value, step, max, access };
                    },
                    Button::Prev => {
                        let value = menu::step_down(value, step);
                        self.mode = Mode::Editing { item, value, step, max, access };
                    },
                    Button::Cancel => {
                        self.mode = Mode::Menu { cursor: 0, access };
                    },
                    Button::Accept => {
                        self.machine.apply_edit(item, value);
                        self.mode = Mode::Menu { cursor: 0, access };
                    },
                }
                None
            },
            Mode::Report { lines, at, access, .. } => {
                let lines = *lines;
                let at = *at;
                let access = *access;
                match button {
                    Button::Cancel => {
                        self.mode = Mode::Vending;
                    },
                    _ => {
                        if lines - at <= 2 {
                            self.mode = Mode::Menu { cursor: 0, access };
                        } else {
                            self.turn_page();
                        }
                    },
                }
                None
            },
        }
    }

    /// Go on to the next page of a report.
    fn turn_page(&mut self)
        requires
            old(self).wf(),
            old(self).mode matches Mode::Report { lines, at, .. } && at + 2 < lines,
        ensures
            final(self).wf(),
            final(self).machine == old(self).machine,
            final(self).screen == old(self).screen,
            match (old(self).mode@, final(self).mode@) {
                (
                    Doing::Report { lines, at, access },
                    Doing::Report { lines: lines2, at: at2, access: access2 },
                ) => lines2 == lines && at2 == at + 2 && access2 == access,
                _ => false,
            },
    {
        match &mut self.mode {
            Mode::Report { at, .. } => {
                *at = *at + 2;
            },
            _ => {},
        }
    }

    /// A coin is put into a channel of the acceptor. Returns what to show to the customer, if there is anything to
    /// show.
    fn insert_coin(&mut self, channel: usize) -> (popup: Option<Screen>)
        requires
            old(self).wf(),
            old(self).mode is Vending ==> old(self).machine@.has_room(),
            channel < 6,
        ensures
            final(self).desk() == old(self).desk().coined(channel as int),
            popup == old(self).desk().coined_popup(channel as int),
            final(self).wf(),
            final(self).screen == old(self).screen,
            final(self).mode == old(self).mode,
    {
        match &self.mode {
            Mode::Vending => {},
            _ => {
                push_log(
                    &mut self.machine.log,
                    "Coin ignored: acceptor is inhibited while the menu is open.".to_owned(),
                );
                return None;
            },
        }
        let value = self.machine.settings.coin_acceptor.channel_values[channel];
        let mut line = "Coin: channel ".to_owned();
        line.append(decimal_row(channel as u32 + 1).as_str());
        line.append(" (+");
        line.append(decimal_row(value).as_str());
        line.append(" kop.)");
        push_log(&mut self.machine.log, line);
        self.machine.accept_coin(value);
        if self.machine.counters.cash >= self.machine.price() {
            self.machine.sell()
        } else {
            None
        }
    }

    /// Hold the key of a role against the reader.
    fn present_key(&mut self, role: Access)
        requires
            old(self).wf(),
        ensures
            final(self).desk() == old(self).desk().presented(role),
            final(self).wf(),
            final(self).screen == old(self).screen,
    {
        match &self.mode {
            Mode::Vending => {},
            _ => {
                let mut line = "iButton ".to_owned();
                line.append(name_of(role));
                line.append(" ignored: menu already open.");
                push_log(&mut self.machine.log, line);
                return ;
            },
        }
        let mut line = "iButton: ".to_owned();
        line.append(name_of(role));
        match Access::of(&key_of(role), &self.machine.settings) {
            Some(access) => {
                line.append(" presented -> service menu (");
                line.append(name_of(access));
                line.append(").");
                push_log(&mut self.machine.log, line);
                self.mode = Mode::Menu { cursor: 0, access };
            },
            None => {
                line.append(" key not enrolled.");
                push_log(&mut self.machine.log, line);
            },
        }
    }

    /// A character of the keyboard is pressed, other than the one that stops the program. Returns whether it does
    /// anything, and what to show to the customer, if there is anything to show.
    fn letter(&mut self, c: char) -> (r: (bool, Option<Screen>))
        requires
            old(self).wf(),
            old(self).desk().takes_key(Key::Letter(c)),
            c != 'q',
        ensures
            r.0 == (desk::reaction_to(Key::Letter(c)) == Reaction::Redraw),
            final(self).desk() == old(self).desk().keyed(Key::Letter(c)),
            r.1 == old(self).desk().keyed_popup(Key::Letter(c)),
            final(self).wf(),
            final(self).screen == old(self).screen,
    {
        if let Some(n) = channel(c) {
            return (true, self.insert_coin(n));
        }
        match c {
            'h' => push_log(
                &mut self.machine.log,
                "Keys: ←/→/Enter/\\=buttons  o/s/c=iButton  1-6=coins  A/S=hopper1/2  D=dispenser  q=quit".to_owned(),
            ),
            '\\' => return (true, self.handle_button(Button::Cancel)),
            'o' => self.present_key(Access::Owner),
            's' => self.present_key(Access::Service),
            'c' => self.present_key(Access::Collector),
            'A' => self.machine.manual_hopper(0),
            'S' => self.machine.manual_hopper(1),
            'D' => self.machine.manual_dispenser(),
            _ => return (false, None),
        }
        (true, None)
    }

    /// A key of the keyboard is pressed. Says what is to be done.
    ///
    /// What a sale or a payout has to tell the customer stays on the display until the next key.
    #[verifier::rlimit(40)]
    pub fn press(&mut self, key: Key) -> (reaction: Reaction)
        requires
            old(self).wf(),
            old(self).desk().takes_key(key),
        ensures
            reaction == desk::reaction_to(key),
            final(self).desk() == old(self).desk().keyed(key),
            final(self).screen == screen_after(old(self).screen, old(self).desk(), final(self).desk(), key),
            reaction == Reaction::Quit ==> final(self).screen == old(self).screen,
            reaction != Reaction::Quit ==> final(self).screen == (match old(self).desk().keyed_popup(
                key,
            ) {
                Some(popup) => popup,
                None => if final(self).mode is Vending {
                    final(self).machine@.situation()
                } else {
                    old(self).screen
                },
            }),
            final(self).wf(),
    {
        let (redraw, popup) = match key {
            Key::Escape => return Reaction::Quit,
            Key::Left => (true, self.handle_button(Button::Prev)),
            Key::Right => (true, self.handle_button(Button::Next)),
            Key::Enter => (true, self.handle_button(Button::Accept)),
            Key::Delete => (true, self.handle_button(Button::Cancel)),
            Key::Backspace => (true, self.handle_button(Button::Cancel)),
            Key::Letter(c) => {
                if c == 'q' {
                    return Reaction::Quit;
                }
                self.letter(c)
            },
            Key::Other => (false, None),
        };
        match popup {
            Some(screen) => {
                self.screen = screen;
            },
            None => {
                if let Mode::Vending = self.mode {
                    self.screen = self.machine.refresh_display();
                }
            },
        }
        if redraw {
            Reaction::Redraw
        } else {
            Reaction::Ignore
        }
    }

    /// What the display shows: the machine's own screen while it is selling, and otherwise two rows of the menu.
    pub fn mode_screen(&self) -> (screen: Screen)
        requires
            self.wf(),
        ensures
            self.mode is Vending ==> ui::same_screen(screen, self.screen),
            !(self.mode is Vending) ==> (screen matches Screen::Text(top, bottom) && (top@, bottom@)
                == rows_of(self.mode@)),
    {
        match &self.mode {
            Mode::Vending => self.screen.copy(),
            Mode::Menu { cursor, access } => {
                let seen = visible(*access);
                if seen.len() == 0 {
                    return Screen::Text(Row::new(), Row::new());
                }
                let at: usize = if *cursor < seen.len() {
                    *cursor
                } else {
                    seen.len() - 1
                };
                proof {
                    desk::law_menu_keeps_to_access(*access, at as int);
                    desk::lemma_offered(desk::all_items(), *access);
                    reveal_strlit("/");
                    reveal_with_fuel(text::pow10, 3);
                    text::lemma_decimal_len((at + 1) as nat, 2);
                    text::lemma_decimal_len(seen@.len(), 2);
                }
                let name = label(seen[at]);
                let mut bottom = decimal_row(at as u32 + 1);
                bottom.push_str("/");
                bottom.push_str(decimal_row(seen.len() as u32).as_str());
                Screen::Text(items_truncate(name.as_str()), bottom)
            },
            Mode::Editing { item, value, .. } => {
                Screen::Text(Row::of(title(*item)), decimal_row(*value))
            },
            Mode::Report { text, lines, at, .. } => {
                let top = items_truncate(menu::line_at(text.as_str(), *at));
                let bottom = if *at < *lines {
                    items_truncate(menu::line_at(text.as_str(), *at + 1))
                } else {
                    Row::new()
                };
                Screen::Text(top, bottom)
            },
        }
    }
}

/// While the menu is open, a coin changes nothing but the log, and no other key gets in.
pub proof fn law_menu_shuts_the_acceptor(desk: Desk, channel: int, role: Access)
    requires
        !(desk.doing is Vending),
    ensures
        desk.coined(channel).doing == desk.doing,
        desk.coined(channel).bench.counters == desk.bench.counters,
        desk.coined(channel).bench.hoppers == desk.bench.hoppers,
        desk.coined(channel).bench.dispenser == desk.bench.dispenser,
        desk.coined(channel).bench.settings == desk.bench.settings,
        desk.coined(channel).bench.faults == desk.bench.faults,
        desk.coined_popup(channel) is None,
        desk.presented(role).doing == desk.doing,
        desk.presented(role).bench.counters == desk.bench.counters,
        desk.presented(role).bench.hoppers == desk.bench.hoppers,
        desk.presented(role).bench.dispenser == desk.bench.dispenser,
        desk.presented(role).bench.settings == desk.bench.settings,
        desk.presented(role).bench.faults == desk.bench.faults,
{
}

/// Each of the three keys opens the menu of its role on a machine at the start.
pub proof fn law_keys_are_enrolled(role: Access)
    ensures
        menu::access_of(desk::role_key(role), start_settings()) == Some(role),
{
    let s = start_settings();
    let key = desk::role_key(role);
    assert(s.keys@[0]@[0] == desk::role_key(Access::Owner));
    assert(s.keys@[1]@[0] == desk::role_key(Access::Service));
    assert(s.keys@[2]@[0] == desk::role_key(Access::Collector));
    assert(desk::role_key(Access::Owner).0@[7] == 0xaa);
    assert(desk::role_key(Access::Service).0@[7] == 0xbb);
    assert(desk::role_key(Access::Collector).0@[7] == 0xcc);
    assert(key.0@[7] != 0);
    assert forall|l: int| 0 <= l < 3 implies (#[trigger] s.keys@[l]@[1]).blank() by {
        assert(s.keys@[l]@[1] == crate::state::no_key());
    }
}

} // verus!
