//! The service menu at work.
//!
//! It works inside the vending logic rather than beside it. While the menu is open the machine is not selling:
//! it stops taking coins on the way in and takes them again on the way out.
use vstd::prelude::*;

use crate::config::HOPPER_COUNT;
use crate::error::{self, Errors};
use crate::event::{Button, Event};
use crate::menu::{self, Access, Item, KEY_SLOTS};
use crate::nvram::event_log;
use crate::nvram::flash::NVRAM_LEN;
use crate::report;
use crate::state::{Accounting, Counters, EventKind, IbuttonKey, Level};
use crate::text;
use crate::ui::Screen;
use crate::vending::world::{self, World};
use crate::vending::{Effect, Input, Machine, Place, ReportKind, Stage};

verus! {

/// The event log of the region, read in some order, makes a report of so many lines.
pub open spec fn log_has_lines(flash: Seq<u8>, lines: nat) -> bool {
    exists|order: Seq<u16>|
        #[trigger] event_log::reading_order(flash, order) && lines == menu::lines(
            report::events_report(report::entries_in(flash, order)),
        ).len()
}

/// What the display shows while the machine is in the menu, or telling somebody that their key is not known.
/// `log` is the event log's report.
pub open spec fn stage_rows(m: Machine, log: Seq<char>) -> (Seq<char>, Seq<char>) {
    match m.stage {
        Stage::Menu(place) => {
            let items = menu::visible(place.access);
            (
                Item::all()[items[place.cursor as int] as int].wording(),
                text::decimal((place.cursor + 1) as nat) + "/"@ + text::decimal(
                    items.len(),
                ),
            )
        },
        Stage::Edit { item, value, .. } => (item.edit_title(), text::decimal(value as nat)),
        Stage::Report { kind, at, .. } => {
            let lines = menu::lines(
                match kind {
                    ReportKind::Accounting => report::accounting_report(m.counters, m.settings),
                    ReportKind::State(errors) => report::state_report(m.counters, m.settings, errors),
                    ReportKind::Events => log,
                },
            );
            (
                text::cut(
                    if at < lines.len() {
                        lines[at as int]
                    } else {
                        Seq::empty()
                    },
                ),
                text::cut(
                    if at + 1 < lines.len() {
                        lines[at + 1]
                    } else {
                        Seq::empty()
                    },
                ),
            )
        },
        Stage::Keys { slot, .. } => {
            let (level, i) = menu::key_slot(slot);
            (menu::key_title(slot), menu::key_text(m.settings.keys@[level]@[i]))
        },
        _ => ("Ключ неизвестен"@, Seq::empty()),
    }
}

impl Machine {
    /// Leave the menu.
    pub(crate) fn leave_menu(&mut self, faults: &Errors, out: &mut Vec<Effect>)
        requires
            old(self).books_wf(),
        ensures
            final(self).wf(),
            world::of(*final(self), *faults, final(out)@) == world::of(*old(self), *faults, old(out)@).left_menu(),
    {
        proof {
            reveal(World::left_menu);
        }
        let ghost w0 = world::of(*self, *faults, out@);
        self.log(EventKind::ServiceExited, 0, out);
        assert(world::of(*self, *faults, out@) == w0.logged(EventKind::ServiceExited, 0));
        out.push(Effect::Inhibit(false));
        self.refresh_display(faults, out);
        self.stage = Stage::Idle;
    }

    /// Show the menu, at a place in it.
    pub(crate) fn list(&mut self, place: Place, faults: &Errors, out: &mut Vec<Effect>)
        requires
            old(self).books_wf(),
        ensures
            final(self).wf(),
            world::of(*final(self), *faults, final(out)@) == world::of(*old(self), *faults, old(out)@).listed(
                place,
            ),
    {
        proof {
            reveal(World::listed);
        }
        let count = menu::visible_count(place.access);
        let cursor = if place.cursor < count {
            place.cursor
        } else {
            count - 1
        };
        self.stage = Stage::Menu(Place { access: place.access, cursor });
        out.push(Effect::ShowStage);
    }

    /// Open a report, at its first page.
    pub(crate) fn read_report(
        &mut self,
        place: Place,
        kind: ReportKind,
        lines: usize,
        faults: &Errors,
        out: &mut Vec<Effect>,
    )
        requires
            old(self).books_wf(),
        ensures
            final(self).wf(),
            world::of(*final(self), *faults, final(out)@) == world::of(*old(self), *faults, old(out)@).reading(
                place,
                kind,
                lines as nat,
            ),
    {
        proof {
            reveal(World::reading);
        }
        if lines == 0 {
            self.list(place, faults, out);
        } else {
            self.stage = Stage::Report { place, kind, at: 0, lines };
            out.push(Effect::ShowStage);
        }
    }

    /// Edit a number, from where it stands.
    pub(crate) fn edit(&mut self, place: Place, item: Item, faults: &Errors, out: &mut Vec<Effect>)
        requires
            old(self).books_wf(),
            item.edits(),
        ensures
            final(self).wf(),
            world::of(*final(self), *faults, final(out)@) == world::of(*old(self), *faults, old(out)@).editing(
                place,
                item,
            ),
    {
        proof {
            reveal(World::editing);
        }
        let value = item.start(&self.settings, &self.counters);
        self.stage = Stage::Edit { place, item, value };
        out.push(Effect::ShowStage);
    }

    /// Run one menu item.
    pub(crate) fn run_item(
        &mut self,
        place: Place,
        item: Item,
        low: &[bool],
        log_lines: usize,
        faults: &mut Errors,
        out: &mut Vec<Effect>,
    )
        requires
            old(self).books_wf(),
            low@.len() == HOPPER_COUNT,
            item == Item::FreeItem ==> old(self).counters.free_items_pending < u16::MAX,
        ensures
            final(self).wf(),
            world::of(*final(self), *final(faults), final(out)@) == world::of(
                *old(self),
                *old(faults),
                old(out)@,
            ).chosen(place, item, low@, log_lines as nat),
    {
        proof {
            reveal(World::chosen);
        }
        match item {
            Item::Accounting => {
                let text = report::accounting(&self.counters, &self.settings);
                let lines = menu::line_count(text.as_str());
                self.read_report(place, ReportKind::Accounting, lines, faults, out);
            },
            Item::State => {
                let text = report::state(&self.counters, &self.settings, *faults);
                let lines = menu::line_count(text.as_str());
                self.read_report(place, ReportKind::State(*faults), lines, faults, out);
            },
            Item::EventLog => self.read_report(place, ReportKind::Events, log_lines, faults, out),
            Item::RefillItems => self.edit(place, item, faults, out),
            Item::RefillHopper(i) => {
                if i < HOPPER_COUNT {
                    self.edit(place, item, faults, out);
                } else {
                    self.list(place, faults, out);
                }
            },
            Item::FreeItem => self.dispense_free(place, low, faults, out),
            Item::Price => self.edit(place, item, faults, out),
            Item::ClearPeriod => {
                let ghost w0 = world::of(*self, *faults, out@);
                self.counters.period = Accounting::default();
                let ghost w1 = w0.counting(
                    Counters { period: Accounting::zero(), ..old(self).counters },
                );
                assert(world::of(*self, *faults, out@) == w1);
                self.persist(out);
                assert(world::of(*self, *faults, out@) == w1.persisted());
                self.list(place, faults, out);
            },
            Item::Keys => {
                self.stage = Stage::Keys { place, slot: 0 };
                out.push(Effect::ShowStage);
            },
        }
    }

    /// Take over a number that was edited.
    pub(crate) fn apply_edit(&mut self, item: Item, value: u32, faults: &mut Errors, out: &mut Vec<Effect>)
        requires
            old(self).books_wf(),
            item.edits(),
        ensures
            final(self).books_wf(),
            world::of(*final(self), *final(faults), final(out)@) == world::of(
                *old(self),
                *old(faults),
                old(out)@,
            ).edited(item, value),
    {
        proof {
            reveal(World::edited);
        }
        let ghost w0 = world::of(*self, *faults, out@);
        let max = item.max(&self.settings);
        let clamped = if value <= max {
            value
        } else {
            max
        };
        match item {
            Item::RefillItems => {
                self.counters.item_level = clamped as Level;
                let ghost w1 = w0.counting(
                    Counters { item_level: clamped as Level, ..old(self).counters },
                );
                assert(world::of(*self, *faults, out@) == w1);
                self.persist(out);
                assert(world::of(*self, *faults, out@) == w1.persisted());
                error::clear(faults, error::ITEM_DISPENSER_EMPTY);
            },
            Item::RefillHopper(i) => {
                self.counters.coin_levels[i] = clamped as Level;
                let ghost w1 = w0.counting(
                    Counters {
                        coin_levels: vstd::array::spec_array_update(
                            old(self).counters.coin_levels,
                            i as int,
                            clamped as Level,
                        ),
                        ..old(self).counters
                    },
                );
                assert(self.counters.coin_levels =~= w1.m.counters.coin_levels);
                assert(world::of(*self, *faults, out@) == w1);
                self.persist(out);
                assert(world::of(*self, *faults, out@) == w1.persisted());
                error::clear(faults, error::COIN_HOPPER_EMPTY);
            },
            _ => {
                self.settings.item_dispenser.unit_value = value;
                out.push(Effect::Store(self.settings));
            },
        }
    }

    /// Fill or clear a slot of the key table.
    pub(crate) fn enroll_key(&mut self, slot: u8, key: IbuttonKey, faults: &Errors, out: &mut Vec<Effect>)
        requires
            slot < KEY_SLOTS,
        ensures
            world::of(*final(self), *faults, final(out)@) == world::of(*old(self), *faults, old(out)@).enrolled(
                slot,
                key,
            ),
            final(self).counters == old(self).counters,
            final(self).journal == old(self).journal,
            final(self).events == old(self).events,
            final(self).stage == old(self).stage,
    {
        proof {
            reveal(World::enrolled);
        }
        let level = (slot / 2) as usize;
        let i = (slot % 2) as usize;
        let mut keys = self.settings.keys[level];
        keys[i] = key;
        self.settings.keys[level] = keys;
        proof {
            let want = world::of(*old(self), *faults, old(out)@).enrolled(slot, key).m.settings.keys;
            assert(keys =~= vstd::array::spec_array_update(
                old(self).settings.keys@[level as int],
                i as int,
                key,
            ));
            assert(self.settings.keys =~= want);
        }
        out.push(Effect::Store(self.settings));
        out.push(Effect::ShowStage);
    }

    /// A button in the list of items.
    pub(crate) fn menu_pressed(
        &mut self,
        place: Place,
        button: Option<Button>,
        low: &[bool],
        log_lines: usize,
        faults: &mut Errors,
        out: &mut Vec<Effect>,
    )
        requires
            old(self).books_wf(),
            low@.len() == HOPPER_COUNT,
            place.cursor < menu::visible(place.access).len(),
            button == Some(Button::Accept) && Item::all()[menu::visible(
                place.access,
            )[place.cursor as int] as int] == Item::FreeItem ==> old(self).counters.free_items_pending
                < u16::MAX,
        ensures
            final(self).wf(),
            world::of(*final(self), *final(faults), final(out)@) == world::of(
                *old(self),
                *old(faults),
                old(out)@,
            ).menu_pressed(place, button, low@, log_lines as nat),
    {
        proof {
            reveal(World::menu_pressed);
        }
        let count = menu::visible_count(place.access);
        match button {
            None => self.leave_menu(faults, out),
            Some(Button::Cancel) => self.leave_menu(faults, out),
            Some(Button::Next) => {
                let cursor = (place.cursor + 1) % count;
                self.list(Place { access: place.access, cursor }, faults, out);
            },
            Some(Button::Prev) => {
                let cursor = if place.cursor == 0 {
                    count - 1
                } else {
                    place.cursor - 1
                };
                self.list(Place { access: place.access, cursor }, faults, out);
            },
            Some(Button::Accept) => {
                let item = menu::visible_item(place.access, place.cursor);
                self.run_item(place, item, low, log_lines, faults, out);
            },
        }
    }

    /// A button while a number is edited.
    pub(crate) fn edit_pressed(
        &mut self,
        place: Place,
        item: Item,
        value: u32,
        button: Option<Button>,
        faults: &mut Errors,
        out: &mut Vec<Effect>,
    )
        requires
            old(self).books_wf(),
            item.edits(),
        ensures
            final(self).wf(),
            world::of(*final(self), *final(faults), final(out)@) == world::of(
                *old(self),
                *old(faults),
                old(out)@,
            ).edit_pressed(place, item, value, button),
    {
        proof {
            reveal(World::edit_pressed);
        }
        match button {
            None => self.list(place, faults, out),
            Some(Button::Cancel) => self.list(place, faults, out),
            Some(Button::Next) => {
                let value = menu::step_up(value, item.step(), item.max(&self.settings));
                self.stage = Stage::Edit { place, item, value };
                out.push(Effect::ShowStage);
            },
            Some(Button::Prev) => {
                let value = menu::step_down(value, item.step());
                self.stage = Stage::Edit { place, item, value };
                out.push(Effect::ShowStage);
            },
            Some(Button::Accept) => {
                self.apply_edit(item, value, faults, out);
                self.list(place, faults, out);
            },
        }
    }

    /// A button while a report is read. Reports are longer than the display, so they are paged rather than
    /// scrolled: two rows at a time, advanced by any button.
    pub(crate) fn report_pressed(
        &mut self,
        place: Place,
        kind: ReportKind,
        at: usize,
        lines: usize,
        button: Option<Button>,
        faults: &Errors,
        out: &mut Vec<Effect>,
    )
        requires
            old(self).books_wf(),
            at < lines,
        ensures
            final(self).wf(),
            world::of(*final(self), *faults, final(out)@) == world::of(
                *old(self),
                *faults,
                old(out)@,
            ).report_pressed(place, kind, at, lines, button),
    {
        proof {
            reveal(World::report_pressed);
        }
        if button.is_none() || lines - at <= 2 {
            self.list(place, faults, out);
        } else {
            self.stage = Stage::Report { place, kind, at: at + 2, lines };
            out.push(Effect::ShowStage);
        }
    }

    /// A button while the key table is looked through.
    pub(crate) fn keys_pressed(
        &mut self,
        place: Place,
        slot: u8,
        button: Option<Button>,
        faults: &Errors,
        out: &mut Vec<Effect>,
    )
        requires
            old(self).wf(),
            old(self).stage == (Stage::Keys { place, slot }),
        ensures
            final(self).wf(),
            world::of(*final(self), *faults, final(out)@) == world::of(
                *old(self),
                *faults,
                old(out)@,
            ).keys_pressed(place, slot, button),
    {
        proof {
            reveal(World::keys_pressed);
        }
        match button {
            None => self.list(place, faults, out),
            Some(Button::Accept) => self.list(place, faults, out),
            Some(Button::Cancel) => {
                let blank = IbuttonKey::empty();
                self.enroll_key(slot, blank, faults, out);
            },
            Some(Button::Next) => {
                self.stage = Stage::Keys { place, slot: (slot + 1) % KEY_SLOTS };
                out.push(Effect::ShowStage);
            },
            Some(Button::Prev) => {
                let slot = if slot == 0 {
                    KEY_SLOTS - 1
                } else {
                    slot - 1
                };
                self.stage = Stage::Keys { place, slot };
                out.push(Effect::ShowStage);
            },
        }
    }

    /// A button in the menu, or none in time.
    ///
    /// An engineer who walks away from an open menu must not leave the machine out of service, so giving up
    /// leaves things as they were.
    pub(crate) fn button(
        &mut self,
        button: Option<Button>,
        low: &[bool],
        log_lines: usize,
        faults: &mut Errors,
        out: &mut Vec<Effect>,
    )
        requires
            old(self).wf(),
            low@.len() == HOPPER_COUNT,
            button == Some(Button::Accept) ==> old(self).counts(
                Input::Happened(Event::Button(Button::Accept)),
                *old(faults),
            ),
        ensures
            final(self).wf(),
            world::of(*final(self), *final(faults), final(out)@) == world::of(
                *old(self),
                *old(faults),
                old(out)@,
            ).pressed(button, low@, log_lines as nat),
    {
        proof {
            reveal(World::pressed);
        }
        match self.stage {
            Stage::Menu(place) => self.menu_pressed(place, button, low, log_lines, faults, out),
            Stage::Edit { place, item, value } => self.edit_pressed(
                place,
                item,
                value,
                button,
                faults,
                out,
            ),
            Stage::Report { place, kind, at, lines } => self.report_pressed(
                place,
                kind,
                at,
                lines,
                button,
                faults,
                out,
            ),
            Stage::Keys { place, slot } => self.keys_pressed(place, slot, button, faults, out),
            _ => {},
        }
    }

    /// A key is presented.
    pub(crate) fn present_key(&mut self, key: IbuttonKey, faults: &Errors, out: &mut Vec<Effect>)
        requires
            old(self).books_wf(),
        ensures
            final(self).wf(),
            world::of(*final(self), *faults, final(out)@) == world::of(*old(self), *faults, old(out)@).keyed(key),
    {
        proof {
            reveal(World::keyed);
        }
        match Access::of(&key, &self.settings) {
            Some(access) => {
                let ghost w0 = world::of(*self, *faults, out@);
                out.push(Effect::Inhibit(true));
                assert(world::of(*self, *faults, out@) == w0.doing(Effect::Inhibit(true)));
                self.log(EventKind::ServiceEntered, access.number(), out);
                assert(world::of(*self, *faults, out@) == w0.doing(Effect::Inhibit(true)).logged(
                    EventKind::ServiceEntered,
                    access.level() as u32,
                ));
                self.list(Place { access, cursor: 0 }, faults, out);
            },
            None => {
                self.stage = Stage::UnknownKey;
                out.push(Effect::ShowStage);
            },
        }
    }

    /// The screen of the menu, or of the message that a key is not known.
    pub fn screen(&self, flash: &[u8]) -> (screen: Screen)
        requires
            self.wf(),
            flash@.len() == NVRAM_LEN,
        ensures
            screen matches Screen::Text(top, bottom) && exists|log: Seq<char>|
                (self.stage matches Stage::Report { kind: ReportKind::Events, .. } ==> exists|
                    order: Seq<u16>,
                |
                    #[trigger] event_log::reading_order(flash@, order) && log == report::events_report(
                        report::entries_in(flash@, order),
                    )) && (top@, bottom@) == #[trigger] stage_rows(*self, log),
    {
        let ghost mut log: Seq<char> = Seq::empty();
        let rows = match self.stage {
            Stage::Menu(place) => {
                let item = menu::visible_item(place.access, place.cursor);
                menu::item_screen(item, place.cursor, menu::visible_count(place.access))
            },
            Stage::Edit { item, value, .. } => menu::edit_screen(item, value),
            Stage::Report { kind, at, .. } => {
                let text = match kind {
                    ReportKind::Accounting => report::accounting(&self.counters, &self.settings),
                    ReportKind::State(errors) => report::state(&self.counters, &self.settings, errors),
                    ReportKind::Events => report::events(&self.events, flash),
                };
                proof {
                    log = text@;
                }
                menu::report_page(text.as_str(), at)
            },
            Stage::Keys { slot, .. } => {
                let key = self.settings.keys[(slot / 2) as usize][(slot % 2) as usize];
                menu::key_screen(slot, &key)
            },
            _ => {
                let screen = menu::unknown_key_screen();
                assert(screen matches Screen::Text(top, bottom) && (top@, bottom@) == stage_rows(
                    *self,
                    log,
                ));
                return screen;
            },
        };
        assert((rows.0@, rows.1@) == stage_rows(*self, log));
        Screen::Text(rows.0, rows.1)
    }
}

} // verus!
