//! The machine at work: sales, change, the menu, and power cuts in between.
use bahilizator::change::plan_change;
use bahilizator::error::{self, Errors};
use bahilizator::event::{Button, Event};
use bahilizator::hopper::HopperError;
use bahilizator::menu::{
    line_at, line_count, report_page, step_down, step_up, visible_count, visible_item, Access, Item,
};
use bahilizator::nvram::flash::{NVRAM_BASE, NVRAM_LEN, SEGMENT};
use bahilizator::nvram::{save_settings, EventLog};
use bahilizator::report;
use bahilizator::state::{AppState, Cash, Counters, Currency, HopperSettings, IbuttonKey, Settings};
use bahilizator::ui::Screen;
use bahilizator::vending::{restore, Effect, Input, Machine, Stage, Wait};

/// A machine on a bench: its flash, its faults, and what it last showed.
struct Bench {
    machine: Machine,
    flash: Vec<u8>,
    faults: Errors,
    screen: Option<Screen>,
    inhibited: bool,
}

impl Bench {
    fn on(flash: Vec<u8>) -> Bench {
        let mut faults = Errors::empty();
        let (settings, counters, journal) = restore(&flash, &mut faults);
        let events = EventLog::open(&flash);
        let mut bench = Bench {
            machine: Machine::new(settings, counters, journal, events),
            flash,
            faults,
            screen: None,
            inhibited: false,
        };
        let effects = bench.machine.resume(&[false], &mut bench.faults);
        bench.perform(effects);
        bench
    }

    fn stocked() -> Bench {
        let mut bench = Bench::on(vec![0xff; NVRAM_LEN]);
        bench.machine.counters.item_level = 100;
        bench.machine.counters.coin_levels = [50];
        bench
    }

    fn power_cycle(&self) -> Bench {
        Bench::on(self.flash.clone())
    }

    fn write(&mut self, erase: bool, addr: u16, bytes: &[u8]) {
        let at = (addr - NVRAM_BASE) as usize;
        if erase {
            let from = at / SEGMENT * SEGMENT;
            for byte in &mut self.flash[from..from + SEGMENT] {
                *byte = 0xff;
            }
        }
        for (i, byte) in bytes.iter().enumerate() {
            self.flash[at + i] &= byte;
        }
    }

    fn perform(&mut self, effects: Vec<Effect>) {
        for effect in effects {
            match effect {
                Effect::Show(screen) => self.screen = Some(screen),
                Effect::ShowStage => self.screen = Some(self.machine.screen(&self.flash)),
                Effect::Save(save) => self.write(save.needs_erase(), save.addr(), &save.bytes()),
                Effect::Log(write) => self.write(write.needs_erase(), write.addr(), &write.bytes()),
                Effect::Store(settings) => {
                    let write = save_settings(&settings);
                    self.write(write.needs_erase(), write.addr(), write.bytes())
                }
                Effect::Inhibit(on) => self.inhibited = on,
            }
        }
    }

    fn tell(&mut self, input: Input) {
        assert!(self.machine.accepts(&input, &self.faults));
        let effects = self.machine.step(input, &[false], &self.flash, &mut self.faults);
        self.perform(effects);
    }

    fn coin(&mut self, value: Cash) {
        self.tell(Input::Happened(Event::Coin { channel: 0, value }));
    }

    fn press(&mut self, button: Button) {
        self.tell(Input::Happened(Event::Button(button)));
    }

    fn one_out(&mut self) {
        self.tell(Input::Dispensed { count: 1, failure: None });
    }

    fn jam(&mut self) {
        self.tell(Input::Dispensed { count: 0, failure: Some(HopperError::Jammed) });
    }

    /// Let dispenser and hopper pay out whatever they are asked for, and let messages pass.
    fn settle(&mut self) {
        loop {
            match self.machine.wait() {
                Wait::Dispenser | Wait::Hopper(_) => self.one_out(),
                Wait::Delay(_) => self.tell(Input::Elapsed),
                Wait::Event(_) => return,
            }
        }
    }

    fn rows(&self) -> (String, String) {
        match &self.screen {
            Some(Screen::Text(top, bottom)) => (top.as_str().to_string(), bottom.as_str().to_string()),
            _ => panic!("no text on the display"),
        }
    }
}

const OWNER: IbuttonKey = IbuttonKey([1, 2, 3, 4, 5, 6, 7, 8]);

/// A stocked machine whose owner has just held their key against the reader.
fn visited() -> Bench {
    let mut bench = Bench::stocked();
    bench.machine.settings.keys[0][0] = OWNER;
    bench.tell(Input::Happened(Event::Key(OWNER)));
    bench
}

#[test]
fn exact_money_buys_a_pair() {
    let mut bench = Bench::stocked();
    assert!(matches!(bench.screen, Some(Screen::Idle { price: 500, currency: Currency::Rub })));
    bench.coin(200);
    assert!(matches!(bench.screen, Some(Screen::Credit { cash: 200, price: 500, .. })));
    assert_eq!(bench.machine.wait(), Wait::Event(120));
    bench.coin(300);
    assert!(matches!(bench.screen, Some(Screen::Dispensing)));
    assert_eq!(bench.machine.wait(), Wait::Dispenser);
    bench.one_out();
    let c = bench.machine.counters;
    assert_eq!((c.cash, c.items_pending, c.item_level), (0, 0, 99));
    assert_eq!((c.overall.cash_in, c.overall.items_dispensed, c.period.items_dispensed), (500, 1, 1));
    assert_eq!(bench.machine.wait(), Wait::Event(3_600));
    assert_eq!(c.app_state, AppState::AcceptCash);
}

#[test]
fn change_is_paid_coin_by_coin() {
    let mut bench = Bench::stocked();
    bench.coin(800);
    bench.one_out();
    assert_eq!(bench.machine.wait(), Wait::Hopper(0));
    assert_eq!(bench.machine.counters.coins_pending, [3]);
    bench.one_out();
    bench.one_out();
    bench.one_out();
    assert!(matches!(bench.screen, Some(Screen::TakeChange { amount: 300, .. })));
    assert_eq!(bench.machine.wait(), Wait::Delay(5));
    bench.tell(Input::Elapsed);
    assert!(matches!(bench.screen, Some(Screen::Thanks)));
    assert_eq!(bench.machine.wait(), Wait::Delay(3));
    bench.tell(Input::Elapsed);
    let c = bench.machine.counters;
    assert_eq!((c.overall.cash_in, c.overall.cash_out, c.cash), (800, 300, 0));
    assert_eq!(c.coin_levels, [47]);
}

#[test]
fn what_cannot_be_paid_stays_as_credit() {
    let mut bench = Bench::stocked();
    bench.coin(550);
    bench.settle();
    assert_eq!(bench.machine.counters.cash, 50);
    assert!(bench.faults.contains(error::CANNOT_PAYOUT));
    assert!(matches!(bench.screen, Some(Screen::Credit { cash: 50, .. })));
}

#[test]
fn abandoned_credit_is_returned() {
    let mut bench = Bench::stocked();
    bench.coin(200);
    bench.tell(Input::Elapsed);
    bench.settle();
    let c = bench.machine.counters;
    assert_eq!((c.cash, c.overall.cash_out), (0, 200));
    bench.coin(100);
    bench.press(Button::Cancel);
    bench.settle();
    assert_eq!(bench.machine.counters.overall.cash_out, 300);
}

#[test]
fn jammed_dispenser_stops_the_machine_and_gives_change() {
    let mut bench = Bench::stocked();
    bench.coin(600);
    bench.jam();
    assert!(bench.faults.contains(error::ITEM_DISPENSER));
    bench.settle();
    let c = bench.machine.counters;
    assert_eq!((c.items_pending, c.cash, c.overall.cash_out), (1, 0, 100));
    assert!(matches!(bench.screen, Some(Screen::Fault(_))));
    bench.coin(500);
    assert_eq!(bench.machine.stage, Stage::Idle);
    assert_eq!(bench.machine.counters.cash, 500);
}

#[test]
fn jammed_hopper_keeps_owing() {
    let mut bench = Bench::stocked();
    bench.coin(700);
    bench.one_out();
    bench.one_out();
    bench.jam();
    assert!(bench.faults.contains(error::COIN_HOPPER));
    assert!(bench.faults.can_vend());
    assert_eq!(bench.machine.counters.coins_pending, [1]);
}

#[test]
fn debts_are_paid_after_a_power_cut() {
    let mut bench = Bench::stocked();
    bench.coin(700);
    let owing = bench.machine.counters;
    let mut again = bench.power_cycle();
    assert_eq!(again.machine.counters, owing);
    assert_eq!(again.machine.wait(), Wait::Dispenser);
    again.one_out();
    let mut third = again.power_cycle();
    assert_eq!(third.machine.wait(), Wait::Hopper(0));
    third.one_out();
    let mut last = third.power_cycle();
    assert_eq!(last.machine.counters.coins_pending, [1]);
    last.settle();
    let c = last.machine.counters;
    assert_eq!((c.overall.items_dispensed, c.overall.cash_out, c.cash), (1, 200, 0));
    assert!(!c.owes_anything());
}

#[test]
fn power_cut_at_every_step_loses_nothing() {
    let mut bench = Bench::stocked();
    for value in [100, 200, 1_000, 50, 500] {
        bench.coin(value);
        loop {
            let again = bench.power_cycle();
            let (a, b) = (bench.machine.counters, again.machine.counters);
            assert_eq!(Counters { app_state: a.app_state, ..b }, a);
            assert_eq!(again.machine.settings, bench.machine.settings);
            match bench.machine.wait() {
                Wait::Dispenser | Wait::Hopper(_) => bench.one_out(),
                Wait::Delay(_) => bench.tell(Input::Elapsed),
                Wait::Event(_) => break,
            }
        }
    }
}

#[test]
fn power_cut_in_the_middle_gives_back_what_was_written_last() {
    let mut bench = Bench::stocked();
    bench.coin(200);
    let mut written = bench.machine.counters;
    let coin = Input::Happened(Event::Coin { channel: 0, value: 800 });
    for input in [coin, Input::Dispensed { count: 1, failure: None }] {
        let effects = bench.machine.step(input, &[false], &bench.flash, &mut bench.faults);
        for effect in effects {
            if let Effect::Save(save) = &effect {
                written = save.counters;
            }
            bench.perform(vec![effect]);
            let mut faults = Errors::empty();
            assert_eq!(restore(&bench.flash, &mut faults).1, written);
        }
    }
    assert_eq!((written.cash, written.coins_pending, written.overall.items_dispensed), (0, [5], 1));
}

#[test]
fn power_cut_inside_a_write_loses_only_that_write() {
    let mut bench = Bench::stocked();
    bench.coin(200);
    let mut written = bench.machine.counters;
    let coin = Input::Happened(Event::Coin { channel: 0, value: 800 });
    for input in [coin, Input::Dispensed { count: 1, failure: None }] {
        let effects = bench.machine.step(input, &[false], &bench.flash, &mut bench.faults);
        for effect in effects {
            let (erases, addr, bytes) = match &effect {
                Effect::Save(save) => (save.needs_erase(), save.addr(), save.bytes()),
                Effect::Log(write) => (write.needs_erase(), write.addr(), write.bytes()),
                _ => (false, NVRAM_BASE, Vec::new()),
            };
            for words in 0..bytes.len() / 2 {
                let whole = bench.flash.clone();
                bench.write(erases, addr, &bytes[..2 * words]);
                let expected = match &effect {
                    Effect::Save(save) if words >= 26 => save.counters,
                    _ => written,
                };
                assert_eq!(restore(&bench.flash, &mut Errors::empty()).1, expected);
                // The machine that comes back carries on: it pays its debts, sells, and remembers that too.
                let mut again = bench.power_cycle();
                again.settle();
                again.coin(500);
                again.settle();
                let later = again.power_cycle();
                assert_eq!(later.machine.counters, again.machine.counters);
                assert_eq!(later.machine.events, again.machine.events);
                assert_eq!(again.machine.counters.overall.cash_in, expected.overall.cash_in + 500);
                bench.flash = whole;
            }
            if let Effect::Save(save) = &effect {
                written = save.counters;
            }
            bench.perform(vec![effect]);
        }
    }
}

#[test]
fn low_hopper_is_a_fault_that_does_not_stop_sales() {
    let mut bench = Bench::stocked();
    bench.machine.counters.coin_levels = [11];
    bench.coin(600);
    bench.settle();
    assert!(bench.faults.contains(error::COIN_HOPPER_EMPTY));
    assert!(bench.faults.can_vend());
}

#[test]
fn last_covers_are_not_sold() {
    let mut bench = Bench::stocked();
    bench.machine.counters.item_level = 11;
    bench.coin(500);
    bench.settle();
    assert!(bench.faults.contains(error::ITEM_DISPENSER_EMPTY));
    bench.coin(500);
    assert_eq!(bench.machine.counters.cash, 500);
}

#[test]
fn counters_that_are_full_are_refused() {
    let mut bench = Bench::stocked();
    bench.coin(499);
    bench.machine.counters.items_pending = u16::MAX;
    let coin = Input::Happened(Event::Coin { channel: 0, value: 1 });
    assert!(!bench.machine.accepts(&coin, &bench.faults));
    assert!(!bench.machine.accepts(&Input::Dispensed { count: 1, failure: None }, &bench.faults));
}

#[test]
fn unknown_key_is_told_so() {
    let mut bench = Bench::stocked();
    bench.tell(Input::Happened(Event::Key(OWNER)));
    assert_eq!(bench.rows(), ("Ключ неизвестен".into(), "".into()));
    assert_eq!(bench.machine.wait(), Wait::Delay(2));
    assert!(!bench.inhibited);
    bench.tell(Input::Elapsed);
    assert!(matches!(bench.screen, Some(Screen::Idle { .. })));
}

#[test]
fn visit_shuts_the_acceptor_until_it_ends() {
    let mut bench = visited();
    assert!(bench.inhibited);
    assert_eq!(bench.machine.wait(), Wait::Event(60));
    assert_eq!(bench.rows(), ("Отчёт: касса".into(), "1/9".into()));
    let before = bench.machine.counters;
    bench.coin(500);
    bench.tell(Input::Happened(Event::Door { index: 0, open: true }));
    assert_eq!(bench.machine.counters, before);
    bench.press(Button::Prev);
    assert_eq!(bench.rows().1, "9/9");
    bench.press(Button::Next);
    assert_eq!(bench.rows().1, "1/9");
    bench.press(Button::Cancel);
    assert!(!bench.inhibited);
    assert_eq!(bench.machine.stage, Stage::Idle);
}

#[test]
fn walking_away_ends_the_visit_unchanged() {
    let mut bench = visited();
    for _ in 0..3 {
        bench.press(Button::Next);
    }
    bench.press(Button::Accept);
    bench.press(Button::Next);
    let before = bench.machine.counters;
    bench.tell(Input::Elapsed);
    bench.tell(Input::Elapsed);
    assert_eq!(bench.machine.counters, before);
    assert!(!bench.inhibited);
}

#[test]
fn refill_changes_the_level_and_clears_the_fault() {
    let mut bench = visited();
    error::raise(&mut bench.faults, error::ITEM_DISPENSER_EMPTY);
    for _ in 0..3 {
        bench.press(Button::Next);
    }
    assert_eq!(bench.rows().0, "Загрузка бахил");
    bench.press(Button::Accept);
    assert_eq!(bench.rows(), ("Бахилы".into(), "100".into()));
    bench.press(Button::Next);
    bench.press(Button::Next);
    bench.press(Button::Prev);
    assert_eq!(bench.rows().1, "200");
    bench.press(Button::Accept);
    assert_eq!(bench.machine.counters.item_level, 200);
    assert!(bench.faults.is_empty());
    assert_eq!(bench.power_cycle().machine.counters.item_level, 200);
}

#[test]
fn price_is_stored() {
    let mut bench = visited();
    for _ in 0..6 {
        bench.press(Button::Next);
    }
    assert_eq!(bench.rows().0, "Цена");
    bench.press(Button::Accept);
    bench.press(Button::Next);
    assert_eq!(bench.rows(), ("Цена, коп.".into(), "550".into()));
    bench.press(Button::Accept);
    assert_eq!(bench.machine.price(), 550);
    assert_eq!(bench.power_cycle().machine.price(), 550);
}

#[test]
fn free_pair_and_cleared_period() {
    let mut bench = visited();
    for _ in 0..5 {
        bench.press(Button::Next);
    }
    assert_eq!(bench.rows().0, "Выдать бахилы");
    bench.press(Button::Accept);
    assert_eq!(bench.machine.wait(), Wait::Dispenser);
    bench.one_out();
    assert_eq!(bench.machine.counters.period.items_free, 1);
    bench.press(Button::Next);
    bench.press(Button::Next);
    assert_eq!(bench.rows().0, "Сброс периода");
    bench.press(Button::Accept);
    let c = bench.machine.counters;
    assert_eq!((c.period.items_free, c.overall.items_free), (0, 1));
}

#[test]
fn reports_are_paged() {
    let mut bench = visited();
    bench.press(Button::Accept);
    let lines = line_count(report::accounting(&bench.machine.counters, &bench.machine.settings).as_str());
    assert_eq!(bench.rows().0, "ID 0");
    let mut pages = 1;
    loop {
        bench.press(Button::Next);
        if let Stage::Menu(_) = bench.machine.stage {
            break;
        }
        pages += 1;
    }
    assert_eq!(pages, (lines + 1) / 2);
}

#[test]
fn long_report_lines_are_cut_to_the_display() {
    assert_eq!(report_page("0123456789abcdef", 0).0.as_str(), "0123456789abcdef");
    let (top, bottom) = report_page("0123456789abcdefg\nКупюры и монеты: 5", 0);
    assert_eq!((top.as_str(), bottom.as_str()), ("0123456789abcdef", "Купюры и монеты:"));
    let mut bench = visited();
    bench.machine.counters.overall.cash_in = 12_345_678;
    bench.press(Button::Accept);
    let text = report::accounting(&bench.machine.counters, &bench.machine.settings);
    let mut at = 0;
    while let Stage::Report { .. } = bench.machine.stage {
        let shown = bench.rows();
        let cut = |line: &str| line.chars().take(16).collect::<String>();
        assert_eq!(shown, (cut(line_at(text.as_str(), at)), cut(line_at(text.as_str(), at + 1))));
        bench.press(Button::Next);
        at += 2;
    }
}

#[test]
fn log_is_shown_newest_last() {
    let mut bench = visited();
    bench.press(Button::Next);
    bench.press(Button::Next);
    assert_eq!(bench.rows().0, "Логи");
    bench.press(Button::Accept);
    assert!(matches!(bench.machine.stage, Stage::Report { lines: 1, .. }));
    bench.press(Button::Next);
    assert!(matches!(bench.machine.stage, Stage::Menu(_)));
}

#[test]
fn key_is_enrolled_and_cleared() {
    let guest = IbuttonKey([9; 8]);
    let mut bench = visited();
    bench.press(Button::Prev);
    assert_eq!(bench.rows().0, "Ключи");
    bench.press(Button::Accept);
    assert_eq!(bench.rows(), ("Владелец 1".into(), "0102030405060708".into()));
    bench.press(Button::Next);
    bench.press(Button::Next);
    assert_eq!(bench.rows(), ("Сервис 1".into(), "(пусто)".into()));
    bench.tell(Input::Happened(Event::Key(guest)));
    assert_eq!(bench.rows().1, "0909090909090909");
    assert_eq!(Access::of(&guest, &bench.power_cycle().machine.settings), Some(Access::Service));
    bench.press(Button::Cancel);
    assert_eq!(Access::of(&guest, &bench.machine.settings), None);
    bench.press(Button::Accept);
    assert!(matches!(bench.machine.stage, Stage::Menu(_)));
}

#[test]
fn keys_open_what_they_are_enrolled_for() {
    let mut settings = Settings::default();
    assert_eq!(Access::of(&OWNER, &settings), None);
    assert_eq!(Access::of(&IbuttonKey::empty(), &settings), None);
    settings.keys[2][1] = OWNER;
    assert_eq!(Access::of(&OWNER, &settings), Some(Access::Collector));
    settings.keys[0][1] = OWNER;
    assert_eq!(Access::of(&OWNER, &settings), Some(Access::Owner));
    assert_eq!(Access::of(&IbuttonKey::empty(), &settings), None);
}

#[test]
fn collector_sees_reports_only() {
    let seen: Vec<Item> = (0..visible_count(Access::Collector)).map(|i| visible_item(Access::Collector, i)).collect();
    assert_eq!(seen, vec![Item::Accounting, Item::State, Item::EventLog]);
    assert_eq!(visible_count(Access::Service), 7);
    assert_eq!(visible_count(Access::Owner), 9);
}

#[test]
fn numbers_step_within_their_limits() {
    assert_eq!(step_up(990, 20, 1_000), 1_000);
    assert_eq!(step_up(u32::MAX, 50, 100_000), 100_000);
    assert_eq!(step_up(10, 20, 1_000), 30);
    assert_eq!(step_down(10, 20), 0);
    assert_eq!(step_down(30, 20), 10);
}

#[test]
fn lines_are_found() {
    let text = "one\n\nthree\n";
    assert_eq!(line_count(text), 3);
    assert_eq!((line_at(text, 0), line_at(text, 1), line_at(text, 2), line_at(text, 3)), ("one", "", "three", ""));
    assert_eq!(line_count(""), 0);
}

#[test]
fn accounting_is_reported_in_full() {
    let mut counters = Counters::new();
    counters.overall.cash_in = 123_450;
    counters.period.items_free = 2;
    let text = report::accounting(&counters, &Settings::default());
    assert!(text.as_str().starts_with("ID 0\nTOTAL"));
    assert!(text.as_str().contains("1234.50 RUB"));
    assert!(text.as_str().ends_with(" free 2\n"));
}

#[test]
fn state_report_names_the_faults() {
    let counters = Counters { item_level: 12, coin_levels: [34], ..Counters::new() };
    let well = report::state(&counters, &Settings::default(), Errors::empty());
    assert_eq!(well.as_str(), "ID 0\nitems 12\nhopper1 34\nok\n");
    let ill = report::state(&counters, &Settings::default(), Errors { bits: 0x8001 });
    assert!(ill.as_str().ends_with("err 8001\n"), "{}", ill.as_str());
}

fn hopper(enabled: bool, unit_value: Cash) -> HopperSettings {
    HopperSettings { enabled, unit_value, ..HopperSettings::default() }
}

#[test]
fn largest_coins_are_paid_first() {
    let hoppers = [hopper(true, 100), hopper(true, 500), hopper(true, 50)];
    assert_eq!(plan_change(&hoppers, &[10, 10, 10], 1_780), (vec![2, 3, 1], 30));
    assert_eq!(plan_change(&hoppers, &[1, 1, 1], 1_780), (vec![1, 1, 1], 1_130));
    assert_eq!(plan_change(&[hopper(false, 100)], &[10], 300), (vec![0], 300));
    assert_eq!(plan_change(&[hopper(true, 0)], &[10], 300), (vec![0], 300));
    assert_eq!(plan_change(&[], &[], 300), (vec![], 300));
}

#[test]
fn no_other_way_pays_more_or_with_fewer_coins() {
    let hoppers = [hopper(true, 100), hopper(true, 500), hopper(true, 50)];
    let levels = [3, 2, 4];
    for amount in (0..2_000).step_by(10) {
        let (plan, left) = plan_change(&hoppers, &levels, amount);
        let coins: u16 = plan.iter().sum();
        for a in 0..=levels[0] {
            for b in 0..=levels[1] {
                for c in 0..=levels[2] {
                    let worth = a as u32 * 100 + b as u32 * 500 + c as u32 * 50;
                    if worth <= amount {
                        assert!(worth <= amount - left);
                        assert!(worth < amount - left || a + b + c >= coins);
                    }
                }
            }
        }
    }
}
