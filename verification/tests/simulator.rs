//! The machine without the hardware.
use bahilizator::error::{self, Errors};
use bahilizator::event::Button;
use bahilizator::menu::{Access, Item};
use bahilizator::sim::desk::{label, visible, Key, Mode, Reaction};
use bahilizator::sim::frame::{describe, Terminal};
use bahilizator::sim::panel::Panel;
use bahilizator::sim::{push_log, SimHopper};
use bahilizator::ui::Screen;

fn press(panel: &mut Panel, keys: &str) {
    for c in keys.chars() {
        assert!(panel.takes_key(Key::Letter(c)));
        panel.press(Key::Letter(c));
    }
}

fn last(panel: &Panel) -> &str {
    panel.machine.log.last().unwrap()
}

fn rows(panel: &Panel) -> (String, String) {
    match panel.mode_screen() {
        Screen::Text(top, bottom) => (top.as_str().to_string(), bottom.as_str().to_string()),
        _ => panic!(),
    }
}

#[test]
fn simulator_starts_stocked() {
    let panel = Panel::new();
    assert_eq!(panel.machine.counters.item_level, 50);
    assert_eq!(panel.machine.counters.coin_levels, [30]);
    assert_eq!(last(&panel), "Simulator started. Press 'h' for help, 'q' to quit.");
    assert!(matches!(panel.screen, Screen::Idle { price: 500, .. }));
}

#[test]
fn first_frame_is_drawn_in_full() {
    let panel = Panel::new();
    let mut terminal = Terminal::new();
    let frame = terminal.draw(&panel);
    assert_eq!(
        frame,
        "\x1b[H  ,------------------.\r\n\
         \x20 | Бахилы           |\r\n\
         \x20 | Цена 5.00 RUB    |\r\n\
         \x20 `------------------'\r\n\
         \r\n\
         \x20 Cash:      0 kop.   Price:    500 kop.   Items left:   50   Errors: Errors(0x0)\x1b[K\r\n\
         \x20 Coin hoppers: hopper1=30\x1b[K\r\n\
         \r\n\
         \x20 ←/→/Enter/\\=buttons  o/s/c=iButton  1-6=coins  A/S=hopper  D=dispenser  h=help  q=quit\x1b[K\r\n\
         \x20 ---- log ----\x1b[K\r\n\
         \x20 Simulator started. Press 'h' for help, 'q' to quit.\x1b[K\r\n\
         \x1b[K\r\n\x1b[K\r\n\x1b[K\r\n\x1b[K\r\n\x1b[K\r\n\x1b[K\r\n\x1b[K\r\n\x1b[J"
    );
    let again = terminal.draw(&panel);
    assert!(again.starts_with("\x1b[H\r\n\r\n\r\n\r\n\r\n  Cash:"));
}

#[test]
fn coin_that_pays_is_a_sale() {
    let mut panel = Panel::new();
    press(&mut panel, "2");
    let c = panel.machine.counters;
    assert_eq!((c.cash, c.item_level, c.overall.items_dispensed), (0, 49, 1));
    assert_eq!(panel.machine.log[1], "Coin: channel 2 (+500 kop.)");
    assert_eq!(panel.machine.log[2], "Sale: dispensing 1 pair.");
    press(&mut panel, "1");
    assert!(matches!(panel.screen, Screen::TakeChange { amount: 500, .. }));
    assert_eq!(panel.machine.counters.coin_levels, [25]);
    assert_eq!(last(&panel), "Change dispensed: 500 kop.");
}

#[test]
fn small_coins_add_up() {
    let mut panel = Panel::new();
    press(&mut panel, "33");
    assert!(matches!(panel.screen, Screen::Credit { cash: 400, .. }));
    panel.press(Key::Enter);
    assert_eq!(panel.machine.counters.cash, 400);
    press(&mut panel, "\\");
    assert_eq!(panel.machine.counters.overall.cash_out, 400);
    assert!(matches!(panel.screen, Screen::TakeChange { amount: 400, .. }));
    panel.press(Key::Other);
    assert!(matches!(panel.screen, Screen::Idle { .. }));
}

#[test]
fn keys_open_the_menu_of_their_role() {
    for (key, access, items) in [("o", Access::Owner, 7), ("s", Access::Service, 6), ("c", Access::Collector, 2)] {
        let mut panel = Panel::new();
        press(&mut panel, key);
        assert!(matches!(panel.mode, Mode::Menu { cursor: 0, access: a } if a == access));
        assert_eq!(visible(access).len(), items);
        assert_eq!(rows(&panel), ("Report: takings".to_string(), format!("1/{}", items)));
        press(&mut panel, "o");
        assert_eq!(last(&panel), "iButton Owner ignored: menu already open.");
        press(&mut panel, "1");
        assert_eq!(last(&panel), "Coin ignored: acceptor is inhibited while the menu is open.");
        assert_eq!(panel.machine.counters.cash, 0);
    }
    let mut panel = Panel::new();
    press(&mut panel, "s");
    assert_eq!(last(&panel), "iButton: Service presented -> service menu (Service).");
}

#[test]
fn key_that_is_not_enrolled_opens_nothing() {
    let mut panel = Panel::new();
    panel.machine.settings = Default::default();
    press(&mut panel, "o");
    assert_eq!(last(&panel), "iButton: Owner key not enrolled.");
    assert!(matches!(panel.mode, Mode::Vending));
}

#[test]
fn menu_goes_round() {
    let mut panel = Panel::new();
    press(&mut panel, "o");
    panel.press(Key::Left);
    assert_eq!(rows(&panel), ("Clear period".into(), "7/7".into()));
    panel.press(Key::Right);
    assert_eq!(rows(&panel).1, "1/7");
    panel.press(Key::Delete);
    assert!(matches!(panel.mode, Mode::Vending));
}

#[test]
fn covers_and_coins_are_refilled() {
    let mut panel = Panel::new();
    press(&mut panel, "s");
    panel.press(Key::Right);
    panel.press(Key::Right);
    panel.press(Key::Enter);
    assert_eq!(rows(&panel), ("Covers".into(), "50".into()));
    panel.press(Key::Right);
    panel.press(Key::Enter);
    assert_eq!(panel.machine.counters.item_level, 55);
    assert_eq!(panel.machine.dispenser, SimHopper { level: 55 });
    assert_eq!(last(&panel), "Refilled covers to 55.");
    for _ in 0..3 {
        panel.press(Key::Right);
    }
    assert_eq!(rows(&panel).0, "Refill coins 1");
    panel.press(Key::Enter);
    panel.press(Key::Left);
    panel.press(Key::Enter);
    assert_eq!(panel.machine.counters.coin_levels, [25]);
    assert_eq!(last(&panel), "Refilled hopper 1 to 25.");
}

#[test]
fn owner_changes_the_price() {
    let mut panel = Panel::new();
    press(&mut panel, "o");
    panel.press(Key::Left);
    panel.press(Key::Left);
    panel.press(Key::Enter);
    assert_eq!(rows(&panel), ("Price, kop.".into(), "500".into()));
    panel.press(Key::Right);
    panel.press(Key::Enter);
    assert_eq!(panel.machine.price(), 550);
    assert_eq!(last(&panel), "Price set to 550 kop.");
}

#[test]
fn pair_is_given_away_and_period_cleared() {
    let mut panel = Panel::new();
    press(&mut panel, "s");
    for _ in 0..4 {
        panel.press(Key::Right);
    }
    panel.press(Key::Enter);
    assert_eq!(last(&panel), "Menu: gave away 1 pair free.");
    assert_eq!((panel.machine.counters.period.items_free, panel.machine.counters.item_level), (1, 49));
    panel.press(Key::Right);
    panel.press(Key::Enter);
    assert_eq!(last(&panel), "Period counters cleared.");
    assert_eq!((panel.machine.counters.period.items_free, panel.machine.counters.overall.items_free), (0, 1));
}

#[test]
fn report_is_paged_and_left() {
    let mut panel = Panel::new();
    press(&mut panel, "c");
    panel.press(Key::Right);
    panel.press(Key::Enter);
    assert_eq!(rows(&panel), ("ID 0".into(), "items 50".into()));
    panel.press(Key::Enter);
    assert_eq!(rows(&panel), ("hopper1 30".into(), "ok".into()));
    panel.press(Key::Right);
    assert!(matches!(panel.mode, Mode::Menu { cursor: 0, .. }));
    panel.press(Key::Enter);
    panel.press(Key::Backspace);
    assert!(matches!(panel.mode, Mode::Vending));
}

#[test]
fn empty_dispenser_stops_the_machine() {
    let mut panel = Panel::new();
    panel.machine.dispenser = SimHopper { level: 0 };
    panel.machine.counters.item_level = 0;
    press(&mut panel, "1");
    assert!(panel.machine.faults.contains(error::ITEM_DISPENSER));
    let c = panel.machine.counters;
    assert_eq!((c.items_pending, c.cash, c.overall.cash_out), (1, 0, 500));
    assert!(panel.machine.log.contains(&"Dispenser: jammed/empty!".to_string()));
}

#[test]
fn empty_hopper_keeps_owing() {
    let mut panel = Panel::new();
    panel.machine.hoppers[0] = SimHopper { level: 0 };
    panel.machine.counters.coin_levels = [0];
    panel.machine.counters.coins_pending = [2];
    panel.machine.payout_change();
    assert!(panel.machine.faults.contains(error::COIN_HOPPER));
    assert_eq!(panel.machine.counters.coins_pending, [2]);
    assert_eq!(last(&panel), "Hopper 1: empty, cannot finish payout.");
}

#[test]
fn stock_is_let_out_by_hand() {
    let mut panel = Panel::new();
    press(&mut panel, "A");
    assert_eq!(last(&panel), "Hopper 1: manual payout pulse, 1 coin (level now 29).");
    press(&mut panel, "S");
    assert_eq!(last(&panel), "Hopper 2: not configured (this build has 1 coin hopper(s)).");
    press(&mut panel, "D");
    assert_eq!(last(&panel), "Dispenser: manual pulse, 1 pair (level now 49).");
    panel.machine.hoppers[0] = SimHopper { level: 0 };
    panel.machine.counters.coin_levels = [0];
    panel.machine.dispenser = SimHopper { level: 0 };
    panel.machine.counters.item_level = 0;
    press(&mut panel, "A");
    assert_eq!(last(&panel), "Hopper 1: empty, no coin to pay out.");
    press(&mut panel, "D");
    assert_eq!(last(&panel), "Dispenser: empty, no pair to dispense.");
    assert!(panel.machine.faults.contains(error::ITEM_DISPENSER_EMPTY));
}

#[test]
fn only_q_and_escape_quit() {
    let mut panel = Panel::new();
    assert_eq!(panel.press(Key::Escape), Reaction::Quit);
    assert_eq!(panel.press(Key::Letter('q')), Reaction::Quit);
    assert_eq!(panel.press(Key::Letter('h')), Reaction::Redraw);
    assert!(last(&panel).starts_with("Keys: ←/→/Enter/\\=buttons"));
    assert_eq!(panel.press(Key::Letter('x')), Reaction::Ignore);
    assert_eq!(panel.press(Key::Other), Reaction::Ignore);
    assert!(panel.handle_button(Button::Prev).is_none());
}

#[test]
fn control_c_quits() {
    assert_eq!(Key::typed('c', false), Key::Letter('c'));
    assert_eq!(Key::typed('x', true), Key::Letter('x'));
    let mut panel = Panel::new();
    assert_eq!(panel.press(Key::typed('c', true)), Reaction::Quit);
    assert!(matches!(panel.mode, Mode::Vending));
    assert_eq!(panel.press(Key::typed('c', false)), Reaction::Redraw);
    assert!(matches!(panel.mode, Mode::Menu { .. }));
}

#[test]
fn full_counters_stop_only_what_counts() {
    let mut panel = Panel::new();
    panel.machine.counters.overall.items_dispensed = u32::MAX;
    assert!(!panel.takes_key(Key::Enter));
    assert!(!panel.takes_key(Key::Letter('1')));
    assert!(!panel.takes_key(Key::Delete));
    assert!(panel.takes_key(Key::Letter('h')));
    press(&mut panel, "o");
    // Reading a report needs no room, nor does putting in a coin that is refused.
    assert!(panel.takes_key(Key::Letter('1')));
    assert!(panel.takes_key(Key::Enter));
    panel.press(Key::Enter);
    assert!(matches!(panel.mode, Mode::Report { .. }));
    for _ in 0..20 {
        assert!(panel.takes_key(Key::Enter) && panel.takes_key(Key::Backspace));
        if matches!(panel.mode, Mode::Report { .. }) {
            panel.press(Key::Enter);
        } else {
            break;
        }
    }
    let items = visible(Access::Owner);
    let free = items.iter().position(|item| *item == Item::FreeItem).unwrap();
    for at in 0..items.len() {
        assert_eq!(panel.takes_key(Key::Enter), at != free);
        panel.press(Key::Right);
    }
}

#[test]
fn log_forgets_its_oldest_lines() {
    let mut log = Vec::new();
    for i in 0..205 {
        push_log(&mut log, format!("{}", i));
    }
    assert_eq!(log.len(), 200);
    assert_eq!((log[0].as_str(), log[199].as_str()), ("5", "204"));
}

#[test]
fn faults_are_spelled_out() {
    assert_eq!(describe(Errors::empty()), "Errors(0x0)");
    assert_eq!(describe(Errors { bits: error::DOOR_OPENED | error::FIRMWARE }), "Errors(FIRMWARE | DOOR_OPENED)");
}

#[test]
fn items_have_english_labels() {
    assert_eq!(label(Item::FreeItem), "Give away pair");
    assert_eq!(label(Item::RefillHopper(0)), "Refill coins 1");
}

#[test]
fn hopper_gives_what_it_has() {
    let mut hopper = SimHopper { level: 3 };
    assert_eq!(hopper.dispense(2), 2);
    assert_eq!(hopper.dispense(2), 1);
    assert_eq!(hopper.dispense(2), 0);
}
