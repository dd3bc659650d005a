//! Buttons, coins, keys, hoppers and the faults they find.
use bahilizator::buttons::{Debounced, Panel};
use bahilizator::coin_acceptor::{
    set_inhibited, is_inhibited, CoinAcceptor, CoinWatch, Mode, Pulse, PulseModeStage,
};
use bahilizator::config;
use bahilizator::error::{self, Errors};
use bahilizator::event::{show, Button, Event};
use bahilizator::hopper::{Hopper, HopperError, HopperKind, HopperLines};
use bahilizator::ibutton::{
    byte_of, crc8, delay_loops, read_byte, reset, write_byte, BusStep, KeyWatch, OneWire, ReadStage, WireOp,
};
use bahilizator::shared;
use bahilizator::state::{CoinAcceptorSettings, IbuttonKey};
use bahilizator::ui::Screen;
use portable_atomic::{AtomicBool, AtomicU32};

const NONE: [bool; 4] = [false; 4];
const SHUT: [bool; 2] = [false; 2];

#[test]
fn held_button_is_one_press() {
    let mut faults = Errors::empty();
    let mut panel = Panel::new(&NONE, &SHUT, &mut faults);
    let pressed = [false, false, true, false];
    assert!(panel.poll(&pressed, &SHUT, &mut faults).is_empty());
    assert_eq!(panel.poll(&pressed, &SHUT, &mut faults), vec![Event::Button(Button::Accept)]);
    for _ in 0..10 {
        assert!(panel.poll(&pressed, &SHUT, &mut faults).is_empty());
    }
    for _ in 0..3 {
        assert!(panel.poll(&NONE, &SHUT, &mut faults).is_empty());
    }
}

#[test]
fn bouncing_contact_is_ignored() {
    let mut contact = Debounced::new(false);
    for _ in 0..5 {
        assert_eq!(contact.update(true), None);
        assert_eq!(contact.update(false), None);
    }
    assert_eq!(contact.update(true), None);
    assert_eq!(contact.update(true), Some(true));
    assert_eq!(contact.update(true), None);
}

#[test]
fn door_open_at_power_on_is_a_fault_at_once() {
    let mut faults = Errors::empty();
    let mut panel = Panel::new(&NONE, &[true, false], &mut faults);
    assert!(faults.contains(error::DOOR_OPENED));
    panel.poll(&NONE, &SHUT, &mut faults);
    let events = panel.poll(&NONE, &SHUT, &mut faults);
    assert_eq!(events, vec![Event::Door { index: 0, open: false }]);
    assert!(faults.is_empty());
}

#[test]
fn fault_stays_while_either_door_is_open() {
    let mut faults = Errors::empty();
    let mut panel = Panel::new(&NONE, &[true, true], &mut faults);
    panel.poll(&NONE, &[false, true], &mut faults);
    panel.poll(&NONE, &[false, true], &mut faults);
    assert!(faults.contains(error::DOOR_OPENED));
}

#[test]
fn buttons_are_in_the_order_of_their_pins() {
    assert_eq!(
        [Button::at(0), Button::at(1), Button::at(2), Button::at(3)],
        [Button::Prev, Button::Next, Button::Accept, Button::Cancel]
    );
}

#[test]
fn newest_screen_wins() {
    let mut pending = Some(Screen::Thanks);
    show(&mut pending, Screen::Dispensing);
    assert!(matches!(pending, Some(Screen::Dispensing)));
}

fn parallel() -> CoinAcceptorSettings {
    CoinAcceptorSettings::default()
}

#[test]
fn coin_is_counted_once_per_pulse() {
    let settings = parallel();
    let mut faults = Errors::empty();
    let mut watch = CoinWatch::new(&settings, &mut faults);
    assert!(!watch.acceptor.inhibit);
    let mut coins = Vec::new();
    for t in 0..20 {
        let low = [false, t >= 2 && t < 12, false, false, false, false];
        coins.extend(watch.poll(&settings, false, &low, t * 5, &mut faults));
    }
    assert_eq!(coins, vec![Event::Coin { channel: 1, value: 500 }]);
    assert!(faults.is_empty());
}

#[test]
fn glitch_is_no_coin() {
    let settings = parallel();
    let mut faults = Errors::empty();
    let mut watch = CoinWatch::new(&settings, &mut faults);
    let low = [true, false, false, false, false, false];
    assert!(watch.poll(&settings, false, &low, 0, &mut faults).is_empty());
    assert!(watch.poll(&settings, false, &low, 9, &mut faults).is_empty());
    assert!(watch.poll(&settings, false, &[false; 6], 10, &mut faults).is_empty());
}

#[test]
fn masked_channel_is_watched_but_not_believed() {
    let mut settings = parallel();
    settings.channel_mask = 0x3e;
    let mut faults = Errors::empty();
    let mut watch = CoinWatch::new(&settings, &mut faults);
    let low = [true, false, false, false, false, false];
    let mut now = 0;
    while now <= 1_000 {
        assert!(watch.poll(&settings, false, &low, now, &mut faults).is_empty());
        now += 5;
    }
    assert!(faults.contains(error::COIN_ACCEPTOR));
    watch.poll(&settings, false, &[false; 6], now, &mut faults);
    assert!(faults.is_empty());
}

#[test]
fn acceptor_is_shut_by_faults_menu_and_settings() {
    let mut settings = parallel();
    let mut faults = Errors::empty();
    let mut watch = CoinWatch::new(&settings, &mut faults);
    watch.poll(&settings, true, &[false; 6], 0, &mut faults);
    assert!(watch.acceptor.inhibit);
    assert!(faults.contains(error::COIN_ACCEPTOR_OFF));
    watch.poll(&settings, false, &[false; 6], 5, &mut faults);
    assert!(!watch.acceptor.inhibit);
    assert!(faults.is_empty());
    error::raise(&mut faults, error::DOOR_OPENED);
    watch.poll(&settings, false, &[false; 6], 10, &mut faults);
    assert!(watch.acceptor.inhibit);
    faults = Errors::empty();
    settings.enabled = false;
    watch.poll(&settings, false, &[false; 6], 15, &mut faults);
    assert!(watch.acceptor.inhibit);
    let mut fresh = Errors::empty();
    assert!(CoinAcceptor::new(&mut fresh).inhibit);
    assert!(fresh.contains(error::COIN_ACCEPTOR_OFF));
}

/// Feed a burst of pulses of `length` ms, one every 100 ms, and a long pause.
fn burst(watch: &mut CoinWatch, settings: &CoinAcceptorSettings, n: u64, length: u64, faults: &mut Errors) -> Vec<Event> {
    let mut events = Vec::new();
    let mut now = 0;
    while now <= 100 * n + 300 {
        let active = now < 100 * n && now % 100 < length;
        events.extend(watch.poll(settings, false, &[active; 6], now, faults));
        now += 5;
    }
    events
}

#[test]
fn nth_burst_is_the_nth_coin() {
    let mut settings = parallel();
    settings.pulse_mode = true;
    for n in 1..=6u64 {
        let mut faults = Errors::empty();
        let mut watch = CoinWatch::new(&settings, &mut faults);
        let events = burst(&mut watch, &settings, n, 50, &mut faults);
        let value = settings.channel_values[n as usize - 1];
        assert_eq!(events, vec![Event::Coin { channel: n as u8 - 1, value }]);
        assert!(faults.is_empty());
    }
    let mut faults = Errors::empty();
    let mut watch = CoinWatch::new(&settings, &mut faults);
    assert!(burst(&mut watch, &settings, 7, 50, &mut faults).is_empty());
}

#[test]
fn fresh_watch_starts_idle() {
    let mut settings = parallel();
    let mut faults = Errors::empty();
    match CoinWatch::new(&settings, &mut faults).mode {
        Mode::Parallel(channels) => assert_eq!(channels.pulses, [Pulse::Idle; 6]),
        Mode::Pulses(_) => panic!("pulses"),
    }
    settings.pulse_mode = true;
    let mut watch = CoinWatch::new(&settings, &mut faults);
    assert_eq!(watch.mode, Mode::Pulses(PulseModeStage::Idle));
    let mut events = Vec::new();
    let mut now = 0;
    while now <= 750 {
        let active = now < 450 && now % 150 < 50;
        events.extend(watch.poll(&settings, false, &[active; 6], now, &mut faults));
        now += 10;
    }
    assert_eq!(events, vec![Event::Coin { channel: 2, value: 200 }]);
    assert!(faults.is_empty());
}

#[test]
fn bad_pulse_abandons_the_burst() {
    let mut short = PulseModeStage::Pulsing { since: 100, count: 2 };
    assert_eq!(short.read(false, 119), (true, None));
    assert_eq!(short, PulseModeStage::Idle);
    let mut long = PulseModeStage::Pulsing { since: 100, count: 2 };
    assert_eq!(long.read(true, 350), (false, None));
    assert_eq!(long.read(true, 351), (true, None));
    assert_eq!(long, PulseModeStage::Idle);
    let mut gap = PulseModeStage::Gap { since: 0, count: 3 };
    assert_eq!(gap.read(false, 199), (false, None));
    assert_eq!(gap.read(false, 200), (false, Some(3)));
}

#[test]
fn bits_go_out_lowest_first() {
    let ops = write_byte(0x33);
    let holds: Vec<u32> = ops
        .chunks(4)
        .map(|slot| match slot[1] {
            WireOp::Wait { us } => us,
            _ => panic!(),
        })
        .collect();
    assert_eq!(holds, vec![6, 6, 60, 60, 6, 6, 60, 60]);
    assert_eq!(byte_of(&[true, true, false, false, true, true, false, false]), 0x33);
    assert_eq!(byte_of(&[true; 8]), 0xff);
}

#[test]
fn slots_are_seventy_microseconds() {
    let wait = |ops: &[WireOp]| -> u32 {
        ops.iter()
            .map(|op| match op {
                WireOp::Wait { us } => *us,
                _ => 0,
            })
            .sum()
    };
    assert_eq!(wait(&write_byte(0x5a)), 560);
    assert_eq!(wait(&read_byte()), 560);
    assert_eq!(wait(&reset()), 960);
    assert_eq!(delay_loops(480), 960);
}

#[test]
fn checksum_of_a_known_serial() {
    assert_eq!(crc8(&[0x02, 0x1c, 0xb8, 0x01, 0x00, 0x00, 0x00]), 0xa2);
    assert_eq!(crc8(&[0x02, 0x1c, 0xb8, 0x01, 0x00, 0x00, 0x00, 0xa2]), 0);
    assert_eq!(crc8(&[0xff; 8]), 0xc9);
}

/// Read a bus on which a key answers with these bytes.
fn read(bytes: [u8; 8]) -> Option<IbuttonKey> {
    let (mut bus, ops) = OneWire::new();
    assert_eq!(ops, reset());
    let BusStep::Run(command) = bus.read_key(&[false]) else { panic!() };
    assert_eq!(command, write_byte(0x33));
    let BusStep::Run(first) = bus.read_key(&[]) else { panic!() };
    assert_eq!(first, read_byte());
    for (i, byte) in bytes.iter().enumerate() {
        let samples: Vec<bool> = (0..8).map(|b| byte >> b & 1 == 1).collect();
        match bus.read_key(&samples) {
            BusStep::Run(_) => assert!(i < 7),
            BusStep::Done(key) => {
                assert_eq!(i, 7);
                assert_eq!(bus.stage, ReadStage::Finished);
                return key;
            }
        }
    }
    unreachable!()
}

#[test]
fn key_is_read_if_its_checksum_holds() {
    let good = [0x02, 0x1c, 0xb8, 0x01, 0x00, 0x00, 0x00, 0xa2];
    assert_eq!(read(good), Some(IbuttonKey(good)));
    let mut bad = good;
    bad[3] = 0x02;
    assert_eq!(read(bad), None);
}

#[test]
fn empty_bus_has_no_key() {
    let (mut bus, _) = OneWire::new();
    assert!(matches!(bus.read_key(&[true]), BusStep::Done(None)));
    assert_eq!(read([0xff; 8]), None);
    assert_eq!(read([0x00; 8]), None);
}

#[test]
fn held_key_is_reported_once() {
    let key = IbuttonKey([1; 8]);
    let other = IbuttonKey([2; 8]);
    let mut watch = KeyWatch::new();
    assert_eq!(watch.poll(Some(key)), Some(Event::Key(key)));
    assert_eq!(watch.poll(Some(key)), None);
    for _ in 0..3 {
        assert_eq!(watch.poll(None), None);
    }
    assert_eq!(watch.poll(Some(key)), None);
    for _ in 0..4 {
        assert_eq!(watch.poll(None), None);
    }
    assert_eq!(watch.poll(Some(key)), Some(Event::Key(key)));
    assert_eq!(watch.poll(Some(other)), Some(Event::Key(other)));
}

const QUIET: HopperLines = HopperLines { coin_low: false, error_low: false, level_low: false };
const COIN: HopperLines = HopperLines { coin_low: true, error_low: false, level_low: false };
const FAULT: HopperLines = HopperLines { coin_low: false, error_low: true, level_low: false };

/// Run a hopper until it is done, with the lines that `lines` says.
fn run(kind: HopperKind, count: u16, lines: impl Fn(u64) -> HopperLines) -> (u16, Option<HopperError>, u64) {
    let mut hopper = Hopper::new(kind);
    let mut now = 0;
    let mut over = hopper.dispense(count, lines(now), now);
    loop {
        if let Some((n, why)) = over {
            assert!(!hopper.motor());
            return (n, why, now);
        }
        now += 1;
        assert!(now < 10_000);
        over = hopper.poll(lines(now), now);
    }
}

#[test]
fn hopper_counts_pulses_of_the_right_length() {
    let (n, why, _) = run(HopperKind::CoinHopper, 2, |t| if t % 100 >= 50 && t % 100 < 80 { COIN } else { QUIET });
    assert_eq!((n, why), (2, None));
    assert_eq!(run(HopperKind::CoinHopper, 0, |_| QUIET).0, 0);
}

#[test]
fn short_pulses_are_noise() {
    let (n, why, at) = run(HopperKind::CoinHopper, 1, |t| if t % 100 >= 50 && t % 100 < 55 { COIN } else { QUIET });
    assert_eq!((n, why), (0, Some(HopperError::Jammed)));
    assert_eq!(at, 2_000);
    let (n, why, _) = run(HopperKind::ItemDispenser, 1, |t| if (50..55).contains(&t) { COIN } else { QUIET });
    assert_eq!((n, why), (1, None));
}

#[test]
fn blocked_sensor_is_a_jam() {
    let (n, why, _) = run(HopperKind::CoinHopper, 1, |t| if t >= 10 { COIN } else { QUIET });
    assert_eq!((n, why), (0, Some(HopperError::Jammed)));
    let (n, why, at) = run(HopperKind::CoinHopper, 1, |_| COIN);
    assert_eq!((n, why, at), (0, Some(HopperError::Jammed), 2_000));
}

#[test]
fn fault_code_is_counted() {
    let (n, why, _) =
        run(HopperKind::CoinHopper, 1, |t| if t < 150 && t % 50 < 25 { FAULT } else { QUIET });
    assert_eq!((n, why), (0, Some(HopperError::Faulted { code: 3 })));
}

#[test]
fn endless_fault_is_code_nought() {
    let (n, why, at) = run(HopperKind::ItemDispenser, 1, |_| FAULT);
    assert_eq!((n, why, at), (0, Some(HopperError::Faulted { code: 0 }), 3_000));
}

#[test]
fn fault_stops_a_running_hopper() {
    let mut hopper = Hopper::new(HopperKind::CoinHopper);
    assert_eq!(hopper.dispense(1, QUIET, 0), None);
    assert!(hopper.motor());
    assert!(hopper.is_faulted(FAULT));
    assert!(!hopper.is_low(FAULT));
    assert_eq!(HopperKind::ItemDispenser.pulse_window_ms(), (5, 500));
    assert_eq!(HopperKind::CoinHopper.pulse_window_ms(), (10, 70));
}

#[test]
fn pins_are_where_the_board_has_them() {
    let dispenser = config::item_dispenser();
    let hoppers = config::hoppers();
    assert_eq!(hoppers.len(), 1);
    assert_eq!(hoppers[0], config::hopper_b());
    assert_ne!((dispenser.port, dispenser.control), (hoppers[0].port, hoppers[0].control));
    assert_eq!(config::hopper_c().port, config::port::P7);
}

#[test]
fn faults_are_set_and_cleared_apart() {
    let mut faults = Errors::empty();
    assert!(faults.can_vend());
    error::raise(&mut faults, error::COIN_HOPPER | error::COIN_HOPPER_EMPTY);
    assert!(faults.can_vend());
    error::set(&mut faults, error::ITEM_DISPENSER, true);
    assert!(!faults.can_vend());
    assert_eq!(error::indicators(faults), (false, true));
    error::clear(&mut faults, error::ITEM_DISPENSER);
    assert_eq!(error::indicators(faults), (true, false));
    assert!(faults.contains(error::COIN_HOPPER | error::COIN_HOPPER_EMPTY));
    assert!(error::errors(0x10000).is_empty());
    assert_eq!(Errors::from_bits_truncate(0xffff_ffff).bits, 0xffff);
}

#[test]
fn shared_faults_are_seen_by_everybody() {
    let word = AtomicU32::new(0);
    assert!(shared::raise(&word, error::DOOR_OPENED).contains(error::DOOR_OPENED));
    assert!(shared::errors(&word).contains(error::DOOR_OPENED));
    shared::set(&word, error::BATTERY_LOW, true);
    assert_eq!(shared::errors(&word).bits, error::DOOR_OPENED | error::BATTERY_LOW);
    assert_eq!(shared::clear(&word, error::DOOR_OPENED).bits, error::BATTERY_LOW);
    assert_eq!(shared::set(&word, error::BATTERY_LOW, false).bits, 0);
    assert!(shared::errors(&word).is_empty());
}

#[test]
fn findings_of_others_stand() {
    let word = AtomicU32::new(0);
    let before = shared::errors(&word);
    let mut after = before;
    error::raise(&mut after, error::COIN_ACCEPTOR);
    shared::raise(&word, error::DOOR_OPENED);
    assert_eq!(shared::publish(&word, before, after).bits, error::COIN_ACCEPTOR | error::DOOR_OPENED);
    let now = shared::errors(&word);
    let mut gone = now;
    error::clear(&mut gone, error::COIN_ACCEPTOR);
    shared::raise(&word, error::BATTERY_LOW);
    assert_eq!(shared::publish(&word, now, gone).bits, error::DOOR_OPENED | error::BATTERY_LOW);
    assert_eq!(shared::changes(now, gone), (0, error::COIN_ACCEPTOR));
}

#[test]
fn inhibition_is_seen_by_everybody() {
    let flag = AtomicBool::new(false);
    assert!(!is_inhibited(&flag));
    set_inhibited(&flag, true);
    assert!(is_inhibited(&flag));
}
