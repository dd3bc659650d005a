//! What survives a power cut.
use bahilizator::error::{self, Errors};
use bahilizator::nvram::codec::{crc16, is_blank};
use bahilizator::nvram::event_log::{decode_event, encode_event};
use bahilizator::nvram::flash::{
    erase_segment, set_timing, wait_done, write_bytes, FlashProgram, BUSY_LIMIT, FCTL1, FCTL2, FCTL3, NVRAM_BASE,
    NVRAM_LEN, SEGMENT,
};
use bahilizator::nvram::journal::RECORDS;
use bahilizator::nvram::record::{decode_counters, encode_counters};
use bahilizator::nvram::ring::{is_newer, next_seq};
use bahilizator::nvram::{
    load_settings, save_settings, EventLog, EventLogEntry, Journal, EVENT_LOG_ENTRIES,
};
use bahilizator::report;
use bahilizator::state::{
    Accounting, AppState, Counters, Currency, EventKind, HopperSettings, IbuttonKey, Language, Settings,
};
use bahilizator::vending::restore;

fn erase(flash: &mut [u8], addr: u16) {
    let at = (addr - NVRAM_BASE) as usize / SEGMENT * SEGMENT;
    for byte in &mut flash[at..at + SEGMENT] {
        *byte = 0xff;
    }
}

fn program(flash: &mut [u8], addr: u16, data: &[u8]) {
    let at = (addr - NVRAM_BASE) as usize;
    for (i, byte) in data.iter().enumerate() {
        flash[at + i] &= byte;
    }
}

fn save(journal: &mut Journal, counters: &Counters, flash: &mut [u8]) {
    let save = journal.save(counters);
    if save.needs_erase() {
        erase(flash, save.addr());
    }
    program(flash, save.addr(), &save.bytes());
}

fn log(events: &mut EventLog, kind: EventKind, value: u32, flash: &mut [u8]) {
    let write = events.record(kind, value);
    if write.needs_erase() {
        erase(flash, write.addr());
    }
    program(flash, write.addr(), &write.bytes());
}

fn busy_counters() -> Counters {
    Counters {
        item_level: 1234,
        coin_levels: [321],
        cash: 98765,
        coins_pending: [7],
        items_pending: 2,
        free_items_pending: 1,
        app_state: AppState::PayoutReminder,
        overall: Accounting { cash_in: 1_000_000, cash_out: 2, items_dispensed: 3, items_free: 4 },
        period: Accounting { cash_in: 5, cash_out: 6, items_dispensed: 7, items_free: 8 },
        ..Counters::new()
    }
}

#[test]
fn checksum_has_its_known_value() {
    assert_eq!(crc16(b"123456789", 9), 0x29b1);
    assert_eq!(crc16(b"123456789", 0), 0xffff);
}

#[test]
fn record_comes_back_as_it_was() {
    let mut faults = Errors::empty();
    let record = encode_counters(&busy_counters(), 0xabcd);
    assert_eq!(record.len(), 64);
    assert_eq!(decode_counters(&record, &mut faults), Some((0xabcd, busy_counters())));
    assert!(faults.is_empty());
}

#[test]
fn damaged_record_is_a_fault() {
    let mut record = encode_counters(&busy_counters(), 1);
    record[20] ^= 1;
    let mut faults = Errors::empty();
    assert_eq!(decode_counters(&record, &mut faults), None);
    assert_eq!(faults.bits, error::STATE_CRC);
    let mut faults = Errors::empty();
    assert_eq!(decode_counters(&[0xff; 64], &mut faults), None);
    assert!(faults.is_empty());
}

#[test]
fn record_of_another_version_is_a_fault() {
    let counters = Counters { version: 9, ..busy_counters() };
    let mut faults = Errors::empty();
    assert_eq!(decode_counters(&encode_counters(&counters, 1), &mut faults), None);
    assert_eq!(faults.bits, error::STATE_VERSION);
}

#[test]
fn blank_region_is_a_new_machine() {
    let flash = vec![0xff; NVRAM_LEN];
    assert!(is_blank(&flash));
    let mut faults = Errors::empty();
    let (journal, counters) = Journal::open(&flash, &mut faults);
    assert_eq!(counters, Counters::new());
    assert_eq!(journal, Journal { slot: RECORDS - 1, seq: 0 });
    assert_eq!(load_settings(&flash, &mut faults), Settings::default());
    assert!(faults.is_empty());
}

#[test]
fn last_save_is_what_comes_back() {
    let mut flash = vec![0xff; NVRAM_LEN];
    let mut faults = Errors::empty();
    let (mut journal, mut counters) = Journal::open(&flash, &mut faults);
    for i in 0..200u32 {
        counters.cash = i;
        save(&mut journal, &counters, &mut flash);
        let (found, read) = Journal::open(&flash, &mut faults);
        assert_eq!((found, read), (journal, counters));
    }
    assert!(faults.is_empty());
}

#[test]
fn sequence_numbers_may_wrap() {
    let mut flash = vec![0xff; NVRAM_LEN];
    let mut journal = Journal { slot: RECORDS - 1, seq: 0xfffc };
    let mut counters = Counters::new();
    for i in 0..30 {
        counters.cash = i;
        save(&mut journal, &counters, &mut flash);
        assert_eq!(Journal::open(&flash, &mut Errors::empty()), (journal, counters));
    }
    assert_eq!(next_seq(0xffff), 0);
    assert!(is_newer(2, 0xfffe));
    assert!(!is_newer(0xfffe, 2));
    assert!(is_newer(5, 5));
}

#[test]
fn interrupted_save_gives_back_the_previous_one() {
    let mut flash = vec![0xff; NVRAM_LEN];
    let (mut journal, mut counters) = Journal::open(&flash, &mut Errors::empty());
    counters.cash = 100;
    save(&mut journal, &counters, &mut flash);
    let before = (journal, counters);
    counters.cash = 200;
    let record = journal.save(&counters);
    for words in 0..=32 {
        let mut cut = flash.clone();
        program(&mut cut, record.addr(), &record.bytes()[..2 * words]);
        let found = Journal::open(&cut, &mut Errors::empty());
        if words < 26 {
            assert_eq!((found.0.seq, found.1), (before.0.seq, before.1), "{}", words);
            assert_eq!(found.0.slot, before.0.slot + (words > 0) as u16);
        } else {
            assert_eq!(found, (journal, counters));
        }
    }
}

#[test]
fn save_after_an_interrupted_one_comes_back() {
    let mut flash = vec![0xff; NVRAM_LEN];
    let (mut journal, mut counters) = Journal::open(&flash, &mut Errors::empty());
    for done in 0..30u32 {
        for words in 0..=32 {
            let mut cut = flash.clone();
            let mut interrupted = journal;
            let record = interrupted.save(&Counters { cash: 777, ..counters });
            if record.needs_erase() {
                erase(&mut cut, record.addr());
            }
            program(&mut cut, record.addr(), &record.bytes()[..2 * words]);
            let (mut again, found) = Journal::open(&cut, &mut Errors::empty());
            assert_eq!(found.cash, if words < 26 { counters.cash } else { 777 });
            for cash in 10_000..10_030 {
                let next = Counters { cash, ..found };
                save(&mut again, &next, &mut cut);
                assert_eq!(Journal::open(&cut, &mut Errors::empty()), (again, next), "{} {}", done, words);
            }
        }
        counters.cash = done + 1;
        save(&mut journal, &counters, &mut flash);
    }
}

#[test]
fn half_written_slot_is_passed_over() {
    let mut flash = vec![0xff; NVRAM_LEN];
    let (mut journal, mut counters) = Journal::open(&flash, &mut Errors::empty());
    counters.cash = 100;
    save(&mut journal, &counters, &mut flash);
    let record = journal.save(&Counters { cash: 200, ..counters });
    program(&mut flash, record.addr(), &record.bytes()[..10]);
    let (mut journal, found) = Journal::open(&flash, &mut Errors::empty());
    assert_eq!((journal, found), (Journal { slot: 1, seq: 1 }, counters));
    counters.cash = 300;
    save(&mut journal, &counters, &mut flash);
    assert_eq!(Journal::open(&flash, &mut Errors::empty()), (Journal { slot: 2, seq: 2 }, counters));
}

#[test]
fn records_of_another_version_are_passed_over() {
    let mut flash = vec![0xff; NVRAM_LEN];
    let (mut journal, mut counters) = Journal::open(&flash, &mut Errors::empty());
    for i in 0..100u32 {
        save(&mut journal, &Counters { version: 9, cash: 1, ..counters }, &mut flash);
        if i % 3 == 0 {
            counters.cash = i;
            save(&mut journal, &counters, &mut flash);
            assert_eq!(Journal::open(&flash, &mut Errors::empty()), (journal, counters));
        }
    }
}

#[test]
fn every_changed_byte_is_noticed() {
    let record = encode_counters(&busy_counters(), 0xabcd);
    for i in 0..52 {
        for bit in 0..8 {
            let mut bytes = record.clone();
            bytes[i] ^= 1 << bit;
            assert_eq!(decode_counters(&bytes, &mut Errors::empty()), None, "{} {}", i, bit);
        }
    }
    let entry = encode_event(&EventLogEntry { seq: 0x1234, kind: EventKind::HopperPayout, value: 0xfeed_beef });
    for i in 0..9 {
        for bit in 0..8 {
            let mut bytes = entry.clone();
            bytes[i] ^= 1 << bit;
            assert_eq!(decode_event(&bytes), None, "{} {}", i, bit);
        }
    }
    let stored = save_settings(&unusual_settings()).record;
    let mut flash = vec![0xff; NVRAM_LEN];
    program(&mut flash, NVRAM_BASE, &stored);
    for i in 0..stored.len() {
        flash[i] ^= 0x10;
        let mut faults = Errors::empty();
        assert_eq!(load_settings(&flash, &mut faults), Settings::default());
        assert_eq!(faults.bits, error::SETTINGS_CRC);
        flash[i] ^= 0x10;
    }
}

#[test]
fn interrupted_settings_are_the_factorys() {
    let record = save_settings(&unusual_settings()).record;
    for words in 0..record.len() / 2 {
        let mut flash = vec![0xff; NVRAM_LEN];
        program(&mut flash, NVRAM_BASE, &record[..2 * words]);
        assert_eq!(load_settings(&flash, &mut Errors::empty()), Settings::default(), "{}", words);
    }
}

#[test]
fn settings_counters_and_journal_come_back_together() {
    let mut flash = vec![0xff; NVRAM_LEN];
    let mut faults = Errors::empty();
    let (_, mut counters, mut journal) = restore(&flash, &mut faults);
    for i in 0..30u32 {
        counters.cash = i;
        let mut settings = unusual_settings();
        settings.machine_id = i as u16;
        erase(&mut flash, NVRAM_BASE);
        program(&mut flash, NVRAM_BASE, save_settings(&settings).bytes());
        save(&mut journal, &counters, &mut flash);
        let (s, c, mut j) = restore(&flash, &mut faults);
        assert_eq!((s, c), (settings, counters));
        assert_eq!(j.save(&counters), journal.clone().save(&counters));
    }
    assert!(faults.is_empty());
    flash[SEGMENT + 20] ^= 1;
    restore(&flash, &mut faults);
    assert_eq!(faults.bits, error::STATE_CRC);
}

#[test]
fn interrupted_first_save_leaves_a_new_machine() {
    let flash = vec![0xff; NVRAM_LEN];
    let (mut journal, mut counters) = Journal::open(&flash, &mut Errors::empty());
    counters.cash = 100;
    let record = journal.save(&counters);
    assert!(record.needs_erase());
    let mut cut = flash.clone();
    program(&mut cut, record.addr(), &record.bytes()[..20]);
    let mut faults = Errors::empty();
    assert_eq!(Journal::open(&cut, &mut faults).1, Counters::new());
    assert_eq!(faults.bits, error::STATE_CRC);
}

#[test]
fn one_segment_is_erased_every_eight_saves() {
    let mut flash = vec![0xff; NVRAM_LEN];
    let mut journal = Journal { slot: RECORDS - 1, seq: 0 };
    let mut erases = 0;
    for _ in 0..48 {
        let record = journal.save(&Counters::new());
        erases += record.needs_erase() as u32;
        program(&mut flash, record.addr(), &[]);
    }
    assert_eq!(erases, 6);
    assert_eq!(Journal::slot_addr(0), NVRAM_BASE + 512);
    assert_eq!(Journal::slot_addr(23), NVRAM_BASE + 512 + 23 * 64);
}

fn unusual_settings() -> Settings {
    let mut s = Settings::default();
    s.user_language = Language::English;
    s.currency = Currency::Byn;
    s.machine_id = 4321;
    s.coin_acceptor.pulse_mode = true;
    s.coin_acceptor.channel_values = [1, 2, 3, 4, 5, 70_000];
    s.coin_hoppers[0] =
        HopperSettings { enabled: false, unit_value: 77, min_level: 1, warn_level: 2, max_level: 3 };
    s.keys[2][1] = IbuttonKey([9, 8, 7, 6, 5, 4, 3, 2]);
    s.menu_exit_timeout = 11;
    s
}

#[test]
fn settings_come_back_as_they_were() {
    let mut flash = vec![0x00; NVRAM_LEN];
    erase(&mut flash, NVRAM_BASE);
    program(&mut flash, NVRAM_BASE, save_settings(&unusual_settings()).bytes());
    let mut faults = Errors::empty();
    assert_eq!(load_settings(&flash, &mut faults), unusual_settings());
    assert!(faults.is_empty());
}

#[test]
fn damaged_settings_are_the_factorys() {
    let mut flash = vec![0xff; NVRAM_LEN];
    program(&mut flash, NVRAM_BASE, save_settings(&unusual_settings()).bytes());
    flash[5] ^= 0x10;
    let mut faults = Errors::empty();
    assert_eq!(load_settings(&flash, &mut faults), Settings::default());
    assert_eq!(faults.bits, error::SETTINGS_CRC);
}

#[test]
fn settings_of_another_version_are_the_factorys() {
    let mut flash = vec![0xff; NVRAM_LEN];
    let strange = Settings { version: 7, ..unusual_settings() };
    program(&mut flash, NVRAM_BASE, save_settings(&strange).bytes());
    let mut faults = Errors::empty();
    assert_eq!(load_settings(&flash, &mut faults), Settings::default());
    assert_eq!(faults.bits, error::SETTINGS_VERSION);
}

#[test]
fn event_comes_back_as_it_was() {
    let entry = EventLogEntry { seq: 7, kind: EventKind::ErrorRaised, value: 0x8000 };
    assert_eq!(decode_event(&encode_event(&entry)), Some(entry));
    let mut bytes = encode_event(&entry);
    bytes[3] ^= 1;
    assert_eq!(decode_event(&bytes), None);
}

#[test]
fn log_keeps_the_newest_entries_oldest_first() {
    let mut flash = vec![0xff; NVRAM_LEN];
    let mut events = EventLog::open(&flash);
    for value in 0..40 {
        log(&mut events, EventKind::Coin, value, &mut flash);
        assert_eq!(EventLog::open(&flash), events);
    }
    let nothing = EventLogEntry { seq: 0, kind: EventKind::Coin, value: 0 };
    let mut out = vec![nothing; EVENT_LOG_ENTRIES as usize];
    let n = events.read_all(&flash, &mut out);
    let values: Vec<u32> = out[..n].iter().map(|e| e.value).collect();
    let first = 40 / EVENT_LOG_ENTRIES as u32 * EVENT_LOG_ENTRIES as u32;
    assert_eq!(values, (first..40).collect::<Vec<u32>>());
    let mut two = vec![nothing; 2];
    assert_eq!(events.read_all(&flash, &mut two), 2);
    assert_eq!(two[0].value, first);
}

/// The values of all the entries that can be read, in the order in which they are read.
fn values(events: &EventLog, flash: &[u8]) -> Vec<u32> {
    let mut out = vec![EventLogEntry { seq: 0, kind: EventKind::Coin, value: 0 }; EVENT_LOG_ENTRIES as usize];
    let n = events.read_all(flash, &mut out);
    out[..n].iter().map(|e| e.value).collect()
}

#[test]
fn log_gives_back_every_entry_until_it_is_full() {
    let mut flash = vec![0xff; NVRAM_LEN];
    let mut events = EventLog::open(&flash);
    for n in 0..EVENT_LOG_ENTRIES as u32 {
        assert_eq!(values(&events, &flash), (100..100 + n).collect::<Vec<u32>>());
        log(&mut events, EventKind::Coin, 100 + n, &mut flash);
    }
    assert_eq!(values(&events, &flash), (100..132).collect::<Vec<u32>>());
}

#[test]
fn event_after_an_interrupted_one_comes_back() {
    for words in 0..=8 {
        for before in 0..40u32 {
            let mut flash = vec![0xff; NVRAM_LEN];
            let mut events = EventLog::open(&flash);
            for value in 0..before {
                log(&mut events, EventKind::Coin, value, &mut flash);
            }
            let earlier = values(&events, &flash);
            let write = events.record(EventKind::ErrorRaised, 777);
            if write.needs_erase() {
                erase(&mut flash, write.addr());
            }
            program(&mut flash, write.addr(), &write.bytes()[..2 * words]);
            let mut again = EventLog::open(&flash);
            let mut expected = if write.needs_erase() { Vec::new() } else { earlier };
            // The fifth word is half checksum, half padding: without it, the entry may be complete all the same.
            if words >= 5 || words == 4 && write.bytes()[8] == 0xff {
                expected.push(777);
            }
            assert_eq!(values(&again, &flash), expected, "{} {}", words, before);
            let wraps = again.slot == EVENT_LOG_ENTRIES - 1;
            log(&mut again, EventKind::Coin, 888, &mut flash);
            if wraps {
                expected.clear();
            }
            expected.push(888);
            assert_eq!(EventLog::open(&flash), again);
            assert_eq!(values(&again, &flash), expected, "{} {}", words, before);
        }
    }
}

#[test]
fn log_report_has_a_line_for_every_entry() {
    let mut flash = vec![0xff; NVRAM_LEN];
    let mut events = EventLog::open(&flash);
    assert_eq!(report::events(&events, &flash).as_str(), "(пусто)\n");
    log(&mut events, EventKind::Coin, 500, &mut flash);
    log(&mut events, EventKind::ServiceExited, 0, &mut flash);
    let text = report::events(&events, &flash);
    assert_eq!(text.as_str().lines().count(), 2);
}

#[test]
fn timing_generator_stays_below_its_limit() {
    assert_eq!(set_timing(8_000_000), (FCTL2, 0xa500 + 0x40 + 19));
    assert_eq!(set_timing(0), (FCTL2, 0xa540));
    assert_eq!(set_timing(100_000_000), (FCTL2, 0xa500 + 0x40 + 63));
}

#[test]
fn erase_and_write_open_and_close_the_lock() {
    let erase = erase_segment(0x3300, 8_000_000);
    assert_eq!(erase.unlock, vec![(FCTL2, 0xa553), (FCTL3, 0xa500), (FCTL1, 0xa502)]);
    assert_eq!(erase.words, vec![(0x3300, 0)]);
    assert_eq!(erase.lock, vec![(FCTL1, 0xa500), (FCTL3, 0xa510)]);
    let write = write_bytes(0x3300, &[1, 2, 3], 8_000_000);
    assert_eq!(write.unlock[2], (FCTL1, 0xa540));
    assert_eq!(write.words, vec![(0x3300, 0x0201), (0x3302, 0xff03)]);
}

/// The register writes of a program, if the controller does not finish the word written to `stuck`.
fn performed(program: &FlashProgram, stuck: Option<u16>) -> Vec<(u16, u16)> {
    let mut made = Vec::new();
    let mut run = program.start();
    let mut done = true;
    while let Some(step) = program.next(&mut run, done) {
        made.push((step.addr, step.value));
        assert_eq!(step.wait, step.addr >= NVRAM_BASE);
        done = !step.wait || stuck != Some(step.addr);
    }
    made
}

#[test]
fn writing_stops_at_the_first_word_that_does_not_take() {
    let program = write_bytes(NVRAM_BASE, &[1, 2, 3, 4, 5, 6], 8_000_000);
    let whole: Vec<(u16, u16)> =
        program.unlock.iter().chain(&program.words).chain(&program.lock).copied().collect();
    assert_eq!(performed(&program, None), whole);
    for k in 0..3usize {
        let stuck = NVRAM_BASE + 2 * k as u16;
        let cut: Vec<(u16, u16)> =
            program.unlock.iter().chain(&program.words[..k + 1]).chain(&program.lock).copied().collect();
        assert_eq!(performed(&program, Some(stuck)), cut);
    }
    assert_eq!(performed(&write_bytes(NVRAM_BASE, &[], 8_000_000), None).len(), 5);
    let erase = erase_segment(NVRAM_BASE, 8_000_000);
    assert_eq!(performed(&erase, Some(NVRAM_BASE)), performed(&erase, None));
}

#[test]
fn settings_go_to_the_start_of_the_region() {
    let write = save_settings(&unusual_settings());
    assert!(write.needs_erase());
    assert_eq!(write.addr(), 0x3100);
    assert_eq!(write.bytes().len(), 112);
    let mut flash: Vec<u8> = (0..NVRAM_LEN).map(|i| i as u8).collect();
    let before = flash.clone();
    erase(&mut flash, write.addr());
    program(&mut flash, write.addr(), write.bytes());
    assert_eq!(&flash[SEGMENT..], &before[SEGMENT..]);
    assert_eq!(load_settings(&flash, &mut Errors::empty()), unusual_settings());
}

#[test]
fn controller_that_never_finishes_is_given_up() {
    let mut faults = Errors::empty();
    assert_eq!(wait_done(0xa511, 1, &mut faults), None);
    assert_eq!(wait_done(0xa510, 1, &mut faults), Some(true));
    assert!(faults.is_empty());
    assert_eq!(wait_done(0xa511, BUSY_LIMIT, &mut faults), Some(false));
    assert_eq!(faults.bits, error::NVRAM_CORRUPTED);
}
