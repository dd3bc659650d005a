//! What is drawn, and how it gets to the display.
use bahilizator::cyrillic::{encode, encode_or_replacement, REPLACEMENT};
use bahilizator::error::{self, Errors};
use bahilizator::lcd::{Lcd, LcdOp};
use bahilizator::state::{Currency, Language};
use bahilizator::text::{decimal_row, hex_padded_row, Row};
use bahilizator::ui::{fault_text, format_cash, needs_redraw, render, Screen};

fn rows(screen: &Screen, language: Language) -> (String, String) {
    let (top, bottom) = render(screen, language);
    (top.as_str().to_string(), bottom.as_str().to_string())
}

/// The bytes that reach the controller, with whether they are characters.
fn bytes_sent(ops: &[LcdOp]) -> Vec<(bool, u8)> {
    let mut select = false;
    let mut nibbles: Vec<u8> = Vec::new();
    let mut out = Vec::new();
    for op in ops {
        match *op {
            LcdOp::Select { high } => select = high,
            LcdOp::Nibble { d4, d5, d6, d7 } => {
                nibbles.push(d4 as u8 + 2 * d5 as u8 + 4 * d6 as u8 + 8 * d7 as u8);
                if nibbles.len() == 2 {
                    out.push((select, 16 * nibbles[0] + nibbles[1]));
                    nibbles.clear();
                }
            }
            LcdOp::Wait { .. } => {}
        }
    }
    out
}

#[test]
fn money_is_written_with_two_places() {
    for (cash, text) in [
        (1250, "12.50 RUB"),
        (500, "5.00 RUB"),
        (5, "0.05 RUB"),
        (0, "0.00 RUB"),
        (4_294_967_295, "42949672.95 RUB"),
    ] {
        let mut row = Row::new();
        format_cash(cash, Currency::Rub, &mut row);
        assert_eq!(row.as_str(), text);
    }
}

#[test]
fn money_stops_where_the_row_is_full() {
    let mut row = Row::of("Внесено ");
    format_cash(123_456, Currency::Kzt, &mut row);
    assert_eq!(row.as_str(), "Внесено 1234.56 ");
}

#[test]
fn idle_screen_shows_the_price() {
    let screen = Screen::Idle { price: 500, currency: Currency::Rub };
    assert_eq!(rows(&screen, Language::Russian), ("Бахилы".into(), "Цена 5.00 RUB".into()));
    assert_eq!(rows(&screen, Language::English), ("Shoe covers".into(), "Price 5.00 RUB".into()));
}

#[test]
fn credit_screen_shows_what_is_missing() {
    let short = Screen::Credit { cash: 200, price: 500, currency: Currency::Byn };
    assert_eq!(rows(&short, Language::English), ("Credit 2.00 BYN".into(), "Need 3.00 BYN".into()));
    let enough = Screen::Credit { cash: 500, price: 500, currency: Currency::Rub };
    assert_eq!(rows(&enough, Language::English).1, "Press DISPENSE");
    assert_eq!(rows(&enough, Language::Russian).1, "Нажмите ВЫДАЧА");
}

#[test]
fn other_screens_have_their_wording() {
    assert_eq!(rows(&Screen::Dispensing, Language::English), ("Dispensing".into(), "Please wait...".into()));
    assert_eq!(rows(&Screen::Thanks, Language::Russian), ("Спасибо!".into(), "".into()));
    let change = Screen::TakeChange { amount: 300, currency: Currency::Rub };
    assert_eq!(rows(&change, Language::Russian), ("Возьмите сдачу".into(), "3.00 RUB".into()));
    let text = Screen::Text(Row::of("a"), Row::of("b"));
    assert_eq!(rows(&text, Language::Russian), ("a".into(), "b".into()));
}

#[test]
fn worst_fault_is_named_first() {
    let all = Errors { bits: error::ALL };
    assert_eq!(fault_text(all, Language::Russian), ("Открыта дверь", ""));
    assert_eq!(
        fault_text(Errors { bits: error::ALL & !error::DOOR_OPENED }, Language::English),
        ("Out of", "shoe covers")
    );
    assert_eq!(
        fault_text(Errors { bits: error::ITEM_DISPENSER | error::COIN_ACCEPTOR }, Language::English),
        ("Machine", "out of order")
    );
    assert_eq!(fault_text(Errors { bits: error::FIRMWARE }, Language::English), ("Firmware", "error"));
    assert_eq!(
        fault_text(Errors { bits: error::COIN_ACCEPTOR }, Language::Russian),
        ("Монетоприёмник", "неисправен")
    );
    assert_eq!(
        fault_text(Errors { bits: error::CANNOT_PAYOUT }, Language::English),
        ("No change", "Exact money only")
    );
    assert_eq!(fault_text(Errors { bits: error::COIN_HOPPER }, Language::Russian), ("Автомат", "неисправен"));
}

#[test]
fn rows_hold_sixteen_characters() {
    let mut row = Row::of("Нажмите ВЫДАЧА");
    assert_eq!(row.len(), 14);
    assert!(row.push_str("!!"));
    assert!(!row.push_str("!"));
    assert_eq!(row.as_str(), "Нажмите ВЫДАЧА!!");
    assert!(row.same(&row.copy()));
    assert!(!row.same(&Row::new()));
    assert_eq!(Row::of("seventeen letters").as_str(), "");
    assert_eq!(Row::of("😀😀😀😀😀😀😀😀😀😀😀😀😀😀😀😀").len(), 16);
}

#[test]
fn numbers_are_written_out() {
    assert_eq!(decimal_row(0).as_str(), "0");
    assert_eq!(decimal_row(4_294_967_295).as_str(), "4294967295");
    assert_eq!(hex_padded_row(0x2f, 4).as_str(), "002f");
    assert_eq!(hex_padded_row(0xdead_beef, 2).as_str(), "deadbeef");
}

#[test]
fn display_is_redrawn_only_for_something_new() {
    let rows = (Row::of("a"), Row::of("b"));
    assert!(needs_redraw(&None, &rows));
    assert!(!needs_redraw(&Some((Row::of("a"), Row::of("b"))), &rows));
    assert!(needs_redraw(&Some((Row::of("a"), Row::of("c"))), &rows));
}

#[test]
fn letters_drawn_like_latin_ones_use_their_codes() {
    for (c, byte) in [('А', 0x41), ('В', 0x42), ('Е', 0x45), ('К', 0x4b), ('М', 0x4d), ('Н', 0x48), ('Ь', 0x62)] {
        assert_eq!(encode(c), Some(byte));
    }
}

#[test]
fn other_letters_have_codes_of_their_own() {
    for (c, byte) in [('Б', 0xa0), ('Г', 0xa1), ('Ё', 0xa2), ('Э', 0xaf), ('Ю', 0xb0), ('Я', 0xb1)] {
        assert_eq!(encode(c), Some(byte));
    }
}

#[test]
fn every_letter_is_drawn_and_no_two_alike() {
    let alphabet = "АБВГДЕЁЖЗИЙКЛМНОПРСТУФХЦЧШЩЪЫЬЭЮЯабвгдеёжзийклмнопрстуфхцчшщъыьэюя";
    let mut seen = Vec::new();
    for c in alphabet.chars() {
        let byte = encode(c).unwrap();
        assert!(!seen.contains(&byte), "{}", c);
        seen.push(byte);
    }
    assert_eq!(seen.len(), 66);
}

#[test]
fn what_has_no_glyph_is_a_question_mark() {
    assert_eq!(encode('€'), None);
    assert_eq!(encode_or_replacement('€'), REPLACEMENT);
    assert_eq!(encode_or_replacement('?'), 0x3f);
    assert_eq!(encode_or_replacement('~'), 0x7e);
}

#[test]
fn controller_is_brought_up_in_four_bit_mode() {
    let (lcd, ops) = Lcd::new(16);
    assert_eq!(lcd.columns, 16);
    assert_eq!(ops[0], LcdOp::Wait { us: 50_000 });
    assert_eq!(ops[1], LcdOp::Select { high: false });
    assert_eq!(ops[2], LcdOp::Nibble { d4: true, d5: true, d6: false, d7: false });
    assert_eq!(ops[3], LcdOp::Wait { us: 5_000 });
    assert_eq!(ops[8], LcdOp::Nibble { d4: false, d5: true, d6: false, d7: false });
    let commands = bytes_sent(&ops[10..]);
    assert_eq!(
        commands,
        vec![(false, 0x28), (false, 0x08), (false, 0x01), (false, 0x06), (false, 0x0c)]
    );
    assert!(ops.contains(&LcdOp::Wait { us: 2_000 }));
    assert_eq!(ops.len(), 30);
}

#[test]
fn cursor_addresses_both_rows() {
    let lcd = Lcd { columns: 16 };
    assert_eq!(bytes_sent(&lcd.set_cursor(0, 5)), vec![(false, 0x85)]);
    assert_eq!(bytes_sent(&lcd.set_cursor(1, 5)), vec![(false, 0xc5)]);
    assert_eq!(bytes_sent(&lcd.write_raw(0xa0)), vec![(true, 0xa0)]);
}

#[test]
fn text_stops_at_the_edge() {
    let lcd = Lcd { columns: 4 };
    let (ops, cells) = lcd.write_str("Бах!", 2);
    assert_eq!(cells, 2);
    assert_eq!(bytes_sent(&ops), vec![(true, 0xa0), (true, 0x61)]);
    assert_eq!(lcd.write_str("abc", 9).1, 0);
}

#[test]
fn row_is_filled_with_blanks() {
    let lcd = Lcd { columns: 5 };
    let sent = bytes_sent(&lcd.write_row(1, "Да"));
    assert_eq!(sent[0], (false, 0xc0));
    assert_eq!(sent.len(), 6);
    assert_eq!(sent[2], (true, 0x61));
    assert!(sent[3..].iter().all(|&b| b == (true, 0x20)));
}
