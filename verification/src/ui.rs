//! What the customer sees.
//!
//! The rest of the machine describes the situation, a [`Screen`], and this module decides what that looks
//! like in two rows of sixteen characters. Keeping the wording here rather than at the point each message is
//! raised means the vending logic reads as vending logic, and that adding a language is one match arm rather
//! than a search through everything.
use vstd::prelude::*;

use crate::config::LCD_COLUMNS;
use crate::error::{self, Errors};
use crate::state::{Cash, Currency, Language};
use crate::text::{self, decimal_row, Row, Typed};

verus! {

/// The situation the display is meant to convey.
#[derive(Debug)]
pub enum Screen {
    /// Nothing is happening; invite a customer.
    Idle {
        /// What a pair of covers costs.
        price: Cash,
        /// Currency to quote it in.
        currency: Currency,
    },
    /// Money is in the machine but not enough, or not yet spent.
    Credit {
        /// What the customer has put in.
        cash: Cash,
        /// What a pair costs.
        price: Cash,
        /// Currency to quote both in.
        currency: Currency,
    },
    /// Covers are being dispensed.
    Dispensing,
    /// Change is waiting in the tray.
    TakeChange {
        /// How much.
        amount: Cash,
        /// Currency to quote it in.
        currency: Currency,
    },
    /// The transaction finished.
    Thanks,
    /// The machine cannot trade.
    Fault(Errors),
    /// Two rows chosen by whoever raised them: the service menu's screens.
    Text(Row, Row),
}

impl Screen {
    /// The same screen again.
    pub fn copy(&self) -> (s: Screen)
        ensures
            same_screen(s, *self),
    {
        match self {
            Screen::Idle { price, currency } => Screen::Idle { price: *price, currency: *currency },
            Screen::Credit { cash, price, currency } => Screen::Credit {
                cash: *cash,
                price: *price,
                currency: *currency,
            },
            Screen::Dispensing => Screen::Dispensing,
            Screen::TakeChange { amount, currency } => Screen::TakeChange {
                amount: *amount,
                currency: *currency,
            },
            Screen::Thanks => Screen::Thanks,
            Screen::Fault(e) => Screen::Fault(*e),
            Screen::Text(a, b) => Screen::Text(a.copy(), b.copy()),
        }
    }
}

/// Do two screens convey the same?
pub open spec fn same_screen(a: Screen, b: Screen) -> bool {
    match (a, b) {
        (Screen::Text(a1, a2), Screen::Text(b1, b2)) => a1@ == b1@ && a2@ == b2@,
        _ => a == b,
    }
}

/// Money being written on a row: `12.50 RUB`.
pub open spec fn cash_on_row(row: Typed, cash: Cash, currency: Currency) -> Typed {
    let whole = row.on_row(text::decimal((cash / 100) as nat)).on_row("."@);
    let filled = if cash % 100 < 10 {
        whole.on_row("0"@)
    } else {
        whole
    };
    filled.on_row(text::decimal((cash % 100) as nat)).on_row(" "@).on_row(currency.name())
}

/// Money as a person reads it.
pub open spec fn cash_text(cash: Cash, currency: Currency) -> Seq<char> {
    text::decimal((cash / 100) as nat) + "."@ + (if cash % 100 < 10 {
        "0"@
    } else {
        ""@
    }) + text::decimal((cash % 100) as nat) + " "@ + currency.name()
}

/// Money as a person reads it: `12.50 RUB`.
///
/// Appended piece by piece as far as there is room.
pub fn format_cash(cash: Cash, currency: Currency, out: &mut Row)
    ensures
        final(out)@ == cash_on_row(Typed::from(old(out)@), cash, currency).chars,
{
    let whole = decimal_row(cash / 100);
    let part = decimal_row(cash % 100);
    let open = out.push_str(whole.as_str());
    let open = out.add(open, ".");
    let open = if cash % 100 < 10 {
        out.add(open, "0")
    } else {
        open
    };
    let open = out.add(open, part.as_str());
    let open = out.add(open, " ");
    let _ = out.add(open, currency.symbol());
}

/// How long money is when written out.
pub proof fn lemma_cash_len(cash: Cash, currency: Currency, k: nat)
    requires
        1 <= k <= 8,
        (cash / 100) < text::pow10(k),
    ensures
        cash_text(cash, currency).len() <= k + 7,
        cash_text(cash, currency).len() >= 8,
{
    reveal_strlit(".");
    reveal_strlit("0");
    reveal_strlit("");
    reveal_strlit(" ");
    reveal_strlit("RUB");
    reveal_strlit("KZT");
    reveal_strlit("BYN");
    reveal_with_fuel(text::pow10, 3);
    text::lemma_decimal_len((cash / 100) as nat, k);
    let part = (cash % 100) as nat;
    if part < 10 {
        text::lemma_decimal_len(part, 1);
    } else {
        text::lemma_decimal_len(part, 2);
        assert(text::decimal(part) == text::decimal(part / 10).push(text::digit((part % 10) as int)));
    }
}

/// Money is written in full wherever there is room for all of it.
pub proof fn law_cash_in_full(row: Seq<char>, cash: Cash, currency: Currency)
    requires
        row.len() + cash_text(cash, currency).len() <= LCD_COLUMNS,
    ensures
        cash_on_row(Typed::from(row), cash, currency) == Typed::from(row + cash_text(cash, currency)),
{
    reveal_strlit("");
    let whole = text::decimal((cash / 100) as nat);
    let part = text::decimal((cash % 100) as nat);
    let done = cash_on_row(Typed::from(row), cash, currency);
    assert(done.open);
    assert(done.chars =~= row + cash_text(cash, currency));
}

/// The digits of an amount: roubles, a point, and two digits of kopecks.
pub open spec fn amount_digits(cash: Cash) -> Seq<char> {
    let text = cash_text(cash, Currency::Rub);
    text.take(text.len() - 4)
}

/// What a person reads is the amount: whole units, then a point and exactly two digits of hundredths, then a space and the
/// currency.
pub proof fn law_cash_reads_as_the_amount(cash: Cash, currency: Currency)
    ensures
        ({
            let text = cash_text(cash, currency);
            let n = text.len() - 7;
            &&& n >= 1
            &&& text::reads(text.take(n), 10) == cash / 100
            &&& forall|i: int| 0 <= i < n ==> text::is_digit(#[trigger] text[i], 10)
            &&& text[n] == '.'
            &&& text::is_digit(text[n + 1], 10) && text::is_digit(text[n + 2], 10)
            &&& text::reads(text.subrange(n + 1, n + 3), 10) == cash % 100
            &&& text[n + 3] == ' '
            &&& text.skip(n + 4) == (match currency {
                Currency::Rub => "RUB"@,
                Currency::Kzt => "KZT"@,
                Currency::Byn => "BYN"@,
            })
            &&& amount_digits(cash) == text.take(n + 3)
        }),
{
    reveal_strlit(".");
    reveal_strlit("0");
    reveal_strlit("");
    reveal_strlit(" ");
    reveal_strlit("RUB");
    reveal_strlit("KZT");
    reveal_strlit("BYN");
    reveal_with_fuel(text::pow10, 3);
    let whole = text::decimal((cash / 100) as nat);
    let part = (cash % 100) as nat;
    let hundredths = (if part < 10 {
        "0"@
    } else {
        ""@
    }) + text::decimal(part);
    text::law_decimal_reads_back((cash / 100) as nat);
    text::law_decimal_reads_back(part);
    if part < 10 {
        text::lemma_decimal_len(part, 1);
        assert(hundredths.drop_last() =~= "0"@);
        assert("0"@.drop_last().len() == 0);
        assert(text::decimal(part).drop_last().len() == 0);
        reveal_with_fuel(text::reads, 3);
    } else {
        text::lemma_decimal_len(part, 2);
        assert(text::decimal(part) == text::decimal(part / 10).push(text::digit((part % 10) as int)));
        assert(hundredths =~= text::decimal(part));
    }
    let name = currency.name();
    let text = cash_text(cash, currency);
    assert(text =~= whole + "."@ + hundredths + " "@ + name);
    let n = whole.len() as int;
    assert(text.take(n) =~= whole);
    assert(text.subrange(n + 1, n + 3) =~= hundredths);
    assert(text.skip(n + 4) =~= name);
    assert(forall|i: int| 0 <= i < n ==> text[i] == whole[i]);
    assert(text[n + 1] == hundredths[0] && text[n + 2] == hundredths[1]);
    let roubles = cash_text(cash, Currency::Rub);
    assert(roubles.take(roubles.len() - 4) =~= text.take(n + 3)) by {
        assert(roubles =~= whole + "."@ + hundredths + " "@ + Currency::Rub.name());
    }
}

/// An amount behind a label is written as far as it fits, and from its front: what is on the row is always a beginning of
/// the label and the amount, and where there is room for the digits, they are all there.
#[verifier::rlimit(40)]
proof fn lemma_amount_behind_label(label: Seq<char>, cash: Cash, currency: Currency)
    requires
        label.len() <= LCD_COLUMNS,
    ensures
        ({
            let row = cash_on_row(Typed::from(label), cash, currency).chars;
            &&& row.is_prefix_of(label + cash_text(cash, currency))
            &&& label.is_prefix_of(row)
            &&& label.len() + amount_digits(cash).len() <= LCD_COLUMNS ==> (label + amount_digits(
                cash,
            )).is_prefix_of(row)
        }),
{
    reveal_strlit(".");
    reveal_strlit("0");
    reveal_strlit("");
    reveal_strlit(" ");
    reveal_strlit("RUB");
    let whole = text::decimal((cash / 100) as nat);
    let part = text::decimal((cash % 100) as nat);
    let zero = if cash % 100 < 10 {
        "0"@
    } else {
        ""@
    };
    let t0 = Typed::from(label);
    let t1 = t0.on_row(whole);
    let t2 = t1.on_row("."@);
    let t3 = if cash % 100 < 10 {
        t2.on_row("0"@)
    } else {
        t2
    };
    let t4 = t3.on_row(part);
    let t5 = t4.on_row(" "@);
    let t6 = t5.on_row(currency.name());
    let name = currency.name();
    let full = label + cash_text(cash, currency);
    assert(full =~= label + whole + "."@ + zero + part + " "@ + name);
    assert(t1.open ==> t1.chars =~= label + whole);
    assert(t2.open ==> t2.chars =~= label + whole + "."@);
    assert(t3.open ==> t3.chars =~= label + whole + "."@ + zero);
    assert(t4.open ==> t4.chars =~= label + whole + "."@ + zero + part);
    assert(t5.open ==> t5.chars =~= label + whole + "."@ + zero + part + " "@);
    assert(t6.open ==> t6.chars =~= full);
    let roubles = cash_text(cash, Currency::Rub);
    assert(roubles =~= whole + "."@ + zero + part + " "@ + "RUB"@);
    assert(amount_digits(cash) =~= whole + "."@ + zero + part);
    if label.len() + amount_digits(cash).len() <= LCD_COLUMNS {
        assert(t4.open);
        assert(t4.chars =~= label + amount_digits(cash));
        assert(t4.chars.is_prefix_of(t5.chars));
        assert(t5.chars.is_prefix_of(t6.chars));
    }
}

/// How many digits an amount takes.
proof fn lemma_amount_len(cash: Cash, k: nat)
    requires
        1 <= k <= 8,
        (cash / 100) < text::pow10(k),
    ensures
        amount_digits(cash).len() <= k + 3,
{
    reveal_strlit("RUB");
    lemma_cash_len(cash, Currency::Rub, k);
}

/// The customer reads the amounts that matter, whatever the language: the price, what they have put in, what is still
/// missing, which is the price less what they have put in, and what change to take. Each is written behind its label as
/// far as it fits, so that what is on the row is always a beginning of the whole; and the digits are all there for a price of
/// any size in Russian and below a hundred thousand roubles in English, for a credit below a hundred thousand and a
/// million, and for what is missing below a thousand and of any size.
#[verifier::rlimit(40)]
pub proof fn law_customer_reads_the_amounts(cash: Cash, price: Cash, currency: Currency)
    ensures
        ({
            let idle = Screen::Idle { price, currency };
            let ru = rendered(idle, Language::Russian);
            let en = rendered(idle, Language::English);
            &&& ru.0 == "Бахилы"@ && en.0 == "Shoe covers"@
            &&& ru.1.is_prefix_of("Цена "@ + cash_text(price, currency))
            &&& ("Цена "@ + amount_digits(price)).is_prefix_of(ru.1)
            &&& en.1.is_prefix_of("Price "@ + cash_text(price, currency))
            &&& "Price "@.is_prefix_of(en.1)
            &&& price < 1_000_000_000 ==> ("Price "@ + amount_digits(price)).is_prefix_of(en.1)
        }),
        ({
            let credit = Screen::Credit { cash, price, currency };
            let ru = rendered(credit, Language::Russian);
            let en = rendered(credit, Language::English);
            &&& ru.0.is_prefix_of("Внесено "@ + cash_text(cash, currency))
            &&& "Внесено "@.is_prefix_of(ru.0)
            &&& cash < 10_000_000 ==> ("Внесено "@ + amount_digits(cash)).is_prefix_of(ru.0)
            &&& en.0.is_prefix_of("Credit "@ + cash_text(cash, currency))
            &&& "Credit "@.is_prefix_of(en.0)
            &&& cash < 100_000_000 ==> ("Credit "@ + amount_digits(cash)).is_prefix_of(en.0)
            &&& cash >= price ==> ru.1 == "Нажмите ВЫДАЧА"@ && en.1 == "Press DISPENSE"@
            &&& cash < price ==> {
                let missing = (price - cash) as Cash;
                &&& ru.1.is_prefix_of("Нужно ещё "@ + cash_text(missing, currency))
                &&& "Нужно ещё "@.is_prefix_of(ru.1)
                &&& missing < 100_000 ==> ("Нужно ещё "@ + amount_digits(missing)).is_prefix_of(ru.1)
                &&& en.1.is_prefix_of("Need "@ + cash_text(missing, currency))
                &&& ("Need "@ + amount_digits(missing)).is_prefix_of(en.1)
            }
        }),
        ({
            let change = Screen::TakeChange { amount: cash, currency };
            &&& rendered(change, Language::Russian) == ("Возьмите сдачу"@, cash_text(cash, currency))
            &&& rendered(change, Language::English) == ("Take your change"@, cash_text(cash, currency))
        }),
{
    reveal_strlit("Цена ");
    reveal_strlit("Price ");
    reveal_strlit("Внесено ");
    reveal_strlit("Credit ");
    reveal_strlit("Need ");
    reveal_strlit("Нужно ещё ");
    reveal_with_fuel(text::pow10, 9);
    lemma_amount_len(price, 8);
    lemma_amount_behind_label("Цена "@, price, currency);
    lemma_amount_behind_label("Price "@, price, currency);
    if price < 1_000_000_000 {
        lemma_amount_len(price, 7);
    }
    lemma_amount_behind_label("Внесено "@, cash, currency);
    lemma_amount_behind_label("Credit "@, cash, currency);
    if cash < 100_000_000 {
        lemma_amount_len(cash, 6);
    }
    if cash < 10_000_000 {
        lemma_amount_len(cash, 5);
    }
    if cash < price {
        let missing = (price - cash) as Cash;
        lemma_amount_len(missing, 8);
        lemma_amount_behind_label("Нужно ещё "@, missing, currency);
        lemma_amount_behind_label("Need "@, missing, currency);
        if missing < 100_000 {
            lemma_amount_len(missing, 3);
        }
    }
}

/// The messages without an amount, in both languages.
pub proof fn law_messages_in_both_languages()
    ensures
        rendered(Screen::Dispensing, Language::Russian) == ("Выдача"@, "Подождите..."@),
        rendered(Screen::Dispensing, Language::English) == ("Dispensing"@, "Please wait..."@),
        rendered(Screen::Thanks, Language::Russian).0 == "Спасибо!"@,
        rendered(Screen::Thanks, Language::English).0 == "Thank you!"@,
        rendered(Screen::Thanks, Language::Russian).1.len() == 0,
        rendered(Screen::Thanks, Language::English).1.len() == 0,
        forall|top: Row, bottom: Row, language: Language| #[trigger]
            rendered(Screen::Text(top, bottom), language) == (top@, bottom@),
{
}

/// Of several faults the most serious is named: an open door before everything, then an empty dispenser, a broken
/// dispenser, the firmware, the acceptor, and that there is no change.
pub proof fn law_worst_fault_is_named(errors: Errors, language: Language)
    ensures
        ({
            let rows = rendered(Screen::Fault(errors), language);
            let ru = language == Language::Russian;
            let door = errors.has(0x8000);
            let empty = !door && errors.has(0x1000);
            let broken = !door && !errors.has(0x1000) && errors.has(0x0200);
            let firmware = !door && !errors.has(0x1200) && errors.has(0x0001);
            let acceptor = !door && !errors.has(0x1201) && errors.has(0x0100);
            let change = !door && !errors.has(0x1301) && errors.has(0x4000);
            &&& door ==> rows == (if ru { ("Открыта дверь"@, ""@) } else { ("Door open"@, ""@) })
            &&& empty ==> rows == (if ru { ("Бахилы"@, "закончились"@) } else { ("Out of"@, "shoe covers"@) })
            &&& broken ==> rows == (if ru { ("Автомат"@, "неисправен"@) } else { ("Machine"@, "out of order"@) })
            &&& firmware ==> rows == (if ru { ("Ошибка"@, "прошивки"@) } else { ("Firmware"@, "error"@) })
            &&& acceptor ==> rows == (if ru {
                ("Монетоприёмник"@, "неисправен"@)
            } else {
                ("Coin acceptor"@, "fault"@)
            })
            &&& change ==> rows == (if ru { ("Нет сдачи"@, "Без сдачи"@) } else { ("No change"@, "Exact money only"@) })
            &&& !door && !errors.has(0x5301) ==> rows == (if ru {
                ("Автомат"@, "неисправен"@)
            } else {
                ("Machine"@, "out of order"@)
            })
        }),
{
    let b = errors.bits;
    assert((b & 0x1200 != 0 <==> b & 0x1000 != 0 || b & 0x0200 != 0) && (b & 0x1201 != 0 <==> b & 0x1000
        != 0 || b & 0x0200 != 0 || b & 0x0001 != 0) && (b & 0x1301 != 0 <==> b & 0x1000 != 0 || b & 0x0200
        != 0 || b & 0x0001 != 0 || b & 0x0100 != 0) && (b & 0x5301 != 0 <==> b & 0x1000 != 0 || b & 0x0200
        != 0 || b & 0x0001 != 0 || b & 0x0100 != 0 || b & 0x4000 != 0)) by (bit_vector);
}

/// Any amount of money at all fits on a row of its own.
pub proof fn law_any_cash_fits_a_row(cash: Cash, currency: Currency)
    ensures
        cash_text(cash, currency).len() <= 15,
        cash_on_row(Typed::from(Seq::empty()), cash, currency) == Typed::from(cash_text(cash, currency)),
{
    reveal_with_fuel(text::pow10, 9);
    lemma_cash_len(cash, currency, 8);
    law_cash_in_full(Seq::empty(), cash, currency);
    assert(Seq::<char>::empty() + cash_text(cash, currency) =~= cash_text(cash, currency));
}

/// What to say about the worst thing wrong.
pub open spec fn fault_wording(errors: Errors, language: Language) -> (Seq<char>, Seq<char>) {
    let russian = language == Language::Russian;
    if errors.has(error::DOOR_OPENED) {
        if russian { ("Открыта дверь"@, ""@) } else { ("Door open"@, ""@) }
    } else if errors.has(error::ITEM_DISPENSER_EMPTY) {
        if russian { ("Бахилы"@, "закончились"@) } else { ("Out of"@, "shoe covers"@) }
    } else if errors.has(error::ITEM_DISPENSER) {
        if russian { ("Автомат"@, "неисправен"@) } else { ("Machine"@, "out of order"@) }
    } else if errors.has(error::FIRMWARE) {
        if russian { ("Ошибка"@, "прошивки"@) } else { ("Firmware"@, "error"@) }
    } else if errors.has(error::COIN_ACCEPTOR) {
        if russian { ("Монетоприёмник"@, "неисправен"@) } else { ("Coin acceptor"@, "fault"@) }
    } else if errors.has(error::CANNOT_PAYOUT) {
        if russian { ("Нет сдачи"@, "Без сдачи"@) } else { ("No change"@, "Exact money only"@) }
    } else if russian {
        ("Автомат"@, "неисправен"@)
    } else {
        ("Machine"@, "out of order"@)
    }
}

/// What to say about the worst thing currently wrong.
///
/// One fault at a time, most serious first. A display that cycled through every fault would be unreadable,
/// and the one that stops the machine trading is the one worth acting on.
pub fn fault_text(errors: Errors, language: Language) -> (rows: (&'static str, &'static str))
    ensures
        (rows.0@, rows.1@) == fault_wording(errors, language),
        rows.0@.len() <= LCD_COLUMNS,
        rows.1@.len() <= LCD_COLUMNS,
{
    proof {
        let b = errors.bits;
        assert(b & 0x8000 == 0x8000 <==> b & 0x8000 != 0) by (bit_vector);
        assert(b & 0x1000 == 0x1000 <==> b & 0x1000 != 0) by (bit_vector);
        assert(b & 0x0200 == 0x0200 <==> b & 0x0200 != 0) by (bit_vector);
        assert(b & 0x0001 == 0x0001 <==> b & 0x0001 != 0) by (bit_vector);
        assert(b & 0x0100 == 0x0100 <==> b & 0x0100 != 0) by (bit_vector);
        assert(b & 0x4000 == 0x4000 <==> b & 0x4000 != 0) by (bit_vector);
        reveal_strlit("");
        reveal_strlit("Открыта дверь");
        reveal_strlit("Door open");
        reveal_strlit("Бахилы");
        reveal_strlit("закончились");
        reveal_strlit("Out of");
        reveal_strlit("shoe covers");
        reveal_strlit("Автомат");
        reveal_strlit("неисправен");
        reveal_strlit("Machine");
        reveal_strlit("out of order");
        reveal_strlit("Ошибка");
        reveal_strlit("прошивки");
        reveal_strlit("Firmware");
        reveal_strlit("error");
        reveal_strlit("Монетоприёмник");
        reveal_strlit("Coin acceptor");
        reveal_strlit("fault");
        reveal_strlit("Нет сдачи");
        reveal_strlit("Без сдачи");
        reveal_strlit("No change");
        reveal_strlit("Exact money only");
    }
    let russian = language == Language::Russian;
    if errors.contains(error::DOOR_OPENED) {
        if russian { ("Открыта дверь", "") } else { ("Door open", "") }
    } else if errors.contains(error::ITEM_DISPENSER_EMPTY) {
        if russian { ("Бахилы", "закончились") } else { ("Out of", "shoe covers") }
    } else if errors.contains(error::ITEM_DISPENSER) {
        if russian { ("Автомат", "неисправен") } else { ("Machine", "out of order") }
    } else if errors.contains(error::FIRMWARE) {
        if russian { ("Ошибка", "прошивки") } else { ("Firmware", "error") }
    } else if errors.contains(error::COIN_ACCEPTOR) {
        if russian { ("Монетоприёмник", "неисправен") } else { ("Coin acceptor", "fault") }
    } else if errors.contains(error::CANNOT_PAYOUT) {
        if russian { ("Нет сдачи", "Без сдачи") } else { ("No change", "Exact money only") }
    } else if russian {
        ("Автомат", "неисправен")
    } else {
        ("Machine", "out of order")
    }
}

/// The two rows a screen is drawn as.
pub open spec fn rendered(screen: Screen, language: Language) -> (Seq<char>, Seq<char>) {
    let russian = language == Language::Russian;
    match screen {
        Screen::Idle { price, currency } => (
            if russian { "Бахилы"@ } else { "Shoe covers"@ },
            cash_on_row(
                Typed::from(if russian { "Цена "@ } else { "Price "@ }),
                price,
                currency,
            ).chars,
        ),
        Screen::Credit { cash, price, currency } => (
            cash_on_row(
                Typed::from(if russian { "Внесено "@ } else { "Credit "@ }),
                cash,
                currency,
            ).chars,
            if cash < price {
                cash_on_row(
                    Typed::from(if russian { "Нужно ещё "@ } else { "Need "@ }),
                    (price - cash) as Cash,
                    currency,
                ).chars
            } else if russian {
                "Нажмите ВЫДАЧА"@
            } else {
                "Press DISPENSE"@
            },
        ),
        Screen::Dispensing => (
            if russian { "Выдача"@ } else { "Dispensing"@ },
            if russian { "Подождите..."@ } else { "Please wait..."@ },
        ),
        Screen::TakeChange { amount, currency } => (
            if russian { "Возьмите сдачу"@ } else { "Take your change"@ },
            cash_text(amount, currency),
        ),
        Screen::Thanks => (if russian { "Спасибо!"@ } else { "Thank you!"@ }, Seq::empty()),
        Screen::Fault(errors) => fault_wording(errors, language),
        Screen::Text(a, b) => (a@, b@),
    }
}

/// Turn a screen into the two rows to draw.
pub fn render(screen: &Screen, language: Language) -> (rows: (Row, Row))
    ensures
        (rows.0@, rows.1@) == rendered(*screen, language),
{
    proof {
        reveal_strlit("Бахилы");
        reveal_strlit("Shoe covers");
        reveal_strlit("Цена ");
        reveal_strlit("Price ");
        reveal_strlit("Внесено ");
        reveal_strlit("Credit ");
        reveal_strlit("Нужно ещё ");
        reveal_strlit("Need ");
        reveal_strlit("Нажмите ВЫДАЧА");
        reveal_strlit("Press DISPENSE");
        reveal_strlit("Выдача");
        reveal_strlit("Dispensing");
        reveal_strlit("Подождите...");
        reveal_strlit("Please wait...");
        reveal_strlit("Возьмите сдачу");
        reveal_strlit("Take your change");
        reveal_strlit("Спасибо!");
        reveal_strlit("Thank you!");
    }
    let russian = language == Language::Russian;
    match screen {
        Screen::Idle { price, currency } => {
            let top = Row::of(if russian { "Бахилы" } else { "Shoe covers" });
            let mut bottom = Row::of(if russian { "Цена " } else { "Price " });
            format_cash(*price, *currency, &mut bottom);
            (top, bottom)
        },
        Screen::Credit { cash, price, currency } => {
            let mut top = Row::of(if russian { "Внесено " } else { "Credit " });
            format_cash(*cash, *currency, &mut top);
            if *cash < *price {
                let mut bottom = Row::of(if russian { "Нужно ещё " } else { "Need " });
                format_cash(*price - *cash, *currency, &mut bottom);
                (top, bottom)
            } else {
                (top, Row::of(if russian { "Нажмите ВЫДАЧА" } else { "Press DISPENSE" }))
            }
        },
        Screen::Dispensing => (
            Row::of(if russian { "Выдача" } else { "Dispensing" }),
            Row::of(if russian { "Подождите..." } else { "Please wait..." }),
        ),
        Screen::TakeChange { amount, currency } => {
            let top = Row::of(if russian { "Возьмите сдачу" } else { "Take your change" });
            let mut bottom = Row::new();
            format_cash(*amount, *currency, &mut bottom);
            proof {
                law_any_cash_fits_a_row(*amount, *currency);
            }
            (top, bottom)
        },
        Screen::Thanks => (Row::of(if russian { "Спасибо!" } else { "Thank you!" }), Row::new()),
        Screen::Fault(errors) => {
            let (a, b) = fault_text(*errors, language);
            (Row::of(a), Row::of(b))
        },
        Screen::Text(a, b) => (a.copy(), b.copy()),
    }
}

/// Must the display be redrawn to show `rows`, if `shown` is what is up?
///
/// Redrawing what is already up would blink the display for no reason: the enable strobe walks the cursor
/// across every cell whether the byte changed or not.
pub fn needs_redraw(shown: &Option<(Row, Row)>, rows: &(Row, Row)) -> (b: bool)
    ensures
        b == !(shown matches Some(up) && up.0@ == rows.0@ && up.1@ == rows.1@),
{
    match shown {
        Some(up) => !(up.0.same(&rows.0) && up.1.same(&rows.1)),
        None => true,
    }
}

/// Amounts are shown in full, in their currency, as long as they are not unusually large: a price below ten
/// thousand in Russian and below a thousand in English, a credit below ten and below a hundred, and in
/// English what is still needed below ten thousand.
pub proof fn law_amounts_in_full(cash: Cash, price: Cash, currency: Currency)
    ensures
        cash < 1_000_000 ==> rendered((Screen::Idle { price: cash, currency }), Language::Russian).1
            == "Цена "@ + cash_text(cash, currency),
        cash < 100_000 ==> rendered((Screen::Idle { price: cash, currency }), Language::English).1
            == "Price "@ + cash_text(cash, currency),
        cash < 1_000 ==> rendered((Screen::Credit { cash, price, currency }), Language::Russian).0
            == "Внесено "@ + cash_text(cash, currency),
        cash < 10_000 ==> rendered((Screen::Credit { cash, price, currency }), Language::English).0
            == "Credit "@ + cash_text(cash, currency),
        cash < price < cash + 1_000_000 ==> rendered(
            (Screen::Credit { cash, price, currency }),
            Language::English,
        ).1 == "Need "@ + cash_text((price - cash) as Cash, currency),
{
    reveal_strlit("Цена ");
    reveal_strlit("Price ");
    reveal_strlit("Внесено ");
    reveal_strlit("Credit ");
    reveal_strlit("Need ");
    reveal_with_fuel(text::pow10, 5);
    if cash < 1_000_000 {
        lemma_cash_len(cash, currency, 4);
        law_cash_in_full("Цена "@, cash, currency);
    }
    if cash < 100_000 {
        lemma_cash_len(cash, currency, 3);
        law_cash_in_full("Price "@, cash, currency);
    }
    if cash < 1_000 {
        lemma_cash_len(cash, currency, 1);
        law_cash_in_full("Внесено "@, cash, currency);
    }
    if cash < 10_000 {
        lemma_cash_len(cash, currency, 2);
        law_cash_in_full("Credit "@, cash, currency);
    }
    if cash < price < cash + 1_000_000 {
        lemma_cash_len((price - cash) as Cash, currency, 4);
        law_cash_in_full("Need "@, (price - cash) as Cash, currency);
    }
}

} // verus!
