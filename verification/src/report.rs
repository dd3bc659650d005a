//! Turning the counters into something a person can read.
//!
//! The lines go to the display, but they are built here, apart from it, because the numbers a report
//! contains have nothing to do with how it is delivered. Sending them by modem would be a matter of handing
//! these lines to it.
use vstd::prelude::*;

use crate::config::HOPPER_COUNT;
use crate::error::Errors;
use crate::menu;
use crate::nvram::event_log::{self, EventLog, EventLogEntry, EVENT_LOG_ENTRIES};
use crate::nvram::flash::NVRAM_LEN;
use crate::state::{Accounting, Counters, Currency, EventKind, Settings};
use crate::text::{self, decimal_row, hex_padded_row, Report, Row, Typed};
use crate::ui::{self, format_cash};

verus! {

/// One line: a label and what follows it.
pub open spec fn line(label: Seq<char>, value: Seq<char>) -> Seq<char> {
    label + value + "\n"@
}

/// Money in, money out, and what was sold, over one period.
pub open spec fn accounting_lines(label: Seq<char>, a: Accounting, currency: Currency) -> Seq<char> {
    label + "\n"@ + line(" in  "@, ui::cash_text(a.cash_in, currency)) + line(
        " out "@,
        ui::cash_text(a.cash_out, currency),
    ) + line(" sold "@, text::decimal(a.items_dispensed as nat)) + line(
        " free "@,
        text::decimal(a.items_free as nat),
    )
}

/// What the machine has taken and sold.
pub open spec fn accounting_report(counters: Counters, settings: Settings) -> Seq<char> {
    line("ID "@, text::decimal(settings.machine_id as nat)) + accounting_lines(
        "TOTAL"@,
        counters.overall,
        settings.currency,
    ) + accounting_lines("PERIOD"@, counters.period, settings.currency)
}

/// What is left in the hoppers, the first `n` of them.
pub open spec fn hopper_lines(counters: Counters, n: nat) -> Seq<char>
    decreases n,
{
    if n == 0 {
        Seq::empty()
    } else {
        hopper_lines(counters, (n - 1) as nat) + line(
            "hopper"@ + text::decimal(n) + " "@,
            text::decimal(counters.coin_levels@[n - 1] as nat),
        )
    }
}

/// What is left in the machine, and what is wrong with it.
pub open spec fn state_report(counters: Counters, settings: Settings, errors: Errors) -> Seq<char> {
    line("ID "@, text::decimal(settings.machine_id as nat)) + line(
        "items "@,
        text::decimal(counters.item_level as nat),
    ) + hopper_lines(counters, HOPPER_COUNT as nat) + (if errors.bits == 0 {
        "ok\n"@
    } else {
        line("err "@, text::hex_padded(errors.bits as nat, 4))
    })
}

/// Append a piece to a report that has plenty of room left.
fn put(out: &mut Report, piece: &str)
    requires
        4 * (old(out)@.len() + piece@.len()) <= 768,
    ensures
        final(out)@ == old(out)@ + piece@,
{
    proof {
        text::lemma_utf8_len(out@);
        text::lemma_utf8_len(piece@);
    }
    let _ = out.add(true, piece);
}

/// Append one line to a report that has plenty of room left.
fn put_line(out: &mut Report, label: &str, value: &Row)
    requires
        4 * (old(out)@.len() + label@.len() + value@.len() + 1) <= 768,
    ensures
        final(out)@ == old(out)@ + line(label@, value@),
        final(out)@.len() == old(out)@.len() + label@.len() + value@.len() + 1,
{
    proof {
        reveal_strlit("\n");
    }
    put(out, label);
    put(out, value.as_str());
    put(out, "\n");
    assert(out@ =~= old(out)@ + line(label@, value@));
}

/// Money as a person reads it, on a row of its own.
fn cash_row(cash: u32, currency: Currency) -> (row: Row)
    ensures
        row@ == ui::cash_text(cash, currency),
        row@.len() <= 15,
{
    let mut row = Row::new();
    format_cash(cash, currency, &mut row);
    proof {
        ui::law_any_cash_fits_a_row(cash, currency);
    }
    row
}

/// Money in, money out, and what was sold, over one period.
fn write_accounting(out: &mut Report, label: &str, a: &Accounting, settings: &Settings)
    requires
        label@.len() <= 6,
        old(out)@.len() <= 100,
    ensures
        final(out)@ == old(out)@ + accounting_lines(label@, *a, settings.currency),
        final(out)@.len() <= old(out)@.len() + 83,
{
    proof {
        reveal_strlit("\n");
        reveal_strlit(" in  ");
        reveal_strlit(" out ");
        reveal_strlit(" sold ");
        reveal_strlit(" free ");
    }
    put(out, label);
    put(out, "\n");
    put_line(out, " in  ", &cash_row(a.cash_in, settings.currency));
    put_line(out, " out ", &cash_row(a.cash_out, settings.currency));
    put_line(out, " sold ", &decimal_row(a.items_dispensed));
    put_line(out, " free ", &decimal_row(a.items_free));
    assert(out@ =~= old(out)@ + accounting_lines(label@, *a, settings.currency));
}

/// What the machine has taken and sold.
pub fn accounting(counters: &Counters, settings: &Settings) -> (report: Report)
    ensures
        report@ == accounting_report(*counters, *settings),
{
    proof {
        reveal_strlit("ID ");
        reveal_strlit("TOTAL");
        reveal_strlit("PERIOD");
    }
    let mut out = Report::new();
    put_line(&mut out, "ID ", &decimal_row(settings.machine_id as u32));
    write_accounting(&mut out, "TOTAL", &counters.overall, settings);
    write_accounting(&mut out, "PERIOD", &counters.period, settings);
    assert(out@ =~= accounting_report(*counters, *settings));
    out
}

/// What is left in the machine, and what is wrong with it.
pub fn state(counters: &Counters, settings: &Settings, errors: Errors) -> (report: Report)
    ensures
        report@ == state_report(*counters, *settings, errors),
{
    proof {
        reveal_strlit("ID ");
        reveal_strlit("items ");
        reveal_strlit("hopper");
        reveal_strlit(" ");
        reveal_strlit("ok\n");
        reveal_strlit("err ");
    }
    let mut out = Report::new();
    put_line(&mut out, "ID ", &decimal_row(settings.machine_id as u32));
    put_line(&mut out, "items ", &decimal_row(counters.item_level as u32));
    let ghost head = out@;
    let mut i: usize = 0;
    assert(head + hopper_lines(*counters, 0) =~= head);
    while i < HOPPER_COUNT
        invariant
            i <= HOPPER_COUNT,
            head.len() <= 40,
            " "@.len() == 1,
            "hopper"@.len() == 6,
            out@ == head + hopper_lines(*counters, i as nat),
            out@.len() <= head.len() + 30 * i,
        decreases HOPPER_COUNT - i,
    {
        let ghost before = out@;
        put(&mut out, "hopper");
        put(&mut out, decimal_row((i + 1) as u32).as_str());
        put_line(&mut out, " ", &decimal_row(counters.coin_levels[i] as u32));
        i += 1;
        assert(out@ =~= before + line(
            "hopper"@ + text::decimal(i as nat) + " "@,
            text::decimal(counters.coin_levels@[i - 1] as nat),
        ));
        assert(out@ =~= head + hopper_lines(*counters, i as nat));
    }
    if errors.is_empty() {
        put(&mut out, "ok\n");
    } else {
        put_line(&mut out, "err ", &hex_padded_row(errors.bits, 4));
    }
    assert(out@ =~= state_report(*counters, *settings, errors));
    out
}

/// What kind of event an entry is about, as the report says it.
pub open spec fn kind_word(kind: EventKind) -> Seq<char> {
    match kind {
        EventKind::Coin => "coin"@,
        EventKind::ItemDispensed => "item"@,
        EventKind::HopperPayout => "payout"@,
        EventKind::ErrorRaised => "err+"@,
        EventKind::ErrorCleared => "err-"@,
        EventKind::ServiceEntered => "menu>"@,
        EventKind::ServiceExited => "menu<"@,
    }
}

/// The number after `n`, counting round.
pub open spec fn one_more(n: u32) -> nat {
    if n == u32::MAX {
        0
    } else {
        (n + 1) as nat
    }
}

/// The detail of an entry, as the report says it.
pub open spec fn event_detail(e: EventLogEntry) -> Seq<char> {
    match e.kind {
        EventKind::Coin => text::decimal(e.value as nat),
        EventKind::ItemDispensed => if e.value != 0 {
            "paid"@
        } else {
            "free"@
        },
        EventKind::HopperPayout => "#"@ + text::decimal(one_more(e.value)),
        EventKind::ErrorRaised => text::hex_padded(e.value as nat, 8),
        EventKind::ErrorCleared => text::hex_padded(e.value as nat, 8),
        EventKind::ServiceEntered => if e.value == 0 {
            "owner"@
        } else if e.value == 1 {
            "service"@
        } else {
            "collector"@
        },
        EventKind::ServiceExited => ""@,
    }
}

/// A report after one more entry: its number, its kind and its detail, as far as there is room.
pub open spec fn with_event(report: Seq<char>, e: EventLogEntry) -> Seq<char> {
    Typed::from(report).in_report(text::decimal(e.seq as nat)).in_report(" "@).in_report(
        kind_word(e.kind),
    ).in_report(" "@).in_report(event_detail(e)).in_report("\n"@).chars
}

/// A report of some entries, one line each.
pub open spec fn event_lines(entries: Seq<EventLogEntry>) -> Seq<char>
    decreases entries.len(),
{
    if entries.len() == 0 {
        Seq::empty()
    } else {
        with_event(event_lines(entries.drop_last()), entries.last())
    }
}

/// The entries of a region in the order given.
pub open spec fn entries_in(flash: Seq<u8>, order: Seq<u16>) -> Seq<EventLogEntry> {
    Seq::new(order.len(), |i: int| event_log::event_at(flash, order[i] as int)->0)
}

/// The event log as a report.
pub open spec fn events_report(entries: Seq<EventLogEntry>) -> Seq<char> {
    if entries.len() == 0 {
        "(пусто)\n"@
    } else {
        event_lines(entries)
    }
}

/// The detail of an entry.
fn detail_row(e: &EventLogEntry) -> (row: Row)
    ensures
        row@ == event_detail(*e),
{
    proof {
        reveal_strlit("paid");
        reveal_strlit("free");
        reveal_strlit("#");
        reveal_strlit("owner");
        reveal_strlit("service");
        reveal_strlit("collector");
        reveal_strlit("");
    }
    match e.kind {
        EventKind::Coin => decimal_row(e.value),
        EventKind::ItemDispensed => Row::of(if e.value != 0 {
            "paid"
        } else {
            "free"
        }),
        EventKind::HopperPayout => {
            let mut row = Row::of("#");
            row.push_str(decimal_row(e.value.wrapping_add(1)).as_str());
            row
        },
        EventKind::ErrorRaised => hex_padded_row(e.value, 8),
        EventKind::ErrorCleared => hex_padded_row(e.value, 8),
        EventKind::ServiceEntered => Row::of(if e.value == 0 {
            "owner"
        } else if e.value == 1 {
            "service"
        } else {
            "collector"
        }),
        EventKind::ServiceExited => {
            let row = Row::new();
            assert(row@ =~= ""@);
            row
        },
    }
}

/// Append one entry.
fn write_event(out: &mut Report, e: &EventLogEntry)
    ensures
        final(out)@ == with_event(old(out)@, *e),
{
    let detail = detail_row(e);
    let kind = match e.kind {
        EventKind::Coin => "coin",
        EventKind::ItemDispensed => "item",
        EventKind::HopperPayout => "payout",
        EventKind::ErrorRaised => "err+",
        EventKind::ErrorCleared => "err-",
        EventKind::ServiceEntered => "menu>",
        EventKind::ServiceExited => "menu<",
    };
    let open = out.add(true, decimal_row(e.seq as u32).as_str());
    let open = out.add(open, " ");
    let open = out.add(open, kind);
    let open = out.add(open, " ");
    let open = out.add(open, detail.as_str());
    let _ = out.add(open, "\n");
}

/// A report of some entries.
pub fn report_entries(entries: &[EventLogEntry], n: usize) -> (report: Report)
    requires
        n <= entries@.len(),
    ensures
        report@ == events_report(entries@.take(n as int)),
{
    let mut out = Report::new();
    if n == 0 {
        proof {
            reveal_strlit("(пусто)\n");
        }
        put(&mut out, "(пусто)\n");
        assert(out@ =~= "(пусто)\n"@);
        return out;
    }
    let mut i: usize = 0;
    assert(entries@.take(0) =~= Seq::empty());
    while i < n
        invariant
            i <= n <= entries@.len(),
            out@ == event_lines(entries@.take(i as int)),
        decreases n - i,
    {
        write_event(&mut out, &entries[i]);
        i += 1;
        assert(entries@.take(i as int).drop_last() =~= entries@.take(i - 1));
    }
    out
}

/// The event log, newest entry last.
///
/// One line per entry, oldest first, so that a technician reading top to bottom sees the order things
/// happened in.
pub fn events(log: &EventLog, flash: &[u8]) -> (report: Report)
    requires
        flash@.len() == NVRAM_LEN,
    ensures
        exists|order: Seq<u16>|
            #[trigger] event_log::reading_order(flash@, order) && report@ == events_report(
                entries_in(flash@, order),
            ),
{
    let nothing = EventLogEntry { seq: 0, kind: EventKind::Coin, value: 0 };
    let mut entries: Vec<EventLogEntry> = Vec::new();
    let mut i: u16 = 0;
    while i < EVENT_LOG_ENTRIES
        invariant
            i <= EVENT_LOG_ENTRIES,
            entries@.len() == i,
        decreases EVENT_LOG_ENTRIES - i,
    {
        entries.push(nothing);
        i += 1;
    }
    let ghost before = entries@;
    let n = log.read_all(flash, entries.as_mut_slice());
    proof {
        let order = choose|order: Seq<u16>|
            #[trigger] event_log::reading_order(flash@, order) && order.len() <= EVENT_LOG_ENTRIES && n
                == (if order.len() < before.len() {
                order.len() as int
            } else {
                before.len() as int
            }) && entries@ == event_log::filled(before, flash@, order);
        assert(entries@.take(n as int) =~= entries_in(flash@, order));
    }
    report_entries(entries.as_slice(), n)
}

/// One entry in full.
pub open spec fn event_line(e: EventLogEntry) -> Seq<char> {
    text::decimal(e.seq as nat) + " "@ + kind_word(e.kind) + " "@ + event_detail(e) + "\n"@
}

/// Some entries in full, one after another.
pub open spec fn event_lines_in_full(entries: Seq<EventLogEntry>) -> Seq<char>
    decreases entries.len(),
{
    if entries.len() == 0 {
        Seq::empty()
    } else {
        event_lines_in_full(entries.drop_last()) + event_line(entries.last())
    }
}

/// Digits are plain characters.
proof fn lemma_decimal_is_ascii(n: nat)
    ensures
        vstd::utf8::is_ascii_chars(text::decimal(n)),
    decreases n,
{
    if n >= 10 {
        lemma_decimal_is_ascii(n / 10);
    }
}

/// Digits are plain characters.
proof fn lemma_hexadecimal_is_ascii(n: nat)
    ensures
        vstd::utf8::is_ascii_chars(text::hexadecimal(n)),
    decreases n,
{
    if n >= 16 {
        lemma_hexadecimal_is_ascii(n / 16);
    }
}

/// The parts of a line are plain characters, and not many.
proof fn lemma_line_parts(e: EventLogEntry)
    ensures
        vstd::utf8::is_ascii_chars(text::decimal(e.seq as nat)),
        vstd::utf8::is_ascii_chars(kind_word(e.kind)),
        vstd::utf8::is_ascii_chars(event_detail(e)),
        vstd::utf8::is_ascii_chars(" "@),
        vstd::utf8::is_ascii_chars("\n"@),
        e.kind != EventKind::HopperPayout || e.value < 999_999_999 ==> event_line(e).len() <= 24,
{
    reveal_strlit(" ");
    reveal_strlit("\n");
    reveal_strlit("coin");
    reveal_strlit("item");
    reveal_strlit("payout");
    reveal_strlit("err+");
    reveal_strlit("err-");
    reveal_strlit("menu>");
    reveal_strlit("menu<");
    reveal_strlit("paid");
    reveal_strlit("free");
    reveal_strlit("#");
    reveal_strlit("owner");
    reveal_strlit("service");
    reveal_strlit("collector");
    reveal_strlit("");
    lemma_decimal_is_ascii(e.seq as nat);
    lemma_decimal_is_ascii(e.value as nat);
    lemma_decimal_is_ascii(one_more(e.value));
    lemma_hexadecimal_is_ascii(e.value as nat);
    text::lemma_decimal_len_u16(e.seq);
    text::lemma_decimal_len_u32(e.value);
    text::lemma_hex_len_u32(e.value);
    if e.value < 999_999_999 {
        reveal_with_fuel(text::pow10, 10);
        text::lemma_decimal_len(one_more(e.value), 9);
    }
}

/// A plain line that there is room for is written in full.
proof fn lemma_event_in_full(report: Seq<char>, e: EventLogEntry)
    requires
        vstd::utf8::is_ascii_chars(report),
        report.len() + event_line(e).len() <= 768,
    ensures
        with_event(report, e) == report + event_line(e),
        vstd::utf8::is_ascii_chars(with_event(report, e)),
{
    lemma_line_parts(e);
    let seq = text::decimal(e.seq as nat);
    let kind = kind_word(e.kind);
    let detail = event_detail(e);
    let r1 = report + seq;
    let r2 = r1 + " "@;
    let r3 = r2 + kind;
    let r4 = r3 + " "@;
    let r5 = r4 + detail;
    vstd::utf8::is_ascii_chars_encode_utf8(report);
    vstd::utf8::is_ascii_chars_encode_utf8(seq);
    vstd::utf8::is_ascii_chars_encode_utf8(kind);
    vstd::utf8::is_ascii_chars_encode_utf8(detail);
    vstd::utf8::is_ascii_chars_encode_utf8(" "@);
    vstd::utf8::is_ascii_chars_encode_utf8("\n"@);
    assert(vstd::utf8::is_ascii_chars(r1));
    vstd::utf8::is_ascii_chars_encode_utf8(r1);
    assert(vstd::utf8::is_ascii_chars(r2));
    vstd::utf8::is_ascii_chars_encode_utf8(r2);
    assert(vstd::utf8::is_ascii_chars(r3));
    vstd::utf8::is_ascii_chars_encode_utf8(r3);
    assert(vstd::utf8::is_ascii_chars(r4));
    vstd::utf8::is_ascii_chars_encode_utf8(r4);
    assert(vstd::utf8::is_ascii_chars(r5));
    vstd::utf8::is_ascii_chars_encode_utf8(r5);
    assert(vstd::utf8::is_ascii_chars(r5 + "\n"@));
    assert(with_event(report, e) == r5 + "\n"@);
    assert(r5 + "\n"@ =~= report + event_line(e));
}

/// The whole event log fits in a report: every entry is there in full, as long as no coin is said to have
/// come from a hopper numbered a thousand million or above.
pub proof fn law_whole_log_fits(entries: Seq<EventLogEntry>)
    requires
        entries.len() <= EVENT_LOG_ENTRIES,
        forall|i: int|
            0 <= i < entries.len() ==> (#[trigger] entries[i]).kind != EventKind::HopperPayout
                || entries[i].value < 999_999_999,
    ensures
        event_lines(entries) == event_lines_in_full(entries),
        event_lines(entries).len() <= 24 * entries.len(),
        vstd::utf8::is_ascii_chars(event_lines(entries)),
    decreases entries.len(),
{
    if entries.len() > 0 {
        let front = entries.drop_last();
        assert forall|i: int| 0 <= i < front.len() implies (#[trigger] front[i]).kind
            != EventKind::HopperPayout || front[i].value < 999_999_999 by {
            assert(front[i] == entries[i]);
        }
        law_whole_log_fits(front);
        let last = entries.last();
        assert(entries[entries.len() - 1] == last);
        lemma_line_parts(last);
        lemma_event_in_full(event_lines(front), last);
    }
}

/// A text without a line feed.
spec fn one_line(text: Seq<char>) -> bool {
    forall|i: int| 0 <= i < text.len() ==> #[trigger] text[i] != '\n'
}

/// Numbers and money have no line feeds in them.
proof fn lemma_numbers_are_one_line(n: nat, cash: u32, currency: Currency)
    ensures
        one_line(text::decimal(n)),
        one_line(text::hex_padded(n, 4)),
        one_line(ui::cash_text(cash, currency)),
{
    text::law_decimal_reads_back(n);
    assert forall|i: int| 0 <= i < text::decimal(n).len() implies #[trigger] text::decimal(n)[i] != '\n' by {
        assert(text::is_digit(text::decimal(n)[i], 10));
    }
    text::law_padding_changes_nothing(n, 4);
    let hex = text::hex_padded(n, 4);
    assert forall|i: int| 0 <= i < hex.len() implies #[trigger] hex[i] != '\n' by {
        assert(text::is_digit(hex[i], 16));
    }
    ui::law_cash_reads_as_the_amount(cash, currency);
    reveal_strlit("RUB");
    reveal_strlit("KZT");
    reveal_strlit("BYN");
    let money = ui::cash_text(cash, currency);
    let k = money.len() - 7;
    assert forall|i: int| 0 <= i < money.len() implies #[trigger] money[i] != '\n' by {
        if i < k {
            assert(text::is_digit(money[i], 10));
        } else if i >= k + 4 {
            assert(money[i] == money.skip(k + 4)[i - (k + 4)]);
        }
    }
}

/// A line of a label and a value is the first line of what it stands in front of.
proof fn lemma_line_in_front(label: Seq<char>, value: Seq<char>, rest: Seq<char>)
    requires
        one_line(label),
        one_line(value),
    ensures
        menu::lines(line(label, value) + rest) == seq![label + value] + menu::lines(rest),
{
    let all = label + value;
    assert forall|i: int| 0 <= i < all.len() implies #[trigger] all[i] != '\n' by {
        if i >= label.len() {
            assert(all[i] == value[i - label.len()]);
        } else {
            assert(all[i] == label[i]);
        }
    }
    menu::lemma_first_line(all, rest);
    assert(line(label, value) + rest =~= all + "\n"@ + rest);
}

/// What was counted over one period is five lines.
proof fn lemma_accounting_lines(label: Seq<char>, a: Accounting, currency: Currency, rest: Seq<char>)
    requires
        one_line(label),
    ensures
        menu::lines(accounting_lines(label, a, currency) + rest) == seq![
            label,
            " in  "@ + ui::cash_text(a.cash_in, currency),
            " out "@ + ui::cash_text(a.cash_out, currency),
            " sold "@ + text::decimal(a.items_dispensed as nat),
            " free "@ + text::decimal(a.items_free as nat),
        ] + menu::lines(rest),
{
    reveal_strlit(" in  ");
    reveal_strlit(" out ");
    reveal_strlit(" sold ");
    reveal_strlit(" free ");
    lemma_numbers_are_one_line(a.items_dispensed as nat, a.cash_in, currency);
    lemma_numbers_are_one_line(a.items_free as nat, a.cash_out, currency);
    let taken = ui::cash_text(a.cash_in, currency);
    let paid = ui::cash_text(a.cash_out, currency);
    let sold = text::decimal(a.items_dispensed as nat);
    let free = text::decimal(a.items_free as nat);
    let r4 = line(" free "@, free) + rest;
    let r3 = line(" sold "@, sold) + r4;
    let r2 = line(" out "@, paid) + r3;
    let r1 = line(" in  "@, taken) + r2;
    menu::lemma_first_line(label, r1);
    lemma_line_in_front(" in  "@, taken, r2);
    lemma_line_in_front(" out "@, paid, r3);
    lemma_line_in_front(" sold "@, sold, r4);
    lemma_line_in_front(" free "@, free, rest);
    assert(accounting_lines(label, a, currency) + rest =~= label + "\n"@ + r1);
    assert(menu::lines(label + "\n"@ + r1) =~= seq![
        label,
        " in  "@ + taken,
        " out "@ + paid,
        " sold "@ + sold,
        " free "@ + free,
    ] + menu::lines(rest));
}

/// What an engineer reads of the takings: the machine's number, and then what was taken, paid back, sold and given away, since
/// the machine was built and since the period began.
pub proof fn law_takings_are_reported(counters: Counters, settings: Settings)
    ensures
        menu::lines(accounting_report(counters, settings)) == seq![
            "ID "@ + text::decimal(settings.machine_id as nat),
            "TOTAL"@,
            " in  "@ + ui::cash_text(counters.overall.cash_in, settings.currency),
            " out "@ + ui::cash_text(counters.overall.cash_out, settings.currency),
            " sold "@ + text::decimal(counters.overall.items_dispensed as nat),
            " free "@ + text::decimal(counters.overall.items_free as nat),
            "PERIOD"@,
            " in  "@ + ui::cash_text(counters.period.cash_in, settings.currency),
            " out "@ + ui::cash_text(counters.period.cash_out, settings.currency),
            " sold "@ + text::decimal(counters.period.items_dispensed as nat),
            " free "@ + text::decimal(counters.period.items_free as nat),
        ],
{
    reveal_strlit("ID ");
    reveal_strlit("TOTAL");
    reveal_strlit("PERIOD");
    let id = text::decimal(settings.machine_id as nat);
    let period = accounting_lines("PERIOD"@, counters.period, settings.currency);
    let overall = accounting_lines("TOTAL"@, counters.overall, settings.currency);
    lemma_numbers_are_one_line(settings.machine_id as nat, 0, settings.currency);
    lemma_line_in_front("ID "@, id, overall + period);
    lemma_accounting_lines("TOTAL"@, counters.overall, settings.currency, period);
    lemma_accounting_lines("PERIOD"@, counters.period, settings.currency, Seq::empty());
    assert(period + Seq::<char>::empty() =~= period);
    assert(accounting_report(counters, settings) =~= line("ID "@, id) + (overall + period));
    assert(menu::lines(Seq::<char>::empty()).len() == 0);
    assert(menu::lines(accounting_report(counters, settings)) =~= seq![
        "ID "@ + id,
        "TOTAL"@,
        " in  "@ + ui::cash_text(counters.overall.cash_in, settings.currency),
        " out "@ + ui::cash_text(counters.overall.cash_out, settings.currency),
        " sold "@ + text::decimal(counters.overall.items_dispensed as nat),
        " free "@ + text::decimal(counters.overall.items_free as nat),
        "PERIOD"@,
        " in  "@ + ui::cash_text(counters.period.cash_in, settings.currency),
        " out "@ + ui::cash_text(counters.period.cash_out, settings.currency),
        " sold "@ + text::decimal(counters.period.items_dispensed as nat),
        " free "@ + text::decimal(counters.period.items_free as nat),
    ]);
}

/// What an engineer reads of the stock: the machine's number, the covers, the coins of each hopper, and either that all is well
/// or the faults, in base sixteen.
pub proof fn law_stock_is_reported(counters: Counters, settings: Settings, errors: Errors)
    ensures
        menu::lines(state_report(counters, settings, errors)) == seq![
            "ID "@ + text::decimal(settings.machine_id as nat),
            "items "@ + text::decimal(counters.item_level as nat),
            "hopper1 "@ + text::decimal(counters.coin_levels@[0] as nat),
            if errors.bits == 0 {
                "ok"@
            } else {
                "err "@ + text::hex_padded(errors.bits as nat, 4)
            },
        ],
        text::reads(text::hex_padded(errors.bits as nat, 4), 16) == errors.bits,
{
    reveal_strlit("ID ");
    reveal_strlit("items ");
    reveal_strlit("hopper");
    reveal_strlit("hopper1 ");
    reveal_strlit(" ");
    reveal_strlit("ok");
    reveal_strlit("ok\n");
    reveal_strlit("\n");
    reveal_strlit("err ");
    reveal_with_fuel(hopper_lines, 2);
    let id = text::decimal(settings.machine_id as nat);
    let items = text::decimal(counters.item_level as nat);
    let coins = text::decimal(counters.coin_levels@[0] as nat);
    let err = text::hex_padded(errors.bits as nat, 4);
    let end = if errors.bits == 0 {
        "ok"@
    } else {
        "err "@ + err
    };
    text::law_padding_changes_nothing(errors.bits as nat, 4);
    lemma_numbers_are_one_line(settings.machine_id as nat, 0, settings.currency);
    lemma_numbers_are_one_line(counters.item_level as nat, 0, settings.currency);
    lemma_numbers_are_one_line(counters.coin_levels@[0] as nat, 0, settings.currency);
    lemma_numbers_are_one_line(errors.bits as nat, 0, settings.currency);
    assert(one_line(end)) by {
        assert forall|i: int| 0 <= i < end.len() implies #[trigger] end[i] != '\n' by {
            if errors.bits != 0 && i >= 4 {
                assert(end[i] == err[i - 4]);
            }
        }
    }
    let label = "hopper"@ + text::decimal(1) + " "@;
    assert(text::decimal(1) =~= seq!['1']);
    assert(label =~= "hopper1 "@);
    let r3 = end + "\n"@ + Seq::<char>::empty();
    let r2 = line(label, coins) + r3;
    let r1 = line("items "@, items) + r2;
    menu::lemma_first_line(end, Seq::empty());
    lemma_line_in_front(label, coins, r3);
    lemma_line_in_front("items "@, items, r2);
    lemma_line_in_front("ID "@, id, r1);
    assert(state_report(counters, settings, errors) =~= line("ID "@, id) + r1);
    assert(menu::lines(Seq::<char>::empty()).len() == 0);
    assert(menu::lines(state_report(counters, settings, errors)) =~= seq![
        "ID "@ + id,
        "items "@ + items,
        "hopper1 "@ + coins,
        end,
    ]);
}

/// What is remembered reads as what happened: a coin by what it was worth, a pair by whether it was paid for, a coin of change
/// by its hopper, counted from one, a fault by its bits in base sixteen, and a visit by whose it was.
pub proof fn law_events_read_as_what_happened(e: EventLogEntry)
    ensures
        ({
            let detail = event_detail(e);
            &&& e.kind is Coin ==> text::reads(detail, 10) == e.value
            &&& e.kind is ItemDispensed ==> detail == if e.value == 0 {
                "free"@
            } else {
                "paid"@
            }
            &&& e.kind is HopperPayout && e.value < u32::MAX ==> detail[0] == '#' && text::reads(
                detail.skip(1),
                10,
            ) == e.value + 1
            &&& e.kind is ErrorRaised || e.kind is ErrorCleared ==> detail.len() == 8 && text::reads(detail, 16)
                == e.value
            &&& e.kind is ServiceEntered ==> detail == if e.value == 0 {
                "owner"@
            } else if e.value == 1 {
                "service"@
            } else {
                "collector"@
            }
            &&& e.kind is ServiceExited ==> detail.len() == 0
            &&& event_line(e).take(text::decimal(e.seq as nat).len() as int) == text::decimal(e.seq as nat)
            &&& text::reads(text::decimal(e.seq as nat), 10) == e.seq
        }),
{
    reveal_strlit("#");
    reveal_strlit("");
    text::law_decimal_reads_back(e.value as nat);
    text::law_decimal_reads_back(one_more(e.value));
    text::law_decimal_reads_back(e.seq as nat);
    text::law_padding_changes_nothing(e.value as nat, 8);
    text::lemma_hex_len_u32(e.value);
    assert(("#"@ + text::decimal(one_more(e.value))).skip(1) =~= text::decimal(one_more(e.value)));
    let number = text::decimal(e.seq as nat);
    assert(event_line(e).take(number.len() as int) =~= number);
}

} // verus!
