//! What the screen shows: the display, what the machine holds, and the end of the log.
use vstd::prelude::*;

use crate::config::{HOPPER_COUNT, LCD_COLUMNS};
use crate::error::{self, Errors};
use crate::sim::panel::{self, Panel};
use crate::sim::{self, Bench};
use crate::state::{Counters, Language};
use crate::text::{self, decimal_row, Row};
use crate::ui::{self, needs_redraw, render};

verus! {

/// How many lines of the log are shown.
pub const SHOWN_LINES: usize = 8;

/// How many different faults there are.
pub const FAULT_COUNT: u32 = 16;

/// The bit of a fault, counted from the lowest.
pub open spec fn fault_bit(i: int) -> u32 {
    if i == 0 {
        error::FIRMWARE
    } else if i == 1 {
        error::SETTINGS_VERSION
    } else if i == 2 {
        error::SETTINGS_CRC
    } else if i == 3 {
        error::STATE_VERSION
    } else if i == 4 {
        error::STATE_CRC
    } else if i == 5 {
        error::BATTERY_LOW
    } else if i == 6 {
        error::FLASH_CORRUPTED
    } else if i == 7 {
        error::NVRAM_CORRUPTED
    } else if i == 8 {
        error::COIN_ACCEPTOR
    } else if i == 9 {
        error::ITEM_DISPENSER
    } else if i == 10 {
        error::COIN_HOPPER
    } else if i == 11 {
        error::COIN_ACCEPTOR_OFF
    } else if i == 12 {
        error::ITEM_DISPENSER_EMPTY
    } else if i == 13 {
        error::COIN_HOPPER_EMPTY
    } else if i == 14 {
        error::CANNOT_PAYOUT
    } else {
        error::DOOR_OPENED
    }
}

/// The name of a fault, counted from the lowest bit.
pub open spec fn fault_name(i: int) -> Seq<char> {
    if i == 0 {
        "FIRMWARE"@
    } else if i == 1 {
        "SETTINGS_VERSION"@
    } else if i == 2 {
        "SETTINGS_CRC"@
    } else if i == 3 {
        "STATE_VERSION"@
    } else if i == 4 {
        "STATE_CRC"@
    } else if i == 5 {
        "BATTERY_LOW"@
    } else if i == 6 {
        "FLASH_CORRUPTED"@
    } else if i == 7 {
        "NVRAM_CORRUPTED"@
    } else if i == 8 {
        "COIN_ACCEPTOR"@
    } else if i == 9 {
        "ITEM_DISPENSER"@
    } else if i == 10 {
        "COIN_HOPPER"@
    } else if i == 11 {
        "COIN_ACCEPTOR_OFF"@
    } else if i == 12 {
        "ITEM_DISPENSER_EMPTY"@
    } else if i == 13 {
        "COIN_HOPPER_EMPTY"@
    } else if i == 14 {
        "CANNOT_PAYOUT"@
    } else {
        "DOOR_OPENED"@
    }
}

/// The names of the faults among the first `n` that are present, with bars between them.
pub open spec fn fault_names(faults: Errors, n: nat) -> Seq<char>
    decreases n,
{
    if n == 0 {
        Seq::empty()
    } else {
        let before = fault_names(faults, (n - 1) as nat);
        if !faults.has(fault_bit(n - 1)) {
            before
        } else if before.len() == 0 {
            before + fault_name(n - 1)
        } else {
            before + " | "@ + fault_name(n - 1)
        }
    }
}

/// A set of faults, spelled out.
pub open spec fn faults_text(faults: Errors) -> Seq<char> {
    let names = fault_names(faults, FAULT_COUNT as nat);
    "Errors("@ + (if names.len() == 0 {
        "0x0"@
    } else {
        names
    }) + ")"@
}

/// The bit and the name of a fault, counted from the lowest bit.
fn fault(i: u32) -> (r: (u32, &'static str))
    requires
        i < FAULT_COUNT,
    ensures
        r.0 == fault_bit(i as int),
        r.1@ == fault_name(i as int),
{
    match i {
        0 => (error::FIRMWARE, "FIRMWARE"),
        1 => (error::SETTINGS_VERSION, "SETTINGS_VERSION"),
        2 => (error::SETTINGS_CRC, "SETTINGS_CRC"),
        3 => (error::STATE_VERSION, "STATE_VERSION"),
        4 => (error::STATE_CRC, "STATE_CRC"),
        5 => (error::BATTERY_LOW, "BATTERY_LOW"),
        6 => (error::FLASH_CORRUPTED, "FLASH_CORRUPTED"),
        7 => (error::NVRAM_CORRUPTED, "NVRAM_CORRUPTED"),
        8 => (error::COIN_ACCEPTOR, "COIN_ACCEPTOR"),
        9 => (error::ITEM_DISPENSER, "ITEM_DISPENSER"),
        10 => (error::COIN_HOPPER, "COIN_HOPPER"),
        11 => (error::COIN_ACCEPTOR_OFF, "COIN_ACCEPTOR_OFF"),
        12 => (error::ITEM_DISPENSER_EMPTY, "ITEM_DISPENSER_EMPTY"),
        13 => (error::COIN_HOPPER_EMPTY, "COIN_HOPPER_EMPTY"),
        14 => (error::CANNOT_PAYOUT, "CANNOT_PAYOUT"),
        _ => (error::DOOR_OPENED, "DOOR_OPENED"),
    }
}

/// A set of faults, spelled out.
pub fn describe(faults: Errors) -> (s: String)
    ensures
        s@ == faults_text(faults),
{
    let mut names = String::new();
    let mut any = false;
    let mut i: u32 = 0;
    assert(names@ =~= fault_names(faults, 0));
    while i < FAULT_COUNT
        invariant
            i <= FAULT_COUNT,
            names@ == fault_names(faults, i as nat),
            any == (names@.len() > 0),
        decreases FAULT_COUNT - i,
    {
        let (bit, name) = fault(i);
        if faults.intersects(bit) {
            if any {
                names.append(" | ");
            }
            names.append(name);
            any = true;
            proof {
                lemma_fault_name(i as int);
            }
        }
        i += 1;
    }
    let mut s = "Errors(".to_owned();
    if any {
        s.append(names.as_str());
    } else {
        s.append("0x0");
    }
    s.append(")");
    s
}

/// No fault is without a name.
proof fn lemma_fault_name(i: int)
    ensures
        fault_name(i).len() > 0,
{
    reveal_strlit("FIRMWARE");
    reveal_strlit("SETTINGS_VERSION");
    reveal_strlit("SETTINGS_CRC");
    reveal_strlit("STATE_VERSION");
    reveal_strlit("STATE_CRC");
    reveal_strlit("BATTERY_LOW");
    reveal_strlit("FLASH_CORRUPTED");
    reveal_strlit("NVRAM_CORRUPTED");
    reveal_strlit("COIN_ACCEPTOR");
    reveal_strlit("ITEM_DISPENSER");
    reveal_strlit("COIN_HOPPER");
    reveal_strlit("COIN_ACCEPTOR_OFF");
    reveal_strlit("ITEM_DISPENSER_EMPTY");
    reveal_strlit("COIN_HOPPER_EMPTY");
    reveal_strlit("CANNOT_PAYOUT");
    reveal_strlit("DOOR_OPENED");
}

/// So many spaces.
pub open spec fn spaces(n: int) -> Seq<char>
    decreases n,
{
    if n <= 0 {
        Seq::empty()
    } else {
        spaces(n - 1) + " "@
    }
}

/// Append so many spaces.
fn put_spaces(s: &mut String, n: usize)
    ensures
        final(s)@ == old(s)@ + spaces(n as int),
{
    let mut i: usize = 0;
    assert(old(s)@ + spaces(0) =~= old(s)@);
    while i < n
        invariant
            i <= n,
            s@ == old(s)@ + spaces(i as int),
        decreases n - i,
    {
        s.append(" ");
        i += 1;
        assert(s@ =~= old(s)@ + spaces(i as int));
    }
}

/// A number, moved to the right in a field of `width`.
pub open spec fn right_aligned(n: nat, width: int) -> Seq<char> {
    spaces(width - text::decimal(n).len()) + text::decimal(n)
}

/// Append a number, moved to the right in a field of `width`.
fn put_number(s: &mut String, n: u32, width: usize)
    ensures
        final(s)@ == old(s)@ + right_aligned(n as nat, width as int),
{
    let digits = decimal_row(n);
    let len = digits.len();
    put_spaces(
        s,
        if len < width {
            width - len
        } else {
            0
        },
    );
    s.append(digits.as_str());
    assert(s@ =~= old(s)@ + right_aligned(n as nat, width as int));
}

/// A row of the display, with a space on either side and filled up between them.
pub open spec fn padded(row: Seq<char>) -> Seq<char> {
    " "@ + row + spaces(LCD_COLUMNS - row.len()) + " "@
}

/// Append a row of the display.
fn put_row(s: &mut String, row: &Row)
    ensures
        final(s)@ == old(s)@ + padded(row@),
{
    s.append(" ");
    s.append(row.as_str());
    put_spaces(s, LCD_COLUMNS - row.len());
    s.append(" ");
    assert(s@ =~= old(s)@ + padded(row@));
}

/// The display in its box, drawn where it has changed and stepped over where it has not.
pub open spec fn box_text(rows: (Seq<char>, Seq<char>), changed: bool) -> Seq<char> {
    if changed {
        "  ,------------------.\r\n"@ + "  |"@ + padded(rows.0) + "|\r\n"@ + "  |"@ + padded(rows.1) + "|\r\n"@
            + "  `------------------'\r\n"@
    } else {
        "\r\n\r\n\r\n\r\n"@
    }
}

/// What the machine holds.
pub open spec fn holdings_text(b: Bench) -> Seq<char> {
    "\r\n  Cash: "@ + right_aligned(b.counters.cash as nat, 6) + " kop.   Price: "@ + right_aligned(
        b.price() as nat,
        6,
    ) + " kop.   Items left: "@ + right_aligned(b.counters.item_level as nat, 4) + "   Errors: "@
        + faults_text(b.faults) + "\x1b[K\r\n"@
}

/// The stock of the first `n` hoppers.
pub open spec fn levels_text(c: Counters, n: nat) -> Seq<char>
    decreases n,
{
    if n == 0 {
        Seq::empty()
    } else {
        levels_text(c, (n - 1) as nat) + (if n == 1 {
            "hopper"@
        } else {
            ", hopper"@
        }) + text::decimal(n) + "="@ + text::decimal(c.coin_levels@[n - 1] as nat)
    }
}

/// What the keys do.
pub open spec fn help_text() -> Seq<char> {
    "  ←/→/Enter/\\=buttons  o/s/c=iButton  1-6=coins  A/S=hopper  D=dispenser  h=help  q=quit\x1b[K\r\n"@
}

/// The last lines of the log.
pub open spec fn tail_of(log: Seq<Seq<char>>) -> Seq<Seq<char>> {
    if log.len() <= SHOWN_LINES {
        log
    } else {
        log.skip(log.len() - SHOWN_LINES)
    }
}

/// Lines of the log, one under another.
pub open spec fn tail_text(lines: Seq<Seq<char>>) -> Seq<char>
    decreases lines.len(),
{
    if lines.len() == 0 {
        Seq::empty()
    } else {
        tail_text(lines.drop_last()) + "  "@ + lines.last() + "\x1b[K\r\n"@
    }
}

/// So many empty lines.
pub open spec fn empty_lines(n: int) -> Seq<char>
    decreases n,
{
    if n <= 0 {
        Seq::empty()
    } else {
        empty_lines(n - 1) + "\x1b[K\r\n"@
    }
}

/// Everything that is drawn: from the top left corner, and with everything behind it cleared.
///
/// The terminal does not turn a line feed into a carriage return, so every line ends in both.
pub open spec fn frame_text(b: Bench, rows: (Seq<char>, Seq<char>), changed: bool) -> Seq<char> {
    "\x1b[H"@ + box_text(rows, changed) + holdings_text(b) + "  Coin hoppers: "@ + levels_text(
        b.counters,
        HOPPER_COUNT as nat,
    ) + "\x1b[K\r\n\r\n"@ + help_text() + "  ---- log ----\x1b[K\r\n"@ + tail_text(tail_of(b.log))
        + empty_lines(SHOWN_LINES - tail_of(b.log).len()) + "\x1b[J"@
}

/// Append the display in its box.
fn put_box(s: &mut String, top: &Row, bottom: &Row, changed: bool)
    ensures
        final(s)@ == old(s)@ + box_text((top@, bottom@), changed),
{
    if changed {
        s.append("  ,------------------.\r\n");
        s.append("  |");
        put_row(s, top);
        s.append("|\r\n");
        s.append("  |");
        put_row(s, bottom);
        s.append("|\r\n");
        s.append("  `------------------'\r\n");
    } else {
        s.append("\r\n\r\n\r\n\r\n");
    }
    assert(s@ =~= old(s)@ + box_text((top@, bottom@), changed));
}

/// Append what the machine holds.
fn put_holdings(s: &mut String, machine: &sim::Machine)
    ensures
        final(s)@ == old(s)@ + holdings_text(machine@),
{
    s.append("\r\n  Cash: ");
    put_number(s, machine.counters.cash, 6);
    s.append(" kop.   Price: ");
    put_number(s, machine.price(), 6);
    s.append(" kop.   Items left: ");
    put_number(s, machine.counters.item_level as u32, 4);
    s.append("   Errors: ");
    s.append(describe(machine.faults).as_str());
    s.append("\x1b[K\r\n");
    assert(s@ =~= old(s)@ + holdings_text(machine@));
}

/// Append the stock of the hoppers.
fn put_levels(s: &mut String, counters: &Counters)
    ensures
        final(s)@ == old(s)@ + levels_text(*counters, HOPPER_COUNT as nat),
{
    let mut i: usize = 0;
    assert(old(s)@ + levels_text(*counters, 0) =~= old(s)@);
    while i < HOPPER_COUNT
        invariant
            i <= HOPPER_COUNT,
            s@ == old(s)@ + levels_text(*counters, i as nat),
        decreases HOPPER_COUNT - i,
    {
        if i == 0 {
            s.append("hopper");
        } else {
            s.append(", hopper");
        }
        s.append(decimal_row(i as u32 + 1).as_str());
        s.append("=");
        s.append(decimal_row(counters.coin_levels[i] as u32).as_str());
        i += 1;
        assert(s@ =~= old(s)@ + levels_text(*counters, i as nat));
    }
}

/// Append the end of the log.
fn put_log(s: &mut String, log: &Vec<String>)
    ensures
        final(s)@ == old(s)@ + tail_text(tail_of(sim::lines_of(log@))) + empty_lines(
            SHOWN_LINES - tail_of(sim::lines_of(log@)).len(),
        ),
{
    let from: usize = if log.len() <= SHOWN_LINES {
        0
    } else {
        log.len() - SHOWN_LINES
    };
    let ghost tail = tail_of(sim::lines_of(log@));
    let mut i: usize = from;
    assert(tail.take(0).len() == 0);
    assert(old(s)@ + tail_text(tail.take(0)) =~= old(s)@);
    while i < log.len()
        invariant
            from <= i <= log@.len(),
            from == (if log@.len() <= SHOWN_LINES {
                0
            } else {
                log@.len() - SHOWN_LINES
            }),
            tail == tail_of(sim::lines_of(log@)),
            s@ == old(s)@ + tail_text(tail.take(i - from)),
        decreases log@.len() - i,
    {
        let ghost before = s@;
        s.append("  ");
        s.append(log[i].as_str());
        s.append("\x1b[K\r\n");
        i += 1;
        proof {
            let n = i - from;
            assert(tail.take(n).drop_last() =~= tail.take(n - 1));
            assert(tail.take(n).last() == log@[i - 1]@);
            assert(s@ =~= old(s)@ + tail_text(tail.take(n)));
        }
    }
    assert(tail.take(i - from) =~= tail);
    let ghost told = s@;
    let missing = SHOWN_LINES - (log.len() - from);
    let mut k: usize = 0;
    assert(told + empty_lines(0) =~= told);
    while k < missing
        invariant
            k <= missing,
            s@ == told + empty_lines(k as int),
        decreases missing - k,
    {
        s.append("\x1b[K\r\n");
        k += 1;
        assert(s@ =~= told + empty_lines(k as int));
    }
}

/// What has been drawn of the display.
pub struct Terminal {
    /// The two rows that were drawn last, if any were.
    pub shown: Option<(Row, Row)>,
}

/// The two rows that the display of a machine shows.
pub open spec fn display_rows(panel: Panel) -> (Seq<char>, Seq<char>) {
    if panel.mode is Vending {
        ui::rendered(panel.screen, Language::Russian)
    } else {
        panel::rows_of(panel.mode@)
    }
}

impl Terminal {
    /// The two rows that were drawn last, if any were.
    pub open spec fn up(self) -> Option<(Seq<char>, Seq<char>)> {
        match self.shown {
            Some(rows) => Some((rows.0@, rows.1@)),
            None => None,
        }
    }

    /// Nothing has been drawn yet.
    pub fn new() -> (t: Terminal)
        ensures
            t.up() is None,
    {
        Terminal { shown: None }
    }

    /// What is to be written to the terminal to show a machine. The display is drawn only where it has changed.
    pub fn draw(&mut self, panel: &Panel) -> (out: String)
        requires
            panel.wf(),
        ensures
            out@ == frame_text(
                panel.machine@,
                display_rows(*panel),
                old(self).up() != Some(display_rows(*panel)),
            ),
            final(self).up() == Some(display_rows(*panel)),
    {
        let screen = panel.mode_screen();
        let rows = render(&screen, Language::Russian);
        assert((rows.0@, rows.1@) == display_rows(*panel));
        let changed = needs_redraw(&self.shown, &rows);
        let mut out = "\x1b[H".to_owned();
        put_box(&mut out, &rows.0, &rows.1, changed);
        put_holdings(&mut out, &panel.machine);
        out.append("  Coin hoppers: ");
        put_levels(&mut out, &panel.machine.counters);
        out.append("\x1b[K\r\n\r\n");
        out.append(
            "  ←/→/Enter/\\=buttons  o/s/c=iButton  1-6=coins  A/S=hopper  D=dispenser  h=help  q=quit\x1b[K\r\n",
        );
        out.append("  ---- log ----\x1b[K\r\n");
        put_log(&mut out, &panel.machine.log);
        out.append("\x1b[J");
        self.shown = Some(rows);
        out
    }
}

/// A number that is moved to the right is that number with spaces in front, and takes up its field, unless it is wider.
pub proof fn law_numbers_are_moved_right(n: nat, width: int)
    ensures
        ({
            let field = right_aligned(n, width);
            let digits = text::decimal(n);
            &&& field.len() == if digits.len() <= width {
                width
            } else {
                digits.len() as int
            }
            &&& field.skip(field.len() - digits.len()) == digits
            &&& forall|i: int| 0 <= i < field.len() - digits.len() ==> #[trigger] field[i] == ' '
        }),
{
    let k = width - text::decimal(n).len();
    lemma_spaces(k);
    let field = right_aligned(n, width);
    assert(field.skip(field.len() - text::decimal(n).len()) =~= text::decimal(n));
}

/// So many spaces are so many spaces.
proof fn lemma_spaces(n: int)
    ensures
        spaces(n).len() == (if n > 0 {
            n
        } else {
            0
        }),
        forall|i: int| 0 <= i < spaces(n).len() ==> #[trigger] spaces(n)[i] == ' ',
    decreases n,
{
    reveal_strlit(" ");
    if n > 0 {
        lemma_spaces(n - 1);
    }
}

/// A row of up to sixteen characters is shown from the left, in eighteen cells.
pub proof fn law_row_is_shown_whole(row: Seq<char>)
    requires
        row.len() <= 16,
    ensures
        padded(row).len() == 18,
        padded(row).subrange(1, 1 + row.len() as int) == row,
        forall|i: int| row.len() < i < 18 ==> #[trigger] padded(row)[i] == ' ',
        padded(row)[0] == ' ',
{
    reveal_strlit(" ");
    lemma_spaces(16 - row.len());
    assert(padded(row).subrange(1, 1 + row.len() as int) =~= row);
}

/// The last eight lines of the log are shown, or all if there are fewer, in order.
pub proof fn law_end_of_the_log_is_shown(log: Seq<Seq<char>>, k: int)
    requires
        0 <= k < tail_of(log).len(),
    ensures
        tail_of(log).len() == (if log.len() < 8 {
            log.len() as int
        } else {
            8
        }),
        tail_of(log)[k] == log[log.len() - tail_of(log).len() + k],
{
}

/// Every fault has a bit of its own, and each bit is that of a power of two.
pub proof fn law_faults_have_bits(i: int)
    requires
        0 <= i < 16,
    ensures
        fault_bit(i) == vstd::arithmetic::power2::pow2(i as nat),
{
    vstd::arithmetic::power2::lemma2_to64();
}

/// The faults that are spelled out are those that are present: one more name for a fault that is, behind a bar unless it is the
/// first, and nothing for one that is not.
pub proof fn law_present_faults_are_named(faults: Errors, n: nat)
    requires
        n < 16,
    ensures
        !faults.has(fault_bit(n as int)) ==> fault_names(faults, n + 1) == fault_names(faults, n),
        faults.has(fault_bit(n as int)) && (forall|i: int| 0 <= i < n ==> !faults.has(#[trigger] fault_bit(i)))
            ==> fault_names(faults, n + 1) == fault_name(n as int),
        faults.has(fault_bit(n as int)) && !(forall|i: int| 0 <= i < n ==> !faults.has(#[trigger] fault_bit(i)))
            ==> fault_names(faults, n + 1) == fault_names(faults, n) + " | "@ + fault_name(n as int),
{
    lemma_names_of_the_present(faults, n);
    assert(Seq::<char>::empty() + fault_name(n as int) =~= fault_name(n as int));
    if fault_names(faults, n).len() == 0 {
        assert(fault_names(faults, n) =~= Seq::empty());
    }
}

/// Nothing is spelled out exactly where no fault is present.
proof fn lemma_names_of_the_present(faults: Errors, n: nat)
    ensures
        fault_names(faults, n).len() == 0 <==> (forall|i: int| 0 <= i < n ==> !faults.has(#[trigger] fault_bit(i))),
    decreases n,
{
    if n > 0 {
        lemma_names_of_the_present(faults, (n - 1) as nat);
        lemma_fault_name(n - 1);
        assert(faults.has(fault_bit(n - 1)) || !faults.has(fault_bit(n - 1)));
    }
}

/// The display is drawn in its box, one row under the other, where it has changed, and stepped over, line by line, where it has
/// not.
pub proof fn law_display_is_drawn_where_it_changed(rows: (Seq<char>, Seq<char>))
    ensures
        box_text(rows, true) == "  ,------------------.\r\n"@ + "  |"@ + padded(rows.0) + "|\r\n"@ + "  |"@ + padded(
            rows.1,
        ) + "|\r\n"@ + "  `------------------'\r\n"@,
        box_text(rows, false) == "\r\n\r\n\r\n\r\n"@,
{
}

/// Every line of the log that is shown takes up one line, and so does every one that is missing.
pub proof fn law_log_is_shown_line_by_line(lines: Seq<Seq<char>>, line: Seq<char>, n: nat)
    ensures
        tail_text(Seq::empty()).len() == 0,
        tail_text(lines.push(line)) == tail_text(lines) + "  "@ + line + "\x1b[K\r\n"@,
        empty_lines(0).len() == 0,
        empty_lines((n + 1) as int) == empty_lines(n as int) + "\x1b[K\r\n"@,
{
    assert(lines.push(line).drop_last() =~= lines);
}

} // verus!
