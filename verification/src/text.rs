//! Text of bounded length: display rows, reports, and the numbers in them.
//!
//! Text is written piece by piece. A piece that no longer fits is left out whole, and so is everything
//! after it, so that what is there is always a beginning of what was meant.
use vstd::prelude::*;

use crate::bounded::{self, report_as_str, report_new, report_push, row_as_str, row_new, row_push};
use crate::config::LCD_COLUMNS;

verus! {

/// The character of a digit, in any base up to sixteen.
pub open spec fn digit(d: int) -> char {
    if d < 10 {
        (48 + d) as char
    } else {
        (87 + d) as char
    }
}

/// A number as people write it.
pub open spec fn decimal(n: nat) -> Seq<char>
    decreases n,
{
    if n < 10 {
        seq![digit(n as int)]
    } else {
        decimal(n / 10).push(digit((n % 10) as int))
    }
}

/// A number in base sixteen, with small letters.
pub open spec fn hexadecimal(n: nat) -> Seq<char>
    decreases n,
{
    if n < 16 {
        seq![digit(n as int)]
    } else {
        hexadecimal(n / 16).push(digit((n % 16) as int))
    }
}

/// So many noughts.
pub open spec fn noughts(n: int) -> Seq<char> {
    Seq::new(if n < 0 { 0 } else { n as nat }, |i: int| '0')
}

/// A number in base sixteen, filled up with noughts in front.
pub open spec fn hex_padded(n: nat, width: nat) -> Seq<char> {
    noughts(width - hexadecimal(n).len()) + hexadecimal(n)
}

/// Ten times itself, `k` times.
pub open spec fn pow10(k: nat) -> nat
    decreases k,
{
    if k == 0 {
        1
    } else {
        10 * pow10((k - 1) as nat)
    }
}

/// A number below ten to the `k` has at most `k` digits.
pub proof fn lemma_decimal_len(n: nat, k: nat)
    requires
        1 <= k,
        n < pow10(k),
    ensures
        1 <= decimal(n).len() <= k,
    decreases k,
{
    if n >= 10 {
        reveal_with_fuel(pow10, 2);
        lemma_decimal_len(n / 10, (k - 1) as nat);
    }
}

/// Any number that fits in 32 bits has at most ten digits.
pub proof fn lemma_decimal_len_u32(n: u32)
    ensures
        1 <= decimal(n as nat).len() <= 10,
{
    reveal_with_fuel(pow10, 11);
    lemma_decimal_len(n as nat, 10);
}

/// Any number that fits in 16 bits has at most five digits.
pub proof fn lemma_decimal_len_u16(n: u16)
    ensures
        1 <= decimal(n as nat).len() <= 5,
{
    reveal_with_fuel(pow10, 6);
    lemma_decimal_len(n as nat, 5);
}

/// Any number that fits in 32 bits has at most eight digits in base sixteen.
pub proof fn lemma_hex_len_u32(n: u32)
    ensures
        1 <= hexadecimal(n as nat).len() <= 8,
{
    reveal_with_fuel(hexadecimal, 8);
}

/// The number that digits spell, read from left to right in base ten or sixteen. Small letters follow the nine.
pub open spec fn reads(digits: Seq<char>, base: int) -> int
    decreases digits.len(),
{
    if digits.len() == 0 {
        0
    } else {
        let c = digits.last() as int;
        let front = reads(digits.drop_last(), base);
        (if base == 16 {
            16 * front
        } else {
            10 * front
        }) + (if c >= 'a' as int {
            c - 'a' as int + 10
        } else {
            c - '0' as int
        })
    }
}

/// Is a character a digit of a base?
pub open spec fn is_digit(c: char, base: int) -> bool {
    '0' <= c <= '9' || (base == 16 && 'a' <= c <= 'f')
}

/// A number that is written out reads as that number, and nothing but digits is written: no sign, no spaces, and no nought
/// in front.
pub proof fn law_decimal_reads_back(n: nat)
    ensures
        reads(decimal(n), 10) == n,
        forall|i: int| 0 <= i < decimal(n).len() ==> is_digit(#[trigger] decimal(n)[i], 10),
        decimal(n).len() >= 1,
        decimal(n)[0] == '0' ==> n == 0 && decimal(n).len() == 1,
    decreases n,
{
    if n >= 10 {
        law_decimal_reads_back(n / 10);
        let d = decimal(n);
        assert(d.drop_last() =~= decimal(n / 10));
    } else {
        assert(decimal(n).drop_last().len() == 0);
        reveal_with_fuel(reads, 2);
    }
}

/// So does a number that is written in base sixteen.
pub proof fn law_hexadecimal_reads_back(n: nat)
    ensures
        reads(hexadecimal(n), 16) == n,
        forall|i: int| 0 <= i < hexadecimal(n).len() ==> is_digit(#[trigger] hexadecimal(n)[i], 16),
        hexadecimal(n).len() >= 1,
    decreases n,
{
    if n >= 16 {
        law_hexadecimal_reads_back(n / 16);
        let d = hexadecimal(n);
        assert(d.drop_last() =~= hexadecimal(n / 16));
    } else {
        assert(hexadecimal(n).drop_last().len() == 0);
        reveal_with_fuel(reads, 2);
    }
}

/// Filled up with noughts in front, a number still reads as that number, and is at least as wide as it was to be.
pub proof fn law_padding_changes_nothing(n: nat, width: nat)
    ensures
        reads(hex_padded(n, width), 16) == n,
        hex_padded(n, width).len() >= width,
        hexadecimal(n).len() <= width ==> hex_padded(n, width).len() == width,
        forall|i: int| 0 <= i < hex_padded(n, width).len() ==> is_digit(#[trigger] hex_padded(n, width)[i], 16),
{
    law_hexadecimal_reads_back(n);
    lemma_noughts_in_front(width - hexadecimal(n).len(), hexadecimal(n));
}

/// Noughts in front do not change what digits spell.
proof fn lemma_noughts_in_front(k: int, digits: Seq<char>)
    ensures
        reads(noughts(k) + digits, 16) == reads(digits, 16),
    decreases noughts(k).len() + digits.len(),
{
    let all = noughts(k) + digits;
    if digits.len() > 0 {
        assert(all.drop_last() =~= noughts(k) + digits.drop_last());
        lemma_noughts_in_front(k, digits.drop_last());
    } else if k > 0 {
        assert(all.drop_last() =~= noughts(k - 1) + digits);
        lemma_noughts_in_front(k - 1, digits);
    } else {
        assert(all =~= digits);
    }
}

/// Text in the middle of being written.
#[verifier::ext_equal]
pub struct Typed {
    /// What is there.
    pub chars: Seq<char>,
    /// Whether everything so far has fitted.
    pub open: bool,
}

impl Typed {
    /// Text to go on from.
    pub open spec fn from(chars: Seq<char>) -> Typed {
        Typed { chars, open: true }
    }

    /// One piece more, on a row of the display: it must fit in the characters that are left.
    pub open spec fn on_row(self, piece: Seq<char>) -> Typed {
        if self.open && self.chars.len() + piece.len() <= LCD_COLUMNS {
            Typed { chars: self.chars + piece, open: true }
        } else {
            Typed { chars: self.chars, open: false }
        }
    }

    /// One piece more, in a report: it must fit in the bytes that are left.
    pub open spec fn in_report(self, piece: Seq<char>) -> Typed {
        if self.open && vstd::utf8::encode_utf8(self.chars).len() + vstd::utf8::encode_utf8(piece).len()
            <= bounded::REPORT_BYTES {
            Typed { chars: self.chars + piece, open: true }
        } else {
            Typed { chars: self.chars, open: false }
        }
    }
}

/// A character takes between one and four bytes.
pub proof fn lemma_utf8_len(chars: Seq<char>)
    ensures
        chars.len() <= vstd::utf8::encode_utf8(chars).len() <= 4 * chars.len(),
    decreases chars.len(),
{
    if chars.len() > 0 {
        lemma_utf8_len(chars.drop_first());
    }
}

/// One row of text, sized to the display: sixteen characters, whatever alphabet they are from.
#[derive(Debug)]
pub struct Row {
    text: heapless::String<64>,
}

impl View for Row {
    type V = Seq<char>;

    /// The characters of the row.
    closed spec fn view(&self) -> Seq<char> {
        bounded::row_chars(self.text)
    }
}

/// The first characters of a text, as many as the display is wide.
pub open spec fn cut(s: Seq<char>) -> Seq<char> {
    if s.len() <= LCD_COLUMNS {
        s
    } else {
        s.take(LCD_COLUMNS as int)
    }
}

impl Row {
    /// A row is no longer than the display is wide.
    #[verifier::type_invariant]
    spec fn fits_display(self) -> bool {
        self@.len() <= LCD_COLUMNS
    }

    /// An empty row.
    pub fn new() -> (row: Row)
        ensures
            row@ == Seq::<char>::empty(),
    {
        Row { text: row_new() }
    }

    /// The text of the row.
    pub fn as_str(&self) -> (s: &str)
        ensures
            s@ == self@,
            self@.len() <= LCD_COLUMNS,
    {
        proof {
            use_type_invariant(self);
        }
        row_as_str(&self.text)
    }

    /// How many characters are in the row.
    pub fn len(&self) -> (n: usize)
        ensures
            n == self@.len(),
            n <= LCD_COLUMNS,
    {
        self.as_str().unicode_len()
    }

    /// Append a piece, or leave the row as it is if there is no room for all of it.
    pub fn push_str(&mut self, piece: &str) -> (ok: bool)
        ensures
            final(self)@ == Typed::from(old(self)@).on_row(piece@).chars,
            ok == Typed::from(old(self)@).on_row(piece@).open,
    {
        proof {
            use_type_invariant(&*self);
            lemma_utf8_len(self@);
            lemma_utf8_len(piece@);
        }
        let used: usize = self.len();
        if piece.unicode_len() <= LCD_COLUMNS - used {
            row_push(&mut self.text, piece)
        } else {
            false
        }
    }

    /// Append a piece if everything before it has fitted. Returns whether everything has fitted so far.
    pub fn add(&mut self, open: bool, piece: &str) -> (still: bool)
        ensures
            ({
                let before = Typed { chars: old(self)@, open };
                &&& final(self)@ == before.on_row(piece@).chars
                &&& still == before.on_row(piece@).open
            }),
    {
        if open {
            self.push_str(piece)
        } else {
            false
        }
    }

    /// A row that holds as much of `s` as fits: all of it, or nothing.
    pub fn of(s: &str) -> (row: Row)
        ensures
            row@ == Typed::from(Seq::<char>::empty()).on_row(s@).chars,
            s@.len() <= LCD_COLUMNS ==> row@ == s@,
    {
        let mut row = Row::new();
        row.push_str(s);
        assert(Seq::<char>::empty() + s@ =~= s@);
        row
    }

    /// A row that holds the first characters of `s`, as many as the display is wide.
    pub fn cut(s: &str) -> (row: Row)
        ensures
            row@ == cut(s@),
    {
        if s.unicode_len() <= LCD_COLUMNS {
            Row::of(s)
        } else {
            let head = s.substring_char(0, LCD_COLUMNS);
            assert(head@ =~= s@.take(LCD_COLUMNS as int));
            Row::of(head)
        }
    }

    /// The same row again.
    pub fn copy(&self) -> (row: Row)
        ensures
            row@ == self@,
    {
        let s = self.as_str();
        Row::of(s)
    }

    /// Do the two rows read the same?
    pub fn same(&self, other: &Row) -> (b: bool)
        ensures
            b == (self@ == other@),
    {
        let a = self.as_str();
        let b = other.as_str();
        let len: usize = a.unicode_len();
        if len != b.unicode_len() {
            return false;
        }
        let mut i: usize = 0;
        while i < len
            invariant
                i <= len,
                len == a@.len(),
                len == b@.len(),
                a@ == self@,
                b@ == other@,
                forall|j: int| 0 <= j < i ==> #[trigger] a@[j] == b@[j],
            decreases len - i,
        {
            if a.get_char(i) != b.get_char(i) {
                return false;
            }
            i += 1;
        }
        assert(a@ =~= b@);
        true
    }
}

/// The character of a digit, as text.
fn digit_text(d: u32) -> (s: &'static str)
    requires
        d < 16,
    ensures
        s@ == seq![digit(d as int)],
{
    proof {
        reveal_strlit("0");
        reveal_strlit("1");
        reveal_strlit("2");
        reveal_strlit("3");
        reveal_strlit("4");
        reveal_strlit("5");
        reveal_strlit("6");
        reveal_strlit("7");
        reveal_strlit("8");
        reveal_strlit("9");
        reveal_strlit("a");
        reveal_strlit("b");
        reveal_strlit("c");
        reveal_strlit("d");
        reveal_strlit("e");
        reveal_strlit("f");
    }
    let s = match d {
        0 => "0",
        1 => "1",
        2 => "2",
        3 => "3",
        4 => "4",
        5 => "5",
        6 => "6",
        7 => "7",
        8 => "8",
        9 => "9",
        10 => "a",
        11 => "b",
        12 => "c",
        13 => "d",
        14 => "e",
        _ => "f",
    };
    assert(s@ =~= seq![digit(d as int)]);
    s
}

/// A number as people write it.
pub fn decimal_row(n: u32) -> (row: Row)
    ensures
        row@ == decimal(n as nat),
        1 <= row@.len() <= 10,
    decreases n,
{
    proof {
        lemma_decimal_len_u32(n);
    }
    if n < 10 {
        Row::of(digit_text(n))
    } else {
        let mut row = decimal_row(n / 10);
        row.push_str(digit_text(n % 10));
        assert(row@ =~= decimal(n as nat));
        row
    }
}

/// A number in base sixteen.
fn hex_row(n: u32) -> (row: Row)
    ensures
        row@ == hexadecimal(n as nat),
        1 <= row@.len() <= 8,
    decreases n,
{
    proof {
        lemma_hex_len_u32(n);
    }
    if n < 16 {
        Row::of(digit_text(n))
    } else {
        let mut row = hex_row(n / 16);
        row.push_str(digit_text(n % 16));
        assert(row@ =~= hexadecimal(n as nat));
        row
    }
}

/// A number in base sixteen, filled up to `width` with noughts in front.
pub fn hex_padded_row(n: u32, width: usize) -> (row: Row)
    requires
        width <= 8,
    ensures
        row@ == hex_padded(n as nat, width as nat),
        row@.len() <= 8,
{
    let digits = hex_row(n);
    let have: usize = digits.len();
    let mut row = Row::new();
    let mut i: usize = have;
    assert(row@ =~= noughts(0));
    while i < width
        invariant
            width <= 8,
            have <= i,
            i == have || i <= width,
            row@ == noughts(i - have),
        decreases width - i,
    {
        proof {
            reveal_strlit("0");
        }
        row.push_str("0");
        i += 1;
        assert(row@ =~= noughts(i - have));
    }
    assert(noughts(i - have) =~= noughts(width - have));
    row.push_str(digits.as_str());
    row
}

/// The text of a report.
#[derive(Debug)]
pub struct Report {
    text: heapless::String<768>,
}

impl View for Report {
    type V = Seq<char>;

    /// The characters of the report.
    closed spec fn view(&self) -> Seq<char> {
        bounded::report_chars(self.text)
    }
}

impl Report {
    /// An empty report.
    pub fn new() -> (report: Report)
        ensures
            report@ == Seq::<char>::empty(),
    {
        Report { text: report_new() }
    }

    /// The text of the report.
    pub fn as_str(&self) -> (s: &str)
        ensures
            s@ == self@,
    {
        report_as_str(&self.text)
    }

    /// Append a piece if everything before it has fitted. Returns whether everything has fitted so far.
    pub fn add(&mut self, open: bool, piece: &str) -> (still: bool)
        ensures
            ({
                let before = Typed { chars: old(self)@, open };
                &&& final(self)@ == before.in_report(piece@).chars
                &&& still == before.in_report(piece@).open
            }),
    {
        if open {
            report_push(&mut self.text, piece)
        } else {
            false
        }
    }
}

/// Cut to the width of the display, a text keeps its first sixteen characters, or all if there are fewer.
pub proof fn law_text_is_cut_at_the_end(s: Seq<char>)
    ensures
        cut(s).is_prefix_of(s),
        cut(s).len() == (if s.len() < 16 {
            s.len() as int
        } else {
            16
        }),
{
}

/// A piece is written on a row in full or not at all, and once one has not fitted nothing more is written.
pub proof fn law_pieces_are_whole(row: Seq<char>, open: bool, piece: Seq<char>)
    ensures
        ({
            let typed = (Typed { chars: row, open }).on_row(piece);
            &&& typed.open == (open && row.len() + piece.len() <= 16)
            &&& typed.open ==> typed.chars == row + piece
            &&& !typed.open ==> typed.chars == row
        }),
{
}

/// A piece is written in a report in full or not at all, and once one has not fitted nothing more is written. There is room for 768
/// bytes.
pub proof fn law_report_pieces_are_whole(report: Seq<char>, open: bool, piece: Seq<char>)
    ensures
        ({
            let typed = (Typed { chars: report, open }).in_report(piece);
            &&& typed.open == (open && vstd::utf8::encode_utf8(report).len() + vstd::utf8::encode_utf8(piece).len()
                <= 768)
            &&& typed.open ==> typed.chars == report + piece
            &&& !typed.open ==> typed.chars == report
        }),
{
}

} // verus!
