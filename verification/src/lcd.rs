//! HD44780 character display, driven four bits at a time.
//!
//! The read/write line is held low and never lifted, so the busy flag cannot be polled and every command is
//! followed by a delay long enough for the slowest part the boards were built with. That costs a few hundred
//! microseconds per screen, which the machine has: the display changes when a customer does something, not
//! continuously.
//!
//! What is to be done to the lines is given as a list of [`LcdOp`], and whoever holds the pins carries it out. The
//! data lines are driven one by one rather than as a port, which leaves the other pins of the port untouched.
use vstd::prelude::*;

use crate::cyrillic;

verus! {

/// The delay, in microseconds, after everything but clear and home.
pub const SHORT_US: u32 = 50;

/// The delay, in microseconds, after clear and home, which rewrite the whole of display RAM.
pub const LONG_US: u32 = 2000;

/// What is written where there is no text: a space.
pub const BLANK: u8 = 0x20;

/// One thing to do to the display's lines.
#[derive(Copy, Clone, Debug, Eq, PartialEq, Structural)]
pub enum LcdOp {
    /// Wait for so many microseconds.
    Wait {
        /// How many.
        us: u32,
    },
    /// Set the register select line: low for a command, high for a character.
    Select {
        /// Whether it goes high.
        high: bool,
    },
    /// Set the four data lines, the least significant first, and strobe them in.
    ///
    /// The enable pulse has no delay around it on purpose: the controller needs 450 ns of setup and 230 ns of
    /// hold, and at 8 MHz the surrounding pin writes are longer than that.
    Nibble {
        /// The first line.
        d4: bool,
        /// The second line.
        d5: bool,
        /// The third line.
        d6: bool,
        /// The fourth line.
        d7: bool,
    },
}

/// Put one nibble on the data lines and strobe it in.
pub open spec fn nibble_op(nibble: int) -> LcdOp {
    LcdOp::Nibble {
        d4: nibble % 2 == 1,
        d5: nibble / 2 % 2 == 1,
        d6: nibble / 4 % 2 == 1,
        d7: nibble / 8 % 2 == 1,
    }
}

/// Send a whole byte, high nibble first, and wait for it to be digested.
pub open spec fn byte_ops(byte: u8, us: u32) -> Seq<LcdOp> {
    seq![nibble_op(byte as int / 16), nibble_op(byte as int % 16), LcdOp::Wait { us }]
}

/// Send a command.
pub open spec fn command_ops(byte: u8, us: u32) -> Seq<LcdOp> {
    seq![LcdOp::Select { high: false }] + byte_ops(byte, us)
}

/// Write one character, as the display's own character set encodes it.
pub open spec fn raw_ops(byte: u8) -> Seq<LcdOp> {
    seq![LcdOp::Select { high: true }] + byte_ops(byte, SHORT_US)
}

/// Write characters, one after another.
pub open spec fn cells_ops(bytes: Seq<u8>) -> Seq<LcdOp>
    decreases bytes.len(),
{
    if bytes.len() == 0 {
        Seq::empty()
    } else {
        cells_ops(bytes.drop_last()) + raw_ops(bytes.last())
    }
}

/// The power-on sequence from the datasheet.
///
/// The three 0x3 nibbles are not redundant. The controller may come out of reset in either four-bit or eight-bit
/// mode, since after a warm restart it is whatever it was, and this sequence is the one thing that means
/// "eight-bit mode" in both. Only then is it safe to ask for four.
pub open spec fn init_ops() -> Seq<LcdOp> {
    seq![
        LcdOp::Wait { us: 50_000 },
        LcdOp::Select { high: false },
        nibble_op(0x3),
        LcdOp::Wait { us: 5_000 },
        nibble_op(0x3),
        LcdOp::Wait { us: 150 },
        nibble_op(0x3),
        LcdOp::Wait { us: 150 },
        nibble_op(0x2),
        LcdOp::Wait { us: SHORT_US },
    ] + command_ops(0x28, SHORT_US) + command_ops(0x08, SHORT_US) + command_ops(0x01, LONG_US)
        + command_ops(0x06, SHORT_US) + command_ops(0x0c, SHORT_US)
}

/// Where a cell is in display RAM, as far as a byte can tell.
///
/// The two rows are not contiguous: the second starts at 0x40.
pub open spec fn address(row: int, column: int) -> int {
    if row == 0 {
        column % 0x100
    } else {
        0x40 + column % 0x100
    }
}

/// The command that moves the cursor: its top bit set, and the address in the other seven.
pub open spec fn cursor_byte(row: int, column: int) -> u8 {
    (0x80 + address(row, column) % 0x80) as u8
}

/// What text looks like in `room` cells: the bytes its characters are drawn with, as far as they fit.
pub open spec fn cells(text: Seq<char>, room: nat) -> Seq<u8> {
    Seq::new(
        if text.len() < room {
            text.len()
        } else {
            room
        },
        |i: int| cyrillic::drawn(text[i]),
    )
}

/// What text looks like on a whole row of `columns` cells: left-aligned, with the rest of the row blanked.
pub open spec fn row_cells(text: Seq<char>, columns: nat) -> Seq<u8> {
    Seq::new(
        columns,
        |i: int|
            if i < text.len() {
                cyrillic::drawn(text[i])
            } else {
                BLANK
            },
    )
}

/// The room that is left in a row of `columns` cells from `column` on.
pub open spec fn room_from(columns: nat, column: nat) -> nat {
    if column < columns {
        (columns - column) as nat
    } else {
        0
    }
}

/// Append a nibble.
fn write_nibble(ops: &mut Vec<LcdOp>, nibble: u8)
    ensures
        final(ops)@ == old(ops)@.push(nibble_op(nibble as int)),
{
    ops.push(
        LcdOp::Nibble {
            d4: nibble % 2 == 1,
            d5: nibble / 2 % 2 == 1,
            d6: nibble / 4 % 2 == 1,
            d7: nibble / 8 % 2 == 1,
        },
    );
}

/// Append a byte.
fn write_byte(ops: &mut Vec<LcdOp>, byte: u8, us: u32)
    ensures
        final(ops)@ == old(ops)@ + byte_ops(byte, us),
{
    write_nibble(ops, byte / 16);
    write_nibble(ops, byte % 16);
    ops.push(LcdOp::Wait { us });
    assert(ops@ =~= old(ops)@ + byte_ops(byte, us));
}

/// Append a command.
fn command(ops: &mut Vec<LcdOp>, byte: u8, us: u32)
    ensures
        final(ops)@ == old(ops)@ + command_ops(byte, us),
{
    ops.push(LcdOp::Select { high: false });
    write_byte(ops, byte, us);
    assert(ops@ =~= old(ops)@ + command_ops(byte, us));
}

/// Append a character.
fn raw(ops: &mut Vec<LcdOp>, byte: u8)
    ensures
        final(ops)@ == old(ops)@ + raw_ops(byte),
{
    ops.push(LcdOp::Select { high: true });
    write_byte(ops, byte, SHORT_US);
    assert(ops@ =~= old(ops)@ + raw_ops(byte));
}

/// The display.
#[derive(Copy, Clone, Debug, Eq, PartialEq, Structural)]
pub struct Lcd {
    /// Columns per row, so that text can stop at the edge instead of wrapping into the other row's RAM.
    pub columns: usize,
}

impl Lcd {
    /// Bring the controller up.
    pub fn new(columns: usize) -> (r: (Lcd, Vec<LcdOp>))
        ensures
            r.0.columns == columns,
            r.1@ == init_ops(),
    {
        let mut ops: Vec<LcdOp> = Vec::new();
        ops.push(LcdOp::Wait { us: 50_000 });
        ops.push(LcdOp::Select { high: false });
        write_nibble(&mut ops, 0x3);
        ops.push(LcdOp::Wait { us: 5_000 });
        write_nibble(&mut ops, 0x3);
        ops.push(LcdOp::Wait { us: 150 });
        write_nibble(&mut ops, 0x3);
        ops.push(LcdOp::Wait { us: 150 });
        write_nibble(&mut ops, 0x2);
        ops.push(LcdOp::Wait { us: SHORT_US });
        // Four bits, two lines, 5x8 glyphs.
        command(&mut ops, 0x28, SHORT_US);
        // Display off while it is set up.
        command(&mut ops, 0x08, SHORT_US);
        // Clear.
        command(&mut ops, 0x01, LONG_US);
        // Advance the cursor, do not scroll.
        command(&mut ops, 0x06, SHORT_US);
        // Display on, no cursor, no blink.
        command(&mut ops, 0x0c, SHORT_US);
        assert(ops@ =~= init_ops());
        (Lcd { columns }, ops)
    }

    /// Move the cursor.
    pub fn set_cursor(&self, row: usize, column: usize) -> (ops: Vec<LcdOp>)
        requires
            address(row as int, column as int) <= 0xff,
        ensures
            ops@ == command_ops(cursor_byte(row as int, column as int), SHORT_US),
    {
        let base: u8 = if row == 0 {
            0x00
        } else {
            0x40
        };
        let at: u8 = base + (column % 0x100) as u8;
        let mut ops: Vec<LcdOp> = Vec::new();
        command(&mut ops, 0x80 + at % 0x80, SHORT_US);
        assert(ops@ =~= command_ops(cursor_byte(row as int, column as int), SHORT_US));
        ops
    }

    /// Write one character, as the display's own character set encodes it.
    pub fn write_raw(&self, byte: u8) -> (ops: Vec<LcdOp>)
        ensures
            ops@ == raw_ops(byte),
    {
        let mut ops: Vec<LcdOp> = Vec::new();
        raw(&mut ops, byte);
        assert(ops@ =~= raw_ops(byte));
        ops
    }

    /// Write text, translated into the display's character set, stopping at the right-hand edge.
    ///
    /// Returns how many cells were used, which is not the length of the text in bytes: a Cyrillic letter is two
    /// bytes of UTF-8 and one cell.
    pub fn write_str(&self, text: &str, column: usize) -> (r: (Vec<LcdOp>, usize))
        ensures
            r.0@ == cells_ops(cells(text@, room_from(self.columns as nat, column as nat))),
            r.1 == cells(text@, room_from(self.columns as nat, column as nat)).len(),
    {
        let room = self.columns.saturating_sub(column);
        let len = text.unicode_len();
        let mut ops: Vec<LcdOp> = Vec::new();
        let mut written: usize = 0;
        let ghost all = cells(text@, room as nat);
        assert(all.take(0).len() == 0);
        while written < room && written < len
            invariant
                written <= room,
                written <= len,
                len == text@.len(),
                all == cells(text@, room as nat),
                ops@ == cells_ops(all.take(written as int)),
            decreases room - written,
        {
            raw(&mut ops, cyrillic::encode_or_replacement(text.get_char(written)));
            written += 1;
            assert(all.take(written as int).drop_last() =~= all.take(written - 1));
        }
        assert(all.take(written as int) =~= all);
        (ops, written)
    }

    /// Draw one row: `text`, left-aligned, with the rest of the row blanked.
    ///
    /// Blanking is part of drawing rather than a separate clear, because clearing the whole display between
    /// screens is what makes it flicker.
    pub fn write_row(&self, row: usize, text: &str) -> (ops: Vec<LcdOp>)
        ensures
            ops@ == command_ops(cursor_byte(row as int, 0), SHORT_US) + cells_ops(
                row_cells(text@, self.columns as nat),
            ),
    {
        let mut ops = self.set_cursor(row, 0);
        let ghost cursor = ops@;
        let (mut drawn, written) = self.write_str(text, 0);
        let mut column: usize = written;
        let ghost all = row_cells(text@, self.columns as nat);
        assert(all.take(written as int) =~= cells(text@, self.columns as nat));
        while column < self.columns
            invariant
                written <= column <= self.columns,
                written == cells(text@, self.columns as nat).len(),
                all == row_cells(text@, self.columns as nat),
                drawn@ == cells_ops(all.take(column as int)),
            decreases self.columns - column,
        {
            raw(&mut drawn, BLANK);
            column += 1;
            assert(all.take(column as int).drop_last() =~= all.take(column - 1));
        }
        assert(all.take(column as int) =~= all);
        ops.append(&mut drawn);
        ops
    }
}

/// Drawing a row leaves nothing of what was there before: it writes every cell of the row, and no cell beyond it.
pub proof fn law_row_is_drawn_whole(text: Seq<char>, columns: nat)
    ensures
        row_cells(text, columns).len() == columns,
        cells_ops(row_cells(text, columns)).len() == 4 * columns,
        forall|i: int|
            0 <= i < columns ==> #[trigger] row_cells(text, columns)[i] == (if i < text.len() {
                cyrillic::drawn(text[i])
            } else {
                0x20
            }),
{
    lemma_four_per_cell(row_cells(text, columns));
}

/// Each cell takes four operations.
proof fn lemma_four_per_cell(bytes: Seq<u8>)
    ensures
        cells_ops(bytes).len() == 4 * bytes.len(),
    decreases bytes.len(),
{
    if bytes.len() > 0 {
        lemma_four_per_cell(bytes.drop_last());
    }
}

/// The rows of a display of up to 64 columns do not run into each other: every cell has an address of its own.
pub proof fn law_cells_are_apart(row: int, column: int, other_row: int, other_column: int)
    requires
        0 <= row < 2,
        0 <= other_row < 2,
        0 <= column < 0x40,
        0 <= other_column < 0x40,
        (row, column) != (other_row, other_column),
    ensures
        cursor_byte(row, column) != cursor_byte(other_row, other_column),
{
}

/// The byte that two nibbles on the data lines make, the first the higher.
pub open spec fn strobed(high: LcdOp, low: LcdOp) -> int {
    16 * lines_value(high) + lines_value(low)
}

/// The number that the data lines carry.
pub open spec fn lines_value(op: LcdOp) -> int {
    match op {
        LcdOp::Nibble { d4, d5, d6, d7 } => (if d4 {
            1int
        } else {
            0
        }) + (if d5 {
            2int
        } else {
            0
        }) + (if d6 {
            4int
        } else {
            0
        }) + (if d7 {
            8int
        } else {
            0
        }),
        _ => 0,
    }
}

/// The controller receives the byte that was sent.
pub proof fn law_byte_arrives(byte: u8, us: u32)
    ensures
        strobed(byte_ops(byte, us)[0], byte_ops(byte, us)[1]) == byte,
        byte_ops(byte, us)[2] == (LcdOp::Wait { us }),
{
}

/// The cell that each four operations fill.
pub open spec fn cell_at(ops: Seq<LcdOp>, i: int) -> int {
    strobed(ops[4 * i + 1], ops[4 * i + 2])
}

/// Characters arrive one after another: for each, the line that says so goes high, its two nibbles follow, and then there is
/// time for it to be taken.
pub proof fn law_characters_arrive(bytes: Seq<u8>, i: int)
    requires
        0 <= i < bytes.len(),
    ensures
        cells_ops(bytes).len() == 4 * bytes.len(),
        cells_ops(bytes)[4 * i] == (LcdOp::Select { high: true }),
        cell_at(cells_ops(bytes), i) == bytes[i],
        cells_ops(bytes)[4 * i + 3] == (LcdOp::Wait { us: 50 }),
    decreases bytes.len(),
{
    lemma_four_per_cell(bytes);
    lemma_four_per_cell(bytes.drop_last());
    law_byte_arrives(bytes.last(), SHORT_US);
    let front = cells_ops(bytes.drop_last());
    let last = raw_ops(bytes.last());
    assert(cells_ops(bytes) == front + last);
    if i < bytes.len() - 1 {
        law_characters_arrive(bytes.drop_last(), i);
        assert(bytes.drop_last()[i] == bytes[i]);
    } else {
        assert(last[1] == byte_ops(bytes.last(), SHORT_US)[0]);
        assert(last[2] == byte_ops(bytes.last(), SHORT_US)[1]);
    }
}

/// Text is drawn from its first character on, as far as there is room, and never beyond the edge.
pub proof fn law_text_stops_at_the_edge(text: Seq<char>, columns: nat, column: nat, i: int)
    ensures
        ({
            let drawn = cells(text, room_from(columns, column));
            &&& column < columns ==> column + drawn.len() <= columns
            &&& column >= columns ==> drawn.len() == 0
            &&& drawn.len() < text.len() ==> column + drawn.len() >= columns
            &&& drawn.len() <= text.len()
            &&& 0 <= i < drawn.len() ==> drawn[i] == cyrillic::drawn(text[i])
        }),
{
}

/// The byte that moves the cursor.
proof fn lemma_cursor_byte(row: int, column: int)
    requires
        0 <= column,
    ensures
        cursor_byte(row, column) == 128 + (column + (if row == 0 {
            0int
        } else {
            64
        })) % 128,
{
    let c = column % 0x100;
    let q = column / 0x100;
    assert(column == 0x100 * q + c);
    assert(column % 128 == c % 128);
    assert((column + 64) % 128 == (c + 64) % 128);
}

/// The cursor is moved by a command with its top bit set, to the column in the first row and 64 behind it in the second, round
/// the 128 places that there are.
pub proof fn law_cursor_goes_where_it_should(row: int, column: int)
    requires
        0 <= column,
    ensures
        ({
            let ops = command_ops(cursor_byte(row, column), SHORT_US);
            &&& ops.len() == 4
            &&& ops[0] == (LcdOp::Select { high: false })
            &&& strobed(ops[1], ops[2]) == 128 + (column + (if row == 0 {
                0int
            } else {
                64
            })) % 128
            &&& ops[3] == (LcdOp::Wait { us: 50 })
        }),
{
    let byte = cursor_byte(row, column);
    lemma_cursor_byte(row, column);
    law_byte_arrives(byte, SHORT_US);
    let ops = command_ops(byte, SHORT_US);
    assert(ops[1] == byte_ops(byte, SHORT_US)[0]);
    assert(ops[2] == byte_ops(byte, SHORT_US)[1]);
}

/// The controller is woken up three times with a three and then put into four-bit mode, each time with the pause that it needs;
/// then it is told of its two lines, switched off, cleared, told to move on after each character, and switched on.
pub proof fn law_controller_is_brought_up()
    ensures
        ({
            let ops = init_ops();
            &&& ops.len() == 30
            &&& ops[0] == (LcdOp::Wait { us: 50_000 }) && ops[1] == (LcdOp::Select { high: false })
            &&& lines_value(ops[2]) == 3 && ops[3] == (LcdOp::Wait { us: 5_000 })
            &&& lines_value(ops[4]) == 3 && ops[5] == (LcdOp::Wait { us: 150 })
            &&& lines_value(ops[6]) == 3 && ops[7] == (LcdOp::Wait { us: 150 })
            &&& lines_value(ops[8]) == 2 && ops[9] == (LcdOp::Wait { us: 50 })
            &&& strobed(ops[11], ops[12]) == 0x28 && ops[13] == (LcdOp::Wait { us: 50 })
            &&& strobed(ops[15], ops[16]) == 0x08 && ops[17] == (LcdOp::Wait { us: 50 })
            &&& strobed(ops[19], ops[20]) == 0x01 && ops[21] == (LcdOp::Wait { us: 2_000 })
            &&& strobed(ops[23], ops[24]) == 0x06 && ops[25] == (LcdOp::Wait { us: 50 })
            &&& strobed(ops[27], ops[28]) == 0x0c && ops[29] == (LcdOp::Wait { us: 50 })
        }),
{
    law_byte_arrives(0x28, SHORT_US);
    law_byte_arrives(0x08, SHORT_US);
    law_byte_arrives(0x01, LONG_US);
    law_byte_arrives(0x06, SHORT_US);
    law_byte_arrives(0x0c, SHORT_US);
}

} // verus!
