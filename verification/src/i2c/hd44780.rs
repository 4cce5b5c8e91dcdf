//! The display's side of the wires: what reaches the HD44780 when the
//! operations of the driver are carried out.
//!
//! The port of the display's expander is taken to read back as it was last
//! written. The display takes the lines in whenever Enable falls.

use vstd::prelude::*;
use super::lcd1602::{
    backspace_once_ops, clear_display_ops, command_nibble_ops, data_lines, data_nibble_ops,
    glyph_ops, high_nibble, idle_nibble_ops, init_ops, low_nibble, lower, newline_ops,
    pulse_enable_ops, raise, repeated, set_4bit_2line_mode_ops, set_autoincrement_ops,
    set_cursor_ops, shift_once_ops, write_char_ops, write_string_ops, write_u32_ops,
    write_u8_ops, digit_code, Direction, MASK_ALL,
    MASK_D4, MASK_D5, MASK_D6, MASK_D7, MASK_EN, MASK_NONE, MASK_PWR, MASK_RS, PW_EH_IN_US,
    T_AS_IN_US, T_CYCE_IN_US, T_RCC_IN_MS,
};
use super::{
    bits_cleared, bits_set, port_read, port_write, reads_in, reads_port, transcript, Action,
    MCP23008Register, Operation, I2C_ADDR_LCD,
};

verus! {

/// The port of the display's expander after `op`, when it held `port`
/// before.
pub open spec fn port_after(port: u8, op: Operation) -> u8 {
    match op {
        Operation::SetBits { address, mask } => if address == I2C_ADDR_LCD {
            bits_set(port, mask)
        } else {
            port
        },
        Operation::ClearBits { address, mask } => if address == I2C_ADDR_LCD {
            bits_cleared(port, mask)
        } else {
            port
        },
        Operation::RegisterWrite { address, register, value } => if address == I2C_ADDR_LCD
            && register == MCP23008Register::GPIO {
            value
        } else {
            port
        },
        _ => port,
    }
}

/// The port of the display's expander after `ops`, when it held `port`
/// before.
pub open spec fn port_after_all(port: u8, ops: Seq<Operation>) -> u8
    decreases ops.len(),
{
    if ops.len() == 0 {
        port
    } else {
        port_after(port_after_all(port, ops.drop_last()), ops.last())
    }
}

/// Whether Enable is low.
pub open spec fn enable_low(port: u8) -> bool {
    port & MASK_EN == 0
}

/// What the display takes in when the port goes from `before` to `after`:
/// `before`, if Enable falls.
pub open spec fn taken_at(before: u8, after: u8) -> Seq<u8> {
    if !enable_low(before) && enable_low(after) {
        seq![before]
    } else {
        Seq::empty()
    }
}

/// The port values that the display takes in while `ops` are carried out,
/// when the port held `port` before: one for each time that Enable falls.
pub open spec fn latched(port: u8, ops: Seq<Operation>) -> Seq<u8>
    decreases ops.len(),
{
    if ops.len() == 0 {
        Seq::empty()
    } else {
        let before = port_after_all(port, ops.drop_last());
        latched(port, ops.drop_last()) + taken_at(before, port_after(before, ops.last()))
    }
}

/// The state of the supply switch in `port`, all other lines low.
pub open spec fn supply(port: u8) -> u8 {
    port & MASK_PWR
}

/// The port at the moment the display takes in a nibble: the supply switch
/// as in `supply`, Enable high, Register-Select as `rs` says, and the data
/// lines of `lines` high.
pub open spec fn strobe(supply: u8, rs: bool, lines: u8) -> u8 {
    supply | MASK_EN | (if rs { MASK_RS } else { MASK_NONE }) | lines
}

/// The port after a nibble was taken in: as at that moment, with Enable low.
pub open spec fn rest(supply: u8, rs: bool, lines: u8) -> u8 {
    supply | (if rs { MASK_RS } else { MASK_NONE }) | lines
}

/// Whether `lines` holds data lines only.
pub open spec fn data_only(lines: u8) -> bool {
    lines & !(MASK_D4 | MASK_D5 | MASK_D6 | MASK_D7) == 0
}

/// What the display takes in for the character with the code `code`: two
/// nibbles of data, the high one first.
pub open spec fn char_strobes(supply: u8, code: u32) -> Seq<u8> {
    seq![
        strobe(supply, true, data_lines(high_nibble(code))),
        strobe(supply, true, data_lines(low_nibble(code))),
    ]
}

/// What the display takes in for one character of a text: the character, or
/// for a line break the two nibbles of the command 0xC0.
pub open spec fn glyph_strobes(supply: u8, c: char) -> Seq<u8> {
    if c == '\n' {
        seq![strobe(supply, false, MASK_D6 | MASK_D7), strobe(supply, false, MASK_NONE)]
    } else {
        char_strobes(supply, c as u32)
    }
}

/// What the display takes in for `text`.
pub open spec fn text_strobes(supply: u8, text: Seq<char>) -> Seq<u8>
    decreases text.len(),
{
    if text.len() == 0 {
        Seq::empty()
    } else {
        text_strobes(supply, text.drop_last()) + glyph_strobes(supply, text.last())
    }
}

/// One more operation changes the port by that operation, and adds what the
/// display takes in on it.
pub proof fn lemma_one_more(port: u8, ops: Seq<Operation>, op: Operation)
    ensures
        port_after_all(port, ops.push(op)) == port_after(port_after_all(port, ops), op),
        latched(port, ops.push(op)) == latched(port, ops) + taken_at(
            port_after_all(port, ops),
            port_after(port_after_all(port, ops), op),
        ),
{
    assert(ops.push(op).drop_last() =~= ops);
}

/// Operations carried out one after the other: the second lot starts from
/// the port that the first lot leaves, and the display takes in what it takes
/// in on the first lot, then what it takes in on the second.
pub proof fn lemma_one_after_the_other(port: u8, first: Seq<Operation>, second: Seq<Operation>)
    ensures
        port_after_all(port, first + second) == port_after_all(
            port_after_all(port, first),
            second,
        ),
        latched(port, first + second) == latched(port, first) + latched(
            port_after_all(port, first),
            second,
        ),
    decreases second.len(),
{
    if second.len() == 0 {
        assert(first + second =~= first);
        assert(latched(port, first) + Seq::<u8>::empty() =~= latched(port, first));
    } else {
        lemma_one_after_the_other(port, first, second.drop_last());
        assert((first + second).drop_last() =~= first + second.drop_last());
        assert((first + second).last() == second.last());
        let middle = port_after_all(port, first);
        let before = port_after_all(middle, second.drop_last());
        assert(latched(port, first + second) =~= latched(port, first) + latched(middle, second));
    }
}

/// An Enable pulse, begun with Enable low, leaves the port as it was, and the
/// display takes in the port once, with Enable high.
pub proof fn lemma_pulse_enable(port: u8)
    requires
        enable_low(port),
    ensures
        port_after_all(port, pulse_enable_ops()) == port,
        latched(port, pulse_enable_ops()) == seq![port | MASK_EN],
{
    let s0 = Seq::<Operation>::empty();
    let s1 = s0.push(Operation::DelayUs(T_AS_IN_US));
    let s2 = s1.push(raise(MASK_EN));
    let s3 = s2.push(Operation::DelayUs(PW_EH_IN_US));
    let s4 = s3.push(lower(MASK_EN));
    let s5 = s4.push(Operation::DelayUs((T_CYCE_IN_US - PW_EH_IN_US) as u32));
    assert(pulse_enable_ops() =~= s5);
    lemma_one_more(port, s0, Operation::DelayUs(T_AS_IN_US));
    lemma_one_more(port, s1, raise(MASK_EN));
    lemma_one_more(port, s2, Operation::DelayUs(PW_EH_IN_US));
    lemma_one_more(port, s3, lower(MASK_EN));
    lemma_one_more(port, s4, Operation::DelayUs((T_CYCE_IN_US - PW_EH_IN_US) as u32));
    assert(port & MASK_EN == 0 ==> (port | MASK_EN) & MASK_EN != 0 && (port | MASK_EN) & !MASK_EN
        == port) by (bit_vector);
    assert(latched(port, s5) =~= seq![port | MASK_EN]);
}

/// One nibble of a command reaches the display with Register-Select low and
/// exactly the data lines of `lines` high, and leaves Enable low.
pub proof fn lemma_command_nibble(port: u8, lines: u8)
    requires
        enable_low(port),
        data_only(lines),
    ensures
        port_after_all(port, command_nibble_ops(lines)) == rest(supply(port), false, lines),
        enable_low(rest(supply(port), false, lines)),
        supply(rest(supply(port), false, lines)) == supply(port),
        latched(port, command_nibble_ops(lines)) == seq![strobe(supply(port), false, lines)],
{
    let s0 = Seq::<Operation>::empty();
    let s1 = s0.push(lower(MASK_ALL));
    let s2 = s1.push(raise(lines));
    lemma_one_more(port, s0, lower(MASK_ALL));
    lemma_one_more(port, s1, raise(lines));
    assert(seq![lower(MASK_ALL), raise(lines)] =~= s2);
    let quiet = rest(supply(port), false, lines);
    assert(lines & !(MASK_D4 | MASK_D5 | MASK_D6 | MASK_D7) == 0 ==> {
        &&& (port & !MASK_ALL) & MASK_EN == 0
        &&& ((port & !MASK_ALL) | lines) & MASK_EN == 0
        &&& ((port & MASK_PWR) | MASK_NONE | lines) & MASK_PWR == port & MASK_PWR
        &&& (port & !MASK_ALL) | lines == (port & MASK_PWR) | MASK_NONE | lines
        &&& ((port & MASK_PWR) | MASK_NONE | lines) | MASK_EN == (port & MASK_PWR) | MASK_EN
            | MASK_NONE | lines
    }) by (bit_vector);
    assert(port_after_all(port, s2) == quiet);
    assert(latched(port, s2) =~= Seq::<u8>::empty());
    lemma_pulse_enable(quiet);
    lemma_one_after_the_other(port, s2, pulse_enable_ops());
    assert(latched(port, command_nibble_ops(lines)) =~= seq![strobe(supply(port), false, lines)]);
}

/// One nibble of a command that raises no line reaches the display with
/// every line low but Enable, and leaves Enable low.
pub proof fn lemma_idle_nibble(port: u8)
    requires
        enable_low(port),
    ensures
        port_after_all(port, idle_nibble_ops()) == rest(supply(port), false, MASK_NONE),
        enable_low(rest(supply(port), false, MASK_NONE)),
        supply(rest(supply(port), false, MASK_NONE)) == supply(port),
        latched(port, idle_nibble_ops()) == seq![strobe(supply(port), false, MASK_NONE)],
{
    let s0 = Seq::<Operation>::empty();
    let s1 = s0.push(lower(MASK_ALL));
    lemma_one_more(port, s0, lower(MASK_ALL));
    assert(seq![lower(MASK_ALL)] =~= s1);
    let quiet = rest(supply(port), false, MASK_NONE);
    assert({
        &&& (port & !MASK_ALL) & MASK_EN == 0
        &&& port & !MASK_ALL == (port & MASK_PWR) | MASK_NONE | MASK_NONE
        &&& ((port & MASK_PWR) | MASK_NONE | MASK_NONE) & MASK_PWR == port & MASK_PWR
        &&& ((port & MASK_PWR) | MASK_NONE | MASK_NONE) | MASK_EN == (port & MASK_PWR) | MASK_EN
            | MASK_NONE | MASK_NONE
    }) by (bit_vector);
    assert(port_after_all(port, s1) == quiet);
    assert(latched(port, s1) =~= Seq::<u8>::empty());
    lemma_pulse_enable(quiet);
    lemma_one_after_the_other(port, s1, pulse_enable_ops());
    assert(latched(port, idle_nibble_ops()) =~= seq![strobe(supply(port), false, MASK_NONE)]);
}

/// One nibble of data reaches the display with Register-Select high and
/// exactly the data lines of `lines` high, and leaves Enable low.
pub proof fn lemma_data_nibble(port: u8, lines: u8)
    requires
        enable_low(port),
        data_only(lines),
    ensures
        port_after_all(port, data_nibble_ops(lines)) == rest(supply(port), true, lines),
        enable_low(rest(supply(port), true, lines)),
        supply(rest(supply(port), true, lines)) == supply(port),
        latched(port, data_nibble_ops(lines)) == seq![strobe(supply(port), true, lines)],
{
    let s0 = Seq::<Operation>::empty();
    let s1 = s0.push(lower(MASK_ALL));
    let s2 = s1.push(raise(MASK_RS));
    let s3 = s2.push(raise(lines));
    lemma_one_more(port, s0, lower(MASK_ALL));
    lemma_one_more(port, s1, raise(MASK_RS));
    lemma_one_more(port, s2, raise(lines));
    assert(seq![lower(MASK_ALL), raise(MASK_RS), raise(lines)] =~= s3);
    let quiet = rest(supply(port), true, lines);
    assert(lines & !(MASK_D4 | MASK_D5 | MASK_D6 | MASK_D7) == 0 ==> {
        &&& (port & !MASK_ALL) & MASK_EN == 0
        &&& ((port & !MASK_ALL) | MASK_RS) & MASK_EN == 0
        &&& (((port & !MASK_ALL) | MASK_RS) | lines) & MASK_EN == 0
        &&& ((port & MASK_PWR) | MASK_RS | lines) & MASK_PWR == port & MASK_PWR
        &&& ((port & !MASK_ALL) | MASK_RS) | lines == (port & MASK_PWR) | MASK_RS | lines
        &&& ((port & MASK_PWR) | MASK_RS | lines) | MASK_EN == (port & MASK_PWR) | MASK_EN
            | MASK_RS | lines
    }) by (bit_vector);
    assert(port_after_all(port, s3) == quiet);
    assert(latched(port, s3) =~= Seq::<u8>::empty());
    lemma_pulse_enable(quiet);
    lemma_one_after_the_other(port, s3, pulse_enable_ops());
    assert(latched(port, data_nibble_ops(lines)) =~= seq![strobe(supply(port), true, lines)]);
}

/// The data lines of a nibble are data lines only.
pub proof fn lemma_data_lines(nibble: u8)
    ensures
        data_only(data_lines(nibble)),
        nibble < 16 ==> data_lines(nibble) == nibble << 3,
{
    assert(data_only(data_lines(nibble))) by (bit_vector);
    assert(nibble < 16 ==> data_lines(nibble) == nibble << 3) by (bit_vector);
}

/// A character reaches the display as two nibbles of data: first exactly
/// the data lines of bits 4 to 7 of its code, then exactly those of bits 0 to
/// 3, both with Register-Select high.
pub proof fn lemma_write_char(port: u8, code: u32)
    requires
        enable_low(port),
    ensures
        latched(port, write_char_ops(code)) == char_strobes(supply(port), code),
        enable_low(port_after_all(port, write_char_ops(code))),
        supply(port_after_all(port, write_char_ops(code))) == supply(port),
{
    let high = data_lines(high_nibble(code));
    let low = data_lines(low_nibble(code));
    lemma_data_lines(high_nibble(code));
    lemma_data_lines(low_nibble(code));
    lemma_data_nibble(port, high);
    let middle = rest(supply(port), true, high);
    lemma_data_nibble(middle, low);
    lemma_one_after_the_other(port, data_nibble_ops(high), data_nibble_ops(low));
    assert(latched(port, write_char_ops(code)) =~= char_strobes(supply(port), code));
}

/// A line break reaches the display as the two nibbles of the command 0xC0,
/// with Register-Select low.
pub proof fn lemma_newline(port: u8)
    requires
        enable_low(port),
    ensures
        latched(port, newline_ops()) == glyph_strobes(supply(port), '\n'),
        enable_low(port_after_all(port, newline_ops())),
        supply(port_after_all(port, newline_ops())) == supply(port),
{
    assert(data_only(MASK_D6 | MASK_D7) && data_only(MASK_NONE)) by (bit_vector);
    lemma_command_nibble(port, MASK_D6 | MASK_D7);
    let middle = rest(supply(port), false, MASK_D6 | MASK_D7);
    lemma_command_nibble(middle, MASK_NONE);
    lemma_one_after_the_other(
        port,
        command_nibble_ops(MASK_D6 | MASK_D7),
        command_nibble_ops(MASK_NONE),
    );
    assert(latched(port, newline_ops()) =~= glyph_strobes(supply(port), '\n'));
}

/// A text reaches the display character by character, two nibbles for each,
/// the high one first: with Register-Select high for a character, low for a
/// line break.
pub proof fn lemma_write_string(port: u8, text: Seq<char>)
    requires
        enable_low(port),
    ensures
        latched(port, write_string_ops(text)) == text_strobes(supply(port), text),
        text_strobes(supply(port), text).len() == 2 * text.len(),
        enable_low(port_after_all(port, write_string_ops(text))),
        supply(port_after_all(port, write_string_ops(text))) == supply(port),
    decreases text.len(),
{
    if text.len() > 0 {
        let before = text.drop_last();
        lemma_write_string(port, before);
        let middle = port_after_all(port, write_string_ops(before));
        if text.last() == '\n' {
            lemma_newline(middle);
        } else {
            lemma_write_char(middle, text.last() as u32);
        }
        lemma_one_after_the_other(port, write_string_ops(before), glyph_ops(text.last()));
    }
}

/// What the display takes in for a step of the cursor: the two nibbles of
/// the command 0x10, to the left, or 0x14, to the right.
pub open spec fn shift_strobes(supply: u8, dir: Direction) -> Seq<u8> {
    seq![
        strobe(supply, false, MASK_D4),
        strobe(
            supply,
            false,
            match dir {
                Direction::Left => MASK_NONE,
                Direction::Right => MASK_D6,
            },
        ),
    ]
}

/// Moving the cursor by one cell reaches the display as the two nibbles of
/// the command 0x10, to the left, or 0x14, to the right.
pub proof fn lemma_shift_once(port: u8, dir: Direction)
    requires
        enable_low(port),
    ensures
        latched(port, shift_once_ops(dir)) == shift_strobes(supply(port), dir),
        enable_low(port_after_all(port, shift_once_ops(dir))),
        supply(port_after_all(port, shift_once_ops(dir))) == supply(port),
{
    assert(data_only(MASK_D4) && data_only(MASK_D6)) by (bit_vector);
    lemma_command_nibble(port, MASK_D4);
    let middle = rest(supply(port), false, MASK_D4);
    match dir {
        Direction::Left => {
            lemma_idle_nibble(middle);
            lemma_one_after_the_other(port, command_nibble_ops(MASK_D4), idle_nibble_ops());
        },
        Direction::Right => {
            lemma_command_nibble(middle, MASK_D6);
            lemma_one_after_the_other(
                port,
                command_nibble_ops(MASK_D4),
                command_nibble_ops(MASK_D6),
            );
        },
    }
}

/// Rubbing out one character reaches the display as three bytes: the
/// command 0x10, a blank as data, and the command 0x10 again.
pub proof fn lemma_backspace_once(port: u8)
    requires
        enable_low(port),
    ensures
        latched(port, backspace_once_ops()) == shift_strobes(supply(port), Direction::Left)
            + char_strobes(supply(port), 32) + shift_strobes(supply(port), Direction::Left),
        enable_low(port_after_all(port, backspace_once_ops())),
        supply(port_after_all(port, backspace_once_ops())) == supply(port),
{
    let left = shift_once_ops(Direction::Left);
    lemma_shift_once(port, Direction::Left);
    let first = port_after_all(port, left);
    lemma_write_char(first, 32);
    let second = port_after_all(first, write_char_ops(32));
    lemma_shift_once(second, Direction::Left);
    lemma_one_after_the_other(port, left, write_char_ops(32));
    lemma_one_after_the_other(port, left + write_char_ops(32), left);
}

/// The four data lines of a port value that the display took in, as a
/// number: D4 is bit 0.
pub open spec fn nibble_of(strobe: u8) -> u8 {
    (strobe >> 3) & 0xF
}

/// The byte that two nibbles make, the high one taken in first.
pub open spec fn byte_of(high: u8, low: u8) -> u8 {
    (nibble_of(high) << 4) | nibble_of(low)
}

/// Whether Register-Select was high when the display took `strobe` in.
pub open spec fn is_data(strobe: u8) -> bool {
    strobe & MASK_RS != 0
}

/// First cell of the first line.
pub const LINE_1_START: u8 = 0x00;

/// Last cell of the first line.
pub const LINE_1_END: u8 = 0x27;

/// First cell of the second line.
pub const LINE_2_START: u8 = 0x40;

/// Last cell of the second line.
pub const LINE_2_END: u8 = 0x67;

/// Whether the display has a cell with this address.
pub open spec fn is_cell(address: int) -> bool {
    LINE_1_START <= address <= LINE_1_END || LINE_2_START <= address <= LINE_2_END
}

/// The cell after `address`. The lines follow each other, and the first
/// follows the second.
pub open spec fn cell_after(address: int) -> int {
    if address == LINE_1_END {
        LINE_2_START as int
    } else if address == LINE_2_END {
        LINE_1_START as int
    } else {
        address + 1
    }
}

/// The cell before `address`.
pub open spec fn cell_before(address: int) -> int {
    if address == LINE_2_START {
        LINE_1_END as int
    } else if address == LINE_1_START {
        LINE_2_END as int
    } else {
        address - 1
    }
}

/// What an HD44780 holds once it is set up for two lines, with the cursor
/// moving on after each character and the display not shifting: the
/// character codes of its cells, by their addresses, and the address of the
/// cell under the cursor.
pub struct Display {
    pub cells: Seq<u8>,
    pub cursor: int,
}

impl Display {
    /// The cursor is on a cell, and every address up to the last cell has an
    /// entry.
    pub open spec fn wf(self) -> bool {
        &&& is_cell(self.cursor)
        &&& self.cells.len() == LINE_2_END + 1
    }

    /// The display after it took in `byte`, as data if `rs` is set and as a
    /// command if not.
    ///
    /// Data goes into the cell under the cursor, and the cursor moves on.
    /// Of the commands, 0x01 blanks every cell and homes the cursor, 0x02
    /// homes the cursor, 0x10 and 0x14 move it one cell to the left and to
    /// the right, and one with bit 7 set puts it at the address in the other
    /// seven bits, where that is a cell. Every other command leaves cells and
    /// cursor alone.
    ///
    /// This does not follow a display that is pointed at its character
    /// generator or told to move the cursor backwards after a character: the
    /// driver sends neither command.
    pub open spec fn take_in(self, rs: bool, byte: u8) -> Display {
        if rs {
            Display { cells: self.cells.update(self.cursor, byte), cursor: cell_after(self.cursor) }
        } else if byte == 0x01 {
            self.cleared()
        } else if byte & 0xFE == 0x02 {
            Display { cursor: LINE_1_START as int, ..self }
        } else if byte & 0xFC == 0x10 {
            Display { cursor: cell_before(self.cursor), ..self }
        } else if byte & 0xFC == 0x14 {
            Display { cursor: cell_after(self.cursor), ..self }
        } else if byte & 0x80 != 0 && is_cell((byte & 0x7F) as int) {
            Display { cursor: (byte & 0x7F) as int, ..self }
        } else {
            self
        }
    }

    /// The display after it took in `strobes`, two by two: a high nibble and
    /// a low one make a byte, and Register-Select counts as it was with the
    /// high one.
    pub open spec fn shows(self, strobes: Seq<u8>) -> Display
        decreases strobes.len(),
    {
        if strobes.len() < 2 {
            self
        } else {
            let high = strobes[strobes.len() - 2];
            let low = strobes[strobes.len() - 1];
            self.shows(strobes.drop_last().drop_last()).take_in(is_data(high), byte_of(high, low))
        }
    }

    /// The display after `c` was typed at the cursor.
    pub open spec fn typed(self, c: char) -> Display {
        if c == '\n' {
            Display { cursor: LINE_2_START as int, ..self }
        } else {
            Display {
                cells: self.cells.update(self.cursor, (c as u32 & 0xFF) as u8),
                cursor: cell_after(self.cursor),
            }
        }
    }

    /// The display after `text` was typed at the cursor.
    pub open spec fn typed_all(self, text: Seq<char>) -> Display
        decreases text.len(),
    {
        if text.len() == 0 {
            self
        } else {
            self.typed_all(text.drop_last()).typed(text.last())
        }
    }

    /// The display after the character before the cursor was rubbed out: a
    /// blank stands there, and the cursor is on it.
    pub open spec fn rubbed_out(self) -> Display {
        Display {
            cells: self.cells.update(cell_before(self.cursor), 0x20),
            cursor: cell_before(self.cursor),
        }
    }

    /// The display after the `count` characters before the cursor were
    /// rubbed out, the nearest first.
    pub open spec fn rubbed_out_by(self, count: nat) -> Display
        decreases count,
    {
        if count == 0 {
            self
        } else {
            self.rubbed_out_by((count - 1) as nat).rubbed_out()
        }
    }

    /// The display after the cursor went one cell to the left or to the
    /// right.
    pub open spec fn stepped(self, dir: Direction) -> Display {
        Display {
            cursor: match dir {
                Direction::Left => cell_before(self.cursor),
                Direction::Right => cell_after(self.cursor),
            },
            ..self
        }
    }

    /// The display after the cursor went `count` cells to the left or to the
    /// right.
    pub open spec fn stepped_by(self, dir: Direction, count: nat) -> Display
        decreases count,
    {
        if count == 0 {
            self
        } else {
            self.stepped_by(dir, (count - 1) as nat).stepped(dir)
        }
    }

    /// The display with a blank in every cell and the cursor on the first
    /// cell of the first line.
    pub open spec fn cleared(self) -> Display {
        Display { cells: Seq::new(self.cells.len(), |i: int| 0x20u8), cursor: LINE_1_START as int }
    }
}

/// Two more nibbles make one more byte.
pub proof fn lemma_shows_one_more(display: Display, strobes: Seq<u8>, high: u8, low: u8)
    ensures
        display.shows(strobes + seq![high, low]) == display.shows(strobes).take_in(
            is_data(high),
            byte_of(high, low),
        ),
{
    let all = strobes + seq![high, low];
    assert(all.drop_last().drop_last() =~= strobes);
}

/// Nibbles taken in one lot after the other, the first lot whole bytes.
pub proof fn lemma_shows_one_after_the_other(display: Display, first: Seq<u8>, second: Seq<u8>)
    requires
        first.len() % 2 == 0,
        second.len() % 2 == 0,
    ensures
        display.shows(first + second) == display.shows(first).shows(second),
    decreases second.len(),
{
    if second.len() == 0 {
        assert(first + second =~= first);
    } else {
        let shorter = second.drop_last().drop_last();
        lemma_shows_one_after_the_other(display, first, shorter);
        assert((first + second).drop_last().drop_last() =~= first + shorter);
    }
}

/// Taking in a byte keeps the display well formed.
pub proof fn lemma_take_in_wf(display: Display, rs: bool, byte: u8)
    requires
        display.wf(),
    ensures
        display.take_in(rs, byte).wf(),
{
}

/// The two nibbles of a character, taken in as data, put the low byte of its
/// code into the cell under the cursor and move the cursor on.
pub proof fn lemma_char_shown(display: Display, supply: u8, code: u32)
    requires
        supply & !MASK_PWR == 0,
    ensures
        display.shows(char_strobes(supply, code)) == (Display {
            cells: display.cells.update(display.cursor, (code & 0xFF) as u8),
            cursor: cell_after(display.cursor),
        }),
{
    let high = strobe(supply, true, data_lines(high_nibble(code)));
    let low = strobe(supply, true, data_lines(low_nibble(code)));
    assert(supply & !MASK_PWR == 0 ==> is_data(
        strobe(supply, true, data_lines(high_nibble(code))),
    ) && byte_of(
        strobe(supply, true, data_lines(high_nibble(code))),
        strobe(supply, true, data_lines(low_nibble(code))),
    ) == (code & 0xFF) as u8) by (bit_vector);
    assert(Seq::<u8>::empty() + seq![high, low] =~= char_strobes(supply, code));
    lemma_shows_one_more(display, Seq::empty(), high, low);
}

/// The two nibbles of a line break put the cursor on the first cell of the
/// second line.
pub proof fn lemma_newline_shown(display: Display, supply: u8)
    requires
        supply & !MASK_PWR == 0,
    ensures
        display.shows(glyph_strobes(supply, '\n')) == (Display {
            cursor: LINE_2_START as int,
            ..display
        }),
{
    let high = strobe(supply, false, MASK_D6 | MASK_D7);
    let low = strobe(supply, false, MASK_NONE);
    assert(supply & !MASK_PWR == 0 ==> !is_data(strobe(supply, false, MASK_D6 | MASK_D7))
        && byte_of(strobe(supply, false, MASK_D6 | MASK_D7), strobe(supply, false, MASK_NONE))
        == 0xC0) by (bit_vector);
    assert(0xC0u8 & 0xFE != 0x02 && 0xC0u8 & 0xFC != 0x10 && 0xC0u8 & 0xFC != 0x14 && 0xC0u8 & 0x80
        != 0 && 0xC0u8 & 0x7F == 0x40) by (bit_vector);
    assert(Seq::<u8>::empty() + seq![high, low] =~= glyph_strobes(supply, '\n'));
    lemma_shows_one_more(display, Seq::empty(), high, low);
}

/// The two nibbles of a step to the left or to the right put the cursor on
/// the cell before or after.
pub proof fn lemma_step_shown(display: Display, supply: u8, dir: Direction)
    requires
        supply & !MASK_PWR == 0,
    ensures
        display.shows(shift_strobes(supply, dir)) == display.stepped(dir),
{
    let high = strobe(supply, false, MASK_D4);
    let low = shift_strobes(supply, dir)[1];
    assert(supply & !MASK_PWR == 0 ==> !is_data(strobe(supply, false, MASK_D4)) && byte_of(
        strobe(supply, false, MASK_D4),
        strobe(supply, false, MASK_NONE),
    ) == 0x10 && byte_of(strobe(supply, false, MASK_D4), strobe(supply, false, MASK_D6)) == 0x14)
        by (bit_vector);
    assert(0x10u8 & 0xFE != 0x02 && 0x10u8 & 0xFC == 0x10 && 0x14u8 & 0xFE != 0x02 && 0x14u8
        & 0xFC == 0x14) by (bit_vector);
    assert(Seq::<u8>::empty() + seq![high, low] =~= shift_strobes(supply, dir));
    lemma_shows_one_more(display, Seq::empty(), high, low);
}

/// What `write_string` sends puts the text on the display as if it were
/// typed at the cursor: each character into the cell under the cursor, which
/// moves on, and a line break moves the cursor to the second line.
pub proof fn lemma_text_shown(display: Display, port: u8, text: Seq<char>)
    requires
        enable_low(port),
    ensures
        display.shows(latched(port, write_string_ops(text))) == display.typed_all(text),
    decreases text.len(),
{
    lemma_write_string(port, text);
    let power = supply(port);
    assert(supply(port) & !MASK_PWR == 0) by (bit_vector);
    if text.len() == 0 {
    } else {
        let before = text.drop_last();
        lemma_text_shown(display, port, before);
        lemma_write_string(port, before);
        let sofar = display.shows(text_strobes(power, before));
        if text.last() == '\n' {
            lemma_newline_shown(sofar, power);
        } else {
            lemma_char_shown(sofar, power, text.last() as u32);
        }
        lemma_shows_one_after_the_other(
            display,
            text_strobes(power, before),
            glyph_strobes(power, text.last()),
        );
    }
}

/// What `backspace` sends for one character puts a blank into the cell
/// before the cursor and leaves the cursor on that cell.
pub proof fn lemma_backspace_shown(display: Display, port: u8)
    requires
        display.wf(),
        enable_low(port),
    ensures
        display.shows(latched(port, backspace_once_ops())) == display.rubbed_out(),
{
    lemma_backspace_once(port);
    let power = supply(port);
    assert(supply(port) & !MASK_PWR == 0) by (bit_vector);
    let left = shift_strobes(power, Direction::Left);
    let blank = char_strobes(power, 32);
    lemma_step_shown(display, power, Direction::Left);
    let first = display.shows(left);
    lemma_char_shown(first, power, 32);
    let second = first.shows(blank);
    lemma_step_shown(second, power, Direction::Left);
    lemma_shows_one_after_the_other(display, left, blank);
    lemma_shows_one_after_the_other(display, left + blank, left);
    assert(32u32 & 0xFF == 0x20) by (bit_vector);
}

/// A text of one character is typed as that character.
pub proof fn lemma_typed_one(display: Display, c: char)
    ensures
        display.typed_all(seq![c]) == display.typed(c),
{
    assert(seq![c].drop_last() =~= Seq::<char>::empty());
    assert(display.typed_all(Seq::<char>::empty()) == display);
    assert(seq![c].last() == c);
}

/// On the display, a character that is rubbed out and typed again stands as
/// it stood, with the cursor behind it.
pub proof fn lemma_typed_again(display: Display, c: char)
    requires
        display.wf(),
        c != '\n',
    ensures
        display.typed(c).wf(),
        display.typed(c).rubbed_out().typed(c) == display.typed(c),
{
    let written = display.typed(c);
    assert(written.rubbed_out().typed(c).cells =~= written.cells);
}

/// Writing a character, rubbing it out and writing it again leaves the
/// display as the first writing left it: the same cells, and the cursor on
/// the same cell.
pub proof fn lemma_backspace_round_trip(display: Display, port: u8, c: char)
    requires
        display.wf(),
        enable_low(port),
        c != '\n',
    ensures
        ({
            let once = write_string_ops(seq![c]);
            let again = repeated(backspace_once_ops(), 1) + once;
            let written = display.shows(latched(port, once));
            written.shows(latched(port_after_all(port, once), again)) == written
        }),
{
    let once = write_string_ops(seq![c]);
    let rub = repeated(backspace_once_ops(), 1);
    let written = display.shows(latched(port, once));
    let port1 = port_after_all(port, once);
    let port2 = port_after_all(port1, rub);
    assert(written == display.typed(c) && enable_low(port1)) by {
        lemma_write_string(port, seq![c]);
        lemma_text_shown(display, port, seq![c]);
        lemma_typed_one(display, c);
    }
    lemma_typed_again(display, c);
    assert(written.shows(latched(port1, rub)) == written.rubbed_out() && latched(port1, rub).len()
        == 6 && enable_low(port2)) by {
        lemma_backspace_all_shown(written, port1, 1);
        assert(written.rubbed_out_by(1) == written.rubbed_out()) by {
            assert(written.rubbed_out_by(0) == written);
        }
    }
    assert(written.rubbed_out().shows(latched(port2, once)) == written && latched(port2, once).len()
        == 2) by {
        lemma_write_string(port2, seq![c]);
        lemma_text_shown(written.rubbed_out(), port2, seq![c]);
        lemma_typed_one(written.rubbed_out(), c);
    }
    assert(latched(port1, rub + once) == latched(port1, rub) + latched(port2, once)) by {
        lemma_one_after_the_other(port1, rub, once);
    }
    lemma_shows_one_after_the_other(written, latched(port1, rub), latched(port2, once));
}

/// What `shift_cursor` sends moves the cursor by as many cells, and leaves
/// the cells alone.
pub proof fn lemma_shift_cursor_shown(display: Display, port: u8, dir: Direction, count: nat)
    requires
        enable_low(port),
    ensures
        display.shows(latched(port, repeated(shift_once_ops(dir), count))) == display.stepped_by(
            dir,
            count,
        ),
        latched(port, repeated(shift_once_ops(dir), count)).len() == 2 * count,
        enable_low(port_after_all(port, repeated(shift_once_ops(dir), count))),
        supply(port_after_all(port, repeated(shift_once_ops(dir), count))) == supply(port),
    decreases count,
{
    if count > 0 {
        let before = repeated(shift_once_ops(dir), (count - 1) as nat);
        lemma_shift_cursor_shown(display, port, dir, (count - 1) as nat);
        let middle = port_after_all(port, before);
        lemma_shift_once(middle, dir);
        lemma_one_after_the_other(port, before, shift_once_ops(dir));
        assert(supply(port) & !MASK_PWR == 0) by (bit_vector);
        lemma_step_shown(display.shows(latched(port, before)), supply(port), dir);
        lemma_shows_one_after_the_other(
            display,
            latched(port, before),
            shift_strobes(supply(port), dir),
        );
    }
}

/// Rubbing out keeps the display well formed.
pub proof fn lemma_rubbed_out_wf(display: Display, count: nat)
    requires
        display.wf(),
    ensures
        display.rubbed_out_by(count).wf(),
    decreases count,
{
    if count > 0 {
        lemma_rubbed_out_wf(display, (count - 1) as nat);
    }
}

/// What `backspace` sends rubs out as many characters before the cursor, the
/// nearest first, and leaves the cursor on the cell of the last one.
pub proof fn lemma_backspace_all_shown(display: Display, port: u8, count: nat)
    requires
        display.wf(),
        enable_low(port),
    ensures
        display.shows(latched(port, repeated(backspace_once_ops(), count)))
            == display.rubbed_out_by(count),
        latched(port, repeated(backspace_once_ops(), count)).len() == 6 * count,
        enable_low(port_after_all(port, repeated(backspace_once_ops(), count))),
        supply(port_after_all(port, repeated(backspace_once_ops(), count))) == supply(port),
    decreases count,
{
    if count > 0 {
        let before = repeated(backspace_once_ops(), (count - 1) as nat);
        lemma_backspace_all_shown(display, port, (count - 1) as nat);
        lemma_rubbed_out_wf(display, (count - 1) as nat);
        let middle = port_after_all(port, before);
        lemma_backspace_once(middle);
        lemma_backspace_shown(display.shows(latched(port, before)), middle);
        lemma_one_after_the_other(port, before, backspace_once_ops());
        lemma_shows_one_after_the_other(
            display,
            latched(port, before),
            latched(middle, backspace_once_ops()),
        );
    }
}

/// What `clear_display` sends is the command 0x01: it blanks every cell and
/// puts the cursor on the first cell of the first line.
pub proof fn lemma_clear_display_shown(display: Display, port: u8)
    requires
        enable_low(port),
    ensures
        latched(port, clear_display_ops()) == seq![
            strobe(supply(port), false, MASK_NONE),
            strobe(supply(port), false, MASK_D4),
        ],
        display.shows(latched(port, clear_display_ops())) == display.cleared(),
        enable_low(port_after_all(port, clear_display_ops())),
        supply(port_after_all(port, clear_display_ops())) == supply(port),
{
    assert(data_only(MASK_NONE) && data_only(MASK_D4)) by (bit_vector);
    lemma_command_nibble(port, MASK_NONE);
    let middle = rest(supply(port), false, MASK_NONE);
    lemma_command_nibble(middle, MASK_D4);
    lemma_one_after_the_other(port, command_nibble_ops(MASK_NONE), command_nibble_ops(MASK_D4));
    let high = strobe(supply(port), false, MASK_NONE);
    let low = strobe(supply(port), false, MASK_D4);
    assert(latched(port, clear_display_ops()) =~= seq![high, low]);
    assert(!is_data(strobe(supply(port), false, MASK_NONE)) && byte_of(
        strobe(supply(port), false, MASK_NONE),
        strobe(supply(port), false, MASK_D4),
    ) == 0x01) by (bit_vector);
    assert(Seq::<u8>::empty() + seq![high, low] =~= seq![high, low]);
    lemma_shows_one_more(display, Seq::empty(), high, low);
}

/// How an HD44780 is set up.
pub struct Settings {
    /// Bytes come as two nibbles on four data lines, not whole on eight.
    pub four_bit: bool,
    /// The display has two lines, not one.
    pub two_lines: bool,
    /// The display is on.
    pub display_on: bool,
    /// The cursor shows.
    pub cursor_on: bool,
    /// The cell under the cursor blinks.
    pub blinks: bool,
    /// The cursor moves to the right after each character, not to the left.
    pub moves_on: bool,
    /// The display shifts with each character.
    pub shifts: bool,
}

impl Settings {
    /// The settings after the command `byte`. The function set, the display
    /// control and the entry mode set change them, every other command
    /// leaves them alone.
    pub open spec fn command(self, byte: u8) -> Settings {
        if byte & 0xE0 == 0x20 {
            Settings { four_bit: byte & 0x10 == 0, two_lines: byte & 0x08 != 0, ..self }
        } else if byte & 0xF8 == 0x08 {
            Settings {
                display_on: byte & 0x04 != 0,
                cursor_on: byte & 0x02 != 0,
                blinks: byte & 0x01 != 0,
                ..self
            }
        } else if byte & 0xFC == 0x04 {
            Settings { moves_on: byte & 0x02 != 0, shifts: byte & 0x01 != 0, ..self }
        } else {
            self
        }
    }

    /// The settings after the byte that `high` and `low` make was taken in:
    /// data changes nothing.
    pub open spec fn take_in(self, high: u8, low: u8) -> Settings {
        if is_data(high) {
            self
        } else {
            self.command(byte_of(high, low))
        }
    }

    /// The settings after the display took in `strobes`. While it takes
    /// whole bytes, each strobe is a byte by itself: its high nibble is on
    /// the four data lines that are wired, and the four others are taken to
    /// read low. Once it takes nibbles, two strobes make a byte.
    pub open spec fn set_up(self, strobes: Seq<u8>) -> Settings
        decreases strobes.len(),
    {
        if strobes.len() == 0 {
            self
        } else if !self.four_bit {
            self.take_in(strobes[0], 0).set_up(strobes.skip(1))
        } else if strobes.len() == 1 {
            self
        } else {
            self.take_in(strobes[0], strobes[1]).set_up(strobes.skip(2))
        }
    }

    /// What `init` leaves: nibbles, two lines, the display and the cursor
    /// on without blinking, the cursor moving on, the display not shifting.
    pub open spec fn ready(self) -> bool {
        &&& self.four_bit
        &&& self.two_lines
        &&& self.display_on
        &&& self.cursor_on
        &&& !self.blinks
        &&& self.moves_on
        &&& !self.shifts
    }
}

/// What the display takes in while `init` is carried out: one nibble that
/// switches it to nibbles, then the commands 0x28, 0x0E and 0x06.
pub open spec fn init_strobes(supply: u8) -> Seq<u8> {
    seq![
        strobe(supply, false, MASK_D5),
        strobe(supply, false, MASK_D5),
        strobe(supply, false, MASK_D7),
        strobe(supply, false, MASK_NONE),
        strobe(supply, false, MASK_D5 | MASK_D6 | MASK_D7),
        strobe(supply, false, MASK_NONE),
        strobe(supply, false, MASK_D5 | MASK_D6),
    ]
}

/// `init` reaches the display as one nibble and three commands, all with
/// Register-Select low.
pub proof fn lemma_init(port: u8)
    requires
        enable_low(port),
    ensures
        latched(port, init_ops()) == init_strobes(supply(port)),
        enable_low(port_after_all(port, init_ops())),
        supply(port_after_all(port, init_ops())) == supply(port),
{
    let power = supply(port);
    assert(data_only(MASK_NONE) && data_only(MASK_D5) && data_only(MASK_D7) && data_only(
        MASK_D5 | MASK_D6 | MASK_D7,
    ) && data_only(MASK_D5 | MASK_D6)) by (bit_vector);
    // The pins become outputs and the supply rises: the port stays as it is.
    let outputs = Operation::RegisterWrite {
        address: I2C_ADDR_LCD,
        register: MCP23008Register::IODIR,
        value: 0,
    };
    let s0 = Seq::<Operation>::empty();
    let s1 = s0.push(outputs);
    let s2 = s1.push(Operation::DelayMs(T_RCC_IN_MS));
    lemma_one_more(port, s0, outputs);
    lemma_one_more(port, s1, Operation::DelayMs(T_RCC_IN_MS));
    assert(latched(port, s2) =~= Seq::<u8>::empty());
    // Function set, nibble by nibble.
    let n1 = command_nibble_ops(MASK_D5);
    let n2 = command_nibble_ops(MASK_D7);
    lemma_command_nibble(port, MASK_D5);
    let after_four_bit = rest(power, false, MASK_D5);
    lemma_command_nibble(after_four_bit, MASK_D5);
    lemma_command_nibble(after_four_bit, MASK_D7);
    let after_two_lines = rest(power, false, MASK_D7);
    lemma_one_after_the_other(port, n1, n1);
    lemma_one_after_the_other(port, n1 + n1, n2);
    let function_set = set_4bit_2line_mode_ops();
    assert(latched(port, function_set) =~= seq![
        strobe(power, false, MASK_D5),
        strobe(power, false, MASK_D5),
        strobe(power, false, MASK_D7),
    ]);
    // Display and cursor on.
    let zero = command_nibble_ops(MASK_NONE);
    lemma_command_nibble(after_two_lines, MASK_NONE);
    let after_blank = rest(power, false, MASK_NONE);
    lemma_command_nibble(after_blank, MASK_D5 | MASK_D6 | MASK_D7);
    let after_shown = rest(power, false, MASK_D5 | MASK_D6 | MASK_D7);
    lemma_one_after_the_other(after_two_lines, zero, command_nibble_ops(MASK_D5 | MASK_D6 | MASK_D7));
    // Entry mode.
    lemma_command_nibble(after_shown, MASK_NONE);
    lemma_command_nibble(after_blank, MASK_D5 | MASK_D6);
    lemma_one_after_the_other(after_shown, zero, command_nibble_ops(MASK_D5 | MASK_D6));
    // One after the other.
    lemma_one_after_the_other(port, seq![outputs, Operation::DelayMs(T_RCC_IN_MS)], function_set);
    assert(seq![outputs, Operation::DelayMs(T_RCC_IN_MS)] =~= s2);
    lemma_one_after_the_other(port, s2 + function_set, set_cursor_ops());
    lemma_one_after_the_other(
        port,
        s2 + function_set + set_cursor_ops(),
        set_autoincrement_ops(),
    );
    assert(latched(port, init_ops()) =~= init_strobes(power));
}

/// `init` takes a display from the state after power-on, in which it takes
/// whole bytes, to the state in which the driver can write to it.
pub proof fn lemma_init_sets_up(settings: Settings, port: u8)
    requires
        !settings.four_bit,
        enable_low(port),
    ensures
        settings.set_up(latched(port, init_ops())).ready(),
{
    lemma_init(port);
    let power = supply(port);
    let s = init_strobes(power);
    assert(supply(port) & !MASK_PWR == 0) by (bit_vector);
    assert(power & !MASK_PWR == 0 ==> {
        &&& !is_data(strobe(power, false, MASK_D5))
        &&& !is_data(strobe(power, false, MASK_D7))
        &&& !is_data(strobe(power, false, MASK_NONE))
        &&& byte_of(strobe(power, false, MASK_D5), 0) == 0x20
        &&& byte_of(strobe(power, false, MASK_D5), strobe(power, false, MASK_D7)) == 0x28
        &&& byte_of(strobe(power, false, MASK_NONE), strobe(power, false, MASK_D5 | MASK_D6 | MASK_D7))
            == 0x0E
        &&& byte_of(strobe(power, false, MASK_NONE), strobe(power, false, MASK_D5 | MASK_D6))
            == 0x06
    }) by (bit_vector);
    assert(0x20u8 & 0xE0 == 0x20 && 0x20u8 & 0x10 == 0 && 0x28u8 & 0xE0 == 0x20 && 0x28u8 & 0x10
        == 0 && 0x28u8 & 0x08 != 0) by (bit_vector);
    assert(0x0Eu8 & 0xE0 != 0x20 && 0x0Eu8 & 0xF8 == 0x08 && 0x0Eu8 & 0x04 != 0 && 0x0Eu8 & 0x02
        != 0 && 0x0Eu8 & 0x01 == 0) by (bit_vector);
    assert(0x06u8 & 0xE0 != 0x20 && 0x06u8 & 0xF8 != 0x08 && 0x06u8 & 0xFC == 0x04 && 0x06u8
        & 0x02 != 0 && 0x06u8 & 0x01 == 0) by (bit_vector);
    let s1 = s.skip(1);
    let s3 = s1.skip(2);
    let s5 = s3.skip(2);
    let s7 = s5.skip(2);
    assert(s7 =~= Seq::<u8>::empty());
    let a = settings.take_in(s[0], 0);
    let b = a.take_in(s1[0], s1[1]);
    let c = b.take_in(s3[0], s3[1]);
    let d = c.take_in(s5[0], s5[1]);
    assert(d.set_up(s7) == d);
    assert(c.set_up(s5) == d);
    assert(b.set_up(s3) == d);
    assert(a.set_up(s1) == d);
    assert(settings.set_up(s) == d);
}

/// Whether `op` is a pause or changes lines of the display's expander.
pub open spec fn for_display(op: Operation) -> bool {
    match op {
        Operation::SetBits { address, .. } => address == I2C_ADDR_LCD,
        Operation::ClearBits { address, .. } => address == I2C_ADDR_LCD,
        Operation::RegisterWrite { address, .. } => address == I2C_ADDR_LCD,
        Operation::GpioRead { .. } => false,
        Operation::DelayUs(_) => true,
        Operation::DelayMs(_) => true,
    }
}

/// The bytes that the reads of `ops` return, in order, when the port of the
/// display's expander holds `port` at first and reads back as it was last
/// written.
pub open spec fn echoes(port: u8, ops: Seq<Operation>) -> Seq<u8>
    decreases ops.len(),
{
    if ops.len() == 0 {
        Seq::empty()
    } else if reads_port(ops[0]) {
        seq![port] + echoes(port_after(port, ops[0]), ops.drop_first())
    } else {
        echoes(port_after(port, ops[0]), ops.drop_first())
    }
}

/// The values that are written to the port of the display's expander in
/// `actions`, in order.
pub open spec fn port_values(actions: Seq<Action>) -> Seq<u8>
    decreases actions.len(),
{
    if actions.len() == 0 {
        Seq::empty()
    } else {
        (match actions[0] {
            Action::Write { address, register, value } => if address == I2C_ADDR_LCD && register
                == MCP23008Register::GPIO {
                seq![value]
            } else {
                Seq::empty()
            },
            _ => Seq::empty(),
        }) + port_values(actions.drop_first())
    }
}

/// The values that the port of the display's expander takes while `ops` are
/// carried out, in order, when it holds `port` at first: one for each
/// operation that writes it.
pub open spec fn port_history(port: u8, ops: Seq<Operation>) -> Seq<u8>
    decreases ops.len(),
{
    if ops.len() == 0 {
        Seq::empty()
    } else {
        (match ops[0] {
            Operation::SetBits { address, .. } => if address == I2C_ADDR_LCD {
                seq![port_after(port, ops[0])]
            } else {
                Seq::empty()
            },
            Operation::ClearBits { address, .. } => if address == I2C_ADDR_LCD {
                seq![port_after(port, ops[0])]
            } else {
                Seq::empty()
            },
            Operation::RegisterWrite { address, register, .. } => if address == I2C_ADDR_LCD
                && register == MCP23008Register::GPIO {
                seq![port_after(port, ops[0])]
            } else {
                Seq::empty()
            },
            _ => Seq::empty(),
        }) + port_history(port_after(port, ops[0]), ops.drop_first())
    }
}

/// On a port that reads back as it was last written, the transfers that
/// carry out operations for the display write to the port, one after the
/// other, exactly the values that the operations give it.
pub proof fn lemma_transfers_follow_the_port(port: u8, ops: Seq<Operation>)
    requires
        forall|i: int| 0 <= i < ops.len() ==> for_display(#[trigger] ops[i]),
    ensures
        echoes(port, ops).len() == reads_in(ops),
        port_values(transcript(ops, echoes(port, ops))) == port_history(port, ops),
    decreases ops.len(),
{
    if ops.len() > 0 {
        let op = ops[0];
        let rest = ops.drop_first();
        let next = port_after(port, op);
        assert(for_display(op));
        assert forall|i: int| 0 <= i < rest.len() implies for_display(#[trigger] rest[i]) by {
            assert(rest[i] == ops[i + 1]);
        }
        lemma_transfers_follow_the_port(next, rest);
        let replies = echoes(port, ops);
        let tail = transcript(rest, echoes(next, rest));
        let nothing = Seq::<Action>::empty();
        assert(port_values(nothing) =~= Seq::<u8>::empty());
        if reads_port(op) {
            assert(replies.drop_first() =~= echoes(next, rest));
            assert(replies[0] == port);
            let write = seq![port_write(I2C_ADDR_LCD, next)];
            let head = seq![port_read(I2C_ADDR_LCD), port_write(I2C_ADDR_LCD, next)];
            assert(transcript(ops, replies) == head + tail);
            lemma_port_values_in_parts(head, tail);
            assert(write.drop_first() =~= nothing);
            assert(port_values(write) =~= seq![next]);
            assert(head.drop_first() =~= write);
            assert(port_values(head) =~= seq![next]);
        } else {
            let head = transcript(ops, replies).take(1);
            assert(transcript(ops, replies) =~= head + tail);
            lemma_port_values_in_parts(head, tail);
            assert(head.drop_first() =~= nothing);
            assert(port_values(head) =~= port_values(head) + Seq::<u8>::empty());
        }
    }
}

/// The values written in two lots of actions are those of the first lot,
/// then those of the second.
proof fn lemma_port_values_in_parts(first: Seq<Action>, second: Seq<Action>)
    ensures
        port_values(first + second) == port_values(first) + port_values(second),
    decreases first.len(),
{
    if first.len() == 0 {
        assert(first + second =~= second);
        assert(port_values(first) + port_values(second) =~= port_values(second));
    } else {
        lemma_port_values_in_parts(first.drop_first(), second);
        assert((first + second).drop_first() =~= first.drop_first() + second);
        assert(port_values(first + second) =~= port_values(first) + port_values(second));
    }
}

/// What the display takes in while its port, which holds `port` at first,
/// is given `values` one after the other.
pub open spec fn taken_from(port: u8, values: Seq<u8>) -> Seq<u8>
    decreases values.len(),
{
    if values.len() == 0 {
        Seq::empty()
    } else {
        taken_at(port, values[0]) + taken_from(values[0], values.drop_first())
    }
}

/// What the display takes in while operations are carried out is settled by
/// the values that are written to its port.
pub proof fn lemma_latched_from_history(port: u8, ops: Seq<Operation>)
    ensures
        latched(port, ops) == taken_from(port, port_history(port, ops)),
    decreases ops.len(),
{
    if ops.len() > 0 {
        let op = ops[0];
        let rest = ops.drop_first();
        let next = port_after(port, op);
        lemma_latched_from_history(next, rest);
        lemma_one_more(port, Seq::empty(), op);
        assert(Seq::<Operation>::empty().push(op) =~= seq![op]);
        assert(seq![op] + rest =~= ops);
        lemma_one_after_the_other(port, seq![op], rest);
        assert(latched(port, ops) =~= taken_at(port, next) + latched(next, rest));
        let history = port_history(port, ops);
        if history.len() == port_history(next, rest).len() {
            // The operation does not write the port.
            assert(history =~= port_history(next, rest));
            assert(next == port);
            assert(taken_at(port, port) =~= Seq::<u8>::empty());
        } else {
            assert(history[0] == next);
            assert(history.drop_first() =~= port_history(next, rest));
        }
    }
}

/// Whether `op` can raise Enable.
pub open spec fn raises_enable(op: Operation) -> bool {
    match op {
        Operation::SetBits { address, mask } => address == I2C_ADDR_LCD && mask & MASK_EN != 0,
        Operation::RegisterWrite { address, register, value } => address == I2C_ADDR_LCD
            && register == MCP23008Register::GPIO && value & MASK_EN != 0,
        _ => false,
    }
}

/// Whether `ops` keep the timing of the display: Enable is raised nowhere
/// but inside an Enable pulse. So the lines stand for the set-up time before
/// Enable rises, nothing moves while Enable is high for the pulse width, and
/// the rest of the cycle passes before anything else happens.
pub open spec fn well_timed(ops: Seq<Operation>) -> bool {
    forall|i: int|
        0 <= i < ops.len() && raises_enable(#[trigger] ops[i]) ==> 1 <= i && i + 3 < ops.len()
            && ops.subrange(i - 1, i + 4) == pulse_enable_ops()
}

/// Operations that keep the timing, one lot after the other, keep it.
pub proof fn lemma_well_timed_in_parts(first: Seq<Operation>, second: Seq<Operation>)
    requires
        well_timed(first),
        well_timed(second),
    ensures
        well_timed(first + second),
{
    let all = first + second;
    assert forall|i: int| 0 <= i < all.len() && raises_enable(#[trigger] all[i]) implies 1 <= i && i
        + 3 < all.len() && all.subrange(i - 1, i + 4) == pulse_enable_ops() by {
        if i < first.len() {
            assert(all[i] == first[i]);
            assert(all.subrange(i - 1, i + 4) =~= first.subrange(i - 1, i + 4));
        } else {
            let j = i - first.len();
            assert(all[i] == second[j]);
            assert(all.subrange(i - 1, i + 4) =~= second.subrange(j - 1, j + 4));
        }
    }
}

/// Operations that keep the timing keep it when they are repeated.
pub proof fn lemma_well_timed_repeated(block: Seq<Operation>, count: nat)
    requires
        well_timed(block),
    ensures
        well_timed(repeated(block, count)),
    decreases count,
{
    if count > 0 {
        lemma_well_timed_repeated(block, (count - 1) as nat);
        lemma_well_timed_in_parts(repeated(block, (count - 1) as nat), block);
    }
}

/// The nibbles that the driver sends keep the timing.
pub proof fn lemma_nibbles_well_timed(lines: u8)
    requires
        data_only(lines),
    ensures
        well_timed(command_nibble_ops(lines)),
        well_timed(idle_nibble_ops()),
        well_timed(data_nibble_ops(lines)),
{
    assert(lines & !(MASK_D4 | MASK_D5 | MASK_D6 | MASK_D7) == 0 ==> lines & MASK_EN == 0)
        by (bit_vector);
    assert(MASK_RS & MASK_EN == 0 && MASK_EN & MASK_EN != 0) by (bit_vector);
    let pulse = pulse_enable_ops();
    let command = command_nibble_ops(lines);
    assert forall|i: int| 0 <= i < command.len() && raises_enable(#[trigger] command[i]) implies 1
        <= i && i + 3 < command.len() && command.subrange(i - 1, i + 4) == pulse by {
        assert(i == 3);
        assert(command.subrange(2, 7) =~= pulse);
    }
    let idle = idle_nibble_ops();
    assert forall|i: int| 0 <= i < idle.len() && raises_enable(#[trigger] idle[i]) implies 1 <= i
        && i + 3 < idle.len() && idle.subrange(i - 1, i + 4) == pulse by {
        assert(i == 2);
        assert(idle.subrange(1, 6) =~= pulse);
    }
    let data = data_nibble_ops(lines);
    assert forall|i: int| 0 <= i < data.len() && raises_enable(#[trigger] data[i]) implies 1 <= i
        && i + 3 < data.len() && data.subrange(i - 1, i + 4) == pulse by {
        assert(i == 4);
        assert(data.subrange(3, 8) =~= pulse);
    }
}

/// Writing a character keeps the timing.
pub proof fn lemma_write_char_well_timed(code: u32)
    ensures
        well_timed(write_char_ops(code)),
{
    let high = data_lines(high_nibble(code));
    let low = data_lines(low_nibble(code));
    lemma_data_lines(high_nibble(code));
    lemma_data_lines(low_nibble(code));
    lemma_nibbles_well_timed(high);
    lemma_nibbles_well_timed(low);
    lemma_well_timed_in_parts(data_nibble_ops(high), data_nibble_ops(low));
}

/// Writing a text keeps the timing.
pub proof fn lemma_write_string_well_timed(text: Seq<char>)
    ensures
        well_timed(write_string_ops(text)),
    decreases text.len(),
{
    if text.len() > 0 {
        lemma_write_string_well_timed(text.drop_last());
        if text.last() == '\n' {
            assert(data_only(MASK_D6 | MASK_D7) && data_only(MASK_NONE)) by (bit_vector);
            lemma_nibbles_well_timed(MASK_D6 | MASK_D7);
            lemma_nibbles_well_timed(MASK_NONE);
            lemma_well_timed_in_parts(
                command_nibble_ops(MASK_D6 | MASK_D7),
                command_nibble_ops(MASK_NONE),
            );
        } else {
            lemma_write_char_well_timed(text.last() as u32);
        }
        lemma_well_timed_in_parts(write_string_ops(text.drop_last()), glyph_ops(text.last()));
    }
}

/// Writing a number keeps the timing.
pub proof fn lemma_numbers_well_timed(wide: u32, narrow: u8)
    ensures
        well_timed(write_u32_ops(wide)),
        well_timed(write_u8_ops(narrow)),
{
    let a = write_char_ops(digit_code(wide / 10000));
    let b = write_char_ops(digit_code(wide / 1000 % 10));
    let c = write_char_ops(digit_code(wide / 100 % 10));
    let d = write_char_ops(digit_code(wide / 10 % 10));
    let e = write_char_ops(digit_code(wide % 10));
    lemma_write_char_well_timed(digit_code(wide / 10000));
    lemma_write_char_well_timed(digit_code(wide / 1000 % 10));
    lemma_write_char_well_timed(digit_code(wide / 100 % 10));
    lemma_write_char_well_timed(digit_code(wide / 10 % 10));
    lemma_write_char_well_timed(digit_code(wide % 10));
    lemma_well_timed_in_parts(a, b);
    lemma_well_timed_in_parts(a + b, c);
    lemma_well_timed_in_parts(a + b + c, d);
    lemma_well_timed_in_parts(a + b + c + d, e);
    let x = write_char_ops(digit_code((narrow / 100) as u32));
    let y = write_char_ops(digit_code((narrow / 10 % 10) as u32));
    let z = write_char_ops(digit_code((narrow % 10) as u32));
    lemma_write_char_well_timed(digit_code((narrow / 100) as u32));
    lemma_write_char_well_timed(digit_code((narrow / 10 % 10) as u32));
    lemma_write_char_well_timed(digit_code((narrow % 10) as u32));
    lemma_well_timed_in_parts(x, y);
    lemma_well_timed_in_parts(x + y, z);
}

/// Moving the cursor and rubbing out keep the timing.
pub proof fn lemma_cursor_well_timed(dir: Direction, count: nat)
    ensures
        well_timed(repeated(shift_once_ops(dir), count)),
        well_timed(repeated(backspace_once_ops(), count)),
{
    assert(data_only(MASK_D4) && data_only(MASK_D6)) by (bit_vector);
    lemma_nibbles_well_timed(MASK_D4);
    lemma_nibbles_well_timed(MASK_D6);
    lemma_well_timed_in_parts(command_nibble_ops(MASK_D4), idle_nibble_ops());
    lemma_well_timed_in_parts(command_nibble_ops(MASK_D4), command_nibble_ops(MASK_D6));
    lemma_well_timed_repeated(shift_once_ops(dir), count);
    let left = shift_once_ops(Direction::Left);
    lemma_write_char_well_timed(32);
    lemma_well_timed_in_parts(left, write_char_ops(32));
    lemma_well_timed_in_parts(left + write_char_ops(32), left);
    lemma_well_timed_repeated(backspace_once_ops(), count);
}

/// Clearing the display and setting it up keep the timing.
pub proof fn lemma_set_up_well_timed()
    ensures
        well_timed(clear_display_ops()),
        well_timed(set_4bit_2line_mode_ops()),
        well_timed(set_cursor_ops()),
        well_timed(set_autoincrement_ops()),
        well_timed(init_ops()),
{
    assert(data_only(MASK_NONE) && data_only(MASK_D4) && data_only(MASK_D5) && data_only(MASK_D7)
        && data_only(MASK_D5 | MASK_D6 | MASK_D7) && data_only(MASK_D5 | MASK_D6))
        by (bit_vector);
    lemma_nibbles_well_timed(MASK_NONE);
    lemma_nibbles_well_timed(MASK_D4);
    lemma_nibbles_well_timed(MASK_D5);
    lemma_nibbles_well_timed(MASK_D7);
    lemma_nibbles_well_timed(MASK_D5 | MASK_D6 | MASK_D7);
    lemma_nibbles_well_timed(MASK_D5 | MASK_D6);
    let zero = command_nibble_ops(MASK_NONE);
    lemma_well_timed_in_parts(zero, command_nibble_ops(MASK_D4));
    lemma_well_timed_in_parts(command_nibble_ops(MASK_D5), command_nibble_ops(MASK_D5));
    lemma_well_timed_in_parts(
        command_nibble_ops(MASK_D5) + command_nibble_ops(MASK_D5),
        command_nibble_ops(MASK_D7),
    );
    lemma_well_timed_in_parts(zero, command_nibble_ops(MASK_D5 | MASK_D6 | MASK_D7));
    lemma_well_timed_in_parts(zero, command_nibble_ops(MASK_D5 | MASK_D6));
    let start = seq![
        Operation::RegisterWrite {
            address: I2C_ADDR_LCD,
            register: MCP23008Register::IODIR,
            value: 0,
        },
        Operation::DelayMs(T_RCC_IN_MS),
    ];
    assert(well_timed(start));
    lemma_well_timed_in_parts(start, set_4bit_2line_mode_ops());
    lemma_well_timed_in_parts(start + set_4bit_2line_mode_ops(), set_cursor_ops());
    lemma_well_timed_in_parts(
        start + set_4bit_2line_mode_ops() + set_cursor_ops(),
        set_autoincrement_ops(),
    );
}

} // verus!
