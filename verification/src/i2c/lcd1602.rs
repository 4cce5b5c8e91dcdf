//! The driver of the 16x2 character display, an HD44780 in 4-bit mode.

use vstd::prelude::*;
use super::{
    gpio_set_rmw, gpio_unset_rmw, lemma_transfers_add_up, register_value_set, transfers_in,
    MCP23008Register, Operation, I2C_ADDR_LCD,
};

verus! {

/// Longest line that the display shows, in bytes of text.
pub const LCD_MAX_LINE_LENGTH: usize = 16;

/// Most line breaks that a text may hold.
pub const LCD_MAX_NEWLINES: usize = 1;

/// Code of the digit zero.
pub const ASCII_INT_OFFSET: u32 = 48;

/// Register-Select line: low for a command, high for data.
pub const MASK_RS: u8 = 0b00000001;

/// Read/Write line. The driver only writes, so it stays low.
pub const MASK_RW: u8 = 0b00000010;

/// Enable line. The display takes the other lines in on its falling edge.
pub const MASK_EN: u8 = 0b00000100;

/// Data line 4.
pub const MASK_D4: u8 = 0b00001000;

/// Data line 5.
pub const MASK_D5: u8 = 0b00010000;

/// Data line 6.
pub const MASK_D6: u8 = 0b00100000;

/// Data line 7.
pub const MASK_D7: u8 = 0b01000000;

/// Every line of the display but its power switch.
pub const MASK_ALL: u8 = 0b01111111;

/// No line at all.
pub const MASK_NONE: u8 = 0b00000000;

/// The power switch of the display.
pub const MASK_PWR: u8 = 0b10000000;

/// Rise time of the power supply, in milliseconds.
pub const T_RCC_IN_MS: u32 = 10;

/// Address set-up time (RS, R/W to E), in microseconds.
pub const T_AS_IN_US: u32 = 40;

/// Width of the Enable pulse (high level), in microseconds.
pub const PW_EH_IN_US: u32 = 230;

/// Enable cycle time, in microseconds.
pub const T_CYCE_IN_US: u32 = 500;

/// Every line of the display has a bit of its own, and `MASK_ALL` holds all
/// of them but the power switch.
pub proof fn lemma_lines_apart()
    ensures
        MASK_ALL == MASK_RS | MASK_RW | MASK_EN | MASK_D4 | MASK_D5 | MASK_D6 | MASK_D7,
        MASK_ALL & MASK_PWR == 0,
        MASK_ALL | MASK_PWR == 0xFF,
        MASK_RS + MASK_RW + MASK_EN + MASK_D4 + MASK_D5 + MASK_D6 + MASK_D7 == MASK_ALL,
{
    assert(MASK_ALL == MASK_RS | MASK_RW | MASK_EN | MASK_D4 | MASK_D5 | MASK_D6 | MASK_D7
        && MASK_ALL & MASK_PWR == 0 && MASK_ALL | MASK_PWR == 0xFF) by (bit_vector);
}

/// The way the cursor moves.
#[derive(Copy, Clone, Debug, PartialEq, Eq, Structural)]
pub enum Direction {
    Left,
    Right,
}

/// One operation that raises the bits of `mask` on the display's expander.
pub open spec fn raise(mask: u8) -> Operation {
    Operation::SetBits { address: I2C_ADDR_LCD, mask }
}

/// One operation that lowers the bits of `mask` on the display's expander.
pub open spec fn lower(mask: u8) -> Operation {
    Operation::ClearBits { address: I2C_ADDR_LCD, mask }
}

/// One Enable pulse: the set-up time, Enable high for the pulse width, Enable
/// low for the rest of the cycle.
pub open spec fn pulse_enable_ops() -> Seq<Operation> {
    seq![
        Operation::DelayUs(T_AS_IN_US),
        raise(MASK_EN),
        Operation::DelayUs(PW_EH_IN_US),
        lower(MASK_EN),
        Operation::DelayUs((T_CYCE_IN_US - PW_EH_IN_US) as u32),
    ]
}

/// Appends one Enable pulse.
pub fn pulse_enable(program: &mut Vec<Operation>)
    ensures
        final(program)@ == old(program)@ + pulse_enable_ops(),
{
    // Wait before raising Enable, so that the address set-up time is kept.
    program.push(Operation::DelayUs(T_AS_IN_US));
    gpio_set_rmw(I2C_ADDR_LCD, MASK_EN, program);
    // Hold Enable high for the pulse width.
    program.push(Operation::DelayUs(PW_EH_IN_US));
    gpio_unset_rmw(I2C_ADDR_LCD, MASK_EN, program);
    // Wait out the rest of the Enable cycle.
    program.push(Operation::DelayUs(T_CYCE_IN_US - PW_EH_IN_US));
    assert(program@ =~= old(program)@ + pulse_enable_ops());
}

/// Appends the operation that lowers every line of the display.
pub fn reset_pins(program: &mut Vec<Operation>)
    ensures
        final(program)@ == old(program)@.push(lower(MASK_ALL)),
{
    gpio_unset_rmw(I2C_ADDR_LCD, MASK_ALL, program);
}

/// The data lines that show the four bits of `nibble`: bit 0 on D4, bit 1 on
/// D5, bit 2 on D6 and bit 3 on D7.
pub open spec fn data_lines(nibble: u8) -> u8 {
    (if nibble & 1 != 0 { MASK_D4 } else { MASK_NONE })
        | (if nibble & 2 != 0 { MASK_D5 } else { MASK_NONE })
        | (if nibble & 4 != 0 { MASK_D6 } else { MASK_NONE })
        | (if nibble & 8 != 0 { MASK_D7 } else { MASK_NONE })
}

/// The upper four bits of the low byte of `code`.
pub open spec fn high_nibble(code: u32) -> u8 {
    ((code >> 4) & 0xF) as u8
}

/// The lower four bits of `code`.
pub open spec fn low_nibble(code: u32) -> u8 {
    (code & 0xF) as u8
}

/// One nibble of a command: every line low, then the data lines `lines` high
/// while Register-Select stays low, then one Enable pulse.
pub open spec fn command_nibble_ops(lines: u8) -> Seq<Operation> {
    seq![lower(MASK_ALL), raise(lines)] + pulse_enable_ops()
}

/// One nibble of a command that raises no line before the Enable pulse.
pub open spec fn idle_nibble_ops() -> Seq<Operation> {
    seq![lower(MASK_ALL)] + pulse_enable_ops()
}

/// One nibble of data: every line low, then Register-Select high, then the
/// data lines `lines` high, then one Enable pulse.
pub open spec fn data_nibble_ops(lines: u8) -> Seq<Operation> {
    seq![lower(MASK_ALL), raise(MASK_RS), raise(lines)] + pulse_enable_ops()
}

/// Writing the character with the code `code`: its high nibble, then its low
/// nibble, both as data.
pub open spec fn write_char_ops(code: u32) -> Seq<Operation> {
    data_nibble_ops(data_lines(high_nibble(code))) + data_nibble_ops(
        data_lines(low_nibble(code)),
    )
}

/// Moving the cursor to the start of the second line: the command 0xC0.
pub open spec fn newline_ops() -> Seq<Operation> {
    command_nibble_ops(MASK_D6 | MASK_D7) + command_nibble_ops(MASK_NONE)
}

/// What `write_string` does for one character of its text.
pub open spec fn glyph_ops(c: char) -> Seq<Operation> {
    if c == '\n' {
        newline_ops()
    } else {
        write_char_ops(c as u32)
    }
}

/// Writing `text`: what is done for its characters, one after the other.
pub open spec fn write_string_ops(text: Seq<char>) -> Seq<Operation>
    decreases text.len(),
{
    if text.len() == 0 {
        Seq::empty()
    } else {
        write_string_ops(text.drop_last()) + glyph_ops(text.last())
    }
}

/// `count` times `block`.
pub open spec fn repeated(block: Seq<Operation>, count: nat) -> Seq<Operation>
    decreases count,
{
    if count == 0 {
        Seq::empty()
    } else {
        repeated(block, (count - 1) as nat) + block
    }
}

/// Moving the cursor by one cell: the command 0x10 to the left, 0x14 to the
/// right.
pub open spec fn shift_once_ops(dir: Direction) -> Seq<Operation> {
    command_nibble_ops(MASK_D4) + match dir {
        Direction::Left => idle_nibble_ops(),
        Direction::Right => command_nibble_ops(MASK_D6),
    }
}

/// Rubbing out one character: a step to the left, a blank, which moves the
/// cursor on, and a step to the left again.
pub open spec fn backspace_once_ops() -> Seq<Operation> {
    shift_once_ops(Direction::Left) + write_char_ops(32) + shift_once_ops(Direction::Left)
}

/// Clearing the display: the command 0x01.
pub open spec fn clear_display_ops() -> Seq<Operation> {
    command_nibble_ops(MASK_NONE) + command_nibble_ops(MASK_D4)
}

/// Function set. One nibble switches the display to 4-bit transfers; the
/// command 0x28 that follows selects 4-bit transfers and two lines.
pub open spec fn set_4bit_2line_mode_ops() -> Seq<Operation> {
    command_nibble_ops(MASK_D5) + command_nibble_ops(MASK_D5) + command_nibble_ops(MASK_D7)
}

/// Display on, cursor on: the command 0x0E.
pub open spec fn set_cursor_ops() -> Seq<Operation> {
    command_nibble_ops(MASK_NONE) + command_nibble_ops(MASK_D5 | MASK_D6 | MASK_D7)
}

/// Entry mode: the cursor moves on after each character and the display does
/// not shift, the command 0x06.
pub open spec fn set_autoincrement_ops() -> Seq<Operation> {
    command_nibble_ops(MASK_NONE) + command_nibble_ops(MASK_D5 | MASK_D6)
}

/// Bringing the display up: every pin of its expander an output, the rise
/// time of the supply, function set, display and cursor on, entry mode.
pub open spec fn init_ops() -> Seq<Operation> {
    seq![
        Operation::RegisterWrite {
            address: I2C_ADDR_LCD,
            register: MCP23008Register::IODIR,
            value: 0,
        },
        Operation::DelayMs(T_RCC_IN_MS),
    ] + set_4bit_2line_mode_ops() + set_cursor_ops() + set_autoincrement_ops()
}

/// The code of the decimal digit `digit`.
pub open spec fn digit_code(digit: u32) -> u32 {
    (ASCII_INT_OFFSET + digit) as u32
}

/// Writing `val` in five cells: ten thousands, thousands, hundreds, tens,
/// ones. The first cell takes all of `val / 10000`, so it shows a digit only
/// below 100000.
pub open spec fn write_u32_ops(val: u32) -> Seq<Operation> {
    write_char_ops(digit_code(val / 10000)) + write_char_ops(digit_code(val / 1000 % 10))
        + write_char_ops(digit_code(val / 100 % 10)) + write_char_ops(digit_code(val / 10 % 10))
        + write_char_ops(digit_code(val % 10))
}

/// Writing `val` in three cells: hundreds, tens, ones.
pub open spec fn write_u8_ops(val: u8) -> Seq<Operation> {
    write_char_ops(digit_code((val / 100) as u32)) + write_char_ops(
        digit_code((val / 10 % 10) as u32),
    ) + write_char_ops(digit_code((val % 10) as u32))
}

/// Appends one nibble of a command.
fn command_nibble(lines: u8, program: &mut Vec<Operation>)
    ensures
        final(program)@ == old(program)@ + command_nibble_ops(lines),
{
    reset_pins(program);
    gpio_set_rmw(I2C_ADDR_LCD, lines, program);
    pulse_enable(program);
    assert(program@ =~= old(program)@ + command_nibble_ops(lines));
}

/// Appends one nibble of data.
fn data_nibble(lines: u8, program: &mut Vec<Operation>)
    ensures
        final(program)@ == old(program)@ + data_nibble_ops(lines),
{
    reset_pins(program);
    gpio_set_rmw(I2C_ADDR_LCD, MASK_RS, program);
    gpio_set_rmw(I2C_ADDR_LCD, lines, program);
    pulse_enable(program);
    assert(program@ =~= old(program)@ + data_nibble_ops(lines));
}

/// Appends the operations that write the character with the code `code` at
/// the cursor. Only the low byte of `code` reaches the display.
pub fn write_code(code: u32, program: &mut Vec<Operation>)
    ensures
        final(program)@ == old(program)@ + write_char_ops(code),
{
    // Bits 4 to 7 of the code belong on D4 to D7, which are bits 3 to 6 of the port.
    let hi_order_mask: u8 = ((code & 0xF0) >> 1) as u8;
    assert(((code & 0xF0) >> 1) < 0x100 && ((code & 0xF0) >> 1) as u8 == data_lines(
        high_nibble(code),
    )) by (bit_vector);
    data_nibble(hi_order_mask, program);

    // Bits 0 to 3 of the code belong on the same four lines.
    let lo_order_mask: u8 = ((code & 0x0F) << 3) as u8;
    assert(((code & 0x0F) << 3) < 0x100 && ((code & 0x0F) << 3) as u8 == data_lines(
        low_nibble(code),
    )) by (bit_vector);
    data_nibble(lo_order_mask, program);
    assert(program@ =~= old(program)@ + write_char_ops(code));
}

/// Appends the operations that write `c` at the cursor.
pub fn write_char(c: char, program: &mut Vec<Operation>)
    ensures
        final(program)@ == old(program)@ + write_char_ops(c as u32),
{
    write_code(c as u32, program);
}

/// Appends the operations that move the cursor to the start of the second
/// line.
pub fn newline(program: &mut Vec<Operation>)
    ensures
        final(program)@ == old(program)@ + newline_ops(),
{
    command_nibble(MASK_D6 | MASK_D7, program);
    command_nibble(MASK_NONE, program);
    assert(program@ =~= old(program)@ + newline_ops());
}

/// Appends the operations that move the cursor `num_spaces` cells to the
/// left or to the right, without writing.
pub fn shift_cursor(dir: Direction, num_spaces: usize, program: &mut Vec<Operation>)
    ensures
        final(program)@ == old(program)@ + repeated(shift_once_ops(dir), num_spaces as nat),
{
    let ghost before = program@;
    assert(program@ =~= before + repeated(shift_once_ops(dir), 0));
    for i in 0..num_spaces
        invariant
            program@ == before + repeated(shift_once_ops(dir), i as nat),
    {
        let ghost sofar = program@;
        command_nibble(MASK_D4, program);
        // Left is low, right is high.
        match dir {
            Direction::Right => {
                command_nibble(MASK_D6, program);
            },
            Direction::Left => {
                reset_pins(program);
                pulse_enable(program);
                assert(program@ =~= sofar + command_nibble_ops(MASK_D4) + idle_nibble_ops());
            },
        }
        assert(program@ =~= sofar + shift_once_ops(dir));
        assert(program@ =~= before + repeated(shift_once_ops(dir), (i + 1) as nat));
    }
}

/// Appends the operations that rub out the `count` characters before the
/// cursor and leave the cursor where the first of them stood.
pub fn backspace(count: usize, program: &mut Vec<Operation>)
    ensures
        final(program)@ == old(program)@ + repeated(backspace_once_ops(), count as nat),
{
    let ghost before = program@;
    assert(program@ =~= before + repeated(backspace_once_ops(), 0));
    for i in 0..count
        invariant
            program@ == before + repeated(backspace_once_ops(), i as nat),
    {
        let ghost sofar = program@;
        proof {
            assert(repeated(shift_once_ops(Direction::Left), 1) =~= shift_once_ops(
                Direction::Left,
            )) by {
                assert(repeated(shift_once_ops(Direction::Left), 0) =~= Seq::empty());
            }
        }
        shift_cursor(Direction::Left, 1, program);
        write_code(32, program);
        shift_cursor(Direction::Left, 1, program);
        assert(program@ =~= sofar + backspace_once_ops());
        assert(program@ =~= before + repeated(backspace_once_ops(), (i + 1) as nat));
    }
}

/// Appends the operations that clear the display.
pub fn clear_display(program: &mut Vec<Operation>)
    ensures
        final(program)@ == old(program)@ + clear_display_ops(),
{
    command_nibble(MASK_NONE, program);
    command_nibble(MASK_D4, program);
    assert(program@ =~= old(program)@ + clear_display_ops());
}

/// Appends the operations that switch the display to 4-bit transfers and two
/// lines.
pub fn set_4bit_2line_mode(program: &mut Vec<Operation>)
    ensures
        final(program)@ == old(program)@ + set_4bit_2line_mode_ops(),
{
    // The first phase is a single nibble: the display still listens to eight lines.
    command_nibble(MASK_D5, program);
    command_nibble(MASK_D5, program);
    command_nibble(MASK_D7, program);
    assert(program@ =~= old(program)@ + set_4bit_2line_mode_ops());
}

/// Appends the operations that switch the display and its cursor on.
pub fn set_cursor(program: &mut Vec<Operation>)
    ensures
        final(program)@ == old(program)@ + set_cursor_ops(),
{
    command_nibble(MASK_NONE, program);
    command_nibble(MASK_D5 | MASK_D6 | MASK_D7, program);
    assert(program@ =~= old(program)@ + set_cursor_ops());
}

/// Appends the operations that make the cursor move on after each character.
pub fn set_autoincrement(program: &mut Vec<Operation>)
    ensures
        final(program)@ == old(program)@ + set_autoincrement_ops(),
{
    command_nibble(MASK_NONE, program);
    command_nibble(MASK_D5 | MASK_D6, program);
    assert(program@ =~= old(program)@ + set_autoincrement_ops());
}

/// Appends the operations that bring the display up after power-on.
pub fn init(program: &mut Vec<Operation>)
    ensures
        final(program)@ == old(program)@ + init_ops(),
{
    // Every pin of the display's expander is an output.
    register_value_set(I2C_ADDR_LCD, MCP23008Register::IODIR, 0b00000000, program);
    // The supply of the display needs time to rise.
    program.push(Operation::DelayMs(T_RCC_IN_MS));
    set_4bit_2line_mode(program);
    set_cursor(program);
    set_autoincrement(program);
    assert(program@ =~= old(program)@ + init_ops());
}

/// Appends the operation that switches the display's supply on.
pub fn power_on(program: &mut Vec<Operation>)
    ensures
        final(program)@ == old(program)@.push(raise(MASK_PWR)),
{
    gpio_set_rmw(I2C_ADDR_LCD, MASK_PWR, program);
}

/// Appends the operation that switches the display's supply off.
pub fn power_off(program: &mut Vec<Operation>)
    ensures
        final(program)@ == old(program)@.push(lower(MASK_PWR)),
{
    gpio_unset_rmw(I2C_ADDR_LCD, MASK_PWR, program);
}

/// Appends the operations that write `val` as five cells, padded with zeros.
pub fn write_u32(val: u32, program: &mut Vec<Operation>)
    ensures
        final(program)@ == old(program)@ + write_u32_ops(val),
{
    let ones: u32 = val % 10;
    let tens: u32 = (val / 10) % 10;
    let hundreds: u32 = (val / 100) % 10;
    let thousands: u32 = (val / 1000) % 10;
    let ten_thousands: u32 = val / 10000;

    write_code(ten_thousands + ASCII_INT_OFFSET, program);
    write_code(thousands + ASCII_INT_OFFSET, program);
    write_code(hundreds + ASCII_INT_OFFSET, program);
    write_code(tens + ASCII_INT_OFFSET, program);
    write_code(ones + ASCII_INT_OFFSET, program);
    assert(program@ =~= old(program)@ + write_u32_ops(val));
}

/// Appends the operations that write `val` as three cells, padded with zeros.
pub fn write_u8(val: u8, program: &mut Vec<Operation>)
    ensures
        final(program)@ == old(program)@ + write_u8_ops(val),
{
    let ones: u8 = val % 10;
    let tens: u8 = (val / 10) % 10;
    let hundreds: u8 = val / 100;

    write_code(hundreds as u32 + ASCII_INT_OFFSET, program);
    write_code(tens as u32 + ASCII_INT_OFFSET, program);
    write_code(ones as u32 + ASCII_INT_OFFSET, program);
    assert(program@ =~= old(program)@ + write_u8_ops(val));
}

/// Why a text cannot be shown.
#[derive(Copy, Clone, Debug, PartialEq, Eq, Structural)]
pub enum ContractViolation {
    /// The line with this index, counted from 0, is longer than the display
    /// is wide.
    LineTooLong { line: usize },
    /// The text has more lines than the display.
    TooManyNewlines,
}

/// The number of bytes that `c` takes in a text.
pub open spec fn byte_width(c: char) -> nat {
    if (c as u32) < 0x80 {
        1
    } else if (c as u32) < 0x800 {
        2
    } else if (c as u32) < 0x10000 {
        3
    } else {
        4
    }
}

/// The length of `line` in bytes.
pub open spec fn byte_len(line: Seq<char>) -> nat
    decreases line.len(),
{
    if line.len() == 0 {
        0
    } else {
        byte_len(line.drop_last()) + byte_width(line.last())
    }
}

/// The lines of `text`: what stands before, between and after its line
/// breaks. A text without a line break is one line, and a text that ends in
/// one has an empty last line.
pub open spec fn lines(text: Seq<char>) -> Seq<Seq<char>>
    decreases text.len(),
{
    if text.len() == 0 {
        seq![Seq::empty()]
    } else {
        let before = lines(text.drop_last());
        if text.last() == '\n' {
            before.push(Seq::empty())
        } else {
            before.update(before.len() - 1, before.last().push(text.last()))
        }
    }
}

/// Whether `line` is longer than the display is wide.
pub open spec fn too_long(line: Seq<char>) -> bool {
    byte_len(line) > LCD_MAX_LINE_LENGTH
}

/// The first fault among the first `count` of `lines`, taken line by line: a
/// line is first held against the width of the display, then its index
/// against the number of lines.
pub open spec fn violation_among(lines: Seq<Seq<char>>, count: int) -> Option<ContractViolation> {
    if count > 0 && too_long(lines[0]) {
        Some(ContractViolation::LineTooLong { line: 0 })
    } else if count > 1 && too_long(lines[1]) {
        Some(ContractViolation::LineTooLong { line: 1 })
    } else if count > 2 {
        if too_long(lines[2]) {
            Some(ContractViolation::LineTooLong { line: 2 })
        } else {
            Some(ContractViolation::TooManyNewlines)
        }
    } else {
        None
    }
}

/// The first fault of `text`, if it has one.
pub open spec fn violation(text: Seq<char>) -> Option<ContractViolation> {
    violation_among(lines(text), lines(text).len() as int)
}

/// Whether the display can show `text`: at most one line break, and no line
/// longer than the display is wide.
pub open spec fn fits_display(text: Seq<char>) -> bool {
    &&& lines(text).len() <= LCD_MAX_NEWLINES + 1
    &&& forall|i: int| 0 <= i < lines(text).len() ==> !too_long(#[trigger] lines(text)[i])
}

/// A text fits the display exactly when it has no fault.
pub proof fn lemma_fits_iff_no_violation(text: Seq<char>)
    ensures
        fits_display(text) <==> violation(text) is None,
{
    lemma_lines_nonempty(text);
}

/// Every text has at least one line.
pub proof fn lemma_lines_nonempty(text: Seq<char>)
    ensures
        lines(text).len() >= 1,
    decreases text.len(),
{
    if text.len() > 0 {
        lemma_lines_nonempty(text.drop_last());
    }
}

/// The number of bytes that `c` takes in a text.
fn width_of(c: char) -> (w: usize)
    ensures
        w == byte_width(c),
{
    let code: u32 = c as u32;
    if code < 0x80 {
        1
    } else if code < 0x800 {
        2
    } else if code < 0x10000 {
        3
    } else {
        4
    }
}

/// Holds `out_str` against the size of the display. The fault that is
/// reported is the first one met when the lines are taken in order.
pub fn check_text(out_str: &str) -> (result: Result<(), ContractViolation>)
    ensures
        result is Ok <==> fits_display(out_str@),
        result matches Err(fault) ==> violation(out_str@) == Some(fault),
{
    // Index of the line that is being read; 3 stands for every later line.
    let mut line: usize = 0;
    // Length of that line so far; it stops growing once it is too long.
    let mut len: usize = 0;
    let mut found: Option<ContractViolation> = None;
    proof {
        assert(out_str@.take(0) =~= Seq::<char>::empty());
        assert(lines(out_str@.take(0)) =~= seq![Seq::<char>::empty()]);
        assert(byte_len(Seq::<char>::empty()) == 0);
    }
    for c in it: out_str.chars()
        invariant
            it.seq() == out_str@,
            lines(out_str@.take(it.index() as int)).len() >= 1,
            line == if lines(out_str@.take(it.index() as int)).len() <= 3 {
                lines(out_str@.take(it.index() as int)).len() - 1
            } else {
                3
            },
            len <= LCD_MAX_LINE_LENGTH + 4,
            len <= LCD_MAX_LINE_LENGTH ==> len == byte_len(
                lines(out_str@.take(it.index() as int)).last(),
            ),
            len > LCD_MAX_LINE_LENGTH ==> too_long(lines(out_str@.take(it.index() as int)).last()),
            found == violation_among(
                lines(out_str@.take(it.index() as int)),
                lines(out_str@.take(it.index() as int)).len() - 1,
            ),
    {
        proof {
            let i = it.index() as int;
            assert(out_str@.take(i + 1).drop_last() =~= out_str@.take(i));
            assert(out_str@.take(i + 1).last() == c);
            let before = lines(out_str@.take(i));
            if c != '\n' {
                assert(before.last().push(c).drop_last() =~= before.last());
            } else {
                assert(byte_len(Seq::<char>::empty()) == 0);
            }
        }
        if c == '\n' {
            if found.is_none() {
                if len > LCD_MAX_LINE_LENGTH {
                    found = Some(ContractViolation::LineTooLong { line });
                } else if line > LCD_MAX_NEWLINES {
                    found = Some(ContractViolation::TooManyNewlines);
                }
            }
            if line < 3 {
                line = line + 1;
            }
            len = 0;
        } else if len <= LCD_MAX_LINE_LENGTH {
            len = len + width_of(c);
        }
    }
    proof {
        assert(out_str@.take(out_str@.len() as int) =~= out_str@);
        lemma_fits_iff_no_violation(out_str@);
    }
    if found.is_none() {
        if len > LCD_MAX_LINE_LENGTH {
            found = Some(ContractViolation::LineTooLong { line });
        } else if line > LCD_MAX_NEWLINES {
            found = Some(ContractViolation::TooManyNewlines);
        }
    }
    match found {
        Some(fault) => Err(fault),
        None => Ok(()),
    }
}

/// Appends the operations that write `out_str` at the cursor. A line break
/// moves the cursor to the start of the second line; every other character is
/// written as it is.
///
/// A text that does not fit the display is a fault of the caller, who can
/// find out with [`check_text`].
pub fn write_string(out_str: &str, program: &mut Vec<Operation>)
    requires
        fits_display(out_str@),
    ensures
        final(program)@ == old(program)@ + write_string_ops(out_str@),
{
    let ghost before = program@;
    proof {
        assert(out_str@.take(0) =~= Seq::<char>::empty());
        assert(program@ =~= before + write_string_ops(out_str@.take(0)));
    }
    for c in it: out_str.chars()
        invariant
            it.seq() == out_str@,
            program@ == before + write_string_ops(out_str@.take(it.index() as int)),
    {
        proof {
            let i = it.index() as int;
            assert(out_str@.take(i + 1).drop_last() =~= out_str@.take(i));
            assert(out_str@.take(i + 1).last() == c);
        }
        let ghost sofar = program@;
        // A line break moves the cursor, anything else is written out.
        if c == '\n' {
            newline(program);
        } else {
            write_char(c, program);
        }
        assert(program@ =~= before + write_string_ops(out_str@.take(it.index() + 1)));
    }
    proof {
        assert(out_str@.take(out_str@.len() as int) =~= out_str@);
    }
}

/// Whether `text` fits the display from its character `at` on, when that
/// character stands on the line with the index `line`, `len` bytes into it.
/// This reads the text once from front to back, which is how a given text is
/// best held against the display.
pub open spec fn fits_from(text: Seq<char>, at: int, line: int, len: int) -> bool
    decreases text.len() - at,
{
    if at < 0 || at >= text.len() {
        true
    } else if text[at] == '\n' {
        line < LCD_MAX_NEWLINES && fits_from(text, at + 1, line + 1, 0)
    } else {
        len + byte_width(text[at]) <= LCD_MAX_LINE_LENGTH && fits_from(
            text,
            at + 1,
            line,
            len + byte_width(text[at]),
        )
    }
}

/// A text that fits when it is read from front to back fits the display.
pub proof fn lemma_fits_from_start(text: Seq<char>)
    requires
        fits_from(text, 0, 0, 0),
    ensures
        fits_display(text),
{
    assert(text.take(0) =~= Seq::<char>::empty());
    assert(lines(text.take(0)) =~= seq![Seq::<char>::empty()]);
    assert(byte_len(Seq::<char>::empty()) == 0);
    lemma_fits_from(text, 0, 0, 0);
}

/// The step from a part of the text that fits to all of it.
proof fn lemma_fits_from(text: Seq<char>, at: int, line: int, len: int)
    requires
        0 <= at <= text.len(),
        fits_from(text, at, line, len),
        fits_display(text.take(at)),
        lines(text.take(at)).len() == line + 1,
        byte_len(lines(text.take(at)).last()) == len,
    ensures
        fits_display(text),
    decreases text.len() - at,
{
    if at == text.len() {
        assert(text.take(at) =~= text);
    } else {
        let c = text[at];
        let before = lines(text.take(at));
        let after = lines(text.take(at + 1));
        lemma_lines_nonempty(text.take(at));
        assert(text.take(at + 1).drop_last() =~= text.take(at));
        assert(text.take(at + 1).last() == c);
        if c == '\n' {
            assert(after == before.push(Seq::<char>::empty()));
            assert(byte_len(Seq::<char>::empty()) == 0);
            assert forall|i: int| 0 <= i < after.len() implies !too_long(#[trigger] after[i]) by {
                if i < before.len() {
                    assert(after[i] == before[i]);
                }
            }
            lemma_fits_from(text, at + 1, line + 1, 0);
        } else {
            assert(after == before.update(before.len() - 1, before.last().push(c)));
            assert(before.last().push(c).drop_last() =~= before.last());
            assert(byte_len(before.last().push(c)) == len + byte_width(c));
            assert forall|i: int| 0 <= i < after.len() implies !too_long(#[trigger] after[i]) by {
                if i < before.len() - 1 {
                    assert(after[i] == before[i]);
                } else {
                    assert(after[i] == before.last().push(c));
                }
            }
            lemma_fits_from(text, at + 1, line, len + byte_width(c));
        }
    }
}

/// Appends the operations that write the greeting.
pub fn display_greeting(program: &mut Vec<Operation>)
    ensures
        final(program)@ == old(program)@ + write_string_ops("HI BABE! <3\nYou so pretty..."@),
{
    proof {
        reveal_strlit("HI BABE! <3\nYou so pretty...");
        reveal_with_fuel(fits_from, 30);
        lemma_fits_from_start("HI BABE! <3\nYou so pretty..."@);
    }
    write_string("HI BABE! <3\nYou so pretty...", program);
}

/// The character that shows the decimal digit `digit`.
pub open spec fn digit_char(digit: u32) -> char {
    digit_code(digit) as char
}

/// The five decimal digits of `val`, with zeros in front.
pub open spec fn decimal_5(val: u32) -> Seq<char> {
    seq![
        digit_char(val / 10000),
        digit_char(val / 1000 % 10),
        digit_char(val / 100 % 10),
        digit_char(val / 10 % 10),
        digit_char(val % 10),
    ]
}

/// The three decimal digits of `val`, with zeros in front.
pub open spec fn decimal_3(val: u8) -> Seq<char> {
    seq![
        digit_char((val / 100) as u32),
        digit_char((val / 10 % 10) as u32),
        digit_char((val % 10) as u32),
    ]
}

/// A text is written as its first part, then its second part.
pub proof fn lemma_write_string_in_parts(first: Seq<char>, second: Seq<char>)
    ensures
        write_string_ops(first + second) == write_string_ops(first) + write_string_ops(second),
    decreases second.len(),
{
    if second.len() == 0 {
        assert(first + second =~= first);
        assert(write_string_ops(first) + Seq::<Operation>::empty() =~= write_string_ops(first));
    } else {
        lemma_write_string_in_parts(first, second.drop_last());
        assert((first + second).drop_last() =~= first + second.drop_last());
        assert(write_string_ops(first + second) =~= write_string_ops(first) + write_string_ops(
            second,
        ));
    }
}

/// A text of one character is written as that character.
pub proof fn lemma_write_string_of_one(c: char)
    ensures
        write_string_ops(seq![c]) == glyph_ops(c),
{
    assert(seq![c].drop_last() =~= Seq::<char>::empty());
    assert(write_string_ops(Seq::<char>::empty()) =~= Seq::<Operation>::empty());
    assert(seq![c].last() == c);
    assert(write_string_ops(seq![c]) =~= glyph_ops(c));
}

/// Below 100000, `write_u32` writes what `write_string` writes for the five
/// decimal digits of the value, one character after the other, and these fit
/// the display.
pub proof fn lemma_write_u32_writes_digits(val: u32)
    requires
        val < 100000,
    ensures
        write_u32_ops(val) == write_string_ops(decimal_5(val)),
        fits_display(decimal_5(val)),
{
    let d4 = digit_char(val / 10000);
    let d3 = digit_char(val / 1000 % 10);
    let d2 = digit_char(val / 100 % 10);
    let d1 = digit_char(val / 10 % 10);
    let d0 = digit_char(val % 10);
    lemma_write_string_of_one(d4);
    lemma_write_string_of_one(d3);
    lemma_write_string_of_one(d2);
    lemma_write_string_of_one(d1);
    lemma_write_string_of_one(d0);
    lemma_write_string_in_parts(seq![d4], seq![d3]);
    lemma_write_string_in_parts(seq![d4] + seq![d3], seq![d2]);
    lemma_write_string_in_parts(seq![d4] + seq![d3] + seq![d2], seq![d1]);
    lemma_write_string_in_parts(seq![d4] + seq![d3] + seq![d2] + seq![d1], seq![d0]);
    assert(decimal_5(val) =~= seq![d4] + seq![d3] + seq![d2] + seq![d1] + seq![d0]);
    reveal_with_fuel(fits_from, 6);
    lemma_fits_from_start(decimal_5(val));
}

/// `write_u8` writes what `write_string` writes for the three decimal digits
/// of the value, one character after the other, and these fit the display.
pub proof fn lemma_write_u8_writes_digits(val: u8)
    ensures
        write_u8_ops(val) == write_string_ops(decimal_3(val)),
        fits_display(decimal_3(val)),
{
    let d2 = digit_char((val / 100) as u32);
    let d1 = digit_char((val / 10 % 10) as u32);
    let d0 = digit_char((val % 10) as u32);
    lemma_write_string_of_one(d2);
    lemma_write_string_of_one(d1);
    lemma_write_string_of_one(d0);
    lemma_write_string_in_parts(seq![d2], seq![d1]);
    lemma_write_string_in_parts(seq![d2] + seq![d1], seq![d0]);
    assert(decimal_3(val) =~= seq![d2] + seq![d1] + seq![d0]);
    reveal_with_fuel(fits_from, 4);
    lemma_fits_from_start(decimal_3(val));
}

/// The number of line breaks in `text`.
pub open spec fn line_breaks(text: Seq<char>) -> nat
    decreases text.len(),
{
    if text.len() == 0 {
        0
    } else {
        line_breaks(text.drop_last()) + if text.last() == '\n' {
            1nat
        } else {
            0nat
        }
    }
}

/// A nibble of a command takes four read-modify-writes, which are eight
/// bus transfers: every line low, the data lines high, Enable high, Enable
/// low. A nibble of data takes one more, for Register-Select.
pub proof fn lemma_nibble_transfers(lines: u8)
    ensures
        transfers_in(pulse_enable_ops()) == 4,
        transfers_in(command_nibble_ops(lines)) == 8,
        transfers_in(idle_nibble_ops()) == 6,
        transfers_in(data_nibble_ops(lines)) == 10,
{
    reveal_with_fuel(transfers_in, 6);
    assert(transfers_in(pulse_enable_ops()) == 4);
    let command = seq![lower(MASK_ALL), raise(lines)];
    let idle = seq![lower(MASK_ALL)];
    let data = seq![lower(MASK_ALL), raise(MASK_RS), raise(lines)];
    assert(transfers_in(command) == 4);
    assert(transfers_in(idle) == 2);
    assert(transfers_in(data) == 6);
    lemma_transfers_add_up(command, pulse_enable_ops());
    lemma_transfers_add_up(idle, pulse_enable_ops());
    lemma_transfers_add_up(data, pulse_enable_ops());
}

/// Writing a text takes two nibbles for each of its characters: twenty bus
/// transfers for a character, sixteen for a line break.
pub proof fn lemma_write_string_transfers(text: Seq<char>)
    ensures
        line_breaks(text) <= text.len(),
        transfers_in(write_string_ops(text)) == 20 * (text.len() - line_breaks(text)) + 16
            * line_breaks(text),
    decreases text.len(),
{
    if text.len() > 0 {
        lemma_write_string_transfers(text.drop_last());
        let c = text.last();
        lemma_transfers_add_up(write_string_ops(text.drop_last()), glyph_ops(c));
        if c == '\n' {
            lemma_nibble_transfers(MASK_D6 | MASK_D7);
            lemma_nibble_transfers(MASK_NONE);
            lemma_transfers_add_up(
                command_nibble_ops(MASK_D6 | MASK_D7),
                command_nibble_ops(MASK_NONE),
            );
        } else {
            let high = data_lines(high_nibble(c as u32));
            let low = data_lines(low_nibble(c as u32));
            lemma_nibble_transfers(high);
            lemma_nibble_transfers(low);
            lemma_transfers_add_up(data_nibble_ops(high), data_nibble_ops(low));
        }
    }
}

/// The length of a line in bytes is the length of its UTF-8 encoding, which
/// is what `str::len` gives.
pub proof fn lemma_byte_len_is_utf8_len(line: Seq<char>)
    ensures
        byte_len(line) == vstd::utf8::encode_utf8(line).len(),
    decreases line.len(),
{
    if line.len() > 0 {
        lemma_byte_len_is_utf8_len(line.drop_last());
        lemma_utf8_len_of_push(line.drop_last(), line.last());
        assert(line.drop_last().push(line.last()) =~= line);
    }
}

/// One more character makes the UTF-8 encoding longer by the width of that
/// character.
proof fn lemma_utf8_len_of_push(line: Seq<char>, c: char)
    ensures
        vstd::utf8::encode_utf8(line.push(c)).len() == vstd::utf8::encode_utf8(line).len()
            + byte_width(c),
    decreases line.len(),
{
    let longer = line.push(c);
    if line.len() == 0 {
        assert(longer.drop_first() =~= Seq::<char>::empty());
        assert(vstd::utf8::encode_utf8(Seq::<char>::empty()).len() == 0);
        assert(vstd::utf8::encode_utf8(line).len() == 0);
    } else {
        lemma_utf8_len_of_push(line.drop_first(), c);
        assert(longer.drop_first() =~= line.drop_first().push(c));
    }
}

} // verus!
