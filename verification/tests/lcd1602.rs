use wire_cutter::i2c::lcd1602::{
    backspace, check_text, clear_display, display_greeting, init, newline, power_off, power_on,
    pulse_enable, reset_pins, set_4bit_2line_mode, set_autoincrement, set_cursor, shift_cursor,
    write_char, write_code, write_string, write_u32, write_u8, ContractViolation, Direction,
    LCD_MAX_LINE_LENGTH, LCD_MAX_NEWLINES, MASK_ALL, MASK_D4, MASK_D5, MASK_D6, MASK_D7, MASK_EN,
    MASK_NONE, MASK_PWR, MASK_RS, MASK_RW, PW_EH_IN_US, T_AS_IN_US, T_CYCE_IN_US, T_RCC_IN_MS,
};
use wire_cutter::i2c::{MCP23008Register, Operation, I2C_ADDR_LCD};

const LCD: u8 = 0b0100000;

fn set(mask: u8) -> Operation {
    Operation::SetBits { address: LCD, mask }
}

fn clear(mask: u8) -> Operation {
    Operation::ClearBits { address: LCD, mask }
}

fn pulse() -> Vec<Operation> {
    vec![
        Operation::DelayUs(40),
        set(0b0000_0100),
        Operation::DelayUs(230),
        clear(0b0000_0100),
        Operation::DelayUs(270),
    ]
}

/// One nibble of a command, written out by hand.
fn command(lines: u8) -> Vec<Operation> {
    let mut ops = vec![clear(0b0111_1111), set(lines)];
    ops.extend(pulse());
    ops
}

/// One nibble of data, written out by hand.
fn data(lines: u8) -> Vec<Operation> {
    let mut ops = vec![clear(0b0111_1111), set(0b0000_0001), set(lines)];
    ops.extend(pulse());
    ops
}

fn join(parts: Vec<Vec<Operation>>) -> Vec<Operation> {
    parts.into_iter().flatten().collect()
}

fn written(text: &str) -> Vec<Operation> {
    let mut program = Vec::new();
    write_string(text, &mut program);
    program
}

#[test]
fn the_masks_are_the_wiring_of_the_expander() {
    assert_eq!(I2C_ADDR_LCD, 0x20);
    assert_eq!(MASK_RS, 0x01);
    assert_eq!(MASK_RW, 0x02);
    assert_eq!(MASK_EN, 0x04);
    assert_eq!(MASK_D4, 0x08);
    assert_eq!(MASK_D5, 0x10);
    assert_eq!(MASK_D6, 0x20);
    assert_eq!(MASK_D7, 0x40);
    assert_eq!(MASK_PWR, 0x80);
    assert_eq!(MASK_NONE, 0x00);
    assert_eq!(MASK_ALL, MASK_RS | MASK_RW | MASK_EN | MASK_D4 | MASK_D5 | MASK_D6 | MASK_D7);
    assert_eq!(LCD_MAX_LINE_LENGTH, 16);
    assert_eq!(LCD_MAX_NEWLINES, 1);
}

#[test]
fn the_timing_is_that_of_the_data_sheet() {
    assert_eq!(T_RCC_IN_MS, 10);
    assert_eq!(T_AS_IN_US, 40);
    assert_eq!(PW_EH_IN_US, 230);
    assert_eq!(T_CYCE_IN_US, 500);
    let mut program = Vec::new();
    pulse_enable(&mut program);
    assert_eq!(program, pulse());
    let waited: u32 = program
        .iter()
        .map(|op| match op {
            Operation::DelayUs(us) => *us,
            _ => 0,
        })
        .sum();
    assert_eq!(waited, 40 + 500);
}

#[test]
fn power_on_and_off_switch_the_supply_bit() {
    let mut program = Vec::new();
    power_on(&mut program);
    power_off(&mut program);
    assert_eq!(program, vec![set(0b1000_0000), clear(0b1000_0000)]);
}

#[test]
fn reset_pins_lowers_every_line_but_the_supply() {
    let mut program = vec![Operation::DelayMs(1)];
    reset_pins(&mut program);
    assert_eq!(program, vec![Operation::DelayMs(1), clear(0b0111_1111)]);
}

#[test]
fn a_character_is_its_high_nibble_then_its_low_nibble() {
    // 'A' is 0x41: 4 is D6 alone, 1 is D4 alone.
    let mut program = Vec::new();
    write_char('A', &mut program);
    assert_eq!(program, join(vec![data(0b0010_0000), data(0b0000_1000)]));
    assert_eq!(program.len(), 16);
    // 'z' is 0x7A: 7 is D4, D5 and D6; 0xA is D5 and D7.
    let mut program = Vec::new();
    write_char('z', &mut program);
    assert_eq!(program, join(vec![data(0b0011_1000), data(0b0101_0000)]));
}

#[test]
fn every_code_shows_its_nibbles_on_the_data_lines() {
    for code in 0..=255u32 {
        let mut program = Vec::new();
        write_code(code, &mut program);
        let high = ((code >> 4) & 0xF) as u8;
        let low = (code & 0xF) as u8;
        assert_eq!(program, join(vec![data(high << 3), data(low << 3)]));
    }
}

#[test]
fn only_the_low_byte_of_a_code_is_written() {
    let mut wide = Vec::new();
    write_char('\u{20AC}', &mut wide);
    let mut narrow = Vec::new();
    write_code(0xAC, &mut narrow);
    assert_eq!(wide, narrow);
}

#[test]
fn newline_is_the_command_0xc0() {
    let mut program = Vec::new();
    newline(&mut program);
    assert_eq!(program, join(vec![command(0b0110_0000), command(0)]));
    assert_eq!(program.len(), 14);
}

#[test]
fn write_string_takes_the_characters_in_order() {
    assert_eq!(written(""), vec![]);
    assert_eq!(written("A"), join(vec![data(0x20), data(0x08)]));
    assert_eq!(
        written("A\n1"),
        join(vec![
            data(0x20),
            data(0x08),
            command(0x60),
            command(0x00),
            data(0x18),
            data(0x08),
        ])
    );
}

#[test]
fn write_string_appends_to_what_is_there() {
    let mut program = vec![Operation::DelayMs(7)];
    write_string("A", &mut program);
    let mut expected = vec![Operation::DelayMs(7)];
    expected.extend(written("A"));
    assert_eq!(program, expected);
}

#[test]
fn write_string_pulses_enable_twice_for_each_character() {
    let text = "CUT LENGTH (in):\n-> ";
    let program = written(text);
    let pulses = program.iter().filter(|op| **op == set(MASK_EN)).count();
    assert_eq!(pulses, 2 * 20);
    // Sixteen operations for a character, fourteen for the line break.
    assert_eq!(program.len(), 19 * 16 + 14);
    // Register-Select is raised once for each nibble of a character and never for
    // the line break.
    let selects = program.iter().filter(|op| **op == set(MASK_RS)).count();
    assert_eq!(selects, 2 * 19);
}

#[test]
fn the_prompt_fits_and_seventeen_characters_do_not() {
    assert_eq!(check_text("CUT LENGTH (in):\n-> "), Ok(()));
    assert_eq!(
        check_text("01234567890123456\n"),
        Err(ContractViolation::LineTooLong { line: 0 })
    );
}

#[test]
fn texts_at_the_edge_of_the_display() {
    assert_eq!(check_text(""), Ok(()));
    assert_eq!(check_text("\n"), Ok(()));
    assert_eq!(check_text("0123456789012345"), Ok(()));
    assert_eq!(check_text("0123456789012345\n0123456789012345"), Ok(()));
    assert_eq!(check_text("NUMBER OF CUTS:\n-> "), Ok(()));
    assert_eq!(check_text("\nOK? (#=Y, *=N) "), Ok(()));
    assert_eq!(check_text("01234567890123456"), Err(ContractViolation::LineTooLong { line: 0 }));
    assert_eq!(
        check_text("0123456789012345\n01234567890123456"),
        Err(ContractViolation::LineTooLong { line: 1 })
    );
}

#[test]
fn too_many_line_breaks_are_a_fault() {
    assert_eq!(check_text("\n\n"), Err(ContractViolation::TooManyNewlines));
    assert_eq!(check_text("a\nb\nc"), Err(ContractViolation::TooManyNewlines));
    assert_eq!(check_text("a\nb\nc\nd\ne"), Err(ContractViolation::TooManyNewlines));
}

#[test]
fn the_first_fault_in_the_order_of_the_lines_is_reported() {
    // The third line is held against the width before it is counted.
    assert_eq!(
        check_text("a\nb\n01234567890123456"),
        Err(ContractViolation::LineTooLong { line: 2 })
    );
    // A long fourth line comes after the third line was counted.
    assert_eq!(
        check_text("a\nb\nc\n01234567890123456"),
        Err(ContractViolation::TooManyNewlines)
    );
    assert_eq!(
        check_text("01234567890123456\nb\nc"),
        Err(ContractViolation::LineTooLong { line: 0 })
    );
    assert_eq!(
        check_text("a\n01234567890123456\n01234567890123456"),
        Err(ContractViolation::LineTooLong { line: 1 })
    );
}

#[test]
fn a_line_is_measured_in_bytes() {
    // Sixteen characters of two bytes each.
    assert_eq!(
        check_text("éééééééééééééééé"),
        Err(ContractViolation::LineTooLong { line: 0 })
    );
    assert_eq!(check_text("éééééééé"), Ok(()));
    assert_eq!(check_text("ééééééééa"), Err(ContractViolation::LineTooLong { line: 0 }));
    // Three bytes and four bytes.
    assert_eq!(check_text("€€€€€a"), Ok(()));
    assert_eq!(check_text("€€€€€ab"), Err(ContractViolation::LineTooLong { line: 0 }));
    assert_eq!(check_text("😀😀😀😀"), Ok(()));
    assert_eq!(check_text("😀😀😀😀a"), Err(ContractViolation::LineTooLong { line: 0 }));
}

#[test]
fn check_text_agrees_with_the_lines_of_the_text() {
    let samples = [
        "",
        "a",
        "\n",
        "a\n",
        "\na",
        "0123456789012345\n",
        "0123456789012345\n\n",
        "01234567890123456\n\n",
        "x\ny\nz",
        "HI BABE! <3\nYou so pretty...",
        "Cutting...\n00000 / ",
        "Finished Cutting\nWoohoo! <3",
    ];
    for text in samples {
        let mut expected = Ok(());
        for (i, line) in text.split('\n').enumerate() {
            if line.len() > 16 {
                expected = Err(ContractViolation::LineTooLong { line: i });
                break;
            }
            if i > 1 {
                expected = Err(ContractViolation::TooManyNewlines);
                break;
            }
        }
        assert_eq!(check_text(text), expected, "{:?}", text);
    }
}

#[test]
fn write_u32_of_42_writes_00042() {
    let mut program = Vec::new();
    write_u32(42, &mut program);
    let mut expected = Vec::new();
    for digit in ["0", "0", "0", "4", "2"] {
        write_string(digit, &mut expected);
    }
    assert_eq!(program, expected);
    assert_eq!(program, written("00042"));
    assert_eq!(program.len(), 5 * 16);
}

#[test]
fn write_u32_pads_to_five_digits() {
    for (val, text) in [(0, "00000"), (7, "00007"), (12345, "12345"), (99999, "99999"), (40100, "40100")]
    {
        let mut program = Vec::new();
        write_u32(val, &mut program);
        assert_eq!(program, written(text));
    }
}

#[test]
fn write_u32_puts_all_that_is_left_into_the_first_cell() {
    // 123456 / 10000 is 12, and 48 + 12 is the code of '<'.
    let mut program = Vec::new();
    write_u32(123456, &mut program);
    assert_eq!(program, written("<3456"));
    // u32::MAX / 10000 is 429496; 48 + 429496 is 0x68DE8, of which 0xE8 is written.
    let mut program = Vec::new();
    write_u32(u32::MAX, &mut program);
    let mut expected = Vec::new();
    write_code(0xE8, &mut expected);
    write_string("7295", &mut expected);
    assert_eq!(program, expected);
}

#[test]
fn write_u8_pads_to_three_digits() {
    for (val, text) in [(0u8, "000"), (9, "009"), (42, "042"), (100, "100"), (255, "255")] {
        let mut program = Vec::new();
        write_u8(val, &mut program);
        assert_eq!(program, written(text));
    }
}

#[test]
fn shift_cursor_left_and_right() {
    let mut program = Vec::new();
    shift_cursor(Direction::Left, 1, &mut program);
    let mut idle = vec![clear(0x7F)];
    idle.extend(pulse());
    assert_eq!(program, join(vec![command(0x08), idle.clone()]));

    let mut program = Vec::new();
    shift_cursor(Direction::Right, 2, &mut program);
    assert_eq!(
        program,
        join(vec![command(0x08), command(0x20), command(0x08), command(0x20)])
    );

    let mut program = Vec::new();
    shift_cursor(Direction::Right, 0, &mut program);
    assert!(program.is_empty());

    let mut program = Vec::new();
    shift_cursor(Direction::Left, 8, &mut program);
    assert_eq!(program.len(), 8 * (7 + 6));
}

#[test]
fn backspace_steps_back_blanks_and_steps_back() {
    let mut left = Vec::new();
    shift_cursor(Direction::Left, 1, &mut left);
    let mut blank = Vec::new();
    write_char(' ', &mut blank);
    assert_eq!(blank, join(vec![data(0x10), data(0x00)]));
    let once = join(vec![left.clone(), blank, left]);

    let mut program = Vec::new();
    backspace(1, &mut program);
    assert_eq!(program, once);

    let mut program = Vec::new();
    backspace(5, &mut program);
    assert_eq!(program, join(vec![once.clone(); 5]));

    let mut program = Vec::new();
    backspace(0, &mut program);
    assert!(program.is_empty());
}

#[test]
fn the_commands_of_the_set_up() {
    let mut program = Vec::new();
    clear_display(&mut program);
    assert_eq!(program, join(vec![command(0x00), command(0x08)]));

    let mut program = Vec::new();
    set_4bit_2line_mode(&mut program);
    assert_eq!(program, join(vec![command(0x10), command(0x10), command(0x40)]));

    let mut program = Vec::new();
    set_cursor(&mut program);
    assert_eq!(program, join(vec![command(0x00), command(0x70)]));

    let mut program = Vec::new();
    set_autoincrement(&mut program);
    assert_eq!(program, join(vec![command(0x00), command(0x30)]));
}

#[test]
fn init_goes_through_the_set_up_in_order() {
    let mut program = Vec::new();
    init(&mut program);
    let mut function_set = Vec::new();
    set_4bit_2line_mode(&mut function_set);
    let mut cursor = Vec::new();
    set_cursor(&mut cursor);
    let mut entry = Vec::new();
    set_autoincrement(&mut entry);
    assert_eq!(
        program,
        join(vec![
            vec![
                Operation::RegisterWrite {
                    address: 0x20,
                    register: MCP23008Register::IODIR,
                    value: 0,
                },
                Operation::DelayMs(10),
            ],
            function_set,
            cursor,
            entry,
        ])
    );
}

#[test]
fn the_greeting_is_written_as_a_text() {
    let mut program = Vec::new();
    display_greeting(&mut program);
    assert_eq!(check_text("HI BABE! <3\nYou so pretty..."), Ok(()));
    assert_eq!(program, written("HI BABE! <3\nYou so pretty..."));
}
