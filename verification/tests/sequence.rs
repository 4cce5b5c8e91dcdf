use wire_cutter::i2c::hd44780::{LINE_1_END, LINE_1_START, LINE_2_END, LINE_2_START};
use wire_cutter::i2c::keypad::{scan, sweep, Key, Scan, MASK_C1, MASK_C2, MASK_C3, MASK_R2, MASK_R4};
use wire_cutter::i2c::lcd1602::{
    backspace, clear_display, init, power_on, shift_cursor, write_string, write_u32, Direction,
};
use wire_cutter::i2c::{
    gpio_read, gpio_set_rmw, gpio_unset_rmw, gpio_write, register_value_set, Action,
    MCP23008Register, Operation, Sequence, I2C_ADDR_KEYPAD, I2C_ADDR_LCD,
};

const LCD: u8 = 0x20;
const KEYPAD: u8 = 0x21;

/// Carries a program out against `port`, which reads back as it was last
/// written, and gives the actions and the bytes that were kept.
fn run(program: Vec<Operation>, port: &mut u8) -> (Vec<Action>, Vec<u8>) {
    let mut sequence = Sequence::new(program);
    let mut actions = Vec::new();
    let mut reply = None;
    while let Some(action) = sequence.advance(reply) {
        actions.push(action);
        reply = match action {
            Action::Read { .. } => Some(*port),
            Action::Write { register: MCP23008Register::GPIO, value, .. } => {
                *port = value;
                None
            }
            _ => None,
        };
    }
    assert!(sequence.is_finished());
    (actions, sequence.into_readings())
}

/// An HD44780 behind the port of the expander. After power-on it takes every
/// nibble for the upper half of a command, until one of them switches it to
/// 4-bit transfers.
struct Display {
    port: u8,
    four_bit: bool,
    high: Option<(bool, u8)>,
    cells: [u8; 0x68],
    cursor: usize,
    bytes: Vec<(bool, u8)>,
}

impl Display {
    fn new() -> Display {
        Display {
            port: 0x80,
            four_bit: false,
            high: None,
            cells: [b' '; 0x68],
            cursor: 0,
            bytes: Vec::new(),
        }
    }

    fn after(cursor: usize) -> usize {
        match cursor {
            0x27 => 0x40,
            0x67 => 0x00,
            other => other + 1,
        }
    }

    fn before(cursor: usize) -> usize {
        match cursor {
            0x40 => 0x27,
            0x00 => 0x67,
            other => other - 1,
        }
    }

    fn take_in(&mut self, rs: bool, byte: u8) {
        self.bytes.push((rs, byte));
        if rs {
            self.cells[self.cursor] = byte;
            self.cursor = Display::after(self.cursor);
        } else if byte == 0x01 {
            self.cells = [b' '; 0x68];
            self.cursor = 0;
        } else if byte & 0xFC == 0x10 {
            self.cursor = Display::before(self.cursor);
        } else if byte & 0xFC == 0x14 {
            self.cursor = Display::after(self.cursor);
        } else if byte & 0x80 != 0 {
            self.cursor = (byte & 0x7F) as usize;
        }
    }

    fn write_port(&mut self, value: u8) {
        let falls = self.port & 0x04 != 0 && value & 0x04 == 0;
        if falls {
            let rs = self.port & 0x01 != 0;
            let nibble = (self.port >> 3) & 0x0F;
            if !self.four_bit {
                self.take_in(rs, nibble << 4);
                self.four_bit = !rs && nibble == 0x2;
            } else {
                match self.high.take() {
                    None => self.high = Some((rs, nibble)),
                    Some((rs, high)) => self.take_in(rs, (high << 4) | nibble),
                }
            }
        }
        self.port = value;
    }

    fn carry_out(&mut self, program: Vec<Operation>) {
        let mut sequence = Sequence::new(program);
        let mut reply = None;
        while let Some(action) = sequence.advance(reply) {
            reply = None;
            match action {
                Action::Read { address, register } => {
                    assert_eq!((address, register), (LCD, MCP23008Register::GPIO));
                    reply = Some(self.port);
                }
                Action::Write { address, register, value } => {
                    assert_eq!(address, LCD);
                    if register == MCP23008Register::GPIO {
                        self.write_port(value);
                    }
                }
                Action::DelayUs(_) | Action::DelayMs(_) => {}
            }
        }
    }

    fn line(&self, start: usize, len: usize) -> String {
        self.cells[start..start + len].iter().map(|b| *b as char).collect()
    }
}

#[test]
fn the_addresses_and_registers_of_the_expanders() {
    assert_eq!(I2C_ADDR_LCD, 0b0100000);
    assert_eq!(I2C_ADDR_KEYPAD, 0b0100001);
    let registers = [
        (MCP23008Register::IODIR, 0x00),
        (MCP23008Register::IPOL, 0x01),
        (MCP23008Register::GPINTEN, 0x02),
        (MCP23008Register::DEFVEL, 0x03),
        (MCP23008Register::INTCON, 0x04),
        (MCP23008Register::IOCON, 0x05),
        (MCP23008Register::GPPU, 0x06),
        (MCP23008Register::INTF, 0x07),
        (MCP23008Register::INTCAP, 0x08),
        (MCP23008Register::GPIO, 0x09),
        (MCP23008Register::OLAT, 0x0A),
    ];
    for (register, address) in registers {
        assert_eq!(register.address(), address);
    }
}

#[test]
fn the_recorders_append_one_operation_each() {
    let mut program = Vec::new();
    register_value_set(LCD, MCP23008Register::IODIR, 0x0F, &mut program);
    gpio_write(KEYPAD, 0x04, &mut program);
    gpio_read(KEYPAD, &mut program);
    gpio_set_rmw(LCD, 0x80, &mut program);
    gpio_unset_rmw(LCD, 0x7F, &mut program);
    assert_eq!(
        program,
        vec![
            Operation::RegisterWrite { address: LCD, register: MCP23008Register::IODIR, value: 0x0F },
            Operation::RegisterWrite { address: KEYPAD, register: MCP23008Register::GPIO, value: 0x04 },
            Operation::GpioRead { address: KEYPAD },
            Operation::SetBits { address: LCD, mask: 0x80 },
            Operation::ClearBits { address: LCD, mask: 0x7F },
        ]
    );
}

#[test]
fn an_empty_program_asks_for_nothing() {
    let mut sequence = Sequence::new(Vec::new());
    assert!(sequence.is_finished());
    assert_eq!(sequence.advance(None), None);
    assert_eq!(sequence.advance(Some(3)), None);
    assert!(sequence.into_readings().is_empty());
}

#[test]
fn writes_and_delays_are_asked_for_as_they_stand() {
    let mut port = 0;
    let program = vec![
        Operation::RegisterWrite { address: LCD, register: MCP23008Register::IODIR, value: 0 },
        Operation::DelayMs(10),
        Operation::DelayUs(40),
    ];
    let (actions, readings) = run(program, &mut port);
    assert_eq!(
        actions,
        vec![
            Action::Write { address: LCD, register: MCP23008Register::IODIR, value: 0 },
            Action::DelayMs(10),
            Action::DelayUs(40),
        ]
    );
    assert!(readings.is_empty());
}

#[test]
fn set_bits_reads_the_port_and_writes_it_back_with_the_bits_raised() {
    let mut port = 0b1010_0001;
    let (actions, readings) = run(vec![Operation::SetBits { address: LCD, mask: 0b0000_0110 }], &mut port);
    assert_eq!(
        actions,
        vec![
            Action::Read { address: LCD, register: MCP23008Register::GPIO },
            Action::Write { address: LCD, register: MCP23008Register::GPIO, value: 0b1010_0111 },
        ]
    );
    assert_eq!(port, 0b1010_0111);
    assert!(readings.is_empty());
}

#[test]
fn clear_bits_reads_the_port_and_writes_it_back_with_the_bits_lowered() {
    let mut port = 0b1010_0101;
    let (actions, _) = run(vec![Operation::ClearBits { address: LCD, mask: 0b0111_1111 }], &mut port);
    assert_eq!(
        actions,
        vec![
            Action::Read { address: LCD, register: MCP23008Register::GPIO },
            Action::Write { address: LCD, register: MCP23008Register::GPIO, value: 0b1000_0000 },
        ]
    );
    assert_eq!(port, 0b1000_0000);
}

#[test]
fn a_read_is_asked_for_again_until_its_byte_comes() {
    let mut sequence = Sequence::new(vec![
        Operation::SetBits { address: LCD, mask: 0x01 },
        Operation::GpioRead { address: KEYPAD },
    ]);
    let read_lcd = Action::Read { address: LCD, register: MCP23008Register::GPIO };
    let read_keypad = Action::Read { address: KEYPAD, register: MCP23008Register::GPIO };
    assert_eq!(sequence.advance(None), Some(read_lcd));
    assert_eq!(sequence.advance(None), Some(read_lcd));
    assert_eq!(
        sequence.advance(Some(0x80)),
        Some(Action::Write { address: LCD, register: MCP23008Register::GPIO, value: 0x81 })
    );
    // A byte that nobody asked for is dropped.
    assert_eq!(sequence.advance(Some(0xFF)), Some(read_keypad));
    assert_eq!(sequence.advance(None), Some(read_keypad));
    assert!(!sequence.is_finished());
    assert_eq!(sequence.advance(Some(0x42)), None);
    assert!(sequence.is_finished());
    assert_eq!(sequence.into_readings(), vec![0x42]);
}

#[test]
fn a_sweep_keeps_its_three_readings() {
    let mut program = Vec::new();
    sweep(&mut program);
    let mut sequence = Sequence::new(program);
    let mut actions = Vec::new();
    let mut driven = 0;
    let mut reply = None;
    while let Some(action) = sequence.advance(reply) {
        actions.push(action);
        reply = None;
        match action {
            Action::Write { value, .. } => driven = value,
            // The key '5' is down: row 2 reads high while column 2 is driven.
            Action::Read { .. } => reply = Some(if driven == MASK_C2 { driven | MASK_R2 } else { driven }),
            _ => {}
        }
    }
    let write = |value| Action::Write { address: KEYPAD, register: MCP23008Register::GPIO, value };
    let read = Action::Read { address: KEYPAD, register: MCP23008Register::GPIO };
    assert_eq!(
        actions,
        vec![write(MASK_C1), read, write(MASK_C2), read, write(MASK_C3), read]
    );
    let readings = sequence.into_readings();
    assert_eq!(readings, vec![MASK_C1, MASK_C2 | MASK_R2, MASK_C3]);

    let mut held = Vec::new();
    let mut next = Vec::new();
    assert_eq!(scan(&mut held, readings[0], readings[1], readings[2], &mut next), Scan::Pending);
    assert_eq!(held, vec![Key::Five]);
}

/// Scans a keypad on which `key_down` tells for each sweep whether the key
/// '*' is down, and gives the result with the actions that were asked for.
fn scan_keypad(key_down: &[bool]) -> (Option<Key>, Vec<Action>) {
    let mut held = Vec::new();
    let mut program = Vec::new();
    sweep(&mut program);
    let mut actions = Vec::new();
    let mut sweeps = 0;
    loop {
        let mut sequence = Sequence::new(program);
        let mut driven = 0;
        let mut reply = None;
        while let Some(action) = sequence.advance(reply) {
            actions.push(action);
            reply = None;
            match action {
                Action::Write { value, .. } => driven = value,
                Action::Read { .. } => {
                    let down = key_down[sweeps] && driven == MASK_C1;
                    reply = Some(if down { driven | MASK_R4 } else { driven });
                }
                _ => {}
            }
        }
        sweeps += 1;
        let rows = sequence.into_readings();
        program = Vec::new();
        match scan(&mut held, rows[0], rows[1], rows[2], &mut program) {
            Scan::Finished(key) => return (key, actions),
            Scan::Pending => {}
        }
    }
}

#[test]
fn a_scan_of_an_idle_keypad_is_one_sweep() {
    let (key, actions) = scan_keypad(&[false]);
    assert_eq!(key, None);
    assert_eq!(actions.len(), 6);
}

#[test]
fn a_scan_waits_for_the_key_to_be_let_go() {
    let (key, actions) = scan_keypad(&[true, true, true, false, false, false]);
    assert_eq!(key, Some(Key::Star));
    let pauses = actions.iter().filter(|a| **a == Action::DelayUs(250)).count();
    assert_eq!(pauses, 2);
    assert_eq!(actions.len(), 6 * 6 + 2);
    // The pauses come before the last two sweeps.
    assert_eq!(actions[24], Action::DelayUs(250));
    assert_eq!(actions[31], Action::DelayUs(250));
}

#[test]
fn a_character_reaches_the_port_nibble_by_nibble() {
    let mut program = Vec::new();
    write_string("A", &mut program);
    let mut port = 0x80;
    let (actions, _) = run(program, &mut port);
    let written: Vec<u8> = actions
        .iter()
        .filter_map(|a| match a {
            Action::Write { value, .. } => Some(*value),
            _ => None,
        })
        .collect();
    assert_eq!(written, vec![0x80, 0x81, 0xA1, 0xA5, 0xA1, 0x80, 0x81, 0x89, 0x8D, 0x89]);
    let reads = actions.iter().filter(|a| matches!(a, Action::Read { .. })).count();
    assert_eq!(reads, 10);
    let delays: Vec<Action> = actions
        .iter()
        .filter(|a| matches!(a, Action::DelayUs(_)))
        .copied()
        .collect();
    assert_eq!(
        delays,
        vec![
            Action::DelayUs(40),
            Action::DelayUs(230),
            Action::DelayUs(270),
            Action::DelayUs(40),
            Action::DelayUs(230),
            Action::DelayUs(270),
        ]
    );
}

#[test]
fn the_set_up_reaches_the_display_as_its_commands() {
    let mut display = Display::new();
    let mut program = Vec::new();
    power_on(&mut program);
    init(&mut program);
    display.carry_out(program);
    // One nibble for the switch to 4-bit transfers, then three commands: two
    // lines, display and cursor on, cursor moving on.
    assert_eq!(display.high, None);
    assert_eq!(
        display.bytes,
        vec![(false, 0x20), (false, 0x28), (false, 0x0E), (false, 0x06)]
    );
    assert_eq!(display.port & 0x80, 0x80);
    assert_eq!(display.cursor, 0);
}

/// A display that went through power-on and set-up.
fn ready() -> Display {
    let mut display = Display::new();
    let mut program = Vec::new();
    power_on(&mut program);
    init(&mut program);
    display.carry_out(program);
    display.bytes.clear();
    display
}

#[test]
fn a_text_of_two_lines_stands_on_the_display() {
    let mut display = ready();
    let mut program = Vec::new();
    write_string("CUT LENGTH (in):\n-> ", &mut program);
    display.carry_out(program);
    assert_eq!(display.line(LINE_1_START as usize, 16), "CUT LENGTH (in):");
    assert_eq!(display.line(LINE_2_START as usize, 16), "->              ");
    assert_eq!(display.cursor, 0x43);
    assert_eq!(display.bytes.len(), 20);
    assert_eq!(display.bytes[16], (false, 0xC0));
    assert!(display.bytes.iter().enumerate().all(|(i, b)| b.0 == (i != 16)));
}

#[test]
fn backspace_after_a_character_and_the_character_again() {
    let mut display = ready();
    let mut program = Vec::new();
    write_string("A", &mut program);
    display.carry_out(program);
    let cells = display.cells;
    let cursor = display.cursor;
    assert_eq!(display.line(0, 2), "A ");
    assert_eq!(cursor, 1);

    let mut program = Vec::new();
    backspace(1, &mut program);
    display.carry_out(program);
    assert_eq!(display.line(0, 2), "  ");
    assert_eq!(display.cursor, 0);

    let mut program = Vec::new();
    write_string("A", &mut program);
    display.carry_out(program);
    assert_eq!(display.cells, cells);
    assert_eq!(display.cursor, cursor);
}

#[test]
fn backspace_rubs_out_from_the_cursor_backwards() {
    let mut display = ready();
    let mut program = Vec::new();
    write_string("12345", &mut program);
    backspace(2, &mut program);
    display.carry_out(program);
    assert_eq!(display.line(0, 6), "123   ");
    assert_eq!(display.cursor, 3);
}

#[test]
fn the_count_of_cuts_is_written_over_in_place() {
    let mut display = ready();
    let mut program = Vec::new();
    clear_display(&mut program);
    write_string("Cutting...\n00000 / ", &mut program);
    write_u32(12, &mut program);
    shift_cursor(Direction::Left, 8, &mut program);
    backspace(5, &mut program);
    write_u32(3, &mut program);
    display.carry_out(program);
    assert_eq!(display.line(0x00, 16), "Cutting...      ");
    assert_eq!(display.line(0x40, 16), "00003 / 00012   ");
    assert_eq!(display.cursor, 0x45);
}

#[test]
fn the_cursor_goes_from_line_to_line() {
    assert_eq!((LINE_1_START, LINE_1_END, LINE_2_START, LINE_2_END), (0x00, 0x27, 0x40, 0x67));
    let mut display = ready();
    let mut program = Vec::new();
    shift_cursor(Direction::Left, 1, &mut program);
    display.carry_out(program);
    assert_eq!(display.cursor, 0x67);
    let mut program = Vec::new();
    shift_cursor(Direction::Right, 2, &mut program);
    display.carry_out(program);
    assert_eq!(display.cursor, 0x01);
}

#[test]
fn clear_display_blanks_the_cells_and_homes_the_cursor() {
    let mut display = ready();
    let mut program = Vec::new();
    write_string("abc\ndef", &mut program);
    clear_display(&mut program);
    display.carry_out(program);
    assert_eq!(display.cells, [b' '; 0x68]);
    assert_eq!(display.cursor, 0);
    assert_eq!(display.bytes.last(), Some(&(false, 0x01)));
}
