use wire_cutter::i2c::keypad::{
    decode, init, pressed_keys, scan, sweep, Key, Scan, MASK_ALL_ROWS, MASK_C1, MASK_C2, MASK_C3,
    MASK_R1, MASK_R2, MASK_R3, MASK_R4,
};
use wire_cutter::i2c::{MCP23008Register, Operation, I2C_ADDR_KEYPAD};

fn sweep_program() -> Vec<Operation> {
    let mut program = Vec::new();
    sweep(&mut program);
    program
}

#[test]
fn init_makes_the_rows_inputs() {
    let mut program = Vec::new();
    init(&mut program);
    assert_eq!(
        program,
        vec![Operation::RegisterWrite {
            address: I2C_ADDR_KEYPAD,
            register: MCP23008Register::IODIR,
            value: 0b0110_1010,
        }]
    );
    assert_eq!(MASK_ALL_ROWS, MASK_R1 | MASK_R2 | MASK_R3 | MASK_R4);
}

#[test]
fn sweep_drives_each_column_and_reads() {
    let write = |value| Operation::RegisterWrite {
        address: 0b0100001,
        register: MCP23008Register::GPIO,
        value,
    };
    let read = Operation::GpioRead { address: 0b0100001 };
    assert_eq!(
        sweep_program(),
        vec![write(MASK_C1), read, write(MASK_C2), read, write(MASK_C3), read]
    );
}

#[test]
fn every_crossing_gives_its_key() {
    let rows = [MASK_R1, MASK_R2, MASK_R3, MASK_R4];
    let table = [
        [Key::One, Key::Four, Key::Seven, Key::Star],
        [Key::Two, Key::Five, Key::Eight, Key::Zero],
        [Key::Three, Key::Six, Key::Nine, Key::Pound],
    ];
    for column in 0..3 {
        for row in 0..4 {
            let mut readings = [0u8; 3];
            readings[column] = rows[row];
            let key = table[column][row];
            assert_eq!(decode(readings[0], readings[1], readings[2]), Some(key));
            assert_eq!(pressed_keys(readings[0], readings[1], readings[2]), vec![key]);
        }
    }
}

#[test]
fn column_bits_in_a_reading_are_no_keys() {
    assert_eq!(decode(MASK_C1, MASK_C2, MASK_C3), None);
    assert_eq!(decode(0b1001_0101, 0b1001_0101, 0b1001_0101), None);
    assert!(pressed_keys(MASK_C1, MASK_C2, MASK_C3).is_empty());
}

#[test]
fn several_keys_come_in_sweep_order_and_the_last_is_reported() {
    let keys = pressed_keys(MASK_R1 | MASK_R4, MASK_R2, MASK_R3 | MASK_R1);
    assert_eq!(keys, vec![Key::One, Key::Star, Key::Five, Key::Three, Key::Nine]);
    assert_eq!(decode(MASK_R1 | MASK_R4, MASK_R2, MASK_R3 | MASK_R1), Some(Key::Nine));
    assert_eq!(decode(MASK_R1 | MASK_R4, MASK_R2, 0), Some(Key::Five));
    assert_eq!(decode(0xFF, 0xFF, 0xFF), Some(Key::Pound));
}

#[test]
fn no_row_high_ends_the_scan_without_a_key() {
    let mut held = Vec::new();
    let mut program = Vec::new();
    assert_eq!(scan(&mut held, 0, 0, 0, &mut program), Scan::Finished(None));
    assert!(held.is_empty());
    assert!(program.is_empty());
}

#[test]
fn a_key_is_reported_once_it_is_let_go() {
    let mut held = Vec::new();
    let mut program = Vec::new();
    assert_eq!(scan(&mut held, 0, MASK_R2, 0, &mut program), Scan::Pending);
    assert_eq!(held, vec![Key::Five]);
    assert_eq!(program, sweep_program());

    let mut program = Vec::new();
    assert_eq!(scan(&mut held, 0, 0, 0, &mut program), Scan::Finished(Some(Key::Five)));
    assert!(held.is_empty());
    assert!(program.is_empty());
}

#[test]
fn a_held_key_is_looked_at_again_with_pauses_on_the_way_back() {
    let mut held = Vec::new();
    // Three sweeps see the key.
    for depth in 1..=3 {
        let mut program = Vec::new();
        assert_eq!(scan(&mut held, MASK_R4, 0, 0, &mut program), Scan::Pending);
        assert_eq!(held.len(), depth);
        assert_eq!(program, sweep_program());
    }
    // The key is let go: two sweeps follow a pause, the last one ends the scan.
    for depth in [2, 1] {
        let mut program = Vec::new();
        assert_eq!(scan(&mut held, 0, 0, 0, &mut program), Scan::Pending);
        assert_eq!(held.len(), depth);
        let mut expected = vec![Operation::DelayUs(250)];
        expected.extend(sweep_program());
        assert_eq!(program, expected);
    }
    let mut program = Vec::new();
    assert_eq!(scan(&mut held, 0, 0, 0, &mut program), Scan::Finished(Some(Key::Star)));
    assert!(program.is_empty());
}

#[test]
fn the_first_key_seen_is_the_one_reported() {
    let mut held = Vec::new();
    let mut program = Vec::new();
    assert_eq!(scan(&mut held, MASK_R1, 0, 0, &mut program), Scan::Pending);
    assert_eq!(scan(&mut held, 0, 0, MASK_R3, &mut program), Scan::Pending);
    assert_eq!(held, vec![Key::One, Key::Nine]);
    assert_eq!(scan(&mut held, 0, 0, 0, &mut program), Scan::Pending);
    assert_eq!(scan(&mut held, 0, 0, 0, &mut program), Scan::Finished(Some(Key::One)));
}

#[test]
fn a_stuck_row_never_ends_the_scan() {
    let mut held = Vec::new();
    let mut program = Vec::new();
    assert_eq!(scan(&mut held, MASK_R3, 0, 0, &mut program), Scan::Pending);
    assert_eq!(held, vec![Key::Seven]);
    let mut held = Vec::new();
    for round in 0..1000 {
        let mut program = Vec::new();
        assert_eq!(scan(&mut held, MASK_R3, MASK_R3, MASK_R3, &mut program), Scan::Pending);
        assert_eq!(held.len(), round + 1);
        assert_eq!(held[0], Key::Nine);
        assert_eq!(held[round], Key::Nine);
    }
}
