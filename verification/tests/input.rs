use wire_cutter::i2c::keypad::Key;
use wire_cutter::i2c::lcd1602::{backspace, check_text, write_string};
use wire_cutter::i2c::Operation;
use wire_cutter::input::{confirmation, Entry, MAX_INPUT_CHARS};

const DIGITS: [(Key, &str, u32); 10] = [
    (Key::Zero, "0", 0),
    (Key::One, "1", 1),
    (Key::Two, "2", 2),
    (Key::Three, "3", 3),
    (Key::Four, "4", 4),
    (Key::Five, "5", 5),
    (Key::Six, "6", 6),
    (Key::Seven, "7", 7),
    (Key::Eight, "8", 8),
    (Key::Nine, "9", 9),
];

fn type_keys(entry: &mut Entry, keys: &[Key]) -> (Vec<Operation>, Option<u32>) {
    let mut program = Vec::new();
    let mut accepted = None;
    for key in keys {
        accepted = entry.press(*key, &mut program);
    }
    (program, accepted)
}

#[test]
fn every_key_has_its_legend() {
    let legends = [
        (Key::One, "1"),
        (Key::Two, "2"),
        (Key::Three, "3"),
        (Key::Four, "4"),
        (Key::Five, "5"),
        (Key::Six, "6"),
        (Key::Seven, "7"),
        (Key::Eight, "8"),
        (Key::Nine, "9"),
        (Key::Star, "*"),
        (Key::Zero, "0"),
        (Key::Pound, "#"),
    ];
    for (key, legend) in legends {
        assert_eq!(key.legend(), legend);
        let converted: &str = key.into();
        assert_eq!(converted, legend);
        assert_eq!(<&str>::from(key), legend);
        assert_eq!(check_text(key.legend()), Ok(()));
    }
}

#[test]
fn an_entry_starts_at_zero() {
    let mut entry = Entry::new();
    assert_eq!(entry.value(), 0);
    let mut program = Vec::new();
    assert_eq!(entry.press(Key::Pound, &mut program), Some(0));
    assert!(program.is_empty());
}

#[test]
fn a_digit_is_taken_on_and_written() {
    for (key, legend, value) in DIGITS {
        let mut entry = Entry::new();
        let mut program = Vec::new();
        assert_eq!(entry.press(key, &mut program), None);
        let mut expected = Vec::new();
        write_string(legend, &mut expected);
        assert_eq!(program, expected);
        assert_eq!(entry.value(), value);
    }
}

#[test]
fn digits_spell_a_decimal_number() {
    let mut entry = Entry::new();
    let (program, accepted) = type_keys(&mut entry, &[Key::Four, Key::Zero, Key::Two, Key::Pound]);
    assert_eq!(accepted, Some(402));
    let mut expected = Vec::new();
    write_string("402", &mut expected);
    assert_eq!(program, expected);

    let mut entry = Entry::new();
    let keys = [Key::Nine, Key::Nine, Key::Nine, Key::Nine, Key::Nine, Key::Pound];
    assert_eq!(type_keys(&mut entry, &keys).1, Some(99999));

    let mut entry = Entry::new();
    let keys = [Key::Zero, Key::Zero, Key::Seven, Key::Pound];
    assert_eq!(type_keys(&mut entry, &keys).1, Some(7));
}

#[test]
fn star_rubs_out_the_last_digit() {
    let mut entry = Entry::new();
    type_keys(&mut entry, &[Key::One, Key::Two]);
    let mut program = Vec::new();
    assert_eq!(entry.press(Key::Star, &mut program), None);
    let mut expected = Vec::new();
    backspace(1, &mut expected);
    assert_eq!(program, expected);
    assert_eq!(entry.value(), 1);
    assert_eq!(type_keys(&mut entry, &[Key::Three, Key::Pound]).1, Some(13));
}

#[test]
fn star_does_nothing_on_an_empty_entry() {
    let mut entry = Entry::new();
    let (program, accepted) = type_keys(&mut entry, &[Key::Star, Key::Star]);
    assert!(program.is_empty());
    assert_eq!(accepted, None);
    assert_eq!(entry.value(), 0);
}

#[test]
fn a_sixth_digit_is_dropped() {
    assert_eq!(MAX_INPUT_CHARS, 5);
    let mut entry = Entry::new();
    type_keys(&mut entry, &[Key::One, Key::Two, Key::Three, Key::Four, Key::Five]);
    let (program, accepted) = type_keys(&mut entry, &[Key::Six]);
    assert!(program.is_empty());
    assert_eq!(accepted, None);
    assert_eq!(entry.value(), 12345);
    // After one digit was rubbed out there is room again.
    type_keys(&mut entry, &[Key::Star, Key::Six]);
    assert_eq!(type_keys(&mut entry, &[Key::Pound]).1, Some(12346));
}

#[test]
fn pound_is_yes_and_star_is_no() {
    assert_eq!(confirmation(Key::Pound), Some(true));
    assert_eq!(confirmation(Key::Star), Some(false));
    for (key, _, _) in DIGITS {
        assert_eq!(confirmation(key), None);
    }
}
