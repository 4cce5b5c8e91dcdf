//! The scanner of the 3x4 matrix keypad.
//!
//! One sweep drives the three column lines high in turn and reads the four
//! row lines after each. A scan is a sweep and, once a key was seen, further
//! sweeps until the keypad is let go.

use vstd::prelude::*;
use super::lcd1602::{fits_display, fits_from, lemma_fits_from_start};
use super::{
    gpio_read, gpio_write, kept, port_read, port_write, register_value_set, transcript,
    MCP23008Register, Operation, I2C_ADDR_KEYPAD,
};

verus! {

/// Pause between two looks at a key that is held down, in microseconds.
pub const DEBOUNCE_DELAY_IN_US: u32 = 250;

/// Column line 2.
pub const MASK_C2: u8 = 0b00000001;

/// Row line 1.
pub const MASK_R1: u8 = 0b00000010;

/// Column line 1.
pub const MASK_C1: u8 = 0b00000100;

/// Row line 4.
pub const MASK_R4: u8 = 0b00001000;

/// Column line 3.
pub const MASK_C3: u8 = 0b00010000;

/// Row line 3.
pub const MASK_R3: u8 = 0b00100000;

/// Row line 2.
pub const MASK_R2: u8 = 0b01000000;

/// The three column lines.
pub const MASK_ALL_COLS: u8 = MASK_C1 | MASK_C2 | MASK_C3;

/// The four row lines.
pub const MASK_ALL_ROWS: u8 = MASK_R1 | MASK_R2 | MASK_R3 | MASK_R4;

/// Every line of the keypad has a bit of its own.
pub proof fn lemma_lines_apart()
    ensures
        MASK_ALL_COLS & MASK_ALL_ROWS == 0,
        MASK_C1 + MASK_C2 + MASK_C3 == MASK_ALL_COLS,
        MASK_R1 + MASK_R2 + MASK_R3 + MASK_R4 == MASK_ALL_ROWS,
{
    assert(MASK_ALL_COLS & MASK_ALL_ROWS == 0 && MASK_ALL_COLS == 0x15 && MASK_ALL_ROWS == 0x6A)
        by (bit_vector);
}

/// A key of the keypad.
#[derive(Copy, Clone, Debug, PartialEq, Eq, Structural)]
pub enum Key {
    One,
    Two,
    Three,
    Four,
    Five,
    Six,
    Seven,
    Eight,
    Nine,
    Star,
    Zero,
    Pound,
}

impl Key {
    /// What is printed on the key.
    pub open spec fn spec_legend(self) -> &'static str {
        match self {
            Key::One => "1",
            Key::Two => "2",
            Key::Three => "3",
            Key::Four => "4",
            Key::Five => "5",
            Key::Six => "6",
            Key::Seven => "7",
            Key::Eight => "8",
            Key::Nine => "9",
            Key::Star => "*",
            Key::Zero => "0",
            Key::Pound => "#",
        }
    }

    /// What is printed on the key.
    #[verifier::when_used_as_spec(spec_legend)]
    pub fn legend(self) -> (legend: &'static str)
        ensures
            legend == self.spec_legend(),
    {
        match self {
            Key::One => "1",
            Key::Two => "2",
            Key::Three => "3",
            Key::Four => "4",
            Key::Five => "5",
            Key::Six => "6",
            Key::Seven => "7",
            Key::Eight => "8",
            Key::Nine => "9",
            Key::Star => "*",
            Key::Zero => "0",
            Key::Pound => "#",
        }
    }
}

impl From<Key> for &'static str {
    fn from(key: Key) -> (legend: Self) {
        key.legend()
    }
}

impl vstd::std_specs::convert::FromSpecImpl<Key> for &'static str {
    open spec fn obeys_from_spec() -> bool {
        true
    }

    open spec fn from_spec(key: Key) -> Self {
        key.spec_legend()
    }
}

/// How far a scan has come.
#[derive(Copy, Clone, Debug, PartialEq, Eq, Structural)]
pub enum Scan {
    /// The keypad has to be swept again.
    Pending,
    /// The scan is over, with the key that was pressed, if one was.
    Finished(Option<Key>),
}

/// The line of the column with index `column`, counted from 0.
pub open spec fn column_mask(column: int) -> u8 {
    if column == 0 {
        MASK_C1
    } else if column == 1 {
        MASK_C2
    } else {
        MASK_C3
    }
}

/// The line of the row with index `row`, counted from 0.
pub open spec fn row_mask(row: int) -> u8 {
    if row == 0 {
        MASK_R1
    } else if row == 1 {
        MASK_R2
    } else if row == 2 {
        MASK_R3
    } else {
        MASK_R4
    }
}

/// The key where the column `column` crosses the row `row`, both counted from
/// 0:
///
/// | column | row 0 | row 1 | row 2 | row 3 |
/// |--------|-------|-------|-------|-------|
/// | 0      | 1     | 4     | 7     | *     |
/// | 1      | 2     | 5     | 8     | 0     |
/// | 2      | 3     | 6     | 9     | #     |
pub open spec fn key_at(column: int, row: int) -> Key {
    if column == 0 {
        if row == 0 {
            Key::One
        } else if row == 1 {
            Key::Four
        } else if row == 2 {
            Key::Seven
        } else {
            Key::Star
        }
    } else if column == 1 {
        if row == 0 {
            Key::Two
        } else if row == 1 {
            Key::Five
        } else if row == 2 {
            Key::Eight
        } else {
            Key::Zero
        }
    } else {
        if row == 0 {
            Key::Three
        } else if row == 1 {
            Key::Six
        } else if row == 2 {
            Key::Nine
        } else {
            Key::Pound
        }
    }
}

/// Whether the port value `rows` shows the row `row` as high.
pub open spec fn row_high(rows: u8, row: int) -> bool {
    rows & row_mask(row) != 0
}

/// The key of the column `column` in the row `row`, if `rows` shows that row
/// as high.
pub open spec fn key_if_high(column: int, rows: u8, row: int) -> Seq<Key> {
    if row_high(rows, row) {
        seq![key_at(column, row)]
    } else {
        Seq::empty()
    }
}

/// The keys of the column `column` that are down when the port reads `rows`
/// while that column is driven, from the first row to the last.
pub open spec fn column_keys(column: int, rows: u8) -> Seq<Key> {
    key_if_high(column, rows, 0) + key_if_high(column, rows, 1) + key_if_high(column, rows, 2)
        + key_if_high(column, rows, 3)
}

/// The keys that one sweep shows as down, when the port read `c1`, `c2` and
/// `c3` while the first, second and third column were driven: column by
/// column, and in each column row by row.
pub open spec fn keys_down(c1: u8, c2: u8, c3: u8) -> Seq<Key> {
    column_keys(0, c1) + column_keys(1, c2) + column_keys(2, c3)
}

/// The one key that a sweep reports: the last of those that are down.
pub open spec fn key_seen(c1: u8, c2: u8, c3: u8) -> Option<Key> {
    if keys_down(c1, c2, c3).len() == 0 {
        None
    } else {
        Some(keys_down(c1, c2, c3).last())
    }
}

/// One sweep: each column in turn is driven high alone, and the port is read
/// back.
pub open spec fn sweep_ops() -> Seq<Operation> {
    seq![
        Operation::RegisterWrite {
            address: I2C_ADDR_KEYPAD,
            register: MCP23008Register::GPIO,
            value: MASK_C1,
        },
        Operation::GpioRead { address: I2C_ADDR_KEYPAD },
        Operation::RegisterWrite {
            address: I2C_ADDR_KEYPAD,
            register: MCP23008Register::GPIO,
            value: MASK_C2,
        },
        Operation::GpioRead { address: I2C_ADDR_KEYPAD },
        Operation::RegisterWrite {
            address: I2C_ADDR_KEYPAD,
            register: MCP23008Register::GPIO,
            value: MASK_C3,
        },
        Operation::GpioRead { address: I2C_ADDR_KEYPAD },
    ]
}

/// What follows from one sweep that read `c1`, `c2` and `c3`, when the keys
/// in `held` were seen by the sweeps before it and are not yet reported: the
/// keys that are held afterwards, the operations to carry out next, and how
/// far the scan is.
///
/// A sweep that sees a key puts it on top of `held` and asks for the next
/// sweep at once. A sweep that sees none takes the top key off: with no key
/// held the scan ends without a key, with one key held it ends with that key,
/// and with more it pauses and sweeps again.
pub open spec fn scan_step(held: Seq<Key>, c1: u8, c2: u8, c3: u8) -> (
    Seq<Key>,
    Seq<Operation>,
    Scan,
) {
    match key_seen(c1, c2, c3) {
        Some(key) => (held.push(key), sweep_ops(), Scan::Pending),
        None => if held.len() == 0 {
            (held, Seq::empty(), Scan::Finished(None))
        } else if held.len() == 1 {
            (Seq::empty(), Seq::empty(), Scan::Finished(Some(held[0])))
        } else {
            (
                held.drop_last(),
                seq![Operation::DelayUs(DEBOUNCE_DELAY_IN_US)] + sweep_ops(),
                Scan::Pending,
            )
        },
    }
}

/// Appends the operation that makes the four row pins of the keypad's
/// expander inputs and leaves the three column pins outputs.
pub fn init(program: &mut Vec<Operation>)
    ensures
        final(program)@ == old(program)@.push(
            Operation::RegisterWrite {
                address: I2C_ADDR_KEYPAD,
                register: MCP23008Register::IODIR,
                value: MASK_ALL_ROWS,
            },
        ),
{
    register_value_set(I2C_ADDR_KEYPAD, MCP23008Register::IODIR, MASK_ALL_ROWS, program);
}

/// Appends one sweep. It reads the port three times, once for each column.
pub fn sweep(program: &mut Vec<Operation>)
    ensures
        final(program)@ == old(program)@ + sweep_ops(),
{
    gpio_write(I2C_ADDR_KEYPAD, MASK_C1, program);
    gpio_read(I2C_ADDR_KEYPAD, program);
    gpio_write(I2C_ADDR_KEYPAD, MASK_C2, program);
    gpio_read(I2C_ADDR_KEYPAD, program);
    gpio_write(I2C_ADDR_KEYPAD, MASK_C3, program);
    gpio_read(I2C_ADDR_KEYPAD, program);
    assert(program@ =~= old(program)@ + sweep_ops());
}

/// Appends to `keys` the keys of the column `column` that are down when the
/// port reads `rows`.
fn collect_column(column: u8, rows: u8, keys: &mut Vec<Key>)
    requires
        column < 3,
    ensures
        final(keys)@ == old(keys)@ + column_keys(column as int, rows),
{
    if rows & MASK_R1 > 0 {
        keys.push(key_of(column, 0));
    }
    if rows & MASK_R2 > 0 {
        keys.push(key_of(column, 1));
    }
    if rows & MASK_R3 > 0 {
        keys.push(key_of(column, 2));
    }
    if rows & MASK_R4 > 0 {
        keys.push(key_of(column, 3));
    }
    assert(keys@ =~= old(keys)@ + column_keys(column as int, rows));
}

/// The key where the column `column` crosses the row `row`.
fn key_of(column: u8, row: u8) -> (key: Key)
    requires
        column < 3,
        row < 4,
    ensures
        key == key_at(column as int, row as int),
{
    if column == 0 {
        if row == 0 {
            Key::One
        } else if row == 1 {
            Key::Four
        } else if row == 2 {
            Key::Seven
        } else {
            Key::Star
        }
    } else if column == 1 {
        if row == 0 {
            Key::Two
        } else if row == 1 {
            Key::Five
        } else if row == 2 {
            Key::Eight
        } else {
            Key::Zero
        }
    } else {
        if row == 0 {
            Key::Three
        } else if row == 1 {
            Key::Six
        } else if row == 2 {
            Key::Nine
        } else {
            Key::Pound
        }
    }
}

/// The keys that one sweep shows as down, when the port read `c1`, `c2` and
/// `c3` while the first, second and third column were driven.
pub fn pressed_keys(c1: u8, c2: u8, c3: u8) -> (keys: Vec<Key>)
    ensures
        keys@ == keys_down(c1, c2, c3),
{
    let mut keys: Vec<Key> = Vec::new();
    collect_column(0, c1, &mut keys);
    collect_column(1, c2, &mut keys);
    collect_column(2, c3, &mut keys);
    assert(keys@ =~= keys_down(c1, c2, c3));
    keys
}

/// The one key that a sweep reports, when the port read `c1`, `c2` and `c3`
/// while the first, second and third column were driven: of the keys that are
/// down, the last in the order of the sweep.
pub fn decode(c1: u8, c2: u8, c3: u8) -> (key: Option<Key>)
    ensures
        key == key_seen(c1, c2, c3),
{
    let keys = pressed_keys(c1, c2, c3);
    if keys.len() == 0 {
        None
    } else {
        Some(keys[keys.len() - 1])
    }
}

/// Takes one step of a scan, after a sweep that read `c1`, `c2` and `c3`
/// while the first, second and third column were driven.
///
/// `held` is the state of the scan. It is empty before the first sweep, and
/// the caller hands it back unchanged with every further sweep. Where the
/// result is [`Scan::Pending`], the operations to carry out before the next
/// step have been appended to `program`; they end with a sweep.
///
/// A scan does not end while a key is down.
pub fn scan(held: &mut Vec<Key>, c1: u8, c2: u8, c3: u8, program: &mut Vec<Operation>) -> (result:
    Scan)
    ensures
        final(held)@ == scan_step(old(held)@, c1, c2, c3).0,
        final(program)@ == old(program)@ + scan_step(old(held)@, c1, c2, c3).1,
        result == scan_step(old(held)@, c1, c2, c3).2,
{
    match decode(c1, c2, c3) {
        Some(key) => {
            // A key is down: look again until it is let go.
            held.push(key);
            sweep(program);
            Scan::Pending
        },
        None => {
            match held.pop() {
                None => {
                    assert(program@ =~= old(program)@ + Seq::<Operation>::empty());
                    Scan::Finished(None)
                },
                Some(key) => {
                    if held.len() == 0 {
                        assert(held@ =~= Seq::<Key>::empty());
                        assert(program@ =~= old(program)@ + Seq::<Operation>::empty());
                        Scan::Finished(Some(key))
                    } else {
                        program.push(Operation::DelayUs(DEBOUNCE_DELAY_IN_US));
                        sweep(program);
                        assert(program@ =~= old(program)@ + (seq![
                            Operation::DelayUs(DEBOUNCE_DELAY_IN_US),
                        ] + sweep_ops()));
                        Scan::Pending
                    }
                },
            }
        },
    }
}

/// Whether the port value `rows` shows any row as high.
pub open spec fn any_row_high(rows: u8) -> bool {
    rows & MASK_ALL_ROWS != 0
}

/// The port values that one sweep read while the first, second and third
/// column were driven.
pub type Readings = (u8, u8, u8);

/// What a scan has come to after `sweeps`, taken in order, when `held` was
/// its state before them: `Some` with its result once a sweep has ended it,
/// `None` while it is pending.
pub open spec fn outcome(held: Seq<Key>, sweeps: Seq<Readings>) -> Option<Option<Key>>
    decreases sweeps.len(),
{
    if sweeps.len() == 0 {
        None
    } else {
        let after = scan_step(held, sweeps[0].0, sweeps[0].1, sweeps[0].2);
        match after.2 {
            Scan::Finished(key) => Some(key),
            Scan::Pending => outcome(after.0, sweeps.drop_first()),
        }
    }
}

/// A column's reading shows a key as down exactly when it shows a row as
/// high.
pub proof fn lemma_column_keys(column: int, rows: u8)
    ensures
        column_keys(column, rows).len() == 0 <==> !any_row_high(rows),
        forall|row: int|
            0 <= row < 4 && #[trigger] row_high(rows, row) ==> column_keys(column, rows).contains(
                key_at(column, row),
            ),
{
    assert((rows & MASK_ALL_ROWS != 0) <==> (rows & MASK_R1 != 0 || rows & MASK_R2 != 0 || rows
        & MASK_R3 != 0 || rows & MASK_R4 != 0)) by (bit_vector);
    let keys = column_keys(column, rows);
    let a = key_if_high(column, rows, 0);
    let b = key_if_high(column, rows, 1);
    let c = key_if_high(column, rows, 2);
    let d = key_if_high(column, rows, 3);
    assert forall|row: int| 0 <= row < 4 && #[trigger] row_high(rows, row) implies keys.contains(
        key_at(column, row),
    ) by {
        if row == 0 {
            assert(keys[0] == key_at(column, 0));
        } else if row == 1 {
            assert(keys[a.len() as int] == key_at(column, 1));
        } else if row == 2 {
            assert(keys[(a.len() + b.len()) as int] == key_at(column, 2));
        } else {
            assert(keys[(a.len() + b.len() + c.len()) as int] == key_at(column, 3));
        }
    }
}

/// Every crossing of the table gives its key and no other: when one row
/// reads high while one column is driven, and no row reads high otherwise,
/// the sweep shows the key at that crossing as the one key that is down.
pub proof fn lemma_single_key(column: int, row: int, c1: u8, c2: u8, c3: u8)
    requires
        0 <= column < 3,
        0 <= row < 4,
        ({
            let rows = if column == 0 {
                c1
            } else if column == 1 {
                c2
            } else {
                c3
            };
            rows & MASK_ALL_ROWS == row_mask(row)
        }),
        column != 0 ==> !any_row_high(c1),
        column != 1 ==> !any_row_high(c2),
        column != 2 ==> !any_row_high(c3),
    ensures
        keys_down(c1, c2, c3) == seq![key_at(column, row)],
        key_seen(c1, c2, c3) == Some(key_at(column, row)),
        scan_step(Seq::empty(), c1, c2, c3).2 == Scan::Pending,
        scan_step(scan_step(Seq::empty(), c1, c2, c3).0, 0, 0, 0).2 == Scan::Finished(
            Some(key_at(column, row)),
        ),
{
    lemma_only_row(c1, row);
    lemma_only_row(c2, row);
    lemma_only_row(c3, row);
    lemma_column_keys(0, c1);
    lemma_column_keys(1, c2);
    lemma_column_keys(2, c3);
    assert(keys_down(c1, c2, c3) =~= seq![key_at(column, row)]);
    assert(0u8 & MASK_ALL_ROWS == 0) by (bit_vector);
    lemma_no_row_no_key(0, 0, 0);
}

/// Where the row lines of a reading show one row alone, that row is high and
/// the three others are not.
proof fn lemma_only_row(rows: u8, row: int)
    requires
        0 <= row < 4,
    ensures
        rows & MASK_ALL_ROWS == row_mask(row) ==> forall|other: int|
            0 <= other < 4 ==> (#[trigger] row_high(rows, other) <==> other == row),
{
    assert(rows & MASK_ALL_ROWS == MASK_R1 ==> (rows & MASK_R1 != 0 && rows & MASK_R2 == 0 && rows
        & MASK_R3 == 0 && rows & MASK_R4 == 0)) by (bit_vector);
    assert(rows & MASK_ALL_ROWS == MASK_R2 ==> (rows & MASK_R1 == 0 && rows & MASK_R2 != 0 && rows
        & MASK_R3 == 0 && rows & MASK_R4 == 0)) by (bit_vector);
    assert(rows & MASK_ALL_ROWS == MASK_R3 ==> (rows & MASK_R1 == 0 && rows & MASK_R2 == 0 && rows
        & MASK_R3 != 0 && rows & MASK_R4 == 0)) by (bit_vector);
    assert(rows & MASK_ALL_ROWS == MASK_R4 ==> (rows & MASK_R1 == 0 && rows & MASK_R2 == 0 && rows
        & MASK_R3 == 0 && rows & MASK_R4 != 0)) by (bit_vector);
    if rows & MASK_ALL_ROWS == row_mask(row) {
        assert forall|other: int| 0 <= other < 4 implies (#[trigger] row_high(rows, other) <==> other
            == row) by {
            assert(row_high(rows, 0) == (rows & MASK_R1 != 0));
            assert(row_high(rows, 1) == (rows & MASK_R2 != 0));
            assert(row_high(rows, 2) == (rows & MASK_R3 != 0));
            assert(row_high(rows, 3) == (rows & MASK_R4 != 0));
        }
    }
}

/// When no row reads high in any of the three readings of a sweep, the sweep
/// shows no key, and a scan that begins with it ends at once without a key.
pub proof fn lemma_no_row_no_key(c1: u8, c2: u8, c3: u8)
    requires
        !any_row_high(c1),
        !any_row_high(c2),
        !any_row_high(c3),
    ensures
        keys_down(c1, c2, c3) == Seq::<Key>::empty(),
        key_seen(c1, c2, c3) is None,
        scan_step(Seq::empty(), c1, c2, c3) == (
            Seq::<Key>::empty(),
            Seq::<Operation>::empty(),
            Scan::Finished(None),
        ),
        forall|held: Seq<Key>| #[trigger]
            held.len() == 1 ==> scan_step(held, c1, c2, c3).2 == Scan::Finished(Some(held[0])),
{
    lemma_column_keys(0, c1);
    lemma_column_keys(1, c2);
    lemma_column_keys(2, c3);
    assert(keys_down(c1, c2, c3) =~= Seq::<Key>::empty());
}

/// When a row reads high in one of the three readings of a sweep, the sweep
/// shows a key, and the scan stays pending whatever its state was.
pub proof fn lemma_row_high_key_seen(held: Seq<Key>, c1: u8, c2: u8, c3: u8)
    requires
        any_row_high(c1) || any_row_high(c2) || any_row_high(c3),
    ensures
        key_seen(c1, c2, c3) is Some,
        scan_step(held, c1, c2, c3).2 == Scan::Pending,
{
    lemma_column_keys(0, c1);
    lemma_column_keys(1, c2);
    lemma_column_keys(2, c3);
}

/// A scan never ends while a row is stuck high: whatever its state, and
/// however many sweeps follow, as long as each of them reads a row as high in
/// one of its three readings, the scan is pending after the last of them.
pub proof fn lemma_stuck_row_never_finishes(held: Seq<Key>, sweeps: Seq<Readings>)
    requires
        forall|i: int|
            0 <= i < sweeps.len() ==> any_row_high((#[trigger] sweeps[i]).0) || any_row_high(
                sweeps[i].1,
            ) || any_row_high(sweeps[i].2),
    ensures
        outcome(held, sweeps) is None,
    decreases sweeps.len(),
{
    if sweeps.len() > 0 {
        let first = sweeps[0];
        lemma_row_high_key_seen(held, first.0, first.1, first.2);
        let after = scan_step(held, first.0, first.1, first.2);
        let rest = sweeps.drop_first();
        assert forall|i: int| 0 <= i < rest.len() implies any_row_high((#[trigger] rest[i]).0)
            || any_row_high(rest[i].1) || any_row_high(rest[i].2) by {
            assert(rest[i] == sweeps[i + 1]);
        }
        lemma_stuck_row_never_finishes(after.0, rest);
    }
}

/// What is printed on a key can be written to the display.
pub proof fn lemma_legend_fits(key: Key)
    ensures
        key.spec_legend()@.len() == 1,
        fits_display(key.spec_legend()@),
{
    reveal_strlit("1");
    reveal_strlit("2");
    reveal_strlit("3");
    reveal_strlit("4");
    reveal_strlit("5");
    reveal_strlit("6");
    reveal_strlit("7");
    reveal_strlit("8");
    reveal_strlit("9");
    reveal_strlit("*");
    reveal_strlit("0");
    reveal_strlit("#");
    reveal_with_fuel(fits_from, 2);
    lemma_fits_from_start(key.spec_legend()@);
}

/// A scan that ends after a key was seen ends with the key that was seen
/// first and is still held.
pub proof fn lemma_first_key_is_reported(held: Seq<Key>, sweeps: Seq<Readings>)
    requires
        held.len() > 0,
    ensures
        outcome(held, sweeps) is Some ==> outcome(held, sweeps) == Some(Some(held[0])),
    decreases sweeps.len(),
{
    if sweeps.len() > 0 {
        let after = scan_step(held, sweeps[0].0, sweeps[0].1, sweeps[0].2);
        if after.2 == Scan::Pending {
            lemma_first_key_is_reported(after.0, sweeps.drop_first());
        }
    }
}

/// What a whole scan comes to, from its first sweep on: without a key in
/// the first sweep it ends at once without a key, and with one it ends, if it
/// ends, with that key.
pub proof fn lemma_scan_result(sweeps: Seq<Readings>)
    requires
        sweeps.len() > 0,
    ensures
        key_seen(sweeps[0].0, sweeps[0].1, sweeps[0].2) is None ==> outcome(Seq::empty(), sweeps)
            == Some(None::<Key>),
        key_seen(sweeps[0].0, sweeps[0].1, sweeps[0].2) is Some && outcome(Seq::empty(), sweeps)
            is Some ==> outcome(Seq::empty(), sweeps) == Some(
            key_seen(sweeps[0].0, sweeps[0].1, sweeps[0].2),
        ),
{
    let after = scan_step(Seq::empty(), sweeps[0].0, sweeps[0].1, sweeps[0].2);
    if key_seen(sweeps[0].0, sweeps[0].1, sweeps[0].2) is Some {
        lemma_first_key_is_reported(after.0, sweeps.drop_first());
    }
}

/// One sweep on the bus: the first column is driven and the port read, then
/// the second, then the third, and the three bytes that come back are kept in
/// that order.
pub proof fn lemma_sweep_on_the_bus(c1: u8, c2: u8, c3: u8)
    ensures
        transcript(sweep_ops(), seq![c1, c2, c3]) == seq![
            port_write(I2C_ADDR_KEYPAD, MASK_C1),
            port_read(I2C_ADDR_KEYPAD),
            port_write(I2C_ADDR_KEYPAD, MASK_C2),
            port_read(I2C_ADDR_KEYPAD),
            port_write(I2C_ADDR_KEYPAD, MASK_C3),
            port_read(I2C_ADDR_KEYPAD),
        ],
        kept(sweep_ops(), seq![c1, c2, c3]) == seq![c1, c2, c3],
{
    let replies = seq![c1, c2, c3];
    let ops = sweep_ops();
    let o1 = ops.drop_first();
    let o2 = o1.drop_first();
    let o3 = o2.drop_first();
    let o4 = o3.drop_first();
    let o5 = o4.drop_first();
    let o6 = o5.drop_first();
    let r1 = replies.drop_first();
    let r2 = r1.drop_first();
    let r3 = r2.drop_first();
    assert(o6 =~= Seq::<Operation>::empty());
    assert(transcript(o6, r3) =~= Seq::empty());
    assert(kept(o6, r3) =~= Seq::empty());
    assert(transcript(o5, r2) =~= seq![port_read(I2C_ADDR_KEYPAD)]);
    assert(kept(o5, r2) =~= seq![c3]);
    assert(transcript(o4, r2) =~= seq![
        port_write(I2C_ADDR_KEYPAD, MASK_C3),
        port_read(I2C_ADDR_KEYPAD),
    ]);
    assert(kept(o4, r2) =~= seq![c3]);
    assert(transcript(o3, r1) =~= seq![port_read(I2C_ADDR_KEYPAD)] + transcript(o4, r2));
    assert(kept(o3, r1) =~= seq![c2, c3]);
    assert(transcript(o2, r1) =~= seq![port_write(I2C_ADDR_KEYPAD, MASK_C2)] + transcript(o3, r1));
    assert(kept(o2, r1) =~= seq![c2, c3]);
    assert(transcript(o1, replies) =~= seq![port_read(I2C_ADDR_KEYPAD)] + transcript(o2, r1));
    assert(kept(o1, replies) =~= seq![c1, c2, c3]);
    assert(transcript(ops, replies) =~= seq![port_write(I2C_ADDR_KEYPAD, MASK_C1)] + transcript(
        o1,
        replies,
    ));
    assert(kept(ops, replies) =~= seq![c1, c2, c3]);
}

} // verus!
