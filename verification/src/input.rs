//! Entry of a number on the keypad, shown on the display as it is typed.

use vstd::prelude::*;
use crate::i2c::keypad::{lemma_legend_fits, Key};
use crate::i2c::lcd1602::{backspace, backspace_once_ops, repeated, write_string, write_string_ops};
use crate::i2c::Operation;

verus! {

/// Most digits that a number may have.
pub const MAX_INPUT_CHARS: usize = 5;

/// The digit on `key`, if it is a digit key.
pub open spec fn digit_on(key: Key) -> Option<u32> {
    match key {
        Key::Zero => Some(0),
        Key::One => Some(1),
        Key::Two => Some(2),
        Key::Three => Some(3),
        Key::Four => Some(4),
        Key::Five => Some(5),
        Key::Six => Some(6),
        Key::Seven => Some(7),
        Key::Eight => Some(8),
        Key::Nine => Some(9),
        Key::Star => None,
        Key::Pound => None,
    }
}

/// The number that `digits` spell in decimal; 0 for no digit at all.
pub open spec fn value_of(digits: Seq<Key>) -> nat
    decreases digits.len(),
{
    if digits.len() == 0 {
        0
    } else {
        value_of(digits.drop_last()) * 10 + match digit_on(digits.last()) {
            Some(digit) => digit as nat,
            None => 0,
        }
    }
}

/// The largest number of `len` digits.
pub open spec fn all_nines(len: nat) -> nat
    decreases len,
{
    if len == 0 {
        0
    } else {
        all_nines((len - 1) as nat) * 10 + 9
    }
}

/// What a key does to an entry that holds `digits`: the digits afterwards,
/// the operations that show the change on the display, and the number, once
/// it is accepted.
///
/// `#` accepts what was typed. `*` takes the last digit off and rubs it out
/// on the display; with nothing typed it does nothing. A digit is taken on
/// and written to the display, unless the entry is full.
pub open spec fn press_step(digits: Seq<Key>, key: Key) -> (Seq<Key>, Seq<Operation>, Option<u32>) {
    match key {
        Key::Pound => (digits, Seq::empty(), Some(value_of(digits) as u32)),
        Key::Star => if digits.len() > 0 {
            (digits.drop_last(), repeated(backspace_once_ops(), 1), None)
        } else {
            (digits, Seq::empty(), None)
        },
        _ => if digits.len() < MAX_INPUT_CHARS {
            (digits.push(key), write_string_ops(key.spec_legend()@), None)
        } else {
            (digits, Seq::empty(), None)
        },
    }
}

/// The digits of a number that is being typed.
pub struct Entry {
    digits: Vec<Key>,
}

impl View for Entry {
    type V = Seq<Key>;

    closed spec fn view(&self) -> Seq<Key> {
        self.digits@
    }
}

/// Digits spell a number that is no larger than as many nines.
pub proof fn lemma_value_bound(digits: Seq<Key>)
    ensures
        value_of(digits) <= all_nines(digits.len()),
    decreases digits.len(),
{
    if digits.len() > 0 {
        lemma_value_bound(digits.drop_last());
    }
}

impl Entry {
    /// An entry holds at most five keys, all of them digits.
    pub open spec fn wf(&self) -> bool {
        &&& self@.len() <= MAX_INPUT_CHARS
        &&& forall|i: int| 0 <= i < self@.len() ==> digit_on(#[trigger] self@[i]) is Some
    }

    /// An entry with nothing typed.
    pub fn new() -> (entry: Entry)
        ensures
            entry@ == Seq::<Key>::empty(),
            entry.wf(),
    {
        Entry { digits: Vec::new() }
    }

    /// The number that was typed so far.
    pub fn value(&self) -> (value: u32)
        requires
            self.wf(),
        ensures
            value == value_of(self@),
            value <= 99999,
    {
        let mut value: u32 = 0;
        let mut i: usize = 0;
        proof {
            reveal_with_fuel(all_nines, 6);
            assert(self.digits@.take(0) =~= Seq::<Key>::empty());
        }
        while i < self.digits.len()
            invariant
                i <= self.digits.len() <= MAX_INPUT_CHARS,
                value == value_of(self.digits@.take(i as int)),
                value <= all_nines(i as nat),
                all_nines(5) == 99999,
                forall|n: nat| n < 5 ==> all_nines(n) <= 9999,
            decreases self.digits.len() - i,
        {
            proof {
                assert(self.digits@.take(i + 1).drop_last() =~= self.digits@.take(i as int));
                assert(self.digits@.take(i + 1).last() == self.digits@[i as int]);
                lemma_value_bound(self.digits@.take(i + 1));
            }
            let digit: u32 = match self.digits[i] {
                Key::Zero => 0,
                Key::One => 1,
                Key::Two => 2,
                Key::Three => 3,
                Key::Four => 4,
                Key::Five => 5,
                Key::Six => 6,
                Key::Seven => 7,
                Key::Eight => 8,
                Key::Nine => 9,
                Key::Star => 0,
                Key::Pound => 0,
            };
            value = value * 10 + digit;
            i = i + 1;
        }
        proof {
            assert(self.digits@.take(i as int) =~= self.digits@);
        }
        value
    }

    /// Takes in one key. Where the display has to change, the operations that
    /// change it have been appended to `program`. The result is the number,
    /// once `#` has accepted it.
    pub fn press(&mut self, key: Key, program: &mut Vec<Operation>) -> (accepted: Option<u32>)
        requires
            old(self).wf(),
        ensures
            final(self).wf(),
            final(self)@ == press_step(old(self)@, key).0,
            final(program)@ == old(program)@ + press_step(old(self)@, key).1,
            accepted == press_step(old(self)@, key).2,
    {
        match key {
            Key::Pound => {
                assert(program@ =~= old(program)@ + Seq::<Operation>::empty());
                Some(self.value())
            },
            Key::Star => {
                // Nothing is rubbed out when nothing was typed.
                if self.digits.len() > 0 {
                    backspace(1, program);
                    self.digits.pop();
                } else {
                    assert(program@ =~= old(program)@ + Seq::<Operation>::empty());
                }
                None
            },
            _ => {
                if self.digits.len() < MAX_INPUT_CHARS {
                    proof {
                        lemma_legend_fits(key);
                    }
                    write_string(key.legend(), program);
                    self.digits.push(key);
                } else {
                    assert(program@ =~= old(program)@ + Seq::<Operation>::empty());
                }
                None
            },
        }
    }
}

/// What a key answers to the question whether to go ahead: `#` is yes, `*`
/// is no, and every other key is no answer.
pub open spec fn answer_of(key: Key) -> Option<bool> {
    match key {
        Key::Pound => Some(true),
        Key::Star => Some(false),
        _ => None,
    }
}

/// What `key` answers to the question whether to go ahead.
pub fn confirmation(key: Key) -> (answer: Option<bool>)
    ensures
        answer == answer_of(key),
{
    match key {
        Key::Pound => Some(true),
        Key::Star => Some(false),
        _ => None,
    }
}

} // verus!
