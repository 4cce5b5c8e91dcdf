//! Drivers for a 16x2 character display and a 3x4 matrix keypad that sit
//! behind MCP23008 port expanders on a two-wire bus.
//!
//! The drivers perform no bus transfer and no delay themselves. They write
//! down what has to happen as a program of operations ([`i2c::Operation`]),
//! and a [`i2c::Sequence`] hands the program out as single bus transfers and
//! delays ([`i2c::Action`]) to whoever owns the bus and the timer.
//!
//! - [`i2c`] holds the register model of the expander and the sequence.
//! - [`i2c::lcd1602`] is the driver of the display, and [`i2c::hd44780`] says
//!   what the display makes of what the driver sends.
//! - [`i2c::keypad`] is the scanner of the keypad.
//! - [`input`] turns key presses into a number that is shown while it is typed.

pub mod i2c;
pub mod input;
