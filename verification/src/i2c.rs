//! The register model of the MCP23008 port expander.
//!
//! A driver writes down what it wants from an expander as a program: a list of
//! [`Operation`]s. A [`Sequence`] turns a program into the bus transfers and
//! delays that carry it out, one [`Action`] at a time.

use vstd::prelude::*;

pub mod hd44780;
pub mod keypad;
pub mod lcd1602;

verus! {

/// Bus address of the expander that drives the display.
pub const I2C_ADDR_LCD: u8 = 0b0100000;

/// Bus address of the expander that is wired to the keypad.
pub const I2C_ADDR_KEYPAD: u8 = 0b0100001;

/// The registers of the MCP23008.
#[allow(non_camel_case_types)]
#[derive(Copy, Clone, Debug, PartialEq, Eq, Structural)]
pub enum MCP23008Register {
    IODIR,
    IPOL,
    GPINTEN,
    DEFVEL,
    INTCON,
    IOCON,
    GPPU,
    INTF,
    INTCAP,
    GPIO,
    OLAT,
}

impl MCP23008Register {
    /// The address of the register inside the chip.
    pub open spec fn spec_address(self) -> u8 {
        match self {
            MCP23008Register::IODIR => 0x00,
            MCP23008Register::IPOL => 0x01,
            MCP23008Register::GPINTEN => 0x02,
            MCP23008Register::DEFVEL => 0x03,
            MCP23008Register::INTCON => 0x04,
            MCP23008Register::IOCON => 0x05,
            MCP23008Register::GPPU => 0x06,
            MCP23008Register::INTF => 0x07,
            MCP23008Register::INTCAP => 0x08,
            MCP23008Register::GPIO => 0x09,
            MCP23008Register::OLAT => 0x0A,
        }
    }

    /// The address of the register inside the chip.
    #[verifier::when_used_as_spec(spec_address)]
    pub fn address(self) -> (a: u8)
        ensures
            a == self.spec_address(),
    {
        match self {
            MCP23008Register::IODIR => 0x00,
            MCP23008Register::IPOL => 0x01,
            MCP23008Register::GPINTEN => 0x02,
            MCP23008Register::DEFVEL => 0x03,
            MCP23008Register::INTCON => 0x04,
            MCP23008Register::IOCON => 0x05,
            MCP23008Register::GPPU => 0x06,
            MCP23008Register::INTF => 0x07,
            MCP23008Register::INTCAP => 0x08,
            MCP23008Register::GPIO => 0x09,
            MCP23008Register::OLAT => 0x0A,
        }
    }
}

/// One operation on an expander's registers, or a pause.
#[derive(Copy, Clone, Debug, PartialEq, Eq, Structural)]
pub enum Operation {
    /// Store `value` in `register` of the chip at `address`.
    RegisterWrite { address: u8, register: MCP23008Register, value: u8 },
    /// Read the port of the chip at `address` and keep what it holds.
    GpioRead { address: u8 },
    /// Read the port of the chip at `address`, raise the bits of `mask`, and
    /// write the port back.
    SetBits { address: u8, mask: u8 },
    /// Read the port of the chip at `address`, lower the bits of `mask`, and
    /// write the port back.
    ClearBits { address: u8, mask: u8 },
    /// Wait for this many microseconds.
    DelayUs(u32),
    /// Wait for this many milliseconds.
    DelayMs(u32),
}

/// The port after the bits of `mask` were raised in `current`.
pub open spec fn bits_set(current: u8, mask: u8) -> u8 {
    current | mask
}

/// The port after the bits of `mask` were lowered in `current`.
pub open spec fn bits_cleared(current: u8, mask: u8) -> u8 {
    current & !mask
}

/// A read-modify-write raises or lowers every bit of its mask and leaves
/// every other bit as it was read.
pub proof fn lemma_update_keeps_other_bits(current: u8, mask: u8)
    ensures
        bits_set(current, mask) & mask == mask,
        bits_set(current, mask) & !mask == current & !mask,
        bits_cleared(current, mask) & mask == 0,
        bits_cleared(current, mask) & !mask == current & !mask,
{
    assert((current | mask) & mask == mask) by (bit_vector);
    assert((current | mask) & !mask == current & !mask) by (bit_vector);
    assert((current & !mask) & mask == 0) by (bit_vector);
    assert((current & !mask) & !mask == current & !mask) by (bit_vector);
}

/// Appends the write of `value` to the register `reg_addr` of the chip at
/// `i2c_addr`.
pub fn register_value_set(
    i2c_addr: u8,
    reg_addr: MCP23008Register,
    value: u8,
    program: &mut Vec<Operation>,
)
    ensures
        final(program)@ == old(program)@.push(
            Operation::RegisterWrite { address: i2c_addr, register: reg_addr, value },
        ),
{
    program.push(Operation::RegisterWrite { address: i2c_addr, register: reg_addr, value });
}

/// Appends the write of `value` to the port of the chip at `i2c_addr`.
pub fn gpio_write(i2c_addr: u8, value: u8, program: &mut Vec<Operation>)
    ensures
        final(program)@ == old(program)@.push(
            Operation::RegisterWrite {
                address: i2c_addr,
                register: MCP23008Register::GPIO,
                value,
            },
        ),
{
    register_value_set(i2c_addr, MCP23008Register::GPIO, value, program);
}

/// Appends a read of the port of the chip at `i2c_addr`. The byte that comes
/// back is kept by the [`Sequence`] that runs the program.
pub fn gpio_read(i2c_addr: u8, program: &mut Vec<Operation>)
    ensures
        final(program)@ == old(program)@.push(Operation::GpioRead { address: i2c_addr }),
{
    program.push(Operation::GpioRead { address: i2c_addr });
}

/// Appends a read-modify-write of the port of the chip at `i2c_addr` that
/// raises the bits of `mask_val`.
pub fn gpio_set_rmw(i2c_addr: u8, mask_val: u8, program: &mut Vec<Operation>)
    ensures
        final(program)@ == old(program)@.push(
            Operation::SetBits { address: i2c_addr, mask: mask_val },
        ),
{
    program.push(Operation::SetBits { address: i2c_addr, mask: mask_val });
}

/// Appends a read-modify-write of the port of the chip at `i2c_addr` that
/// lowers the bits of `mask_val`.
pub fn gpio_unset_rmw(i2c_addr: u8, mask_val: u8, program: &mut Vec<Operation>)
    ensures
        final(program)@ == old(program)@.push(
            Operation::ClearBits { address: i2c_addr, mask: mask_val },
        ),
{
    program.push(Operation::ClearBits { address: i2c_addr, mask: mask_val });
}

/// What the owner of the bus and of the timer is asked to do next.
#[derive(Copy, Clone, Debug, PartialEq, Eq, Structural)]
pub enum Action {
    /// Write two bytes to the chip at `address`: the address of `register`,
    /// then `value`.
    Write { address: u8, register: MCP23008Register, value: u8 },
    /// Write the address of `register` to the chip at `address`, then read one
    /// byte from it. The byte goes into the next call of
    /// [`Sequence::advance`].
    Read { address: u8, register: MCP23008Register },
    /// Wait for this many microseconds.
    DelayUs(u32),
    /// Wait for this many milliseconds.
    DelayMs(u32),
}

/// What a [`Sequence`] stands for.
pub struct SequenceState {
    /// The operations to carry out.
    pub program: Seq<Operation>,
    /// The number of operations that are done.
    pub position: nat,
    /// Whether the port was asked for and its byte has not come yet.
    pub awaiting: bool,
    /// The bytes that the operations `GpioRead` have read so far.
    pub readings: Seq<u8>,
}

/// Whether `op` begins with a read of the port.
pub open spec fn reads_port(op: Operation) -> bool {
    op is GpioRead || op is SetBits || op is ClearBits
}

/// The chip that `op` addresses, where it addresses one.
pub open spec fn chip_of(op: Operation) -> u8 {
    match op {
        Operation::RegisterWrite { address, .. } => address,
        Operation::GpioRead { address } => address,
        Operation::SetBits { address, .. } => address,
        Operation::ClearBits { address, .. } => address,
        Operation::DelayUs(_) => 0,
        Operation::DelayMs(_) => 0,
    }
}

/// The read of the port of the chip at `address`.
pub open spec fn port_read(address: u8) -> Action {
    Action::Read { address, register: MCP23008Register::GPIO }
}

/// The write of `value` to the port of the chip at `address`.
pub open spec fn port_write(address: u8, value: u8) -> Action {
    Action::Write { address, register: MCP23008Register::GPIO, value }
}

impl SequenceState {
    /// The state in which nothing of `program` is done.
    pub open spec fn initial(program: Seq<Operation>) -> SequenceState {
        SequenceState { program, position: 0, awaiting: false, readings: Seq::empty() }
    }

    /// A byte is awaited only for an operation that reads the port.
    pub open spec fn wf(self) -> bool {
        &&& self.position <= self.program.len()
        &&& self.awaiting ==> self.position < self.program.len() && reads_port(
            self.program[self.position as int],
        )
    }

    /// Whether every operation is done.
    pub open spec fn finished(self) -> bool {
        self.position >= self.program.len()
    }

    /// The state after the operation at `position` is done.
    pub open spec fn moved_on(self) -> SequenceState {
        SequenceState { position: self.position + 1, awaiting: false, ..self }
    }

    /// Begins the operation at `position`: a write or a delay is asked for and
    /// counts as done, a read of the port is asked for and its byte awaited.
    /// When every operation is done there is nothing to ask for.
    pub open spec fn begin(self) -> (SequenceState, Option<Action>) {
        if self.finished() {
            (self, None)
        } else {
            match self.program[self.position as int] {
                Operation::RegisterWrite { address, register, value } => (
                    self.moved_on(),
                    Some(Action::Write { address, register, value }),
                ),
                Operation::DelayUs(us) => (self.moved_on(), Some(Action::DelayUs(us))),
                Operation::DelayMs(ms) => (self.moved_on(), Some(Action::DelayMs(ms))),
                op => (SequenceState { awaiting: true, ..self }, Some(port_read(chip_of(op)))),
            }
        }
    }

    /// One step. `reply` is the byte that the last action read, if it was a
    /// read.
    ///
    /// While a byte is awaited and none comes, the read is asked for again.
    /// The byte of a `GpioRead` is kept, and the next operation begins. The
    /// byte of a `SetBits` or `ClearBits` is written back with the bits of the
    /// mask raised or lowered. A byte that is not awaited is dropped.
    pub open spec fn step(self, reply: Option<u8>) -> (SequenceState, Option<Action>) {
        if !self.awaiting {
            self.begin()
        } else {
            match (reply, self.program[self.position as int]) {
                (None, op) => (self, Some(port_read(chip_of(op)))),
                (Some(byte), Operation::SetBits { address, mask }) => (
                    self.moved_on(),
                    Some(port_write(address, bits_set(byte, mask))),
                ),
                (Some(byte), Operation::ClearBits { address, mask }) => (
                    self.moved_on(),
                    Some(port_write(address, bits_cleared(byte, mask))),
                ),
                (Some(byte), _) => SequenceState {
                    readings: self.readings.push(byte),
                    ..self.moved_on()
                }.begin(),
            }
        }
    }
}

/// Carries out a program, one bus transfer or delay at a time.
///
/// The owner of the bus calls [`Sequence::advance`], does what the action
/// says, and calls again, until no action is left. A transfer that fails is
/// the owner's to deal with: the sequence only hears of bytes that were read.
///
/// Nothing keeps a chip's port in step with what this crate believes of it:
/// every read-modify-write reads the port anew. The byte that it writes back
/// is made from the byte that it read, so the owner has to keep the bus to
/// itself from the read to the write that follows it.
pub struct Sequence {
    program: Vec<Operation>,
    position: usize,
    awaiting: bool,
    readings: Vec<u8>,
}

impl View for Sequence {
    type V = SequenceState;

    closed spec fn view(&self) -> SequenceState {
        SequenceState {
            program: self.program@,
            position: self.position as nat,
            awaiting: self.awaiting,
            readings: self.readings@,
        }
    }
}

impl Sequence {
    /// A sequence that has `program` before it.
    pub fn new(program: Vec<Operation>) -> (sequence: Sequence)
        ensures
            sequence@ == SequenceState::initial(program@),
            sequence@.wf(),
    {
        Sequence { program, position: 0, awaiting: false, readings: Vec::new() }
    }

    /// Whether every operation is done.
    pub fn is_finished(&self) -> (done: bool)
        ensures
            done == self@.finished(),
    {
        self.position >= self.program.len()
    }

    /// The bytes that the operations `GpioRead` have read, in their order.
    pub fn into_readings(self) -> (readings: Vec<u8>)
        ensures
            readings@ == self@.readings,
    {
        self.readings
    }

    /// Asks for the operation at `position` to begin.
    fn begin(&mut self) -> (action: Option<Action>)
        requires
            old(self)@.wf(),
            !old(self)@.awaiting,
        ensures
            final(self)@.wf(),
            (final(self)@, action) == old(self)@.begin(),
    {
        if self.position >= self.program.len() {
            return None;
        }
        let op = self.program[self.position];
        match op {
            Operation::RegisterWrite { address, register, value } => {
                self.position = self.position + 1;
                Some(Action::Write { address, register, value })
            },
            Operation::DelayUs(us) => {
                self.position = self.position + 1;
                Some(Action::DelayUs(us))
            },
            Operation::DelayMs(ms) => {
                self.position = self.position + 1;
                Some(Action::DelayMs(ms))
            },
            _ => {
                self.awaiting = true;
                Some(read_port(chip(op)))
            },
        }
    }

    /// Takes one step and says what to do next; `None` when every operation
    /// is done. `reply` is the byte that the action before read, if it was a
    /// read, and `None` after any other action and in the first call.
    pub fn advance(&mut self, reply: Option<u8>) -> (action: Option<Action>)
        requires
            old(self)@.wf(),
        ensures
            final(self)@.wf(),
            (final(self)@, action) == old(self)@.step(reply),
    {
        if !self.awaiting {
            return self.begin();
        }
        assert(self.position < self.program.len());
        let op = self.program[self.position];
        match reply {
            None => Some(read_port(chip(op))),
            Some(byte) => {
                self.awaiting = false;
                self.position = self.position + 1;
                match op {
                    // Modify the byte that was read, and write it back.
                    Operation::SetBits { address, mask } => Some(
                        write_port(address, byte | mask),
                    ),
                    Operation::ClearBits { address, mask } => Some(
                        write_port(address, byte & !mask),
                    ),
                    _ => {
                        self.readings.push(byte);
                        self.begin()
                    },
                }
            },
        }
    }
}

/// The chip that `op` addresses, where it addresses one.
fn chip(op: Operation) -> (address: u8)
    ensures
        address == chip_of(op),
{
    match op {
        Operation::RegisterWrite { address, .. } => address,
        Operation::GpioRead { address } => address,
        Operation::SetBits { address, .. } => address,
        Operation::ClearBits { address, .. } => address,
        Operation::DelayUs(_) => 0,
        Operation::DelayMs(_) => 0,
    }
}

/// The read of the port of the chip at `address`.
fn read_port(address: u8) -> (action: Action)
    ensures
        action == port_read(address),
{
    Action::Read { address, register: MCP23008Register::GPIO }
}

/// The write of `value` to the port of the chip at `address`.
fn write_port(address: u8, value: u8) -> (action: Action)
    ensures
        action == port_write(address, value),
{
    Action::Write { address, register: MCP23008Register::GPIO, value }
}

/// The bus transfers and delays that carry out `program`, in order, when
/// `replies` are the bytes that its reads of a port return, in order.
pub open spec fn transcript(program: Seq<Operation>, replies: Seq<u8>) -> Seq<Action>
    decreases program.len(),
{
    if program.len() == 0 {
        Seq::empty()
    } else {
        let rest = program.drop_first();
        match program[0] {
            Operation::RegisterWrite { address, register, value } => seq![
                Action::Write { address, register, value },
            ] + transcript(rest, replies),
            Operation::DelayUs(us) => seq![Action::DelayUs(us)] + transcript(rest, replies),
            Operation::DelayMs(ms) => seq![Action::DelayMs(ms)] + transcript(rest, replies),
            Operation::GpioRead { address } => seq![port_read(address)] + transcript(
                rest,
                replies.drop_first(),
            ),
            Operation::SetBits { address, mask } => seq![
                port_read(address),
                port_write(address, bits_set(replies[0], mask)),
            ] + transcript(rest, replies.drop_first()),
            Operation::ClearBits { address, mask } => seq![
                port_read(address),
                port_write(address, bits_cleared(replies[0], mask)),
            ] + transcript(rest, replies.drop_first()),
        }
    }
}

/// The number of times that `program` reads a port.
pub open spec fn reads_in(program: Seq<Operation>) -> nat
    decreases program.len(),
{
    if program.len() == 0 {
        0
    } else {
        reads_in(program.drop_first()) + if reads_port(program[0]) {
            1nat
        } else {
            0nat
        }
    }
}

/// The bytes that `program` keeps, when `replies` are the bytes that its
/// reads of a port return, in order: those that answer a `GpioRead`.
pub open spec fn kept(program: Seq<Operation>, replies: Seq<u8>) -> Seq<u8>
    decreases program.len(),
{
    if program.len() == 0 {
        Seq::empty()
    } else if program[0] is GpioRead {
        seq![replies[0]] + kept(program.drop_first(), replies.drop_first())
    } else if reads_port(program[0]) {
        kept(program.drop_first(), replies.drop_first())
    } else {
        kept(program.drop_first(), replies)
    }
}

impl SequenceState {
    /// What is left to do, counted so that every step with the reply it
    /// awaits brings it down.
    pub open spec fn left(self) -> int {
        2 * (self.program.len() - self.position) - if self.awaiting {
            1int
        } else {
            0int
        }
    }

    /// The actions that the sequence asks for from here on, and the state
    /// that it ends in, when every action is carried out and every read is
    /// answered by the next byte of `replies`. `reply` answers the action
    /// before. Where `replies` run out, the read that has no answer is the
    /// last action.
    pub open spec fn run(self, reply: Option<u8>, replies: Seq<u8>) -> (
        Seq<Action>,
        SequenceState,
    )
        decreases self.left(),
        when self.wf() && (self.awaiting ==> reply is Some)
    {
        let (next, action) = self.step(reply);
        match action {
            None => (Seq::empty(), next),
            Some(Action::Read { address, register }) => if replies.len() == 0 {
                (seq![Action::Read { address, register }], next)
            } else {
                let (actions, end) = next.run(Some(replies[0]), replies.drop_first());
                (seq![Action::Read { address, register }] + actions, end)
            },
            Some(other) => {
                let (actions, end) = next.run(None, replies);
                (seq![other] + actions, end)
            },
        }
    }
}

/// A sequence that is carried out asks for exactly the transfers and delays
/// of its program, in order: a write or a delay for each such operation, a
/// read of the port for each `GpioRead`, and for each `SetBits` and
/// `ClearBits` a read of the port and then the write of the byte that was read
/// with the bits of the mask raised or lowered. It ends with every operation
/// done and with the bytes kept that answered a `GpioRead`.
pub proof fn lemma_run_is_transcript(program: Seq<Operation>, replies: Seq<u8>)
    requires
        replies.len() >= reads_in(program),
    ensures
        SequenceState::initial(program).run(None, replies) == (
            transcript(program, replies),
            SequenceState {
                program,
                position: program.len(),
                awaiting: false,
                readings: kept(program, replies),
            },
        ),
{
    let start = SequenceState::initial(program);
    assert(program.skip(0) =~= program);
    lemma_run_from(start, replies);
    assert(start.readings + kept(program, replies) =~= kept(program, replies));
}

/// The same from any operation on.
proof fn lemma_run_from(state: SequenceState, replies: Seq<u8>)
    requires
        state.wf(),
        !state.awaiting,
        replies.len() >= reads_in(state.program.skip(state.position as int)),
    ensures
        state.run(None, replies) == (
            transcript(state.program.skip(state.position as int), replies),
            SequenceState {
                program: state.program,
                position: state.program.len(),
                awaiting: false,
                readings: state.readings + kept(
                    state.program.skip(state.position as int),
                    replies,
                ),
            },
        ),
    decreases state.program.len() - state.position,
{
    let todo = state.program.skip(state.position as int);
    if state.finished() {
        assert(state.readings + Seq::<u8>::empty() =~= state.readings);
    } else {
        let op = state.program[state.position as int];
        assert(todo[0] == op);
        assert(todo.drop_first() =~= state.program.skip(state.position as int + 1));
        let rest = replies.drop_first();
        match op {
            Operation::GpioRead { address } => {
                let asked = SequenceState { awaiting: true, ..state };
                let read = SequenceState {
                    readings: state.readings.push(replies[0]),
                    ..asked.moved_on()
                };
                assert(asked.run(Some(replies[0]), rest) == read.run(None, rest));
                lemma_run_from(read, rest);
                assert(state.readings.push(replies[0]) + kept(todo.drop_first(), rest)
                    =~= state.readings + kept(todo, replies));
            },
            Operation::SetBits { address, mask } => {
                let asked = SequenceState { awaiting: true, ..state };
                lemma_run_from(asked.moved_on(), rest);
                let write = port_write(address, bits_set(replies[0], mask));
                assert(asked.run(Some(replies[0]), rest).0 == seq![write] + transcript(
                    todo.drop_first(),
                    rest,
                ));
                assert(seq![port_read(address)] + (seq![write] + transcript(
                    todo.drop_first(),
                    rest,
                )) =~= transcript(todo, replies));
            },
            Operation::ClearBits { address, mask } => {
                let asked = SequenceState { awaiting: true, ..state };
                lemma_run_from(asked.moved_on(), rest);
                let write = port_write(address, bits_cleared(replies[0], mask));
                assert(asked.run(Some(replies[0]), rest).0 == seq![write] + transcript(
                    todo.drop_first(),
                    rest,
                ));
                assert(seq![port_read(address)] + (seq![write] + transcript(
                    todo.drop_first(),
                    rest,
                )) =~= transcript(todo, replies));
            },
            _ => {
                lemma_run_from(state.moved_on(), replies);
            },
        }
    }
}

/// The number of bus transfers that `op` takes: one for a write and for a
/// read, two for a read-modify-write, none for a pause.
pub open spec fn transfers_of(op: Operation) -> nat {
    match op {
        Operation::RegisterWrite { .. } => 1,
        Operation::GpioRead { .. } => 1,
        Operation::SetBits { .. } => 2,
        Operation::ClearBits { .. } => 2,
        Operation::DelayUs(_) => 0,
        Operation::DelayMs(_) => 0,
    }
}

/// The number of bus transfers that `program` takes.
pub open spec fn transfers_in(program: Seq<Operation>) -> nat
    decreases program.len(),
{
    if program.len() == 0 {
        0
    } else {
        transfers_in(program.drop_last()) + transfers_of(program.last())
    }
}

/// The number of bus transfers among `actions`.
pub open spec fn bus_transfers(actions: Seq<Action>) -> nat
    decreases actions.len(),
{
    if actions.len() == 0 {
        0
    } else {
        bus_transfers(actions.drop_last()) + if actions.last() is Write || actions.last() is Read {
            1nat
        } else {
            0nat
        }
    }
}

/// The transfers of two programs, one after the other, add up.
pub proof fn lemma_transfers_add_up(first: Seq<Operation>, second: Seq<Operation>)
    ensures
        transfers_in(first + second) == transfers_in(first) + transfers_in(second),
    decreases second.len(),
{
    if second.len() == 0 {
        assert(first + second =~= first);
    } else {
        lemma_transfers_add_up(first, second.drop_last());
        assert((first + second).drop_last() =~= first + second.drop_last());
    }
}

/// The transfers among two lots of actions add up.
proof fn lemma_bus_transfers_add_up(first: Seq<Action>, second: Seq<Action>)
    ensures
        bus_transfers(first + second) == bus_transfers(first) + bus_transfers(second),
    decreases second.len(),
{
    if second.len() == 0 {
        assert(first + second =~= first);
    } else {
        lemma_bus_transfers_add_up(first, second.drop_last());
        assert((first + second).drop_last() =~= first + second.drop_last());
    }
}

/// Carrying out a program takes as many bus transfers as its operations
/// take, whatever is read.
pub proof fn lemma_transcript_transfers(program: Seq<Operation>, replies: Seq<u8>)
    ensures
        bus_transfers(transcript(program, replies)) == transfers_in(program),
    decreases program.len(),
{
    if program.len() > 0 {
        let op = program[0];
        let rest = program.drop_first();
        let left = if reads_port(op) {
            replies.drop_first()
        } else {
            replies
        };
        lemma_transcript_transfers(rest, left);
        let head = transcript(program, replies).take(transcript(program, replies).len() - transcript(
            rest,
            left,
        ).len());
        assert(transcript(program, replies) =~= head + transcript(rest, left));
        lemma_bus_transfers_add_up(head, transcript(rest, left));
        assert(bus_transfers(head) == transfers_of(op)) by {
            assert(bus_transfers(Seq::<Action>::empty()) == 0);
            if head.len() == 1 {
                assert(head.drop_last() =~= Seq::<Action>::empty());
            } else {
                assert(head.drop_last().drop_last() =~= Seq::<Action>::empty());
                assert(bus_transfers(head.drop_last()) == 1);
            }
        }
        assert(program =~= seq![op] + rest);
        lemma_transfers_add_up(seq![op], rest);
        assert(transfers_in(seq![op]) == transfers_of(op)) by {
            assert(seq![op].drop_last() =~= Seq::<Operation>::empty());
            assert(transfers_in(Seq::<Operation>::empty()) == 0);
        }
    }
}

} // verus!
