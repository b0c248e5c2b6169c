//! The JTAG adapter.

use crate::captured_bits::{low_bits, max_bits, CapturedBits};
use crate::command_compacter::{encoding, Command, JtagBit, SEND_IMMEDIATE};
use crate::error::JtagProbeError;
use crate::ftdaye::error::FtdiError;
use crate::ftdaye::ChipType;
use crate::properties::{
    clock_divisor, divided_clock, effective_chip_type, mpsse_properties, FtdiDevice, FtdiProperties,
};
use crate::setup::{
    clock_actions, pin_levels, start_setup, DeviceAction, Setup, SetupStep, JTAG_PINS, LATENCY_MS,
};
use crate::state::{
    overrun_text, reply_bits, response_bits, total_bits, AdapterState, AfterSend, Rest,
    RESPONSE_TIMEOUT,
};
use crate::step::{Reading, Sending, Step};
use crate::stream::{lemma_concat, lemma_encoding, lemma_send_immediate};
use crate::text::push_decimal;
use vstd::prelude::*;
use vstd::string::*;

verus! {

/// What is known of a USB device that has been opened.
#[derive(Debug)]
pub struct OpenedDevice {
    /// The USB vendor ID.
    pub vendor_id: u16,
    /// The USB product ID.
    pub product_id: u16,
    /// The USB product string, where the device has one.
    pub product_string: Option<String>,
    /// The type of the chip, where it was recognized.
    pub chip_type: Option<ChipType>,
}

/// A JTAG adapter on an FTDI chip.
///
/// It gathers what is to be clocked, decides when to talk to the device, and keeps what comes
/// back. The device itself is the caller's: every operation returns a [`Step`] that says what the
/// device has to do next, if anything.
#[derive(Debug)]
pub struct JtagAdapter {
    vendor_id: u16,
    product_id: u16,
    product_string: Option<String>,
    speed_khz: u32,
    command: Command,
    commands: Vec<u8>,
    in_bit_counts: Vec<usize>,
    in_bits: CapturedBits,
    ftdi: FtdiProperties,
}

/// A string as a sequence of characters, where there is one.
pub open spec fn text_of(string: Option<String>) -> Option<Seq<char>> {
    match string {
        Some(text) => Some(text@),
        None => None,
    }
}

/// What was read, as a sequence, where reading did not fail.
pub open spec fn data_of(outcome: Result<Vec<u8>, std::io::Error>) -> Result<
    Seq<u8>,
    std::io::Error,
> {
    match outcome {
        Ok(data) => Ok(data@),
        Err(err) => Err(err),
    }
}

impl View for JtagAdapter {
    type V = AdapterState;

    closed spec fn view(&self) -> AdapterState {
        AdapterState {
            vendor_id: self.vendor_id,
            product_id: self.product_id,
            product: text_of(self.product_string),
            speed_khz: self.speed_khz,
            command: self.command@,
            commands: self.commands@,
            in_bit_counts: self.in_bit_counts@,
            in_bits: self.in_bits@,
            ftdi: self.ftdi,
        }
    }
}

/// The text of the error for a response that is too long.
fn overrun_message(expected: usize, got: usize) -> (text: String)
    ensures
        text@ == overrun_text(expected as nat, got as nat),
{
    let mut text = String::new();
    text.append("Read more data than expected. Expected ");
    push_decimal(&mut text, expected);
    text.append(" bytes, got ");
    push_decimal(&mut text, got);
    text.append(" bytes");
    assert(text@ =~= overrun_text(expected as nat, got as nat));
    text
}

/// Shifting the high bits of a byte of a response down yields its bits.
proof fn lemma_reply_bits(byte: u8, count: usize)
    requires
        1 <= count <= 8,
    ensures
        low_bits(byte >> ((8 - count) as usize), count as int) == reply_bits(byte, count),
{
    let shift = (8 - count) as u8;
    let shifted = byte >> shift;
    assert forall|j: int| 0 <= j < count implies low_bits(shifted, count as int)[j] == reply_bits(
        byte,
        count,
    )[j] by {
        let k = j as u8;
        let place = (8 - count + j) as u8;
        assert(((byte >> shift) >> k) & 1u8 == (byte >> place) & 1u8) by (bit_vector)
            requires
                shift < 8,
                k < 8,
                place == shift + k,
                place < 8,
        ;
    }
    assert(low_bits(shifted, count as int) =~= reply_bits(byte, count));
}

/// A response holds at least the bits of any first part of it.
proof fn lemma_total_bits_prefix(counts: Seq<usize>, n: int)
    requires
        0 <= n <= counts.len(),
    ensures
        0 <= total_bits(counts.take(n)) <= total_bits(counts),
    decreases counts.len() - n,
{
    if n == counts.len() {
        assert(counts.take(n) =~= counts);
        lemma_total_bits_nonnegative(counts);
    } else {
        lemma_total_bits_prefix(counts, n + 1);
        assert(counts.take(n + 1).drop_last() =~= counts.take(n));
        lemma_total_bits_nonnegative(counts.take(n));
    }
}

/// A number of bits is not negative.
proof fn lemma_total_bits_nonnegative(counts: Seq<usize>)
    ensures
        0 <= total_bits(counts),
    decreases counts.len(),
{
    if counts.len() > 0 {
        lemma_total_bits_nonnegative(counts.drop_last());
    }
}

impl JtagAdapter {
    /// The adapter for a device that has just been opened. `ftdi` says what to take the device
    /// for if its chip was not recognized. A chip without an MPSSE is refused.
    pub fn open(ftdi: FtdiDevice, device: OpenedDevice) -> (opened: Result<Self, JtagProbeError>)
        ensures
            ({
                let chip_type = effective_chip_type(ftdi, device.chip_type);
                match mpsse_properties(chip_type) {
                    Some(properties) => {
                        &&& opened matches Ok(adapter)
                        &&& adapter.wf()
                        &&& adapter@ == AdapterState::opened(
                            device.vendor_id,
                            device.product_id,
                            text_of(device.product_string),
                            properties,
                        )
                    },
                    None => opened == Err::<Self, JtagProbeError>(
                        JtagProbeError::FtdiError(FtdiError::UnsupportedChipType(chip_type)),
                    ),
                }
            }),
    {
        let ftdi = match FtdiProperties::try_from((ftdi, device.chip_type)) {
            Ok(properties) => properties,
            Err(err) => return Err(JtagProbeError::from(err)),
        };
        let adapter = JtagAdapter {
            vendor_id: device.vendor_id,
            product_id: device.product_id,
            product_string: device.product_string,
            speed_khz: 1000,
            command: Command::default(),
            commands: vec![],
            in_bit_counts: vec![],
            in_bits: CapturedBits::new(),
            ftdi,
        };
        assert(adapter@.commands =~= Seq::<u8>::empty());
        assert(adapter@.in_bit_counts =~= Seq::<usize>::empty());
        Ok(adapter)
    }

    /// Sets the device up for JTAG. What the device has to do is in the step that is returned.
    pub fn attach(&self) -> (step: SetupStep)
        requires
            self.wf(),
        ensures
            step.wf(),
            step@ == start_setup(self@.attach_actions()),
    {
        let (output, direction) = self.pin_layout();
        let mut actions: Vec<DeviceAction> = vec![
            DeviceAction::UsbReset,
            DeviceAction::EnterMpsse { pins: JTAG_PINS },
            DeviceAction::SetLatencyTimer { ms: LATENCY_MS },
            DeviceAction::PurgeBuffers,
            DeviceAction::DiscardInput,
            DeviceAction::SetPins { output, direction },
        ];
        let (mut clock, _) = self.plan_clock(self.speed_khz);
        actions.append(&mut clock);
        actions.push(DeviceAction::DisableLoopback);
        assert(actions@ =~= self@.attach_actions());
        SetupStep::start(actions)
    }

    /// The levels and the directions of the pins that the device wants.
    pub fn pin_layout(&self) -> (layout: (u16, u16))
        ensures
            layout == pin_levels(self@.vendor_id, self@.product_id, self@.product),
    {
        if self.vendor_id == 0x0403 && self.product_id == 0x6014 && self.product_is(
            "Digilent USB Device",
        ) {
            // Digilent HS3
            (0x2088, 0x308b)
        } else if self.vendor_id == 0x0403 && self.product_id == 0x6014 && self.product_is(
            "Digilent Adept USB Device",
        ) {
            // Digilent HS2
            (0x00e8, 0x60eb)
        } else if self.vendor_id == 0x0403 && self.product_id == 0x6010 && self.product_is(
            "Digilent Adept USB Device",
        ) {
            // Digilent HS1
            (0x0088, 0x008b)
        } else {
            // Other devices: TMS starts high; TMS, TDI and TCK are outputs.
            (0x0008, 0x000b)
        }
    }

    /// Whether the device has the given product string.
    fn product_is(&self, name: &str) -> (same: bool)
        ensures
            same == (self@.product == Some(name@)),
    {
        match &self.product_string {
            Some(product) => *product == name.to_owned(),
            None => false,
        }
    }

    /// The clock speed in kHz: the one in use, or the one to be used with the next
    /// [`JtagAdapter::attach`].
    pub fn speed_khz(&self) -> (speed_khz: u32)
        ensures
            speed_khz == self@.speed_khz,
    {
        self.speed_khz
    }

    /// Sets the clock speed to be used with the next [`JtagAdapter::attach`], in kHz.
    pub fn set_speed_khz(&mut self, speed_khz: u32) -> (set: u32)
        requires
            old(self).wf(),
        ensures
            final(self).wf(),
            set == speed_khz,
            final(self)@ == (AdapterState { speed_khz, ..old(self)@ }),
    {
        self.speed_khz = speed_khz;
        assert(self@ == (AdapterState { speed_khz, ..old(self)@ }));
        self.speed_khz
    }

    /// Sets the clock speed of the device, in kHz. What the device has to do is in the step that is
    /// returned, beside the speed that it then has. That is the wanted speed, rounded down to one
    /// that the device can do; 0 means the maximum.
    pub fn apply_clock_speed(&self, speed_khz: u32) -> (setup: (SetupStep, u32))
        requires
            self.wf(),
        ensures
            setup.0.wf(),
            setup.0@ == start_setup(clock_actions(self@.ftdi, speed_khz)),
            setup.1 == divided_clock(
                self@.ftdi.max_clock,
                clock_divisor(self@.ftdi.max_clock, speed_khz),
            ),
    {
        let (actions, actual_speed) = self.plan_clock(speed_khz);
        (SetupStep::start(actions), actual_speed)
    }

    /// What the device has to do for a clock speed in kHz, in order, and the speed that it then
    /// has.
    fn plan_clock(&self, speed_khz: u32) -> (plan: (Vec<DeviceAction>, u32))
        requires
            self.wf(),
        ensures
            plan.0@ == clock_actions(self@.ftdi, speed_khz),
            plan.1 == divided_clock(
                self@.ftdi.max_clock,
                clock_divisor(self@.ftdi.max_clock, speed_khz),
            ),
    {
        proof {
            self.ftdi.lemma_valid_bounds();
        }
        let divisor: u16 = self.ftdi.divisor_for(speed_khz);
        let actions: Vec<DeviceAction> = vec![
            // Disable divide-by-5 mode if available, force it otherwise.
            if self.ftdi.has_divide_by_5 {
                DeviceAction::DisableDivideBy5
            } else {
                DeviceAction::EnableDivideBy5
            },
            DeviceAction::ConfigureClockDivider { divisor },
        ];
        assert(actions@ =~= clock_actions(self@.ftdi, speed_khz));
        (actions, self.ftdi.speed_with(divisor))
    }

    /// Goes on with a setup once the device has performed [`Setup::action`], or has failed to.
    pub fn performed(&mut self, setup: Setup, outcome: Result<(), FtdiError>) -> (step: SetupStep)
        requires
            old(self).wf(),
            setup.wf(),
        ensures
            final(self).wf(),
            step.wf(),
            (final(self)@, step@) == old(self)@.performed(setup@, outcome),
    {
        let action = setup.action();
        match outcome {
            Ok(_) => {
                if let DeviceAction::ConfigureClockDivider { divisor } = action {
                    self.speed_khz = self.ftdi.speed_with(divisor);
                }
                assert(self@ == old(self)@.after_action(action));
                SetupStep::after_first(setup)
            },
            Err(err) => match action {
                DeviceAction::DiscardInput => SetupStep::after_first(setup),
                _ => SetupStep::Failed(err),
            },
        }
    }

    /// What holds of every adapter.
    pub closed spec fn wf(&self) -> bool {
        &&& self.command.wf()
        &&& self@.valid()
    }

    /// The state of a well-formed adapter is valid.
    pub proof fn lemma_wf_valid(&self)
        requires
            self.wf(),
        ensures
            self@.valid(),
    {
    }

    /// The bytes that wait to be sent.
    pub fn outgoing(&self) -> (bytes: &[u8])
        ensures
            bytes@ == self@.commands,
    {
        self.commands.as_slice()
    }

    /// Whether there is room for the bits of the response that is due.
    pub fn response_fits(&self) -> (fits: bool)
        ensures
            fits == self@.response_fits(),
    {
        let mut room: usize = usize::MAX / 8 - self.in_bits.len();
        for i in 0..self.in_bit_counts.len()
            invariant
                room == max_bits() - self.in_bits@.len() - total_bits(
                    self.in_bit_counts@.take(i as int),
                ),
        {
            let count: usize = self.in_bit_counts[i];
            assert(self.in_bit_counts@.take(i + 1).drop_last() =~= self.in_bit_counts@.take(
                i as int,
            ));
            if room < count {
                proof {
                    lemma_total_bits_prefix(self.in_bit_counts@, i + 1);
                }
                return false;
            }
            room = room - count;
        }
        assert(self.in_bit_counts@.take(self.in_bit_counts.len() as int) =~= self.in_bit_counts@);
        true
    }

    /// The number of bytes of the response that is due.
    pub fn response_len(&self) -> (len: usize)
        ensures
            len == self@.in_bit_counts.len(),
    {
        self.in_bit_counts.len()
    }

    /// Whether the outcome of a read, given to [`JtagAdapter::received`], would complete the
    /// response in time.
    pub fn completes(
        &self,
        reading: &Reading,
        outcome: &Result<Vec<u8>, std::io::Error>,
        read_at: u128,
        checked_at: u128,
    ) -> (completes: bool)
        ensures
            completes == match *outcome {
                Ok(data) => self@.completes(reading@, data@, read_at, checked_at),
                Err(_) => false,
            },
    {
        match outcome {
            Ok(data) => {
                let last_data: u128 = if data.len() > 0 { read_at } else { reading.last_data() };
                let late = checked_at > last_data && checked_at - last_data > RESPONSE_TIMEOUT;
                !late && reading.len() <= self.in_bit_counts.len() && data.len()
                    == self.in_bit_counts.len() - reading.len()
            },
            Err(_) => false,
        }
    }

    /// Appends the command and notes the replies to it.
    fn store(&mut self, command: Command)
        requires
            old(self).wf(),
            command.wf(),
        ensures
            final(self).wf(),
            final(self)@ == old(self)@.store(command@),
    {
        command.add_captured_bits(&mut self.in_bit_counts);
        command.encode(&mut self.commands);
        proof {
            command.lemma_is_run();
            lemma_encoding(command@);
            lemma_concat(old(self).commands@, encoding(command@));
        }
    }

    /// Closes the buffer off with Send Immediate.
    fn seal(&mut self)
        requires
            old(self).wf(),
        ensures
            final(self).wf(),
            final(self)@ == old(self)@.seal(),
    {
        self.commands.push(SEND_IMMEDIATE);
        proof {
            lemma_send_immediate(old(self).commands@);
        }
    }

    /// Ends an operation, handing out the captured bits if `take` is set.
    fn conclude(&mut self, take: bool) -> (step: Step)
        requires
            old(self).wf(),
        ensures
            final(self).wf(),
            step.wf(),
            (final(self)@, step@) == old(self)@.conclude(take),
    {
        if take {
            let mut taken = CapturedBits::new();
            core::mem::swap(&mut taken, &mut self.in_bits);
            assert(self@ == (AdapterState { in_bits: seq![], ..old(self)@ }));
            Step::Captured(taken)
        } else {
            Step::Done
        }
    }

    /// Reads the response, if one is due, and ends the operation.
    fn receive_then_conclude(&mut self, take: bool) -> (step: Step)
        requires
            old(self).wf(),
        ensures
            final(self).wf(),
            step.wf(),
            (final(self)@, step@) == old(self)@.receive_then_conclude(take),
    {
        if self.in_bit_counts.len() == 0 {
            self.conclude(take)
        } else {
            Step::Receive(Reading::new(vec![], 0, Rest::Conclude { take }))
        }
    }

    /// Sends the buffer, if there is anything in it, reads the response, and ends the operation.
    fn flush_then_conclude(&mut self, take: bool) -> (step: Step)
        requires
            old(self).wf(),
        ensures
            final(self).wf(),
            step.wf(),
            (final(self)@, step@) == old(self)@.flush_then_conclude(take),
    {
        if self.commands.len() == 0 {
            self.receive_then_conclude(take)
        } else {
            self.seal();
            Step::Send(Sending::new(AfterSend::Receive { rest: Rest::Conclude { take } }))
        }
    }

    /// Goes on with an operation once the response has been read.
    fn after_response(&mut self, rest: Rest<Command>) -> (step: Step)
        requires
            old(self).wf(),
            rest.wf(),
        ensures
            final(self).wf(),
            step.wf(),
            (final(self)@, step@) == old(self)@.after_response(rest@),
    {
        match rest {
            Rest::Conclude { take } => self.conclude(take),
            Rest::Store { command } => {
                self.store(command);
                Step::Done
            },
            Rest::StoreThenFlush { command, take } => {
                self.store(command);
                self.flush_then_conclude(take)
            },
        }
    }

    /// Reads the response, if one is due, and goes on with the operation.
    fn receive_then(&mut self, rest: Rest<Command>) -> (step: Step)
        requires
            old(self).wf(),
            rest.wf(),
        ensures
            final(self).wf(),
            step.wf(),
            (final(self)@, step@) == old(self)@.receive_then(rest@),
    {
        if self.in_bit_counts.len() == 0 {
            self.after_response(rest)
        } else {
            Step::Receive(Reading::new(vec![], 0, rest))
        }
    }

    /// Whether a command can be appended without sending the buffer first.
    fn has_room_for(&self, command: &Command) -> (room: bool)
        requires
            self.wf(),
            command.wf(),
        ensures
            room == self@.has_room_for(command@),
    {
        proof {
            self.ftdi.lemma_valid_bounds();
        }
        // 1 byte is reserved for the Send Immediate command.
        self.commands.len() < self.ftdi.buffer_size - (command.len() + 1)
    }

    /// Reads the response to what has been sent, if one is due.
    pub fn read_response(&mut self) -> (step: Step)
        requires
            old(self).wf(),
        ensures
            final(self).wf(),
            step.wf(),
            (final(self)@, step@) == old(self)@.read_response(),
    {
        self.receive_then_conclude(false)
    }

    /// Appends the gathered command, sends everything that waits to be sent, and reads the
    /// response.
    pub fn flush(&mut self) -> (step: Step)
        requires
            old(self).wf(),
        ensures
            final(self).wf(),
            step.wf(),
            (final(self)@, step@) == old(self)@.flush_and(false),
    {
        self.flush_and(false)
    }

    /// Flushes, and hands out the captured bits if `take` is set.
    fn flush_and(&mut self, take: bool) -> (step: Step)
        requires
            old(self).wf(),
        ensures
            final(self).wf(),
            step.wf(),
            (final(self)@, step@) == old(self)@.flush_and(take),
    {
        match self.command.take() {
            Some(command) => {
                assert(self@ == old(self)@.without_command());
                if self.has_room_for(&command) {
                    self.store(command);
                    self.flush_then_conclude(take)
                } else {
                    self.seal();
                    Step::Send(
                        Sending::new(
                            AfterSend::Receive { rest: Rest::StoreThenFlush { command, take } },
                        ),
                    )
                }
            },
            None => {
                assert(self@.command =~= old(self)@.command);
                self.flush_then_conclude(take)
            },
        }
    }

    /// Appends a command to the buffer. If there is no room for it, the buffer is sent and the
    /// response read first.
    pub fn append_command(&mut self, command: Command) -> (step: Step)
        requires
            old(self).wf(),
            command.wf(),
        ensures
            final(self).wf(),
            step.wf(),
            (final(self)@, step@) == old(self)@.append_command(command@),
    {
        if self.has_room_for(&command) {
            self.store(command);
            Step::Done
        } else {
            self.seal();
            Step::Send(Sending::new(AfterSend::Receive { rest: Rest::Store { command } }))
        }
    }

    /// Appends the gathered command to the buffer, unless it is empty.
    pub fn finalize_command(&mut self) -> (step: Step)
        requires
            old(self).wf(),
        ensures
            final(self).wf(),
            step.wf(),
            (final(self)@, step@) == old(self)@.finalize_command(),
    {
        match self.command.take() {
            Some(command) => {
                assert(self@ == old(self)@.without_command());
                self.append_command(command)
            },
            None => {
                assert(self@.command =~= old(self)@.command);
                Step::Done
            },
        }
    }

    /// Clocks one cycle with the given levels of TMS and TDI, and samples TDO if `capture` is
    /// set. The cycle is gathered with its neighbours, and reaches the device with the next
    /// [`JtagAdapter::flush`] at the latest.
    pub fn shift_bit(&mut self, tms: bool, tdi: bool, capture: bool) -> (step: Step)
        requires
            old(self).wf(),
        ensures
            final(self).wf(),
            step.wf(),
            (final(self)@, step@) == old(self)@.shift_bit(JtagBit { tms, tdi, capture }),
    {
        let complete = self.command.append_jtag_bit(tms, tdi, capture);
        proof {
            self.command.lemma_is_run();
            assert(self@ == (AdapterState { command: self.command@, ..old(self)@ }));
        }
        match complete {
            Some(command) => self.append_command(command),
            None => Step::Done,
        }
    }

    /// Sends everything that waits in the buffer, if there is anything.
    pub fn send_buffer(&mut self) -> (step: Step)
        requires
            old(self).wf(),
        ensures
            final(self).wf(),
            step.wf(),
            (final(self)@, step@) == old(self)@.send_buffer(),
    {
        if self.commands.len() == 0 {
            Step::Done
        } else {
            // Send Immediate: This will make the FTDI chip flush its buffer back to the PC.
            self.seal();
            Step::Send(Sending::new(AfterSend::Finish))
        }
    }

    /// Flushes, and hands out all bits that were captured since the last time.
    pub fn read_captured_bits(&mut self) -> (step: Step)
        requires
            old(self).wf(),
        ensures
            final(self).wf(),
            step.wf(),
            (final(self)@, step@) == old(self)@.flush_and(true),
    {
        self.flush_and(true)
    }

    /// Goes on with an operation once the buffer has been written to the device, or writing it
    /// has failed.
    pub fn sent(&mut self, sending: Sending, outcome: Result<(), std::io::Error>) -> (step: Step)
        requires
            old(self).wf(),
            sending.wf(),
        ensures
            final(self).wf(),
            step.wf(),
            (final(self)@, step@) == old(self)@.sent(sending@, outcome),
    {
        match outcome {
            Ok(_) => {
                self.commands.clear();
                assert(self@.commands =~= Seq::<u8>::empty());
                match sending.into_after() {
                    AfterSend::Finish => Step::Done,
                    AfterSend::Receive { rest } => self.receive_then(rest),
                }
            },
            Err(err) => Step::Failed(JtagProbeError::from(FtdiError::from(err))),
        }
    }

    /// Takes a complete response in.
    fn absorb(&mut self, reply: Vec<u8>)
        requires
            old(self).wf(),
            old(self)@.response_fits(),
            reply@.len() == old(self)@.in_bit_counts.len(),
        ensures
            final(self).wf(),
            final(self)@ == old(self)@.absorb(reply@),
    {
        let ghost counts = self.in_bit_counts@;
        for i in 0..reply.len()
            invariant
                self.command == old(self).command,
                self.commands == old(self).commands,
                self.in_bit_counts == old(self).in_bit_counts,
                self.ftdi == old(self).ftdi,
                self.speed_khz == old(self).speed_khz,
                self.vendor_id == old(self).vendor_id,
                self.product_id == old(self).product_id,
                self.product_string == old(self).product_string,
                old(self).wf(),
                old(self)@.response_fits(),
                counts == old(self).in_bit_counts@,
                reply@.len() == counts.len(),
                self.in_bits@ == old(self).in_bits@ + response_bits(
                    reply@,
                    counts.take(i as int),
                ),
                self.in_bits@.len() == old(self).in_bits@.len() + total_bits(counts.take(i as int)),
        {
            let byte: u8 = reply[i];
            let count: usize = self.in_bit_counts[i];
            proof {
                assert(1 <= old(self)@.in_bit_counts[i as int] <= 8);
                assert(counts.take(i + 1).drop_last() =~= counts.take(i as int));
                lemma_total_bits_prefix(counts, i + 1);
                lemma_reply_bits(byte, count);
            }
            let bits: u8 = byte >> (8 - count);
            self.in_bits.extend_from_byte(bits, count);
            assert(self.in_bits@ =~= old(self).in_bits@ + response_bits(
                reply@,
                counts.take(i + 1),
            ));
        }
        self.in_bit_counts.clear();
        assert(counts.take(counts.len() as int) =~= counts);
        assert(self@.in_bit_counts =~= Seq::<usize>::empty());
    }

    /// Goes on with an operation once the device has been read from, or reading has failed.
    ///
    /// `outcome` holds what has arrived, possibly nothing. The times are in nanoseconds since the
    /// reading began: `read_at` is when the device was read from, `checked_at` is now.
    pub fn received(
        &mut self,
        reading: Reading,
        outcome: Result<Vec<u8>, std::io::Error>,
        read_at: u128,
        checked_at: u128,
    ) -> (step: Step)
        requires
            old(self).wf(),
            reading.wf(),
            outcome matches Ok(data) ==> old(self)@.completes(
                reading@,
                data@,
                read_at,
                checked_at,
            ) ==> old(self)@.response_fits(),
        ensures
            final(self).wf(),
            step.wf(),
            (final(self)@, step@) == old(self)@.received(
                reading@,
                data_of(outcome),
                read_at,
                checked_at,
            ),
    {
        let mut data = match outcome {
            Ok(data) => data,
            Err(err) => return Step::Failed(JtagProbeError::from(FtdiError::from(err))),
        };
        let (mut reply, mut last_data, rest) = reading.into_parts();
        if data.len() > 0 {
            last_data = read_at;
        }
        reply.append(&mut data);
        if checked_at > last_data && checked_at - last_data > RESPONSE_TIMEOUT {
            return Step::Failed(JtagProbeError::Timeout);
        }
        if reply.len() < self.in_bit_counts.len() {
            return Step::Receive(Reading::new(reply, last_data, rest));
        }
        if reply.len() != self.in_bit_counts.len() {
            return Step::Failed(
                JtagProbeError::Other(overrun_message(self.in_bit_counts.len(), reply.len())),
            );
        }
        self.absorb(reply);
        self.after_response(rest)
    }
}

} // verus!
