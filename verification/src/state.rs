//! The adapter as a state machine.
//!
//! Talking to the device takes turns: the adapter decides what to do, the device does it, and the
//! adapter goes on from the outcome. This module says what each decision is, over mathematical
//! values; [`crate::JtagAdapter`] carries the decisions out.

use crate::captured_bits::max_bits;
use crate::command_compacter::{
    bit, encoding, is_run, joins, reply_lengths, JtagBit, SEND_IMMEDIATE,
};
use crate::error::ProbeFailure;
use crate::properties::FtdiProperties;
use crate::stream::is_stream;
use crate::text::decimal;
use vstd::prelude::*;

verus! {

/// How long the device may stay silent while a response is due, in nanoseconds.
pub const RESPONSE_TIMEOUT: u128 = 10_000_000;

/// What is left of an operation once the response has been read. `C` stands for a command.
#[derive(Debug)]
pub enum Rest<C> {
    /// Nothing, but for handing out the captured bits if `take` is set.
    Conclude { take: bool },
    /// Append a command that there was no room for.
    Store { command: C },
    /// Append a command that there was no room for, flush, and conclude.
    StoreThenFlush { command: C, take: bool },
}

/// What is left of an operation once the buffer has been sent.
#[derive(Debug)]
pub enum AfterSend<C> {
    /// Nothing.
    Finish,
    /// Read the response, and what is left then.
    Receive { rest: Rest<C> },
}

/// A response that is being read.
pub struct ReadingState {
    /// What has arrived so far.
    pub reply: Seq<u8>,
    /// When something last arrived, in nanoseconds since the reading began.
    pub last_data: u128,
    /// What is left once the response is complete.
    pub rest: Rest<Seq<JtagBit>>,
}

/// Where an operation stands.
pub enum StepState {
    /// It has succeeded.
    Done,
    /// It has succeeded, and these are the captured bits.
    Captured(Seq<bool>),
    /// It has failed.
    Failed(ProbeFailure),
    /// The buffer has to be written to the device.
    Send(AfterSend<Seq<JtagBit>>),
    /// More of the response has to be read from the device.
    Receive(ReadingState),
}

/// The bits of one byte of a response: the MPSSE shifts what it samples in from the top, so the
/// `count` bits sit at the high end, the oldest one lowest.
pub open spec fn reply_bits(byte: u8, count: usize) -> Seq<bool> {
    Seq::new(count as nat, |j: int| bit(byte, 8 - count + j))
}

/// The bits of a response whose bytes hold as many bits as `counts` says.
pub open spec fn response_bits(reply: Seq<u8>, counts: Seq<usize>) -> Seq<bool>
    decreases counts.len(),
{
    if counts.len() == 0 {
        seq![]
    } else {
        response_bits(reply, counts.drop_last()) + reply_bits(
            reply[counts.len() - 1],
            counts.last(),
        )
    }
}

/// The number of bits in a response whose bytes hold as many bits as `counts` says.
pub open spec fn total_bits(counts: Seq<usize>) -> int
    decreases counts.len(),
{
    if counts.len() == 0 {
        0
    } else {
        total_bits(counts.drop_last()) + counts.last()
    }
}

/// The text of the error for a response that is too long.
pub open spec fn overrun_text(expected: nat, got: nat) -> Seq<char> {
    "Read more data than expected. Expected "@ + decimal(expected) + " bytes, got "@ + decimal(got)
        + " bytes"@
}

/// The state of a JTAG adapter.
pub struct AdapterState {
    /// The USB vendor ID of the device.
    pub vendor_id: u16,
    /// The USB product ID of the device.
    pub product_id: u16,
    /// The USB product string of the device, where it has one.
    pub product: Option<Seq<char>>,
    /// The clock speed in kHz.
    pub speed_khz: u32,
    /// The clock cycles that are being gathered into a command.
    pub command: Seq<JtagBit>,
    /// The bytes that wait to be sent.
    pub commands: Seq<u8>,
    /// For every byte of the response that is due, how many bits it holds.
    pub in_bit_counts: Seq<usize>,
    /// The bits captured so far.
    pub in_bits: Seq<bool>,
    /// What the chip can do.
    pub ftdi: FtdiProperties,
}

impl AdapterState {
    /// The adapter on a device that has just been opened.
    pub open spec fn opened(
        vendor_id: u16,
        product_id: u16,
        product: Option<Seq<char>>,
        ftdi: FtdiProperties,
    ) -> AdapterState {
        AdapterState {
            vendor_id,
            product_id,
            product,
            speed_khz: 1000,
            command: seq![],
            commands: seq![],
            in_bit_counts: seq![],
            in_bits: seq![],
            ftdi,
        }
    }

    /// What holds of every adapter.
    pub open spec fn valid(self) -> bool {
        &&& self.ftdi.valid()
        &&& is_run(self.command)
        &&& is_stream(self.commands)
        &&& forall|i: int|
            0 <= i < self.in_bit_counts.len() ==> 1 <= #[trigger] self.in_bit_counts[i] <= 8
    }

    /// Whether the bits of the response that is due still fit into the bit vector.
    pub open spec fn response_fits(self) -> bool {
        self.in_bits.len() + total_bits(self.in_bit_counts) <= max_bits()
    }

    /// Whether a command can be appended without sending the buffer first. One byte is reserved
    /// for Send Immediate.
    pub open spec fn has_room_for(self, command: Seq<JtagBit>) -> bool {
        self.commands.len() + encoding(command).len() + 1 < self.ftdi.buffer_size
    }

    /// A command is appended.
    pub open spec fn store(self, command: Seq<JtagBit>) -> AdapterState {
        AdapterState {
            commands: self.commands + encoding(command),
            in_bit_counts: self.in_bit_counts + reply_lengths(command),
            ..self
        }
    }

    /// The buffer is closed off with Send Immediate.
    pub open spec fn seal(self) -> AdapterState {
        AdapterState { commands: self.commands.push(SEND_IMMEDIATE), ..self }
    }

    /// The operation ends, handing out the captured bits if `take` is set.
    pub open spec fn conclude(self, take: bool) -> (AdapterState, StepState) {
        if take {
            (AdapterState { in_bits: seq![], ..self }, StepState::Captured(self.in_bits))
        } else {
            (self, StepState::Done)
        }
    }

    /// The response is read, if one is due, and the operation ends.
    pub open spec fn receive_then_conclude(self, take: bool) -> (AdapterState, StepState) {
        if self.in_bit_counts.len() == 0 {
            self.conclude(take)
        } else {
            (self, start_reading(Rest::Conclude { take }))
        }
    }

    /// The buffer is sent, if there is anything in it, the response is read, and the operation
    /// ends.
    pub open spec fn flush_then_conclude(self, take: bool) -> (AdapterState, StepState) {
        if self.commands.len() == 0 {
            self.receive_then_conclude(take)
        } else {
            (
                self.seal(),
                StepState::Send(AfterSend::Receive { rest: Rest::Conclude { take } }),
            )
        }
    }

    /// The operation goes on once the response has been read.
    pub open spec fn after_response(self, rest: Rest<Seq<JtagBit>>) -> (AdapterState, StepState) {
        match rest {
            Rest::Conclude { take } => self.conclude(take),
            Rest::Store { command } => (self.store(command), StepState::Done),
            Rest::StoreThenFlush { command, take } => self.store(command).flush_then_conclude(take),
        }
    }

    /// The response is read, if one is due, and the operation goes on.
    pub open spec fn receive_then(self, rest: Rest<Seq<JtagBit>>) -> (AdapterState, StepState) {
        if self.in_bit_counts.len() == 0 {
            self.after_response(rest)
        } else {
            (self, start_reading(rest))
        }
    }

    /// Reading a response: nothing to do if none is due.
    pub open spec fn read_response(self) -> (AdapterState, StepState) {
        self.receive_then_conclude(false)
    }

    /// Sending the buffer: nothing to do if it is empty.
    pub open spec fn send_buffer(self) -> (AdapterState, StepState) {
        if self.commands.len() == 0 {
            (self, StepState::Done)
        } else {
            (self.seal(), StepState::Send(AfterSend::Finish))
        }
    }

    /// Appending a command: if there is no room for it, the buffer is sent and the response read
    /// before that.
    pub open spec fn append_command(self, command: Seq<JtagBit>) -> (AdapterState, StepState) {
        if self.has_room_for(command) {
            (self.store(command), StepState::Done)
        } else {
            (
                self.seal(),
                StepState::Send(AfterSend::Receive { rest: Rest::Store { command } }),
            )
        }
    }

    /// The state without the command that is being gathered.
    pub open spec fn without_command(self) -> AdapterState {
        AdapterState { command: seq![], ..self }
    }

    /// Finalizing the command that is being gathered: it is appended, unless it is empty.
    pub open spec fn finalize_command(self) -> (AdapterState, StepState) {
        if self.command.len() == 0 {
            (self, StepState::Done)
        } else {
            self.without_command().append_command(self.command)
        }
    }

    /// Shifting one bit: it joins the command that is being gathered, or that one is appended
    /// and the bit starts the next.
    pub open spec fn shift_bit(self, next: JtagBit) -> (AdapterState, StepState) {
        if joins(self.command, next) {
            (AdapterState { command: self.command.push(next), ..self }, StepState::Done)
        } else {
            AdapterState { command: seq![next], ..self }.append_command(self.command)
        }
    }

    /// Finalizing the command, sending the buffer and reading the response. With `take`, the
    /// captured bits are handed out at the end.
    pub open spec fn flush_and(self, take: bool) -> (AdapterState, StepState) {
        if self.command.len() == 0 {
            self.flush_then_conclude(take)
        } else if self.has_room_for(self.command) {
            self.without_command().store(self.command).flush_then_conclude(take)
        } else {
            (
                self.without_command().seal(),
                StepState::Send(
                    AfterSend::Receive {
                        rest: Rest::StoreThenFlush { command: self.command, take },
                    },
                ),
            )
        }
    }

    /// The operation goes on once the device has taken the buffer, or has failed to.
    pub open spec fn sent(
        self,
        after: AfterSend<Seq<JtagBit>>,
        outcome: Result<(), std::io::Error>,
    ) -> (AdapterState, StepState) {
        match outcome {
            Ok(_) => {
                let emptied = AdapterState { commands: seq![], ..self };
                match after {
                    AfterSend::Finish => (emptied, StepState::Done),
                    AfterSend::Receive { rest } => emptied.receive_then(rest),
                }
            },
            Err(err) => (self, StepState::Failed(ProbeFailure::Usb(err))),
        }
    }

    /// A complete response is taken in.
    pub open spec fn absorb(self, reply: Seq<u8>) -> AdapterState {
        AdapterState {
            in_bits: self.in_bits + response_bits(reply, self.in_bit_counts),
            in_bit_counts: seq![],
            ..self
        }
    }

    /// The operation goes on once the device has been read from, or has failed to be. `read_at`
    /// is when that happened, `checked_at` is when the adapter looks at the clock.
    pub open spec fn received(
        self,
        reading: ReadingState,
        outcome: Result<Seq<u8>, std::io::Error>,
        read_at: u128,
        checked_at: u128,
    ) -> (AdapterState, StepState) {
        match outcome {
            Err(err) => (self, StepState::Failed(ProbeFailure::Usb(err))),
            Ok(data) => {
                let reply = reading.reply + data;
                let last_data = reading.heard(data, read_at);
                if checked_at - last_data > RESPONSE_TIMEOUT {
                    (self, StepState::Failed(ProbeFailure::Timeout))
                } else if reply.len() < self.in_bit_counts.len() {
                    (
                        self,
                        StepState::Receive(ReadingState { reply, last_data, rest: reading.rest }),
                    )
                } else if reply.len() > self.in_bit_counts.len() {
                    (
                        self,
                        StepState::Failed(
                            ProbeFailure::Other(
                                overrun_text(self.in_bit_counts.len(), reply.len()),
                            ),
                        ),
                    )
                } else {
                    self.absorb(reply).after_response(reading.rest)
                }
            },
        }
    }

    /// Whether what has now been read completes the response in time.
    pub open spec fn completes(
        self,
        reading: ReadingState,
        data: Seq<u8>,
        read_at: u128,
        checked_at: u128,
    ) -> bool {
        &&& checked_at - reading.heard(data, read_at) <= RESPONSE_TIMEOUT
        &&& reading.reply.len() + data.len() == self.in_bit_counts.len()
    }
}

impl ReadingState {
    /// When something last arrived, given what a read at `read_at` brought.
    pub open spec fn heard(self, data: Seq<u8>, read_at: u128) -> u128 {
        if data.len() > 0 {
            read_at
        } else {
            self.last_data
        }
    }
}

/// A response of which nothing has been read yet.
pub open spec fn start_reading(rest: Rest<Seq<JtagBit>>) -> StepState {
    StepState::Receive(ReadingState { reply: seq![], last_data: 0, rest })
}

} // verus!
