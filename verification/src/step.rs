//! What an operation of the adapter asks of its caller.

use crate::captured_bits::CapturedBits;
use crate::command_compacter::{Command, JtagBit};
use crate::error::JtagProbeError;
use crate::state::{AfterSend, ReadingState, Rest, StepState};
use vstd::prelude::*;

verus! {

/// Where an operation of the adapter stands.
#[derive(Debug)]
pub enum Step {
    /// The operation has succeeded.
    Done,
    /// The operation has succeeded, and these are the captured bits.
    Captured(CapturedBits),
    /// The operation has failed.
    Failed(JtagProbeError),
    /// Write all of [`crate::JtagAdapter::outgoing`] to the device, then go on with
    /// [`crate::JtagAdapter::sent`].
    Send(Sending),
    /// Read what the device has, then go on with [`crate::JtagAdapter::received`].
    Receive(Reading),
}

/// An operation that waits for the buffer to be written.
#[derive(Debug)]
pub struct Sending {
    pub(crate) after: AfterSend<Command>,
}

/// An operation that waits for a response.
#[derive(Debug)]
pub struct Reading {
    pub(crate) reply: Vec<u8>,
    pub(crate) last_data: u128,
    pub(crate) rest: Rest<Command>,
}

impl View for Rest<Command> {
    type V = Rest<Seq<JtagBit>>;

    open spec fn view(&self) -> Rest<Seq<JtagBit>> {
        match *self {
            Rest::Conclude { take } => Rest::Conclude { take },
            Rest::Store { command } => Rest::Store { command: command@ },
            Rest::StoreThenFlush { command, take } => Rest::StoreThenFlush {
                command: command@,
                take,
            },
        }
    }
}

impl Rest<Command> {
    /// The command in it is well-formed.
    pub open spec fn wf(&self) -> bool {
        match *self {
            Rest::Conclude { .. } => true,
            Rest::Store { command } => command.wf(),
            Rest::StoreThenFlush { command, .. } => command.wf(),
        }
    }
}

impl View for Sending {
    type V = AfterSend<Seq<JtagBit>>;

    closed spec fn view(&self) -> AfterSend<Seq<JtagBit>> {
        match self.after {
            AfterSend::Finish => AfterSend::Finish,
            AfterSend::Receive { rest } => AfterSend::Receive { rest: rest@ },
        }
    }
}

impl Sending {
    /// The command in it is well-formed.
    pub closed spec fn wf(&self) -> bool {
        self.after matches AfterSend::Receive { rest } ==> rest.wf()
    }

    /// The operation that does `after` once the buffer has been written.
    pub(crate) fn new(after: AfterSend<Command>) -> (sending: Self)
        requires
            after matches AfterSend::Receive { rest } ==> rest.wf(),
        ensures
            sending.wf(),
            sending@ == (match after {
                AfterSend::Finish => AfterSend::Finish,
                AfterSend::Receive { rest } => AfterSend::Receive { rest: rest@ },
            }),
    {
        Sending { after }
    }

    /// What is to be done once the buffer has been written.
    pub(crate) fn into_after(self) -> (after: AfterSend<Command>)
        requires
            self.wf(),
        ensures
            after matches AfterSend::Receive { rest } ==> rest.wf(),
            self@ == (match after {
                AfterSend::Finish => AfterSend::Finish,
                AfterSend::Receive { rest } => AfterSend::Receive { rest: rest@ },
            }),
    {
        self.after
    }
}

impl View for Reading {
    type V = ReadingState;

    closed spec fn view(&self) -> ReadingState {
        ReadingState { reply: self.reply@, last_data: self.last_data, rest: self.rest@ }
    }
}

impl Reading {
    /// The command in it is well-formed.
    pub closed spec fn wf(&self) -> bool {
        self.rest.wf()
    }

    /// The operation that has read `reply`, and does `rest` once that is complete.
    pub(crate) fn new(reply: Vec<u8>, last_data: u128, rest: Rest<Command>) -> (reading: Self)
        requires
            rest.wf(),
        ensures
            reading.wf(),
            reading@ == (ReadingState { reply: reply@, last_data, rest: rest@ }),
    {
        Reading { reply, last_data, rest }
    }

    /// The number of bytes that have been read.
    pub fn len(&self) -> (len: usize)
        ensures
            len == self@.reply.len(),
    {
        self.reply.len()
    }

    /// When something last arrived.
    pub(crate) fn last_data(&self) -> (last_data: u128)
        ensures
            last_data == self@.last_data,
    {
        self.last_data
    }

    /// What has been read, when something last arrived, and what is to be done in the end.
    pub(crate) fn into_parts(self) -> (parts: (Vec<u8>, u128, Rest<Command>))
        requires
            self.wf(),
        ensures
            parts.2.wf(),
            self@ == (ReadingState { reply: parts.0@, last_data: parts.1, rest: parts.2@ }),
    {
        (self.reply, self.last_data, self.rest)
    }
}

impl View for Step {
    type V = StepState;

    open spec fn view(&self) -> StepState {
        match *self {
            Step::Done => StepState::Done,
            Step::Captured(bits) => StepState::Captured(bits@),
            Step::Failed(err) => StepState::Failed(err@),
            Step::Send(sending) => StepState::Send(sending@),
            Step::Receive(reading) => StepState::Receive(reading@),
        }
    }
}

impl Step {
    /// The command that the step carries along is well-formed.
    pub open spec fn wf(&self) -> bool {
        match *self {
            Step::Send(sending) => sending.wf(),
            Step::Receive(reading) => reading.wf(),
            _ => true,
        }
    }
}

} // verus!
