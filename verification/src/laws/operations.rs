//! What each operation does with the buffer, the response and the captured bits, and what it
//! leaves alone.

use crate::command_compacter::{encoding, is_run, reply_lengths, JtagBit};
use crate::error::ProbeFailure;
use crate::laws::encoding::{
    law_command_bit_by_bit, law_cycles_join_whenever_they_can, one_command_clocks,
};
use crate::laws::exchange::{lemma_response_bits_len, lemma_store};
use crate::state::{
    overrun_text, response_bits, AdapterState, AfterSend, ReadingState, Rest, StepState,
};
use crate::stream::clocked;
use vstd::prelude::*;

verus! {

/// Whether two states are of the same device, at the same speed.
pub open spec fn same_device(a: AdapterState, b: AdapterState) -> bool {
    &&& a.vendor_id == b.vendor_id
    &&& a.product_id == b.product_id
    &&& a.product == b.product
    &&& a.speed_khz == b.speed_khz
    &&& a.ftdi == b.ftdi
}

/// The captured bits, whether they have just been handed out or not.
pub open spec fn captured_at(state: AdapterState, step: StepState) -> Seq<bool> {
    match step {
        StepState::Captured(bits) => bits + state.in_bits,
        _ => state.in_bits,
    }
}

/// Whether an operation keeps to the same device and to the bits that have been captured.
pub open spec fn keeps_device_and_bits(
    state: AdapterState,
    next: (AdapterState, StepState),
) -> bool {
    &&& same_device(state, next.0)
    &&& captured_at(next.0, next.1) == state.in_bits
}

/// Starting an operation changes neither what is known of the device nor its speed, and loses no
/// bit that has been captured.
pub proof fn law_operations_keep_device_and_bits(
    state: AdapterState,
    next: JtagBit,
    command: Seq<JtagBit>,
    take: bool,
)
    ensures
        keeps_device_and_bits(state, state.shift_bit(next)),
        keeps_device_and_bits(state, state.append_command(command)),
        keeps_device_and_bits(state, state.finalize_command()),
        keeps_device_and_bits(state, state.send_buffer()),
        keeps_device_and_bits(state, state.read_response()),
        keeps_device_and_bits(state, state.flush_and(take)),
{
    let (after, step) = state.flush_and(take);
    assert(captured_at(after, step) =~= state.in_bits);
}

/// What is known of the device, its speed and the captured bits stay as they are once the device has
/// taken the buffer, or has failed to.
pub proof fn law_sent_keeps_device_and_bits(
    state: AdapterState,
    after_send: AfterSend<Seq<JtagBit>>,
    outcome: Result<(), std::io::Error>,
)
    ensures
        keeps_device_and_bits(state, state.sent(after_send, outcome)),
{
    let (after, step) = state.sent(after_send, outcome);
    assert(captured_at(after, step) =~= state.in_bits);
}

/// Appending a command touches the device only if the buffer, with the command and Send Immediate
/// added, would not be smaller than what the device can take. Else the command is put behind what
/// is in the buffer, the reply to it is expected last, and nothing else changes. Where there is no
/// room, the buffer is closed off with Send Immediate to be sent as it is, and the command waits.
pub proof fn law_append_command_fills_the_buffer(state: AdapterState, command: Seq<JtagBit>)
    requires
        state.valid(),
        is_run(command),
    ensures
        ({
            let (after, step) = state.append_command(command);
            let len = if command.len() == 0 {
                0int
            } else {
                3
            };
            let reply = if command.len() > 0 && command[0].capture {
                seq![command.len() as usize]
            } else {
                seq![]
            };
            if state.commands.len() + len + 1 < state.ftdi.buffer_size {
                &&& step is Done
                &&& after.commands.len() == state.commands.len() + len
                &&& after.commands.take(state.commands.len() as int) == state.commands
                &&& clocked(after.commands) == clocked(state.commands) + command
                &&& after == AdapterState {
                    commands: after.commands,
                    in_bit_counts: state.in_bit_counts + reply,
                    ..state
                }
            } else {
                &&& step == StepState::Send(AfterSend::Receive { rest: Rest::Store { command } })
                &&& after == AdapterState { commands: state.commands.push(0x87), ..state }
            }
        }),
{
    let (after, step) = state.append_command(command);
    law_command_bit_by_bit(command);
    lemma_store(state, command);
    assert(reply_lengths(command) =~= if command.len() > 0 && command[0].capture {
        seq![command.len() as usize]
    } else {
        seq![]
    });
    assert((state.commands + encoding(command)).take(state.commands.len() as int)
        =~= state.commands);
}

/// Finalizing does nothing if nothing has been gathered, else it is appending what has been.
pub proof fn law_finalize_appends_what_was_gathered(state: AdapterState)
    ensures
        state.command.len() == 0 ==> state.finalize_command() == (state, StepState::Done),
        state.command.len() > 0 ==> state.finalize_command() == (AdapterState {
            command: seq![],
            ..state
        }).append_command(state.command),
{
}

/// Shifting a bit is gathering it and nothing else for as long as one command can clock all that
/// is gathered. Else it is appending what was gathered, and starting over with the bit.
pub proof fn law_shift_bit_gathers(state: AdapterState, next: JtagBit)
    requires
        state.valid(),
    ensures
        one_command_clocks(state.command.push(next)) ==> state.shift_bit(next) == (
            AdapterState { command: state.command.push(next), ..state },
            StepState::Done,
        ),
        !one_command_clocks(state.command.push(next)) ==> state.shift_bit(next) == (AdapterState {
            command: seq![next],
            ..state
        }).append_command(state.command),
{
    law_cycles_join_whenever_they_can(state.command, next);
}

/// Sending does nothing if the buffer is empty. Else the buffer is to be sent, closed off with
/// Send Immediate, and nothing else changes; and once the device has taken it, it is empty.
pub proof fn law_send_buffer_sends_it_all(state: AdapterState)
    ensures
        state.commands.len() == 0 ==> state.send_buffer() == (state, StepState::Done),
        state.commands.len() > 0 ==> state.send_buffer() == (
            AdapterState { commands: state.commands.push(0x87), ..state },
            StepState::Send(AfterSend::Finish),
        ),
        state.sent(AfterSend::Finish, Ok(())) == (
            AdapterState { commands: seq![], ..state },
            StepState::Done,
        ),
{
}

/// Reading a response does nothing if none is due. Else it starts with nothing read, and with the
/// clock at zero, and nothing changes.
pub proof fn law_read_response_starts_afresh(state: AdapterState)
    ensures
        state.in_bit_counts.len() == 0 ==> state.read_response() == (state, StepState::Done),
        state.in_bit_counts.len() > 0 ==> state.read_response() == (
            state,
            StepState::Receive(
                ReadingState { reply: seq![], last_data: 0, rest: Rest::Conclude { take: false } },
            ),
        ),
{
}

/// Once the device has taken the buffer, the buffer is empty, and if a response is due, reading it
/// starts with nothing read, and with the clock at zero.
pub proof fn law_sent_starts_reading_afresh(state: AdapterState, rest: Rest<Seq<JtagBit>>)
    requires
        state.in_bit_counts.len() > 0,
    ensures
        state.sent(AfterSend::Receive { rest }, Ok(())) == (
            AdapterState { commands: seq![], ..state },
            StepState::Receive(ReadingState { reply: seq![], last_data: 0, rest }),
        ),
{
}

/// Whether the buffer ends with Send Immediate, if it is to be sent.
pub open spec fn closed_off(next: (AdapterState, StepState)) -> bool {
    next.1 is Send ==> next.0.commands.len() > 0 && next.0.commands.last() == 0x87
}

/// Whenever a buffer is to be sent, it ends with Send Immediate, so that the chip does not sit on
/// its reply.
pub proof fn law_buffers_are_closed_off(
    state: AdapterState,
    next: JtagBit,
    command: Seq<JtagBit>,
    take: bool,
)
    ensures
        closed_off(state.shift_bit(next)),
        closed_off(state.append_command(command)),
        closed_off(state.finalize_command()),
        closed_off(state.send_buffer()),
        closed_off(state.flush_and(take)),
{
}

/// A buffer that is to be sent once another one has been, or once a response has been read, ends with
/// Send Immediate too.
pub proof fn law_later_buffers_are_closed_off(
    state: AdapterState,
    after_send: AfterSend<Seq<JtagBit>>,
    sent: Result<(), std::io::Error>,
    reading: ReadingState,
    read: Result<Seq<u8>, std::io::Error>,
    read_at: u128,
    checked_at: u128,
)
    ensures
        closed_off(state.sent(after_send, sent)),
        closed_off(state.received(reading, read, read_at, checked_at)),
{
}

/// If the device fails, the operation fails with the device's error, and nothing is lost: what was
/// to be sent is still there, and what was due is still due.
pub proof fn law_device_failure_changes_nothing(
    state: AdapterState,
    after_send: AfterSend<Seq<JtagBit>>,
    reading: ReadingState,
    err: std::io::Error,
    read_at: u128,
    checked_at: u128,
)
    ensures
        state.sent(after_send, Err(err)) == (state, StepState::Failed(ProbeFailure::Usb(err))),
        state.received(reading, Err(err), read_at, checked_at) == (
            state,
            StepState::Failed(ProbeFailure::Usb(err)),
        ),
{
}

/// A read is too late if the device has then been silent for more than ten milliseconds, where the
/// read itself breaks the silence if it brings anything. That is a timeout, even if the response
/// is complete. Else a response that is too short is read on, one that is too long is an error
/// that tells both lengths, and one that is complete is taken in. Nothing is changed by a response
/// that is not complete.
pub proof fn law_received_by_length_and_time(
    state: AdapterState,
    reading: ReadingState,
    data: Seq<u8>,
    read_at: u128,
    checked_at: u128,
)
    ensures
        ({
            let (after, step) = state.received(reading, Ok(data), read_at, checked_at);
            let reply = reading.reply + data;
            let heard = if data.len() > 0 {
                read_at
            } else {
                reading.last_data
            };
            if checked_at - heard > 10_000_000 {
                step == StepState::Failed(ProbeFailure::Timeout) && after == state
            } else if reply.len() < state.in_bit_counts.len() {
                &&& step == StepState::Receive(
                    ReadingState { reply, last_data: heard, rest: reading.rest },
                )
                &&& after == state
            } else if reply.len() > state.in_bit_counts.len() {
                &&& step == StepState::Failed(
                    ProbeFailure::Other(overrun_text(state.in_bit_counts.len(), reply.len())),
                )
                &&& after == state
            } else {
                &&& !(step is Failed)
                &&& !(step is Receive)
                &&& same_device(state, after)
                &&& captured_at(after, step) == state.in_bits + response_bits(
                    reply,
                    state.in_bit_counts,
                )
            }
        }),
{
    let (after, step) = state.received(reading, Ok(data), read_at, checked_at);
    let reply = reading.reply + data;
    if state.completes(reading, data, read_at, checked_at) {
        assert(captured_at(after, step) =~= state.in_bits + response_bits(
            reply,
            state.in_bit_counts,
        ));
    }
}

/// That a read completes the response is just that the operation neither fails nor has to read on.
pub proof fn law_completing_is_foreseen(
    state: AdapterState,
    reading: ReadingState,
    data: Seq<u8>,
    read_at: u128,
    checked_at: u128,
)
    ensures
        ({
            let step = state.received(reading, Ok(data), read_at, checked_at).1;
            state.completes(reading, data, read_at, checked_at) <==> !(step is Failed) && !(
            step is Receive)
        }),
{
    law_received_by_length_and_time(state, reading, data, read_at, checked_at);
}

/// The response that is due fits if the captured bits, with any response of that kind taken in,
/// are not more than a bit vector can hold.
pub proof fn law_response_that_fits_can_be_taken_in(state: AdapterState, reply: Seq<u8>)
    ensures
        state.response_fits() <==> state.absorb(reply).in_bits.len() <= usize::MAX as int / 8,
{
    lemma_response_bits_len(reply, state.in_bit_counts);
}

/// Whether an operation hands out the captured bits, or is going to.
pub open spec fn hands_out(step: StepState) -> bool {
    match step {
        StepState::Captured(_) => true,
        StepState::Send(AfterSend::Receive { rest }) => takes(rest),
        StepState::Receive(reading) => takes(reading.rest),
        _ => false,
    }
}

/// Whether what is left once a response has been read includes handing out the captured bits.
pub open spec fn takes(rest: Rest<Seq<JtagBit>>) -> bool {
    match rest {
        Rest::Conclude { take } => take,
        Rest::Store { .. } => false,
        Rest::StoreThenFlush { take, .. } => take,
    }
}

/// Captured bits are handed out by the operation that is for that, and by no other, and then none
/// is kept.
pub proof fn law_bits_are_handed_out_on_request(
    state: AdapterState,
    next: JtagBit,
    command: Seq<JtagBit>,
    take: bool,
)
    ensures
        !hands_out(state.shift_bit(next).1),
        !hands_out(state.append_command(command).1),
        !hands_out(state.finalize_command().1),
        !hands_out(state.send_buffer().1),
        !hands_out(state.read_response().1),
        hands_out(state.flush_and(take).1) == take,
        state.flush_and(take).1 is Captured ==> state.flush_and(take).0.in_bits.len() == 0,
{
}

/// Whether bits are to be handed out does not change while the device does its part, unless the
/// operation fails, and when they are, none is kept.
pub proof fn law_request_for_bits_stands(
    state: AdapterState,
    after_send: AfterSend<Seq<JtagBit>>,
    reading: ReadingState,
    data: Seq<u8>,
    read_at: u128,
    checked_at: u128,
)
    ensures
        ({
            let (after, step) = state.sent(after_send, Ok(()));
            &&& !(step is Failed)
            &&& hands_out(step) == hands_out(StepState::Send(after_send))
            &&& step is Captured ==> after.in_bits.len() == 0
        }),
        ({
            let (after, step) = state.received(reading, Ok(data), read_at, checked_at);
            &&& step is Failed || hands_out(step) == takes(reading.rest)
            &&& step is Captured ==> after.in_bits.len() == 0
        }),
{
}

} // verus!
