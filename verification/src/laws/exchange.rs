//! The exchange with the device: no cycle is lost, no batch is too large, and the adapter knows
//! what is due.

use crate::command_compacter::{
    encoding, is_run, joins, reply_lengths, JtagBit, CLOCK_TMS_CAPTURE, SEND_IMMEDIATE,
};
use crate::state::{
    response_bits, start_reading, total_bits, AdapterState, AfterSend, ReadingState, Rest, StepState,
    RESPONSE_TIMEOUT,
};
use crate::stream::{
    clocked, clocked_by, is_stream, lemma_concat, lemma_encoding, lemma_send_immediate, replies,
};
use vstd::prelude::*;

verus! {

/// The cycles of a command that an operation carries along, to be appended later.
pub open spec fn carried(step: StepState) -> Seq<JtagBit> {
    match step {
        StepState::Send(AfterSend::Receive { rest }) => carried_by(rest),
        StepState::Receive(reading) => carried_by(reading.rest),
        _ => seq![],
    }
}

/// The cycles of a command that is to be appended once a response has been read.
pub open spec fn carried_by(rest: Rest<Seq<JtagBit>>) -> Seq<JtagBit> {
    match rest {
        Rest::Conclude { .. } => seq![],
        Rest::Store { command } => command,
        Rest::StoreThenFlush { command, .. } => command,
    }
}

/// Whether what an operation carries along is a command.
pub open spec fn carries_run(step: StepState) -> bool {
    is_run(carried(step))
}

/// The cycles that have been shifted and not yet been written to the device, oldest first: those
/// in the buffer, then those that an operation carries along, then those being gathered.
pub open spec fn outstanding(state: AdapterState, step: StepState) -> Seq<JtagBit> {
    clocked(state.commands) + carried(step) + state.command
}

/// Appending a command appends its cycles to those in the buffer.
pub(crate) proof fn lemma_store(state: AdapterState, command: Seq<JtagBit>)
    requires
        state.valid(),
        is_run(command),
    ensures
        is_stream(state.store(command).commands),
        clocked(state.store(command).commands) == clocked(state.commands) + command,
        replies(state.store(command).commands) == replies(state.commands) + reply_lengths(command),
{
    lemma_encoding(command);
    lemma_concat(state.commands, encoding(command));
}

/// Ending an operation, possibly with a flush, keeps every cycle in its place.
proof fn lemma_flush_then_conclude_keeps_order(state: AdapterState, take: bool)
    requires
        is_stream(state.commands),
    ensures
        ({
            let (after, step) = state.flush_then_conclude(take);
            &&& outstanding(after, step) == clocked(state.commands) + state.command
            &&& carries_run(step)
        }),
{
    let (after, step) = state.flush_then_conclude(take);
    lemma_send_immediate(state.commands);
    assert(outstanding(after, step) =~= clocked(state.commands) + state.command);
}

/// Shifting a bit puts it behind all the cycles that are outstanding, and changes none of them:
/// nothing is lost, repeated or reordered, whether or not the buffer has to be sent.
pub proof fn law_shift_bit_keeps_order(state: AdapterState, next: JtagBit)
    requires
        state.valid(),
    ensures
        ({
            let (after, step) = state.shift_bit(next);
            &&& outstanding(after, step) == outstanding(state, StepState::Done).push(next)
            &&& carries_run(step)
        }),
{
    let (after, step) = state.shift_bit(next);
    let before = outstanding(state, StepState::Done);
    lemma_send_immediate(state.commands);
    if !joins(state.command, next) {
        lemma_store(state, state.command);
    }
    assert(outstanding(after, step) =~= before.push(next));
}

/// Appending a command puts its cycles behind those in the buffer, and before those that are
/// being gathered.
pub proof fn law_append_command_keeps_order(state: AdapterState, command: Seq<JtagBit>)
    requires
        state.valid(),
        is_run(command),
    ensures
        ({
            let (after, step) = state.append_command(command);
            &&& outstanding(after, step) == clocked(state.commands) + command + state.command
            &&& carries_run(step)
        }),
{
    let (after, step) = state.append_command(command);
    lemma_send_immediate(state.commands);
    lemma_store(state, command);
    assert(outstanding(after, step) =~= clocked(state.commands) + command + state.command);
}

/// Starting to send the buffer, or to read a response, leaves the order of the outstanding cycles
/// as it is.
pub proof fn law_send_and_read_keep_order(state: AdapterState)
    requires
        state.valid(),
    ensures
        ({
            let (after, step) = state.send_buffer();
            &&& outstanding(after, step) == outstanding(state, StepState::Done)
            &&& carries_run(step)
        }),
        ({
            let (after, step) = state.read_response();
            &&& outstanding(after, step) == outstanding(state, StepState::Done)
            &&& carries_run(step)
        }),
{
    lemma_send_immediate(state.commands);
    let (sending, send_step) = state.send_buffer();
    let (reading, read_step) = state.read_response();
    assert(outstanding(sending, send_step) =~= outstanding(state, StepState::Done));
    assert(outstanding(reading, read_step) =~= outstanding(state, StepState::Done));
}

/// Finalizing the gathered command moves its cycles, and leaves their order as it is.
pub proof fn law_finalize_command_keeps_order(state: AdapterState)
    requires
        state.valid(),
    ensures
        ({
            let (after, step) = state.finalize_command();
            &&& outstanding(after, step) == outstanding(state, StepState::Done)
            &&& carries_run(step)
        }),
{
    let (after, step) = state.finalize_command();
    lemma_send_immediate(state.commands);
    lemma_store(state, state.command);
    assert(outstanding(after, step) =~= outstanding(state, StepState::Done));
}

/// Starting a flush leaves the order of the outstanding cycles as it is.
pub proof fn law_flush_keeps_order(state: AdapterState, take: bool)
    requires
        state.valid(),
    ensures
        ({
            let (after, step) = state.flush_and(take);
            &&& outstanding(after, step) == outstanding(state, StepState::Done)
            &&& carries_run(step)
        }),
{
    let (after, step) = state.flush_and(take);
    lemma_send_immediate(state.commands);
    lemma_store(state, state.command);
    lemma_flush_then_conclude_keeps_order(state, take);
    lemma_flush_then_conclude_keeps_order(
        state.without_command().store(state.command),
        take,
    );
    assert(outstanding(after, step) =~= outstanding(state, StepState::Done));
}

/// Once the device has taken the buffer, the cycles that the buffer clocks are the oldest of
/// those that were outstanding, and all the others are still outstanding.
pub proof fn law_sent_clocks_the_oldest(state: AdapterState, after_send: AfterSend<Seq<JtagBit>>)
    requires
        state.valid(),
        carries_run(StepState::Send(after_send)),
    ensures
        ({
            let (after, step) = state.sent(after_send, Ok(()));
            &&& outstanding(state, StepState::Send(after_send)) == clocked(state.commands)
                + outstanding(after, step)
            &&& carries_run(step)
        }),
{
    let (after, step) = state.sent(after_send, Ok(()));
    let before = outstanding(state, StepState::Send(after_send));
    let emptied = AdapterState { commands: seq![], ..state };
    if let AfterSend::Receive { rest } = after_send {
        if state.in_bit_counts.len() == 0 {
            lemma_after_response_keeps_order(emptied, rest);
        }
    }
    assert(before =~= clocked(state.commands) + outstanding(after, step));
}

/// What follows a response keeps every cycle in its place.
pub(crate) proof fn lemma_after_response_keeps_order(state: AdapterState, rest: Rest<Seq<JtagBit>>)
    requires
        state.valid(),
        is_run(carried_by(rest)),
    ensures
        ({
            let (after, step) = state.after_response(rest);
            outstanding(after, step) == clocked(state.commands) + carried_by(rest) + state.command
        }),
{
    let (after, step) = state.after_response(rest);
    let command = carried_by(rest);
    lemma_store(state, command);
    if let Rest::StoreThenFlush { take, .. } = rest {
        lemma_flush_then_conclude_keeps_order(state.store(command), take);
    }
    assert(outstanding(after, step) =~= clocked(state.commands) + command + state.command);
}

/// Reading a response touches no outstanding cycle, unless the operation fails.
pub proof fn law_received_keeps_order(
    state: AdapterState,
    reading: ReadingState,
    data: Seq<u8>,
    read_at: u128,
    checked_at: u128,
)
    requires
        state.valid(),
        carries_run(StepState::Receive(reading)),
    ensures
        ({
            let (after, step) = state.received(reading, Ok(data), read_at, checked_at);
            &&& step is Failed || outstanding(after, step) == outstanding(
                state,
                StepState::Receive(reading),
            )
            &&& carries_run(step)
        }),
{
    let (after, step) = state.received(reading, Ok(data), read_at, checked_at);
    if state.completes(reading, data, read_at, checked_at) {
        lemma_after_response_keeps_order(state.absorb(reading.reply + data), reading.rest);
    }
}

/// Whether the buffer leaves room for Send Immediate within what the device can take.
pub open spec fn sendable(state: AdapterState) -> bool {
    state.commands.len() + 1 < state.ftdi.buffer_size
}

/// Whether no more than the device can take is ever to be written, given where an operation
/// stands. A command is only carried along while the buffer is being sent or is empty.
pub open spec fn within_buffer(state: AdapterState, step: StepState) -> bool {
    match step {
        StepState::Done | StepState::Captured(_) => sendable(state),
        StepState::Send(_) => state.commands.len() <= state.ftdi.buffer_size,
        StepState::Receive(reading) => sendable(state) && (reading.rest is Conclude
            || state.commands.len() == 0),
        StepState::Failed(_) => true,
    }
}

/// No operation makes the buffer larger than what the device can take in one batch.
pub proof fn law_operations_stay_within_buffer(
    state: AdapterState,
    next: JtagBit,
    command: Seq<JtagBit>,
    take: bool,
)
    requires
        state.valid(),
        sendable(state),
        is_run(command),
    ensures
        within_buffer(state.shift_bit(next).0, state.shift_bit(next).1),
        within_buffer(state.append_command(command).0, state.append_command(command).1),
        within_buffer(state.finalize_command().0, state.finalize_command().1),
        within_buffer(state.flush_and(take).0, state.flush_and(take).1),
        within_buffer(state.send_buffer().0, state.send_buffer().1),
        within_buffer(state.read_response().0, state.read_response().1),
{
}

/// Once the device has taken the buffer, what is to be written next is again within what the
/// device can take.
pub proof fn law_sent_stays_within_buffer(
    state: AdapterState,
    after_send: AfterSend<Seq<JtagBit>>,
)
    requires
        state.valid(),
        carries_run(StepState::Send(after_send)),
    ensures
        ({
            let (after, step) = state.sent(after_send, Ok(()));
            within_buffer(after, step)
        }),
{
    state.ftdi.lemma_valid_bounds();
}

/// Reading a response does not make the buffer larger than what the device can take either.
pub proof fn law_received_stays_within_buffer(
    state: AdapterState,
    reading: ReadingState,
    data: Seq<u8>,
    read_at: u128,
    checked_at: u128,
)
    requires
        state.valid(),
        carries_run(StepState::Receive(reading)),
        within_buffer(state, StepState::Receive(reading)),
    ensures
        ({
            let (after, step) = state.received(reading, Ok(data), read_at, checked_at);
            within_buffer(after, step)
        }),
{
    state.ftdi.lemma_valid_bounds();
}

/// How many of the cycles are sampled.
pub open spec fn sampled(bits: Seq<JtagBit>) -> int
    decreases bits.len(),
{
    if bits.len() == 0 {
        0
    } else {
        sampled(bits.drop_last()) + if bits.last().capture {
            1int
        } else {
            0
        }
    }
}

/// The sampled cycles of two sequences are those of both.
proof fn lemma_sampled_concat(a: Seq<JtagBit>, b: Seq<JtagBit>)
    ensures
        sampled(a + b) == sampled(a) + sampled(b),
    decreases b.len(),
{
    if b.len() == 0 {
        assert(a + b =~= a);
    } else {
        lemma_sampled_concat(a, b.drop_last());
        assert((a + b).drop_last() =~= a + b.drop_last());
    }
}

/// The bits of two sequences of replies are those of both.
proof fn lemma_total_bits_concat(a: Seq<usize>, b: Seq<usize>)
    ensures
        total_bits(a + b) == total_bits(a) + total_bits(b),
    decreases b.len(),
{
    if b.len() == 0 {
        assert(a + b =~= a);
    } else {
        lemma_total_bits_concat(a, b.drop_last());
        assert((a + b).drop_last() =~= a + b.drop_last());
    }
}

/// Of cycles that are alike in this, all are sampled or none.
pub(crate) proof fn lemma_sampled_alike(bits: Seq<JtagBit>, capture: bool)
    requires
        forall|i: int| 0 <= i < bits.len() ==> (#[trigger] bits[i]).capture == capture,
    ensures
        sampled(bits) == if capture {
            bits.len() as int
        } else {
            0
        },
    decreases bits.len(),
{
    if bits.len() > 0 {
        lemma_sampled_alike(bits.drop_last(), capture);
    }
}

/// The device replies to a buffer with one bit for every cycle that is sampled.
pub proof fn law_one_reply_bit_per_sample(bytes: Seq<u8>)
    requires
        is_stream(bytes),
    ensures
        total_bits(replies(bytes)) == sampled(clocked(bytes)),
    decreases bytes.len(),
{
    if bytes.len() == 0 {
    } else if bytes[0] == SEND_IMMEDIATE {
        law_one_reply_bit_per_sample(bytes.skip(1));
    } else {
        law_one_reply_bit_per_sample(bytes.skip(3));
        let head = clocked_by(bytes[0], bytes[1], bytes[2]);
        let capture = bytes[0] == CLOCK_TMS_CAPTURE;
        lemma_sampled_alike(head, capture);
        lemma_sampled_concat(head, clocked(bytes.skip(3)));
        if capture {
            let count = seq![(bytes[1] + 1) as usize];
            lemma_total_bits_concat(count, replies(bytes.skip(3)));
            assert(count.drop_last() =~= Seq::<usize>::empty());
            assert(total_bits(count) == bytes[1] + 1) by {
                reveal_with_fuel(total_bits, 2);
            }
        }
    }
}

/// Whether the response that is due is the one to what waits in the buffer.
pub open spec fn synchronized(state: AdapterState) -> bool {
    state.in_bit_counts == replies(state.commands)
}

/// With nothing to send and nothing to read, as after opening, the buffer is within what the
/// device can take, and what is expected of the device is in step with what it is sent.
pub proof fn law_idle_adapter(state: AdapterState)
    requires
        state.valid(),
        state.commands.len() == 0,
        state.in_bit_counts.len() == 0,
    ensures
        sendable(state),
        synchronized(state),
{
    state.ftdi.lemma_valid_bounds();
    assert(state.in_bit_counts =~= replies(state.commands));
}

/// What one read of the device brings, possibly nothing, and the times of the read and of the
/// look at the clock after it.
pub struct Piece {
    pub data: Seq<u8>,
    pub read_at: u128,
    pub checked_at: u128,
}

/// What some reads have brought, all in all.
pub open spec fn joined(pieces: Seq<Piece>) -> Seq<u8>
    decreases pieces.len(),
{
    if pieces.len() == 0 {
        seq![]
    } else {
        joined(pieces.drop_last()) + pieces.last().data
    }
}

/// When something last arrived, given when that was before some reads.
pub open spec fn last_heard(last_data: u128, pieces: Seq<Piece>) -> u128
    decreases pieces.len(),
{
    if pieces.len() == 0 {
        last_data
    } else if pieces.last().data.len() > 0 {
        pieces.last().read_at
    } else {
        last_heard(last_data, pieces.drop_last())
    }
}

/// Whether the device never stays silent for too long during some reads.
pub open spec fn in_time(last_data: u128, pieces: Seq<Piece>) -> bool
    decreases pieces.len(),
{
    pieces.len() == 0 || {
        &&& in_time(last_data, pieces.drop_last())
        &&& pieces.last().checked_at - last_heard(last_data, pieces) <= RESPONSE_TIMEOUT
    }
}

/// An operation after some reads, one after the other, for as long as it waits for a response.
pub open spec fn received_all(state: AdapterState, step: StepState, pieces: Seq<Piece>) -> (
    AdapterState,
    StepState,
)
    decreases pieces.len(),
{
    if pieces.len() == 0 {
        (state, step)
    } else {
        let (state, step) = received_all(state, step, pieces.drop_last());
        let piece = pieces.last();
        match step {
            StepState::Receive(reading) => state.received(
                reading,
                Ok(piece.data),
                piece.read_at,
                piece.checked_at,
            ),
            _ => (state, step),
        }
    }
}

/// An operation that waits for no response takes none in.
proof fn lemma_received_all_idle(state: AdapterState, step: StepState, pieces: Seq<Piece>)
    requires
        !(step is Receive),
    ensures
        received_all(state, step, pieces) == (state, step),
    decreases pieces.len(),
{
    if pieces.len() > 0 {
        lemma_received_all_idle(state, step, pieces.drop_last());
    }
}

/// A response may come in any number of reads, some of which may bring nothing, as long as the
/// device is never silent for too long: only what has arrived in all of them counts. Until that
/// is all that is due, the operation goes on waiting and nothing else changes; then the response
/// is taken in and the operation goes on.
pub proof fn law_response_may_come_in_pieces(
    state: AdapterState,
    reading: ReadingState,
    pieces: Seq<Piece>,
)
    requires
        reading.reply.len() < state.in_bit_counts.len(),
        reading.reply.len() + joined(pieces).len() <= state.in_bit_counts.len(),
        in_time(reading.last_data, pieces),
    ensures
        ({
            let reply = reading.reply + joined(pieces);
            received_all(state, StepState::Receive(reading), pieces) == if reply.len()
                < state.in_bit_counts.len() {
                let last_data = last_heard(reading.last_data, pieces);
                (state, StepState::Receive(ReadingState { reply, last_data, rest: reading.rest }))
            } else {
                state.absorb(reply).after_response(reading.rest)
            }
        }),
    decreases pieces.len(),
{
    let reply = reading.reply + joined(pieces);
    if pieces.len() == 0 {
        assert(reply =~= reading.reply);
    } else {
        let before = pieces.drop_last();
        let piece = pieces.last();
        law_response_may_come_in_pieces(state, reading, before);
        assert(reading.reply + joined(before) + piece.data =~= reply);
        if reading.reply.len() + joined(before).len() == state.in_bit_counts.len() {
            assert(piece.data.len() == 0);
            assert(reply =~= reading.reply + joined(before));
            lemma_after_absorbing_no_response_is_due(state, reply, reading.rest);
        }
    }
}

/// Once a response has been taken in, the operation does not go on to read another one before it
/// has sent something.
proof fn lemma_after_absorbing_no_response_is_due(
    state: AdapterState,
    reply: Seq<u8>,
    rest: Rest<Seq<JtagBit>>,
)
    ensures
        !(state.absorb(reply).after_response(rest).1 is Receive),
{
}

/// The turn of a device that takes the whole buffer, if it is to be sent, and then, if a response
/// is due, answers the reads with the given pieces.
pub open spec fn turn(state: AdapterState, step: StepState, pieces: Seq<Piece>) -> (
    AdapterState,
    StepState,
) {
    let (state, step) = match step {
        StepState::Send(after_send) => state.sent(after_send, Ok(())),
        _ => (state, step),
    };
    received_all(state, step, pieces)
}

/// Whether some reads bring all of a response that is due, and in time.
pub open spec fn brings(state: AdapterState, pieces: Seq<Piece>) -> bool {
    joined(pieces).len() == state.in_bit_counts.len() && in_time(0, pieces)
}

/// A turn in which the device brings all that is due takes the response in.
proof fn lemma_turn(state: AdapterState, rest: Rest<Seq<JtagBit>>, pieces: Seq<Piece>)
    requires
        brings(state, pieces),
    ensures
        ({
            let step = StepState::Send(AfterSend::Receive { rest });
            let emptied = AdapterState { commands: seq![], ..state };
            turn(state, step, pieces) == emptied.absorb(joined(pieces)).after_response(rest)
        }),
        state.in_bit_counts.len() > 0 ==> turn(state, start_reading(rest), pieces)
            == state.absorb(joined(pieces)).after_response(rest),
{
    let emptied = AdapterState { commands: seq![], ..state };
    let reply = joined(pieces);
    let reading = ReadingState { reply: seq![], last_data: 0, rest };
    assert(reading.reply + reply =~= reply);
    if state.in_bit_counts.len() == 0 {
        assert(emptied.absorb(reply).in_bits =~= emptied.in_bits);
        assert(emptied.absorb(reply).in_bit_counts =~= emptied.in_bit_counts);
        let (after, step) = emptied.after_response(rest);
        lemma_after_absorbing_no_response_is_due(emptied, reply, rest);
        lemma_received_all_idle(after, step, pieces);
    } else {
        law_response_may_come_in_pieces(emptied, reading, pieces);
        law_response_may_come_in_pieces(state, reading, pieces);
    }
}

/// A response holds as many bits as its counts say.
pub(crate) proof fn lemma_response_bits_len(reply: Seq<u8>, counts: Seq<usize>)
    ensures
        response_bits(reply, counts).len() == total_bits(counts),
    decreases counts.len(),
{
    if counts.len() > 0 {
        lemma_response_bits_len(reply, counts.drop_last());
    }
}

/// What becomes of a flush in the two turns of a device that brings all that is due.
proof fn lemma_flush_turns(
    state: AdapterState,
    take: bool,
    first: Seq<Piece>,
    second: Seq<Piece>,
)
    requires
        state.valid(),
        ({
            let (s1, step1) = state.flush_and(take);
            let (s2, step2) = turn(s1, step1, first);
            &&& brings(s1, first)
            &&& brings(s2, second)
        }),
    ensures
        ({
            let (s1, step1) = state.flush_and(take);
            let (s2, step2) = turn(s1, step1, first);
            let emptied = AdapterState { commands: seq![], ..s1 };
            let idle = emptied.absorb(joined(first));
            match step1 {
                StepState::Send(
                    AfterSend::Receive { rest: Rest::StoreThenFlush { command, .. } },
                ) => {
                    let stored = idle.store(command).seal();
                    let emptied2 = AdapterState { commands: seq![], ..stored };
                    &&& (s2, step2) == (
                        stored,
                        StepState::Send(AfterSend::Receive { rest: Rest::Conclude { take } }),
                    )
                    &&& turn(s2, step2, second) == emptied2.absorb(joined(second)).conclude(take)
                },
                StepState::Send(_) | StepState::Receive(_) => {
                    &&& (s2, step2) == idle.conclude(take)
                    &&& turn(s2, step2, second) == (s2, step2)
                },
                _ => {
                    &&& (s2, step2) == (s1, step1)
                    &&& turn(s2, step2, second) == (s2, step2)
                },
            }
        }),
{
    let (s1, step1) = state.flush_and(take);
    let (s2, step2) = turn(s1, step1, first);
    let emptied = AdapterState { commands: seq![], ..s1 };
    match step1 {
        StepState::Send(AfterSend::Receive { rest }) => {
            lemma_turn(s1, rest, first);
            if rest is StoreThenFlush {
                lemma_turn(s2, Rest::Conclude { take }, second);
            } else {
                lemma_received_all_idle(s2, step2, second);
            }
        },
        StepState::Receive(_) => {
            assert(emptied =~= s1);
            lemma_turn(s1, Rest::Conclude { take }, first);
            lemma_received_all_idle(s2, step2, second);
        },
        _ => {
            lemma_received_all_idle(s1, step1, first);
            lemma_received_all_idle(s1, step1, second);
        },
    }
}

/// A flush succeeds with a device that takes what it is sent and replies with all that is due, in
/// however many pieces, after two turns at the most. Nothing is left over then, neither to be sent nor to be read, and
/// the captured bits are those from before, followed by those of the replies. With `take`, they
/// are handed out, and none is kept.
pub proof fn law_flush_leaves_nothing(
    state: AdapterState,
    take: bool,
    first: Seq<Piece>,
    second: Seq<Piece>,
)
    requires
        state.valid(),
        ({
            let (s1, step1) = state.flush_and(take);
            let (s2, step2) = turn(s1, step1, first);
            &&& brings(s1, first)
            &&& brings(s2, second)
        }),
    ensures
        ({
            let (s1, step1) = state.flush_and(take);
            let (s2, step2) = turn(s1, step1, first);
            let (s3, step3) = turn(s2, step2, second);
            let captured = state.in_bits + response_bits(joined(first), s1.in_bit_counts)
                + response_bits(joined(second), s2.in_bit_counts);
            &&& step3 == if take {
                StepState::Captured(captured)
            } else {
                StepState::Done
            }
            &&& s3 == AdapterState {
                command: seq![],
                commands: seq![],
                in_bit_counts: seq![],
                in_bits: if take {
                    seq![]
                } else {
                    captured
                },
                ..state
            }
        }),
{
    let (s1, step1) = state.flush_and(take);
    let (s2, step2) = turn(s1, step1, first);
    let (s3, step3) = turn(s2, step2, second);
    lemma_flush_turns(state, take, first, second);
    assert(s3.command =~= Seq::<JtagBit>::empty());
    assert(s3.commands =~= Seq::<u8>::empty());
    assert(s3.in_bit_counts =~= Seq::<usize>::empty());
}

/// Whether the response that is due, or will be, is the one to what waits in the buffer, given
/// where an operation stands. While a response is being read, nothing waits in the buffer.
pub open spec fn synchronized_at(state: AdapterState, step: StepState) -> bool {
    match step {
        StepState::Done | StepState::Captured(_) | StepState::Send(_) => synchronized(state),
        StepState::Receive(_) => state.commands.len() == 0,
        StepState::Failed(_) => true,
    }
}

/// What is expected of the device stays in step with what it is sent, whatever is shifted,
/// appended, finalized or flushed.
pub proof fn law_operations_stay_synchronized(
    state: AdapterState,
    next: JtagBit,
    command: Seq<JtagBit>,
    take: bool,
)
    requires
        state.valid(),
        synchronized(state),
        is_run(command),
    ensures
        synchronized_at(state.shift_bit(next).0, state.shift_bit(next).1),
        synchronized_at(state.append_command(command).0, state.append_command(command).1),
        synchronized_at(state.finalize_command().0, state.finalize_command().1),
        synchronized_at(state.flush_and(take).0, state.flush_and(take).1),
{
    lemma_send_immediate(state.commands);
    lemma_store(state, command);
    lemma_store(state, state.command);
    lemma_send_immediate(state.store(state.command).commands);
}

/// What is expected of the device stays in step with what it is sent once it has taken the
/// buffer and the response is read next.
pub proof fn law_sent_stays_synchronized(state: AdapterState, rest: Rest<Seq<JtagBit>>)
    requires
        state.valid(),
        is_run(carried_by(rest)),
    ensures
        ({
            let (after, step) = state.sent(AfterSend::Receive { rest }, Ok(()));
            synchronized_at(after, step)
        }),
{
    let emptied = AdapterState { commands: seq![], ..state };
    if state.in_bit_counts.len() == 0 {
        assert(emptied.in_bit_counts =~= Seq::<usize>::empty());
        lemma_store(emptied, carried_by(rest));
        lemma_send_immediate(emptied.store(carried_by(rest)).commands);
    }
}

/// What is expected of the device stays in step with what it is sent while a response is read.
pub proof fn law_received_stays_synchronized(
    state: AdapterState,
    reading: ReadingState,
    data: Seq<u8>,
    read_at: u128,
    checked_at: u128,
)
    requires
        state.valid(),
        carries_run(StepState::Receive(reading)),
        synchronized_at(state, StepState::Receive(reading)),
    ensures
        ({
            let (after, step) = state.received(reading, Ok(data), read_at, checked_at);
            synchronized_at(after, step)
        }),
{
    let absorbed = state.absorb(reading.reply + data);
    lemma_store(absorbed, carried_by(reading.rest));
    lemma_send_immediate(absorbed.store(carried_by(reading.rest)).commands);
}

/// A flush captures one bit for every cycle that was to be sampled and had not been sent yet.
pub proof fn law_flush_captures_every_sample(
    state: AdapterState,
    take: bool,
    first: Seq<Piece>,
    second: Seq<Piece>,
)
    requires
        state.valid(),
        synchronized(state),
        ({
            let (s1, step1) = state.flush_and(take);
            let (s2, step2) = turn(s1, step1, first);
            &&& brings(s1, first)
            &&& brings(s2, second)
        }),
    ensures
        ({
            let (s1, step1) = state.flush_and(take);
            let (s2, step2) = turn(s1, step1, first);
            response_bits(joined(first), s1.in_bit_counts).len() + response_bits(
                joined(second),
                s2.in_bit_counts,
            ).len() == sampled(outstanding(state, StepState::Done))
        }),
{
    let (s1, step1) = state.flush_and(take);
    let (s2, step2) = turn(s1, step1, first);
    let command = carried(step1);
    lemma_response_bits_len(joined(first), s1.in_bit_counts);
    lemma_response_bits_len(joined(second), s2.in_bit_counts);
    law_flush_keeps_order(state, take);
    law_operations_stay_synchronized(state, arbitrary(), seq![], take);
    lemma_store(state, state.command);
    lemma_send_immediate(state.commands);
    lemma_send_immediate(state.store(state.command).commands);
    law_one_reply_bit_per_sample(s1.commands);
    assert(s1.command =~= Seq::<JtagBit>::empty());
    assert(outstanding(s1, step1) =~= clocked(s1.commands) + command);
    lemma_sampled_concat(clocked(s1.commands), command);
    lemma_encoding(command);
    law_one_reply_bit_per_sample(encoding(command));
    lemma_flush_turns(state, take, first, second);
    if let StepState::Send(AfterSend::Receive { rest: Rest::StoreThenFlush { .. } }) = step1 {
        assert(s2.in_bit_counts =~= reply_lengths(command));
    } else {
        assert(s2.in_bit_counts =~= Seq::<usize>::empty());
    }
}

} // verus!
