//! Whole sessions with a device: what is shifted is what is carried out, and what is captured is
//! what was sampled.

use crate::command_compacter::{
    bit, is_run, joins, tms_byte, JtagBit, CLOCK_TMS_CAPTURE, MAX_BITS, SEND_IMMEDIATE,
};
use crate::laws::encoding::{law_samples_come_back, shifted_in};
use crate::laws::exchange::{
    carried_by, carries_run, law_append_command_keeps_order, law_finalize_command_keeps_order,
    law_flush_keeps_order, law_send_and_read_keep_order,
    law_sent_clocks_the_oldest, law_shift_bit_keeps_order, lemma_after_response_keeps_order,
    lemma_sampled_alike, lemma_store, outstanding, sampled,
};
use crate::state::{
    reply_bits, response_bits, AdapterState, AfterSend, Rest, StepState, RESPONSE_TIMEOUT,
};
use crate::stream::{clocked, clocked_by, is_stream, lemma_send_immediate, lemma_tms_byte, replies};
use vstd::prelude::*;

verus! {

/// A device: what it replies to a buffer, given all the cycles that it has carried out before.
pub type Device = spec_fn(Seq<JtagBit>, Seq<u8>) -> Seq<u8>;

/// A target: the level of TDO during the last one of all the cycles so far.
pub type Target = spec_fn(Seq<JtagBit>) -> bool;

/// The levels of TDO during those of the cycles that are sampled, in order, where `before` are
/// the cycles before them.
pub open spec fn samples(target: Target, before: Seq<JtagBit>, cycles: Seq<JtagBit>) -> Seq<bool>
    decreases cycles.len(),
{
    if cycles.len() == 0 {
        seq![]
    } else if cycles.last().capture {
        samples(target, before, cycles.drop_last()).push(target(before + cycles))
    } else {
        samples(target, before, cycles.drop_last())
    }
}

/// The samples of two sequences of cycles are those of both.
proof fn lemma_samples_concat(
    target: Target,
    before: Seq<JtagBit>,
    a: Seq<JtagBit>,
    b: Seq<JtagBit>,
)
    ensures
        samples(target, before, a + b) == samples(target, before, a) + samples(
            target,
            before + a,
            b,
        ),
    decreases b.len(),
{
    if b.len() == 0 {
        assert(a + b =~= a);
        assert(samples(target, before, a + b) =~= samples(target, before, a) + samples(
            target,
            before + a,
            b,
        ));
    } else {
        lemma_samples_concat(target, before, a, b.drop_last());
        assert((a + b).drop_last() =~= a + b.drop_last());
        assert(before + (a + b) =~= before + a + b);
        assert(samples(target, before, a + b) =~= samples(target, before, a) + samples(
            target,
            before + a,
            b,
        ));
    }
}

/// Whether a device replies to every buffer of whole commands with as many bytes as are due, and
/// these hold the levels of TDO that it has sampled.
pub open spec fn faithful(device: Device, target: Target) -> bool {
    forall|before: Seq<JtagBit>, bytes: Seq<u8>|
        is_stream(bytes) ==> {
            let reply = #[trigger] device(before, bytes);
            &&& reply.len() == replies(bytes).len()
            &&& response_bits(reply, replies(bytes)) == samples(target, before, clocked(bytes))
        }
}

/// What a response holds depends on no more of its bytes than there are counts.
proof fn lemma_response_bits_prefix(a: Seq<u8>, b: Seq<u8>, counts: Seq<usize>)
    requires
        counts.len() <= a.len(),
    ensures
        response_bits(a + b, counts) == response_bits(a, counts),
    decreases counts.len(),
{
    if counts.len() > 0 {
        lemma_response_bits_prefix(a, b, counts.drop_last());
    }
}

/// Two responses, one after the other, hold what both hold.
proof fn lemma_response_bits_concat(
    a: Seq<u8>,
    a_counts: Seq<usize>,
    b: Seq<u8>,
    b_counts: Seq<usize>,
)
    requires
        a.len() == a_counts.len(),
        b.len() >= b_counts.len(),
    ensures
        response_bits(a + b, a_counts + b_counts) == response_bits(a, a_counts) + response_bits(
            b,
            b_counts,
        ),
    decreases b_counts.len(),
{
    if b_counts.len() == 0 {
        assert(a_counts + b_counts =~= a_counts);
        lemma_response_bits_prefix(a, b, a_counts);
    } else {
        lemma_response_bits_concat(a, a_counts, b, b_counts.drop_last());
        assert((a_counts + b_counts).drop_last() =~= a_counts + b_counts.drop_last());
        assert((a + b)[a.len() + b_counts.len() - 1] == b[b_counts.len() - 1]);
    }
    assert(response_bits(a + b, a_counts + b_counts) =~= response_bits(a, a_counts)
        + response_bits(b, b_counts));
}

/// There is a byte for any bits that a reply can hold.
proof fn lemma_reply_byte(bits: Seq<bool>) -> (byte: u8)
    requires
        1 <= bits.len() <= MAX_BITS,
    ensures
        reply_bits(byte, bits.len() as usize) == bits,
{
    let cycles = bits.map_values(|level: bool| JtagBit { tms: level, tdi: false, capture: false });
    let low = tms_byte(cycles);
    let count = bits.len() as usize;
    let shift = (8 - count) as u8;
    let byte = low << shift;
    lemma_tms_byte(cycles);
    assert forall|j: int| 0 <= j < count implies reply_bits(byte, count)[j] == bits[j] by {
        let k = j as u8;
        let place = (8 - count + j) as u8;
        assert((low << shift) >> place & 1u8 == low >> k & 1u8) by (bit_vector)
            requires
                shift < 8,
                place == shift + k,
                place < 8,
        ;
        assert(bit(low, j) == cycles[j].tms);
    }
    assert(reply_bits(byte, count) =~= bits);
    byte
}

/// There are as many samples as cycles that are sampled.
proof fn lemma_samples_len(target: Target, before: Seq<JtagBit>, cycles: Seq<JtagBit>)
    ensures
        samples(target, before, cycles).len() == sampled(cycles),
    decreases cycles.len(),
{
    if cycles.len() > 0 {
        lemma_samples_len(target, before, cycles.drop_last());
    }
}

/// There is a reply to every buffer of whole commands that holds what is sampled.
proof fn lemma_faithful_reply(target: Target, before: Seq<JtagBit>, bytes: Seq<u8>) -> (reply: Seq<
    u8,
>)
    requires
        is_stream(bytes),
    ensures
        reply.len() == replies(bytes).len(),
        response_bits(reply, replies(bytes)) == samples(target, before, clocked(bytes)),
    decreases bytes.len(),
{
    if bytes.len() == 0 {
        seq![]
    } else if bytes[0] == SEND_IMMEDIATE {
        lemma_faithful_reply(target, before, bytes.skip(1))
    } else {
        let head = clocked_by(bytes[0], bytes[1], bytes[2]);
        let capture = bytes[0] == CLOCK_TMS_CAPTURE;
        let tail = lemma_faithful_reply(target, before + head, bytes.skip(3));
        lemma_samples_concat(target, before, head, clocked(bytes.skip(3)));
        lemma_samples_len(target, before, head);
        lemma_sampled_alike(head, capture);
        let levels = samples(target, before, head);
        if capture {
            let byte = lemma_reply_byte(levels);
            let counts = seq![(bytes[1] + 1) as usize];
            lemma_response_bits_concat(seq![byte], counts, tail, replies(bytes.skip(3)));
            reveal_with_fuel(response_bits, 2);
            assert(response_bits(seq![byte], counts) =~= levels);
            seq![byte] + tail
        } else {
            assert(levels =~= Seq::<bool>::empty());
            assert(levels + samples(target, before + head, clocked(bytes.skip(3))) =~= samples(
                target,
                before + head,
                clocked(bytes.skip(3)),
            ));
            tail
        }
    }
}

/// For every target there is a device that is faithful to it.
pub proof fn law_faithful_device_exists(target: Target) -> (device: Device)
    ensures
        faithful(device, target),
{
    let device = |before: Seq<JtagBit>, bytes: Seq<u8>|
        choose|reply: Seq<u8>|
            #![trigger response_bits(reply, replies(bytes))]
            reply.len() == replies(bytes).len() && response_bits(reply, replies(bytes)) == samples(
                target,
                before,
                clocked(bytes),
            );
    assert forall|before: Seq<JtagBit>, bytes: Seq<u8>| is_stream(bytes) implies {
        let reply = #[trigger] device(before, bytes);
        &&& reply.len() == replies(bytes).len()
        &&& response_bits(reply, replies(bytes)) == samples(target, before, clocked(bytes))
    } by {
        let reply = lemma_faithful_reply(target, before, bytes);
        assert(response_bits(reply, replies(bytes)) == samples(target, before, clocked(bytes)));
    }
    device
}

/// What an MPSSE replies to a buffer on a target, given the cycles before it: for every command
/// that reads TDO, the register into which the levels have been shifted, on top of whatever was in
/// it.
pub open spec fn mpsse_reply(
    target: Target,
    register: u8,
    before: Seq<JtagBit>,
    bytes: Seq<u8>,
) -> Seq<u8>
    decreases bytes.len(),
{
    if bytes.len() == 0 {
        seq![]
    } else if bytes[0] == SEND_IMMEDIATE {
        mpsse_reply(target, register, before, bytes.skip(1))
    } else if bytes.len() < 3 {
        seq![]
    } else {
        let head = clocked_by(bytes[0], bytes[1], bytes[2]);
        let tail = mpsse_reply(target, register, before + head, bytes.skip(3));
        if bytes[0] == CLOCK_TMS_CAPTURE {
            seq![shifted_in(register, samples(target, before, head))] + tail
        } else {
            tail
        }
    }
}

/// The reply of an MPSSE to a buffer of whole commands holds what is sampled.
proof fn lemma_mpsse_reply(target: Target, register: u8, before: Seq<JtagBit>, bytes: Seq<u8>)
    requires
        is_stream(bytes),
    ensures
        ({
            let reply = mpsse_reply(target, register, before, bytes);
            &&& reply.len() == replies(bytes).len()
            &&& response_bits(reply, replies(bytes)) == samples(target, before, clocked(bytes))
        }),
    decreases bytes.len(),
{
    if bytes.len() == 0 {
    } else if bytes[0] == SEND_IMMEDIATE {
        lemma_mpsse_reply(target, register, before, bytes.skip(1));
    } else {
        let head = clocked_by(bytes[0], bytes[1], bytes[2]);
        let capture = bytes[0] == CLOCK_TMS_CAPTURE;
        let tail = mpsse_reply(target, register, before + head, bytes.skip(3));
        let levels = samples(target, before, head);
        lemma_mpsse_reply(target, register, before + head, bytes.skip(3));
        lemma_samples_concat(target, before, head, clocked(bytes.skip(3)));
        lemma_samples_len(target, before, head);
        lemma_sampled_alike(head, capture);
        if capture {
            let byte = shifted_in(register, levels);
            let counts = seq![(bytes[1] + 1) as usize];
            law_samples_come_back(register, levels);
            lemma_response_bits_concat(seq![byte], counts, tail, replies(bytes.skip(3)));
            reveal_with_fuel(response_bits, 2);
            assert(response_bits(seq![byte], counts) =~= levels);
        } else {
            let rest = samples(target, before + head, clocked(bytes.skip(3)));
            assert(levels =~= Seq::<bool>::empty());
            assert(levels + rest =~= rest);
        }
    }
}

/// An MPSSE is faithful to its target. So what is said of sessions with a faithful device holds of
/// sessions with an MPSSE.
pub proof fn law_mpsse_is_faithful(target: Target, register: u8)
    ensures
        faithful(
            |before: Seq<JtagBit>, bytes: Seq<u8>| mpsse_reply(target, register, before, bytes),
            target,
        ),
{
    let device = |before: Seq<JtagBit>, bytes: Seq<u8>|
        mpsse_reply(target, register, before, bytes);
    assert forall|before: Seq<JtagBit>, bytes: Seq<u8>| is_stream(bytes) implies {
        let reply = #[trigger] device(before, bytes);
        &&& reply.len() == replies(bytes).len()
        &&& response_bits(reply, replies(bytes)) == samples(target, before, clocked(bytes))
    } by {
        lemma_mpsse_reply(target, register, before, bytes);
    }
}

/// A session with a device.
pub struct Session {
    /// The adapter.
    pub state: AdapterState,
    /// Where its operation stands.
    pub step: StepState,
    /// The cycles that the adapter was asked for, in the order in which they are to be carried out.
    pub accepted: Seq<JtagBit>,
    /// The cycles that the device has carried out, oldest first.
    pub carried_out: Seq<JtagBit>,
    /// What the device has replied and has not been read yet.
    pub unread: Seq<u8>,
    /// The bits that had been captured when the session began.
    pub earlier: Seq<bool>,
    /// The captured bits that the adapter has handed out.
    pub handed_out: Seq<bool>,
}

/// What can happen in a session. The last two are the device's part, the others start an
/// operation.
pub enum Event {
    ShiftBit { next: JtagBit },
    AppendCommand { command: Seq<JtagBit> },
    FinalizeCommand,
    SendBuffer,
    ReadResponse,
    Flush,
    ReadCapturedBits,
    /// The device takes the buffer.
    Taken,
    /// A read of the device brings the next `count` bytes, possibly none.
    Answered { count: nat, read_at: u128, checked_at: u128 },
}

impl Event {
    /// Whether this is the device's part.
    pub open spec fn is_devices(self) -> bool {
        self is Taken || self is Answered
    }
}

impl Session {
    /// A session that begins with an adapter that has nothing to do.
    pub open spec fn new(state: AdapterState) -> Session {
        Session {
            state,
            step: StepState::Done,
            accepted: seq![],
            carried_out: seq![],
            unread: seq![],
            earlier: state.in_bits,
            handed_out: seq![],
        }
    }

    /// Whether no operation is going on.
    pub open spec fn idle(self) -> bool {
        self.step is Done || self.step is Captured
    }

    /// All bits captured so far: those handed out, and then those that the adapter keeps.
    pub open spec fn captured(self) -> Seq<bool> {
        self.handed_out + self.state.in_bits
    }

    /// Whether something can happen now. A read is in time: late ones end the operation.
    pub open spec fn possible(self, event: Event) -> bool {
        match event {
            Event::AppendCommand { command } => self.idle() && is_run(command),
            Event::Taken => self.step is Send,
            Event::Answered { count, read_at, checked_at } => {
                &&& self.step is Receive
                &&& count <= self.unread.len()
                &&& checked_at - self.step->Receive_0.heard(
                    self.unread.take(count as int),
                    read_at,
                ) <= RESPONSE_TIMEOUT
            },
            _ => self.idle(),
        }
    }

    /// The session once an operation has come to a new step.
    pub open spec fn at(self, next: (AdapterState, StepState)) -> Session {
        let handed_out = match next.1 {
            StepState::Captured(bits) => self.handed_out + bits,
            _ => self.handed_out,
        };
        Session { state: next.0, step: next.1, handed_out, ..self }
    }

    /// The session once something has happened. A bit that is shifted is accepted last, a command
    /// that is appended goes before the cycles that are still being gathered.
    pub open spec fn after(self, event: Event, device: Device) -> Session {
        match event {
            Event::ShiftBit { next } => Session {
                accepted: self.accepted.push(next),
                ..self.at(self.state.shift_bit(next))
            },
            Event::AppendCommand { command } => {
                let settled = self.accepted.len() - self.state.command.len();
                Session {
                    accepted: self.accepted.take(settled) + command + self.accepted.skip(settled),
                    ..self.at(self.state.append_command(command))
                }
            },
            Event::FinalizeCommand => self.at(self.state.finalize_command()),
            Event::SendBuffer => self.at(self.state.send_buffer()),
            Event::ReadResponse => self.at(self.state.read_response()),
            Event::Flush => self.at(self.state.flush_and(false)),
            Event::ReadCapturedBits => self.at(self.state.flush_and(true)),
            Event::Taken => Session {
                carried_out: self.carried_out + clocked(self.state.commands),
                unread: self.unread + device(self.carried_out, self.state.commands),
                ..self.at(self.state.sent(self.step->Send_0, Ok(())))
            },
            Event::Answered { count, read_at, checked_at } => Session {
                unread: self.unread.skip(count as int),
                ..self.at(
                    self.state.received(
                        self.step->Receive_0,
                        Ok(self.unread.take(count as int)),
                        read_at,
                        checked_at,
                    ),
                )
            },
        }
    }

    /// The session once some things have happened, one after the other.
    pub open spec fn after_all(self, events: Seq<Event>, device: Device) -> Session
        decreases events.len(),
    {
        if events.len() == 0 {
            self
        } else {
            self.after_all(events.drop_last(), device).after(events.last(), device)
        }
    }

    /// Whether some things can happen, one after the other.
    pub open spec fn all_possible(self, events: Seq<Event>, device: Device) -> bool
        decreases events.len(),
    {
        events.len() == 0 || {
            &&& self.all_possible(events.drop_last(), device)
            &&& self.after_all(events.drop_last(), device).possible(events.last())
        }
    }

    /// Of the response that is being read, what has been read and what has not.
    pub open spec fn arrived(self) -> Seq<u8> {
        match self.step {
            StepState::Receive(reading) => reading.reply + self.unread,
            _ => self.unread,
        }
    }

    /// Whether the session is in order: the adapter is valid, the cycles carried out and those
    /// still outstanding are the accepted ones, the replies that are due are those to what has
    /// been sent and then those to what waits to be, and the bits captured and those that have
    /// arrived are what was sampled.
    pub open spec fn in_order(self, target: Target) -> bool {
        &&& self.state.valid()
        &&& carries_run(self.step)
        &&& !(self.step is Failed)
        &&& self.step matches StepState::Receive(reading) ==> reading.reply.len()
            < self.state.in_bit_counts.len()
        &&& self.carried_out + outstanding(self.state, self.step) == self.accepted
        &&& self.state.in_bit_counts == due(self.state) + replies(self.state.commands)
        &&& self.arrived().len() == due(self.state).len()
        &&& self.captured() + response_bits(self.arrived(), due(self.state)) == self.earlier
            + samples(target, seq![], self.carried_out)
    }
}

/// For every byte of the response to what has been sent, how many bits it holds.
pub open spec fn due(state: AdapterState) -> Seq<usize> {
    state.in_bit_counts.take(state.in_bit_counts.len() - replies(state.commands).len())
}

/// How the replies that are due divide into those to what has been sent and those to what has not.
proof fn lemma_due(state: AdapterState, sent: Seq<usize>)
    requires
        state.in_bit_counts == sent + replies(state.commands),
    ensures
        due(state) == sent,
{
    assert(due(state) =~= sent);
}

/// A state stays valid when a command is appended.
proof fn lemma_store_valid(state: AdapterState, command: Seq<JtagBit>)
    requires
        state.valid(),
        is_run(command),
    ensures
        state.store(command).valid(),
{
    lemma_store(state, command);
    let counts = state.store(command).in_bit_counts;
    assert forall|i: int| 0 <= i < counts.len() implies 1 <= #[trigger] counts[i] <= 8 by {
        if i < state.in_bit_counts.len() {
            assert(counts[i] == state.in_bit_counts[i]);
        }
    }
}

/// Appending a command leaves what is due of what has been sent as it is.
proof fn lemma_store_due(state: AdapterState, command: Seq<JtagBit>)
    requires
        state.valid(),
        is_run(command),
        state.in_bit_counts == due(state) + replies(state.commands),
    ensures
        ({
            let after = state.store(command);
            &&& after.valid()
            &&& due(after) == due(state)
            &&& after.in_bit_counts == due(after) + replies(after.commands)
        }),
{
    let after = state.store(command);
    lemma_store(state, command);
    lemma_store_valid(state, command);
    assert(after.in_bit_counts =~= due(state) + replies(after.commands));
    lemma_due(after, due(state));
}

/// Closing the buffer off leaves what is due of what has been sent as it is.
proof fn lemma_seal_due(state: AdapterState)
    requires
        state.valid(),
        state.in_bit_counts == due(state) + replies(state.commands),
    ensures
        ({
            let after = state.seal();
            &&& after.valid()
            &&& due(after) == due(state)
            &&& after.in_bit_counts == due(after) + replies(after.commands)
        }),
{
    lemma_send_immediate(state.commands);
}

/// A session in which nothing has been read so far of what is due, and which comes to a new step
/// that keeps the cycles and the captured bits, stays in order.
proof fn lemma_at(
    session: Session,
    next: (AdapterState, StepState),
    accepted: Seq<JtagBit>,
    target: Target,
)
    requires
        session.in_order(target),
        session.arrived() == session.unread,
        next.0.valid(),
        carries_run(next.1),
        !(next.1 is Failed),
        next.1 matches StepState::Receive(reading) ==> reading.reply.len() == 0
            && next.0.in_bit_counts.len() > 0,
        session.carried_out + outstanding(next.0, next.1) == accepted,
        due(next.0) == due(session.state),
        next.0.in_bit_counts == due(next.0) + replies(next.0.commands),
        match next.1 {
            StepState::Captured(bits) => bits == session.state.in_bits && next.0.in_bits.len() == 0,
            _ => next.0.in_bits == session.state.in_bits,
        },
    ensures
        (Session { accepted, ..session.at(next) }).in_order(target),
{
    let after = Session { accepted, ..session.at(next) };
    assert(after.arrived() =~= session.unread);
    assert(after.captured() =~= session.captured());
}

/// Ending an operation, possibly with a flush, keeps what is due and what was captured.
proof fn lemma_flush_then_conclude_due(state: AdapterState, take: bool)
    requires
        state.valid(),
        state.in_bit_counts == due(state) + replies(state.commands),
    ensures
        ({
            let (after, step) = state.flush_then_conclude(take);
            &&& after.valid()
            &&& !(step is Failed)
            &&& step matches StepState::Receive(reading) ==> reading.reply.len() == 0
                && after.in_bit_counts.len() > 0
            &&& due(after) == due(state)
            &&& after.in_bit_counts == due(after) + replies(after.commands)
            &&& match step {
                StepState::Captured(bits) => bits == state.in_bits && after.in_bits.len() == 0,
                _ => after.in_bits == state.in_bits,
            }
        }),
{
    lemma_seal_due(state);
}

/// Starting an operation keeps a session in order.
proof fn lemma_operation(session: Session, event: Event, device: Device, target: Target)
    requires
        session.in_order(target),
        session.possible(event),
        !event.is_devices(),
    ensures
        session.after(event, device).in_order(target),
{
    let state = session.state;
    let waiting = outstanding(state, StepState::Done);
    assert(outstanding(state, session.step) == waiting);
    lemma_seal_due(state);
    match event {
        Event::ShiftBit { next } => {
            let started = AdapterState { command: seq![next], ..state };
            law_shift_bit_keeps_order(state, next);
            if !joins(state.command, next) {
                lemma_store_due(started, state.command);
                lemma_seal_due(started);
            }
            assert(session.carried_out + waiting.push(next) =~= session.accepted.push(next));
            lemma_at(session, state.shift_bit(next), session.accepted.push(next), target);
        },
        Event::AppendCommand { command } => {
            let settled = session.accepted.len() - state.command.len();
            let accepted = session.accepted.take(settled) + command + session.accepted.skip(
                settled,
            );
            law_append_command_keeps_order(state, command);
            lemma_store_due(state, command);
            assert(session.carried_out + (clocked(state.commands) + command + state.command)
                =~= accepted);
            lemma_at(session, state.append_command(command), accepted, target);
        },
        Event::FinalizeCommand => {
            law_finalize_command_keeps_order(state);
            lemma_store_due(state.without_command(), state.command);
            lemma_seal_due(state.without_command());
            lemma_at(session, state.finalize_command(), session.accepted, target);
        },
        Event::SendBuffer => {
            law_send_and_read_keep_order(state);
            lemma_at(session, state.send_buffer(), session.accepted, target);
        },
        Event::ReadResponse => {
            law_send_and_read_keep_order(state);
            lemma_at(session, state.read_response(), session.accepted, target);
        },
        Event::Flush => lemma_flush_operation(session, false, target),
        Event::ReadCapturedBits => lemma_flush_operation(session, true, target),
        _ => {},
    }
}

/// Starting a flush keeps a session in order.
proof fn lemma_flush_operation(session: Session, take: bool, target: Target)
    requires
        session.in_order(target),
        session.idle(),
    ensures
        session.at(session.state.flush_and(take)).in_order(target),
{
    let state = session.state;
    let bare = state.without_command();
    assert(outstanding(state, session.step) == outstanding(state, StepState::Done));
    law_flush_keeps_order(state, take);
    lemma_store_due(bare, state.command);
    lemma_seal_due(bare);
    lemma_flush_then_conclude_due(state, take);
    lemma_flush_then_conclude_due(bare.store(state.command), take);
    lemma_at(session, state.flush_and(take), session.accepted, target);
}

/// What follows a response keeps a session in order, where nothing is due any more.
proof fn lemma_after_response(session: Session, rest: Rest<Seq<JtagBit>>, target: Target)
    requires
        session.state.valid(),
        is_run(carried_by(rest)),
        session.state.in_bit_counts.len() == 0,
        replies(session.state.commands).len() == 0,
        session.unread.len() == 0,
        session.carried_out + (clocked(session.state.commands) + carried_by(rest)
            + session.state.command) == session.accepted,
        session.captured() == session.earlier + samples(target, seq![], session.carried_out),
    ensures
        session.at(session.state.after_response(rest)).in_order(target),
        !(session.state.after_response(rest).1 is Receive),
{
    let state = session.state;
    let command = carried_by(rest);
    let none = Seq::<usize>::empty();
    assert(state.in_bit_counts =~= none + replies(state.commands));
    lemma_due(state, none);
    lemma_after_response_keeps_order(state, rest);
    lemma_store_due(state, command);
    if let Rest::StoreThenFlush { take, .. } = rest {
        lemma_flush_then_conclude_due(state.store(command), take);
    }
    let next = state.after_response(rest);
    let after = session.at(next);
    assert(due(next.0) == none);
    assert(after.arrived() =~= Seq::<u8>::empty());
    assert(after.captured() =~= session.captured());
    assert(response_bits(after.arrived(), none) =~= Seq::<bool>::empty());
    assert(after.captured() + Seq::<bool>::empty() =~= after.captured());
}

/// A device that takes the buffer keeps a session in order.
proof fn lemma_taken(session: Session, device: Device, target: Target)
    requires
        session.in_order(target),
        session.possible(Event::Taken),
        faithful(device, target),
    ensures
        session.after(Event::Taken, device).in_order(target),
{
    let state = session.state;
    let after_send = session.step->Send_0;
    let reply = device(session.carried_out, state.commands);
    let emptied = AdapterState { commands: seq![], ..state };
    let none = Seq::<JtagBit>::empty();
    let carried_out = session.carried_out + clocked(state.commands);
    let after = session.after(Event::Taken, device);
    let moved = Session { state: emptied, carried_out, unread: session.unread + reply, ..session };
    law_sent_clocks_the_oldest(state, after_send);
    assert(carried_out + outstanding(after.state, after.step) =~= session.carried_out + (clocked(
        state.commands,
    ) + outstanding(after.state, after.step)));
    assert(emptied.in_bit_counts =~= state.in_bit_counts + replies(emptied.commands));
    lemma_due(emptied, state.in_bit_counts);
    lemma_response_bits_concat(session.unread, due(state), reply, replies(state.commands));
    lemma_samples_concat(target, none, session.carried_out, clocked(state.commands));
    assert(none + session.carried_out =~= session.carried_out);
    let arrived = response_bits(session.unread + reply, state.in_bit_counts);
    assert(session.captured() + arrived =~= session.captured() + response_bits(
        session.unread,
        due(state),
    ) + response_bits(reply, replies(state.commands)));
    assert(session.earlier + samples(target, none, carried_out) =~= session.earlier + samples(
        target,
        none,
        session.carried_out,
    ) + samples(target, session.carried_out, clocked(state.commands)));
    assert(moved.captured() + arrived == session.earlier + samples(target, none, carried_out));
    match after_send {
        AfterSend::Receive { rest } if state.in_bit_counts.len() == 0 => {
            assert(arrived =~= Seq::<bool>::empty());
            assert(moved.captured() + arrived =~= moved.captured());
            assert(clocked(emptied.commands) + carried_by(rest) + state.command
                =~= carried_by(rest) + state.command);
            assert(clocked(state.commands) + carried_by(rest) + state.command =~= clocked(
                state.commands,
            ) + (carried_by(rest) + state.command));
            assert(carried_out + (carried_by(rest) + state.command) =~= session.carried_out + (
            clocked(state.commands) + (carried_by(rest) + state.command)));
            lemma_after_response(moved, rest, target);
        },
        _ => {
            assert(after.arrived() =~= session.unread + reply);
        },
    }
}

/// A read of the device keeps a session in order.
proof fn lemma_answered(session: Session, event: Event, device: Device, target: Target)
    requires
        session.in_order(target),
        session.possible(event),
        event is Answered,
    ensures
        session.after(event, device).in_order(target),
{
    let state = session.state;
    let reading = session.step->Receive_0;
    let count = event->count as int;
    let data = session.unread.take(count);
    let reply = reading.reply + data;
    let after = session.after(event, device);
    assert(reply + session.unread.skip(count) =~= session.arrived());
    assert(reply.len() <= state.in_bit_counts.len());
    if reply.len() < state.in_bit_counts.len() {
        assert(after.arrived() =~= session.arrived());
    } else {
        let absorbed = state.absorb(reply);
        let moved = Session { state: absorbed, unread: session.unread.skip(count), ..session };
        assert(reply =~= session.arrived());
        assert(due(state) =~= state.in_bit_counts);
        assert(moved.captured() =~= session.captured() + response_bits(
            session.arrived(),
            due(state),
        ));
        lemma_after_response(moved, reading.rest, target);
    }
}

/// A new session is in order.
pub proof fn law_new_session_is_in_order(state: AdapterState, target: Target)
    requires
        state.valid(),
        state.command.len() == 0,
        state.commands.len() == 0,
        state.in_bit_counts.len() == 0,
    ensures
        Session::new(state).in_order(target),
{
    let session = Session::new(state);
    let none = Seq::<JtagBit>::empty();
    assert(outstanding(state, StepState::Done) =~= none);
    assert(none + none =~= none);
    assert(state.in_bit_counts =~= Seq::<usize>::empty() + replies(state.commands));
    lemma_due(state, seq![]);
    assert(session.captured() + response_bits(session.arrived(), due(state)) =~= session.earlier
        + samples(target, seq![], none));
}

/// Whatever is done in a session, in whatever order, and however the device's answers are split
/// into reads, the session stays in order: no cycle is lost, repeated or carried out out of turn,
/// and no sample is lost, repeated or taken for another.
pub proof fn law_session_stays_in_order(
    session: Session,
    events: Seq<Event>,
    device: Device,
    target: Target,
)
    requires
        session.in_order(target),
        session.all_possible(events, device),
        faithful(device, target),
    ensures
        session.after_all(events, device).in_order(target),
    decreases events.len(),
{
    if events.len() > 0 {
        let before = session.after_all(events.drop_last(), device);
        law_session_stays_in_order(session, events.drop_last(), device, target);
        match events.last() {
            Event::Taken => lemma_taken(before, device, target),
            Event::Answered { .. } => lemma_answered(before, events.last(), device, target),
            _ => lemma_operation(before, events.last(), device, target),
        }
    }
}

/// When a session that is in order has nothing left to send or to read, the device has carried out
/// exactly the accepted cycles, and the captured bits are those from before the session, followed
/// by the levels of TDO during the cycles that were to be sampled.
pub proof fn law_session_at_rest(session: Session, target: Target)
    requires
        session.in_order(target),
        session.idle(),
        session.state.command.len() == 0,
        session.state.commands.len() == 0,
        session.state.in_bit_counts.len() == 0,
    ensures
        session.carried_out == session.accepted,
        session.captured() == session.earlier + samples(target, seq![], session.accepted),
        session.unread.len() == 0,
{
    assert(outstanding(session.state, session.step) =~= Seq::<JtagBit>::empty());
    assert(session.carried_out + Seq::<JtagBit>::empty() =~= session.carried_out);
    assert(session.captured() + response_bits(session.arrived(), due(session.state))
        =~= session.captured());
}

/// While a response is being read, and nothing that is to be sampled waits in the buffer, what is
/// missing of the response is just what the device has replied and has not been read yet.
pub proof fn law_missing_response_is_unread(session: Session, target: Target)
    requires
        session.in_order(target),
        session.step is Receive,
        replies(session.state.commands).len() == 0,
    ensures
        session.step->Receive_0.reply.len() + session.unread.len()
            == session.state.in_bit_counts.len(),
        session.unread.len() > 0,
{
    assert(due(session.state) =~= session.state.in_bit_counts);
}

/// Whether a flush is going on, or has ended with nothing left over. With `take`, the captured
/// bits are handed out at its end.
pub open spec fn flushing(session: Session, take: bool) -> bool {
    &&& session.state.command.len() == 0
    &&& match session.step {
        StepState::Send(AfterSend::Receive { rest }) => flushes(rest, take),
        StepState::Receive(reading) => {
            &&& flushes(reading.rest, take)
            &&& session.state.commands.len() == 0
        },
        StepState::Done | StepState::Captured(_) => {
            &&& session.step is Captured == take
            &&& take ==> session.state.in_bits.len() == 0
            &&& session.state.commands.len() == 0
            &&& session.state.in_bit_counts.len() == 0
        },
        _ => false,
    }
}

/// Whether what is left once a response has been read is the rest of a flush.
pub open spec fn flushes(rest: Rest<Seq<JtagBit>>, take: bool) -> bool {
    match rest {
        Rest::Conclude { take: t } => t == take,
        Rest::StoreThenFlush { take: t, .. } => t == take,
        Rest::Store { .. } => false,
    }
}

/// Starting a flush, the session is flushing, and it stays so while the device does its part.
proof fn lemma_flushing(session: Session, take: bool, event: Event, device: Device)
    requires
        session.state.valid(),
        session.possible(event),
        event == (if take {
            Event::ReadCapturedBits
        } else {
            Event::Flush
        }) || (event.is_devices() && flushing(session, take) && !(session.after(
            event,
            device,
        ).step is Failed)),
    ensures
        flushing(session.after(event, device), take),
{
}

/// Once a flush has been started, whatever the device then does, the flush has ended with nothing
/// left over, or it is the device's turn: it has a buffer to take, or there is something to be
/// read. The adapter never waits for what does not come.
pub proof fn law_flush_is_never_stuck(
    session: Session,
    take: bool,
    events: Seq<Event>,
    device: Device,
    target: Target,
)
    requires
        session.in_order(target),
        session.idle(),
        faithful(device, target),
        forall|i: int| 0 <= i < events.len() ==> (#[trigger] events[i]).is_devices(),
        session.at(session.state.flush_and(take)).all_possible(events, device),
    ensures
        ({
            let end = session.at(session.state.flush_and(take)).after_all(events, device);
            &&& end.in_order(target)
            &&& flushing(end, take)
            &&& end.idle() || end.step is Send || (end.step is Receive && end.unread.len() > 0)
        }),
    decreases events.len(),
{
    let start = session.at(session.state.flush_and(take));
    let end = start.after_all(events, device);
    lemma_flush_operation(session, take, target);
    law_session_stays_in_order(start, events, device, target);
    if events.len() == 0 {
        let event = if take {
            Event::ReadCapturedBits
        } else {
            Event::Flush
        };
        lemma_flushing(session, take, event, device);
    } else {
        law_flush_is_never_stuck(session, take, events.drop_last(), device, target);
        lemma_flushing(start.after_all(events.drop_last(), device), take, events.last(), device);
    }
    if end.step is Receive {
        law_missing_response_is_unread(end, target);
    }
}

/// How many turns of the device an operation can still take at the most, writing and reading
/// counted apart.
pub open spec fn turns_left(step: StepState) -> int {
    match step {
        StepState::Send(AfterSend::Receive { rest }) => turns_left_after(rest) + 2,
        StepState::Send(AfterSend::Finish) => 1,
        StepState::Receive(reading) => turns_left_after(reading.rest) + 1,
        _ => 0,
    }
}

/// How many turns of the device can still be taken once a response has been read.
pub open spec fn turns_left_after(rest: Rest<Seq<JtagBit>>) -> int {
    match rest {
        Rest::StoreThenFlush { .. } => 2,
        _ => 0,
    }
}

/// Whenever the device takes the buffer, or a read brings something, the operation comes closer to
/// its end: fewer turns are left, or as many with less to be read. So every operation ends.
pub proof fn law_operations_make_progress(session: Session, event: Event, device: Device)
    requires
        session.possible(event),
        event is Taken || (event matches Event::Answered { count, .. } && count > 0),
    ensures
        ({
            let after = session.after(event, device);
            ||| turns_left(after.step) < turns_left(session.step)
            ||| turns_left(after.step) == turns_left(session.step) && after.unread.len()
                < session.unread.len()
        }),
{
}

/// Once a flush has ended, the device has carried out exactly the accepted cycles, each of them
/// once and in order, and all their samples have been captured, in order; with `take`, they have
/// been handed out.
pub proof fn law_flush_brings_everything(
    session: Session,
    take: bool,
    events: Seq<Event>,
    device: Device,
    target: Target,
)
    requires
        session.in_order(target),
        session.idle(),
        faithful(device, target),
        forall|i: int| 0 <= i < events.len() ==> (#[trigger] events[i]).is_devices(),
        session.at(session.state.flush_and(take)).all_possible(events, device),
        session.at(session.state.flush_and(take)).after_all(events, device).idle(),
    ensures
        ({
            let end = session.at(session.state.flush_and(take)).after_all(events, device);
            &&& end.in_order(target)
            &&& end.accepted == session.accepted
            &&& end.earlier == session.earlier
            &&& end.carried_out == session.accepted
            &&& end.captured() == session.earlier + samples(target, seq![], session.accepted)
            &&& take ==> end.handed_out == end.captured()
            &&& end.state.command.len() == 0
            &&& end.state.commands.len() == 0
            &&& end.state.in_bit_counts.len() == 0
        }),
{
    let start = session.at(session.state.flush_and(take));
    let end = start.after_all(events, device);
    law_flush_is_never_stuck(session, take, events, device, target);
    law_session_at_rest(end, target);
    lemma_devices_accept_nothing(start, events, device);
    if take {
        assert(end.handed_out + end.state.in_bits =~= end.handed_out);
    }
}

/// The device's part in a session changes neither what was accepted nor what was captured before.
proof fn lemma_devices_accept_nothing(session: Session, events: Seq<Event>, device: Device)
    requires
        forall|i: int| 0 <= i < events.len() ==> (#[trigger] events[i]).is_devices(),
    ensures
        session.after_all(events, device).accepted == session.accepted,
        session.after_all(events, device).earlier == session.earlier,
    decreases events.len(),
{
    if events.len() > 0 {
        lemma_devices_accept_nothing(session, events.drop_last(), device);
        assert(events[events.len() - 1].is_devices());
    }
}

} // verus!
