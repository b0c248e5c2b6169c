//! Operations made up of others, run in turn until one of them fails.

use crate::command_compacter::JtagBit;
use crate::state::{AdapterState, AfterSend, ReadingState, Rest, StepState};
use vstd::prelude::*;

verus! {

/// What comes of the device's part in an operation.
pub enum Outcome {
    /// Of writing the buffer.
    Sent { result: Result<(), std::io::Error> },
    /// Of a read, with the times of the read and of the look at the clock after it.
    Received { data: Result<Seq<u8>, std::io::Error>, read_at: u128, checked_at: u128 },
}

/// How far some operations have come: the state, the step, and the outcomes not used up yet.
pub struct Progress {
    pub state: AdapterState,
    pub step: StepState,
    pub outcomes: Seq<Outcome>,
}

impl Progress {
    /// Whether the device has no part any more.
    pub open spec fn ended(self) -> bool {
        !(self.step is Send) && !(self.step is Receive)
    }

    /// Whether two ways to do something come to the same: the state is the same at every point,
    /// one has ended when the other has, and then with the same result and at the same point.
    pub open spec fn same(self, other: Progress) -> bool {
        &&& self.state == other.state
        &&& self.ended() == other.ended()
        &&& self.ended() ==> self == other
    }

    /// If what has been done so far has succeeded, another operation is run next.
    pub open spec fn then_run(
        self,
        next: spec_fn(AdapterState) -> (AdapterState, StepState),
    ) -> Progress {
        if self.step is Done {
            run(next(self.state), self.outcomes)
        } else {
            self
        }
    }
}

/// An operation that has been started is run with the given outcomes, for as long as the device
/// has a part in it and there is an outcome of that.
pub open spec fn run(started: (AdapterState, StepState), outcomes: Seq<Outcome>) -> Progress
    decreases outcomes.len(),
{
    let (state, step) = started;
    let stopped = Progress { state, step, outcomes };
    if outcomes.len() == 0 {
        stopped
    } else {
        match (step, outcomes[0]) {
            (StepState::Send(after), Outcome::Sent { result }) => run(
                state.sent(after, result),
                outcomes.skip(1),
            ),
            (
                StepState::Receive(reading),
                Outcome::Received { data, read_at, checked_at },
            ) => run(state.received(reading, data, read_at, checked_at), outcomes.skip(1)),
            _ => stopped,
        }
    }
}

/// Whether one way to go on after a response comes to the same as another one with `next` run
/// after it.
spec fn follows(
    rest: Rest<Seq<JtagBit>>,
    shorter: Rest<Seq<JtagBit>>,
    next: spec_fn(AdapterState) -> (AdapterState, StepState),
) -> bool {
    forall|state: AdapterState, outcomes: Seq<Outcome>|
        #![trigger run(state.after_response(rest), outcomes)]
        run(state.after_response(rest), outcomes).same(
            run(state.after_response(shorter), outcomes).then_run(next),
        )
}

/// What holds of two ways to go on after a response holds while the response is being read.
proof fn lemma_reading_follows(
    state: AdapterState,
    reading: ReadingState,
    shorter: Rest<Seq<JtagBit>>,
    next: spec_fn(AdapterState) -> (AdapterState, StepState),
    outcomes: Seq<Outcome>,
)
    requires
        follows(reading.rest, shorter, next),
    ensures
        run((state, StepState::Receive(reading)), outcomes).same(
            run(
                (state, StepState::Receive(ReadingState { rest: shorter, ..reading })),
                outcomes,
            ).then_run(next),
        ),
    decreases outcomes.len(),
{
    let short = ReadingState { rest: shorter, ..reading };
    if outcomes.len() > 0 {
        if let Outcome::Received { data: read, read_at, checked_at } = outcomes[0] {
            let tail = outcomes.skip(1);
            let long_step = state.received(reading, read, read_at, checked_at);
            let short_step = state.received(short, read, read_at, checked_at);
            match long_step.1 {
                StepState::Receive(more) if short_step.1 is Receive && long_step.0 == state
                    && more.rest == reading.rest && short_step.1->Receive_0 == (ReadingState {
                    rest: shorter,
                    ..more
                }) => {
                    lemma_reading_follows(state, more, shorter, next, tail);
                },
                _ => {
                    if long_step.1 is Failed {
                        lemma_run_ended(long_step, tail);
                        lemma_run_ended(short_step, tail);
                    } else if let Ok(data) = read {
                        if state.completes(reading, data, read_at, checked_at) {
                            let absorbed = state.absorb(reading.reply + data);
                            assert(long_step == absorbed.after_response(reading.rest));
                            assert(short_step == absorbed.after_response(shorter));
                            assert(run(absorbed.after_response(reading.rest), tail).same(
                                run(absorbed.after_response(shorter), tail).then_run(next),
                            ));
                        }
                    }
                },
            }
        }
    }
}

/// What holds of two ways to go on after a response holds while the buffer is being sent before
/// that.
proof fn lemma_sending_follows(
    state: AdapterState,
    rest: Rest<Seq<JtagBit>>,
    shorter: Rest<Seq<JtagBit>>,
    next: spec_fn(AdapterState) -> (AdapterState, StepState),
    outcomes: Seq<Outcome>,
)
    requires
        follows(rest, shorter, next),
    ensures
        run((state, StepState::Send(AfterSend::Receive { rest })), outcomes).same(
            run(
                (state, StepState::Send(AfterSend::Receive { rest: shorter })),
                outcomes,
            ).then_run(next),
        ),
{
    if outcomes.len() > 0 {
        if let Outcome::Sent { result } = outcomes[0] {
            let tail = outcomes.skip(1);
            if let Err(_) = result {
                lemma_run_ended(state.sent(AfterSend::Receive { rest }, result), tail);
                lemma_run_ended(state.sent(AfterSend::Receive { rest: shorter }, result), tail);
            } else {
                let emptied = AdapterState { commands: seq![], ..state };
                if state.in_bit_counts.len() == 0 {
                    assert(run(emptied.after_response(rest), tail).same(
                        run(emptied.after_response(shorter), tail).then_run(next),
                    ));
                } else {
                    let reading = ReadingState { reply: seq![], last_data: 0, rest };
                    lemma_reading_follows(emptied, reading, shorter, next, tail);
                }
            }
        }
    }
}

/// An operation in which the device has no part is at its end.
proof fn lemma_run_ended(started: (AdapterState, StepState), outcomes: Seq<Outcome>)
    requires
        !(started.1 is Send),
        !(started.1 is Receive),
    ensures
        run(started, outcomes) == (Progress { state: started.0, step: started.1, outcomes }),
{
}

/// Sending the buffer and reading the response, in one go or one after the other.
proof fn lemma_flush_then_conclude(state: AdapterState, take: bool, outcomes: Seq<Outcome>)
    ensures
        run(state.flush_then_conclude(take), outcomes).same(
            run(state.send_buffer(), outcomes).then_run(
                |s: AdapterState| s.receive_then_conclude(take),
            ),
        ),
{
    let next = |s: AdapterState| s.receive_then_conclude(take);
    if state.commands.len() == 0 {
        lemma_run_ended(state.send_buffer(), outcomes);
        assert(next(state) == state.receive_then_conclude(take));
    } else if outcomes.len() > 0 {
        if let Outcome::Sent { result } = outcomes[0] {
            let tail = outcomes.skip(1);
            let emptied = AdapterState { commands: seq![], ..state.seal() };
            let rest = Rest::<Seq<JtagBit>>::Conclude { take };
            lemma_run_ended(state.seal().sent(AfterSend::Finish, result), tail);
            if let Err(_) = result {
                lemma_run_ended(state.seal().sent(AfterSend::Receive { rest }, result), tail);
            } else {
                assert(next(emptied) == emptied.receive_then_conclude(take));
            }
        }
    }
}

/// Finalizing the command and flushing the buffer, in one go or one after the other.
proof fn lemma_flush_and(state: AdapterState, take: bool, outcomes: Seq<Outcome>)
    ensures
        run(state.flush_and(take), outcomes).same(
            run(state.finalize_command(), outcomes).then_run(
                |s: AdapterState| s.flush_then_conclude(take),
            ),
        ),
{
    let next = |s: AdapterState| s.flush_then_conclude(take);
    let command = state.command;
    let bare = state.without_command();
    if command.len() == 0 {
        lemma_run_ended(state.finalize_command(), outcomes);
        assert(next(state) == state.flush_then_conclude(take));
    } else if state.has_room_for(command) {
        let stored = bare.store(command);
        lemma_run_ended(state.finalize_command(), outcomes);
        assert(next(stored) == stored.flush_then_conclude(take));
    } else {
        let rest = Rest::StoreThenFlush { command, take };
        let shorter = Rest::Store { command };
        assert forall|s: AdapterState, o: Seq<Outcome>|
            #![trigger run(s.after_response(rest), o)]
            run(s.after_response(rest), o).same(
                run(s.after_response(shorter), o).then_run(next),
            ) by {
            lemma_run_ended(s.after_response(shorter), o);
            assert(next(s.store(command)) == s.store(command).flush_then_conclude(take));
        }
        lemma_sending_follows(bare.seal(), rest, shorter, next, outcomes);
    }
}

/// A flush is nothing but finalizing the command, then sending the buffer, then reading the
/// response, where the first failure is the end of it.
pub proof fn law_flush_in_turn(state: AdapterState, outcomes: Seq<Outcome>)
    ensures
        run(state.flush_and(false), outcomes).same(
            run(state.finalize_command(), outcomes).then_run(
                |s: AdapterState| s.send_buffer(),
            ).then_run(|s: AdapterState| s.read_response()),
        ),
{
    let flush_buffer = |s: AdapterState| s.flush_then_conclude(false);
    let send = |s: AdapterState| s.send_buffer();
    let read = |s: AdapterState| s.read_response();
    let conclude = |s: AdapterState| s.receive_then_conclude(false);
    let finalized = run(state.finalize_command(), outcomes);
    lemma_flush_and(state, false, outcomes);
    if finalized.step is Done {
        lemma_flush_then_conclude(finalized.state, false, finalized.outcomes);
        let sent = run(finalized.state.send_buffer(), finalized.outcomes);
        assert(flush_buffer(finalized.state) == finalized.state.flush_then_conclude(false));
        assert(send(finalized.state) == finalized.state.send_buffer());
        assert(read(sent.state) == conclude(sent.state));
    }
}

/// Appending a command that there is no room for is nothing but sending the buffer, then reading
/// the response, then storing the command, where the first failure is the end of it.
pub proof fn law_append_command_in_turn(
    state: AdapterState,
    command: Seq<JtagBit>,
    outcomes: Seq<Outcome>,
)
    requires
        state.valid(),
        !state.has_room_for(command),
    ensures
        run(state.append_command(command), outcomes).same(
            run(state.send_buffer(), outcomes).then_run(
                |s: AdapterState| s.read_response(),
            ).then_run(|s: AdapterState| (s.store(command), StepState::Done)),
        ),
{
    let read = |s: AdapterState| s.read_response();
    let conclude = |s: AdapterState| s.receive_then_conclude(false);
    let store = |s: AdapterState| (s.store(command), StepState::Done);
    let rest = Rest::Store { command };
    let shorter = Rest::<Seq<JtagBit>>::Conclude { take: false };
    let sent = run(state.send_buffer(), outcomes);
    state.ftdi.lemma_valid_bounds();
    assert forall|s: AdapterState, o: Seq<Outcome>|
        #![trigger run(s.after_response(rest), o)]
        run(s.after_response(rest), o).same(run(s.after_response(shorter), o).then_run(store)) by {
        lemma_run_ended(s.after_response(shorter), o);
        assert(store(s) == s.after_response(rest));
    }
    lemma_sending_follows(state.seal(), rest, shorter, store, outcomes);
    lemma_flush_then_conclude(state, false, outcomes);
    assert(read(sent.state) == conclude(sent.state));
}

/// Reading the captured bits is nothing but a flush, and then handing out the bits, unless the
/// flush fails.
pub proof fn law_read_captured_bits_in_turn(state: AdapterState, outcomes: Seq<Outcome>)
    ensures
        run(state.flush_and(true), outcomes).same(
            run(state.flush_and(false), outcomes).then_run(|s: AdapterState| s.conclude(true)),
        ),
{
    let next = |s: AdapterState| s.conclude(true);
    let command = state.command;
    let bare = state.without_command();
    if command.len() == 0 {
        lemma_taking_flush(state, outcomes);
    } else if state.has_room_for(command) {
        lemma_taking_flush(bare.store(command), outcomes);
    } else {
        let rest = Rest::StoreThenFlush { command, take: true };
        let shorter = Rest::StoreThenFlush { command, take: false };
        assert forall|s: AdapterState, o: Seq<Outcome>|
            #![trigger run(s.after_response(rest), o)]
            run(s.after_response(rest), o).same(
                run(s.after_response(shorter), o).then_run(next),
            ) by {
            lemma_taking_flush(s.store(command), o);
        }
        lemma_sending_follows(bare.seal(), rest, shorter, next, outcomes);
    }
}

/// Flushing the buffer and handing out the captured bits, in one go or one after the other.
proof fn lemma_taking_flush(state: AdapterState, outcomes: Seq<Outcome>)
    ensures
        run(state.flush_then_conclude(true), outcomes).same(
            run(state.flush_then_conclude(false), outcomes).then_run(
                |s: AdapterState| s.conclude(true),
            ),
        ),
{
    let next = |s: AdapterState| s.conclude(true);
    let long = Rest::<Seq<JtagBit>>::Conclude { take: true };
    let short = Rest::<Seq<JtagBit>>::Conclude { take: false };
    assert forall|s: AdapterState, o: Seq<Outcome>|
        #![trigger run(s.after_response(long), o)]
        run(s.after_response(long), o).same(run(s.after_response(short), o).then_run(next)) by {
        lemma_run_ended(s.after_response(short), o);
        assert(next(s) == s.conclude(true));
    }
    if state.commands.len() > 0 {
        lemma_sending_follows(state.seal(), long, short, next, outcomes);
    } else if state.in_bit_counts.len() > 0 {
        let reading = ReadingState { reply: seq![], last_data: 0, rest: long };
        lemma_reading_follows(state, reading, short, next, outcomes);
    } else {
        lemma_run_ended(state.conclude(false), outcomes);
        lemma_run_ended(state.conclude(true), outcomes);
        assert(next(state) == state.conclude(true));
    }
}

} // verus!
