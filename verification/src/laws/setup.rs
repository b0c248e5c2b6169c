//! Setting a device up: what a setup does in all, and where it stops.

use crate::ftdaye::error::FtdiError;
use crate::laws::clock::law_clock_is_not_too_fast;
use crate::properties::{clock_divisor, divided_clock};
use crate::setup::{clock_actions, start_setup, DeviceAction, SetupState};
use crate::state::AdapterState;
use vstd::prelude::*;

verus! {

/// The state once the device has performed the actions in order, all of them with success.
pub open spec fn after_all(state: AdapterState, actions: Seq<DeviceAction>) -> AdapterState
    decreases actions.len(),
{
    if actions.len() == 0 {
        state
    } else {
        after_all(state, actions.drop_last()).after_action(actions.last())
    }
}

/// The state after two sequences of actions is the state after the second from the state after
/// the first.
proof fn lemma_after_all_concat(state: AdapterState, a: Seq<DeviceAction>, b: Seq<DeviceAction>)
    ensures
        after_all(state, a + b) == after_all(after_all(state, a), b),
    decreases b.len(),
{
    if b.len() == 0 {
        assert(a + b =~= a);
    } else {
        lemma_after_all_concat(state, a, b.drop_last());
        assert((a + b).drop_last() =~= a + b.drop_last());
    }
}

/// Actions that do not set the clock divisor change nothing.
proof fn lemma_after_all_unchanged(state: AdapterState, actions: Seq<DeviceAction>)
    requires
        forall|i: int| 0 <= i < actions.len() ==> !((#[trigger] actions[i]) is ConfigureClockDivider),
    ensures
        after_all(state, actions) == state,
    decreases actions.len(),
{
    if actions.len() > 0 {
        lemma_after_all_unchanged(state, actions.drop_last());
    }
}

/// Applying a clock speed leaves the adapter with the speed that the device then has, and with
/// nothing else changed.
pub proof fn law_applied_clock_speed(state: AdapterState, speed_khz: u32)
    requires
        state.valid(),
    ensures
        after_all(state, clock_actions(state.ftdi, speed_khz)) == (AdapterState {
            speed_khz: divided_clock(
                state.ftdi.max_clock,
                clock_divisor(state.ftdi.max_clock, speed_khz),
            ) as u32,
            ..state
        }),
{
    let actions = clock_actions(state.ftdi, speed_khz);
    if speed_khz > 0 {
        law_clock_is_not_too_fast(state.ftdi, speed_khz);
    }
    lemma_after_all_unchanged(state, actions.drop_last());
}

/// Attaching does the same with the speed that had been set.
pub proof fn law_attached_clock_speed(state: AdapterState)
    requires
        state.valid(),
    ensures
        after_all(state, state.attach_actions()) == after_all(
            state,
            clock_actions(state.ftdi, state.speed_khz),
        ),
{
    let actions = state.attach_actions();
    let clock = clock_actions(state.ftdi, state.speed_khz);
    let before = actions.take(6);
    let end = seq![DeviceAction::DisableLoopback];
    lemma_after_all_unchanged(state, before);
    lemma_after_all_concat(state, before, clock);
    lemma_after_all_concat(state, before + clock, end);
    lemma_after_all_unchanged(after_all(state, clock), end);
    assert(before + clock + end =~= actions);
}

/// How far a setup comes with the given outcomes of the device's actions, for as long as there is
/// an action to perform and an outcome of it: the state, where the setup stands, and how many
/// actions were performed.
pub open spec fn perform_all(
    state: AdapterState,
    step: SetupState,
    outcomes: Seq<Result<(), FtdiError>>,
) -> (AdapterState, SetupState, nat)
    decreases outcomes.len(),
{
    match step {
        SetupState::Perform(actions) if outcomes.len() > 0 => {
            let (state, step) = state.performed(actions, outcomes[0]);
            let (state, step, count) = perform_all(state, step, outcomes.skip(1));
            (state, step, count + 1)
        },
        _ => (state, step, 0),
    }
}

/// Whether an action has come to something with which the setup goes on.
pub open spec fn goes_on(action: DeviceAction, outcome: Result<(), FtdiError>) -> bool {
    outcome is Ok || action is DiscardInput
}

/// A setup comes past its first actions, as long as each of them comes to something with which it
/// goes on.
proof fn lemma_perform_all_prefix(
    state: AdapterState,
    actions: Seq<DeviceAction>,
    outcomes: Seq<Result<(), FtdiError>>,
    n: int,
)
    requires
        0 <= n <= actions.len(),
        n <= outcomes.len(),
        forall|i: int| 0 <= i < n ==> #[trigger] goes_on(actions[i], outcomes[i]),
    ensures
        ({
            let (after, step, count) = perform_all(
                after_all(state, actions.take(n)),
                start_setup(actions.skip(n)),
                outcomes.skip(n),
            );
            perform_all(state, start_setup(actions), outcomes) == (after, step, count + n as nat)
        }),
    decreases n,
{
    if n == 0 {
        assert(actions.skip(0) =~= actions);
        assert(outcomes.skip(0) =~= outcomes);
    } else {
        let first = state.after_action(actions[0]);
        let rest = actions.skip(1);
        let later = outcomes.skip(1);
        assert(goes_on(actions[0], outcomes[0]));
        assert forall|i: int| 0 <= i < n - 1 implies #[trigger] goes_on(rest[i], later[i]) by {
            assert(goes_on(actions[i + 1], outcomes[i + 1]));
        }
        lemma_perform_all_prefix(first, rest, later, n - 1);
        assert(rest.skip(n - 1) =~= actions.skip(n));
        assert(later.skip(n - 1) =~= outcomes.skip(n));
        let one = seq![actions[0]];
        assert(one + rest.take(n - 1) =~= actions.take(n));
        lemma_after_all_concat(state, one, rest.take(n - 1));
        assert(after_all(state, one) == first) by {
            reveal_with_fuel(after_all, 2);
            assert(one.drop_last() =~= Seq::<DeviceAction>::empty());
        }
        assert(state.performed(actions, outcomes[0]) == (first, start_setup(rest)));
    }
}

/// A setup stops at the first action that fails: its error is the result, no later action is
/// performed, and the state is the one after the actions before it. Failing to discard input does
/// not count as a failure.
pub proof fn law_setup_stops_at_first_failure(
    state: AdapterState,
    actions: Seq<DeviceAction>,
    outcomes: Seq<Result<(), FtdiError>>,
    j: int,
)
    requires
        0 <= j < actions.len(),
        j < outcomes.len(),
        outcomes[j] is Err,
        !(actions[j] is DiscardInput),
        forall|i: int| 0 <= i < j ==> #[trigger] goes_on(actions[i], outcomes[i]),
    ensures
        perform_all(state, start_setup(actions), outcomes) == (
            after_all(state, actions.take(j)),
            SetupState::Failed(outcomes[j]->Err_0),
            (j + 1) as nat,
        ),
{
    let before = after_all(state, actions.take(j));
    let rest = actions.skip(j);
    let later = outcomes.skip(j);
    lemma_perform_all_prefix(state, actions, outcomes, j);
    assert(before.performed(rest, later[0]) == (before, SetupState::Failed(outcomes[j]->Err_0)));
    reveal_with_fuel(perform_all, 2);
    assert(perform_all(before, start_setup(rest), later) == (
        before,
        SetupState::Failed(outcomes[j]->Err_0),
        1nat,
    ));
}

/// A setup in which no action fails succeeds, having performed every action once and in order.
/// Failing to discard input does not count as a failure.
pub proof fn law_setup_succeeds(
    state: AdapterState,
    actions: Seq<DeviceAction>,
    outcomes: Seq<Result<(), FtdiError>>,
)
    requires
        actions.len() <= outcomes.len(),
        forall|i: int| 0 <= i < actions.len() ==> #[trigger] goes_on(actions[i], outcomes[i]),
    ensures
        perform_all(state, start_setup(actions), outcomes) == (
            after_all(state, actions),
            SetupState::Done,
            actions.len(),
        ),
{
    lemma_perform_all_prefix(state, actions, outcomes, actions.len() as int);
    assert(actions.take(actions.len() as int) =~= actions);
}

/// A setup that fails before the clock divisor has been set, or in setting it, changes nothing:
/// in particular, the speed is still the one from before.
pub proof fn law_failed_setup_keeps_speed(
    state: AdapterState,
    actions: Seq<DeviceAction>,
    outcomes: Seq<Result<(), FtdiError>>,
    j: int,
)
    requires
        0 <= j < actions.len(),
        j < outcomes.len(),
        outcomes[j] is Err,
        !(actions[j] is DiscardInput),
        forall|i: int| 0 <= i < j ==> #[trigger] goes_on(actions[i], outcomes[i]),
        forall|i: int| 0 <= i < j ==> !((#[trigger] actions[i]) is ConfigureClockDivider),
    ensures
        perform_all(state, start_setup(actions), outcomes).0 == state,
{
    law_setup_stops_at_first_failure(state, actions, outcomes, j);
    assert forall|i: int| 0 <= i < actions.take(j).len() implies !((#[trigger] actions.take(
        j,
    )[i]) is ConfigureClockDivider) by {
        assert(!(actions[i] is ConfigureClockDivider));
    }
    lemma_after_all_unchanged(state, actions.take(j));
}

/// Applying a clock speed gives the speed that the device then has, or the error of the first
/// action that fails, and then nothing has changed.
pub proof fn law_apply_clock_speed(
    state: AdapterState,
    speed_khz: u32,
    outcomes: Seq<Result<(), FtdiError>>,
)
    requires
        state.valid(),
        outcomes.len() >= 2,
    ensures
        ({
            let speed = divided_clock(
                state.ftdi.max_clock,
                clock_divisor(state.ftdi.max_clock, speed_khz),
            );
            let setup = start_setup(clock_actions(state.ftdi, speed_khz));
            perform_all(state, setup, outcomes) == if outcomes[0] is Err {
                (state, SetupState::Failed(outcomes[0]->Err_0), 1nat)
            } else if outcomes[1] is Err {
                (state, SetupState::Failed(outcomes[1]->Err_0), 2nat)
            } else {
                (AdapterState { speed_khz: speed as u32, ..state }, SetupState::Done, 2nat)
            }
        }),
{
    let actions = clock_actions(state.ftdi, speed_khz);
    if outcomes[0] is Err {
        law_setup_stops_at_first_failure(state, actions, outcomes, 0);
        law_failed_setup_keeps_speed(state, actions, outcomes, 0);
    } else if outcomes[1] is Err {
        law_setup_stops_at_first_failure(state, actions, outcomes, 1);
        law_failed_setup_keeps_speed(state, actions, outcomes, 1);
    } else {
        law_setup_succeeds(state, actions, outcomes);
        law_applied_clock_speed(state, speed_khz);
    }
}

/// Attaching succeeds if no action fails, each action having been performed once and in order, and
/// leaves the adapter with the speed that the device then has.
pub proof fn law_successful_attach(state: AdapterState, outcomes: Seq<Result<(), FtdiError>>)
    requires
        state.valid(),
        state.attach_actions().len() <= outcomes.len(),
        forall|i: int|
            0 <= i < state.attach_actions().len() ==> #[trigger] goes_on(
                state.attach_actions()[i],
                outcomes[i],
            ),
    ensures
        perform_all(state, start_setup(state.attach_actions()), outcomes) == (
            after_all(state, clock_actions(state.ftdi, state.speed_khz)),
            SetupState::Done,
            state.attach_actions().len(),
        ),
{
    law_setup_succeeds(state, state.attach_actions(), outcomes);
    law_attached_clock_speed(state);
}

/// Where attaching fails, it is with the error of the first action that fails, and no later action
/// is performed. If that was the last action, the speed is the one that the device then has, else
/// nothing has changed.
pub proof fn law_failed_attach(
    state: AdapterState,
    outcomes: Seq<Result<(), FtdiError>>,
    j: int,
)
    requires
        state.valid(),
        0 <= j < state.attach_actions().len(),
        j < outcomes.len(),
        outcomes[j] is Err,
        !(state.attach_actions()[j] is DiscardInput),
        forall|i: int|
            0 <= i < j ==> #[trigger] goes_on(state.attach_actions()[i], outcomes[i]),
    ensures
        perform_all(state, start_setup(state.attach_actions()), outcomes) == (
            if j < state.attach_actions().len() - 1 {
                state
            } else {
                after_all(state, clock_actions(state.ftdi, state.speed_khz))
            },
            SetupState::Failed(outcomes[j]->Err_0),
            (j + 1) as nat,
        ),
{
    let actions = state.attach_actions();
    law_setup_stops_at_first_failure(state, actions, outcomes, j);
    if j < actions.len() - 1 {
        law_failed_setup_keeps_speed(state, actions, outcomes, j);
    } else {
        law_attached_clock_speed(state);
        assert(actions.drop_last() =~= actions.take(j));
    }
}

} // verus!
