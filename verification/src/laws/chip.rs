//! What the chip is like once it has been set up.

use crate::ftdaye::error::FtdiError;
use crate::laws::clock::law_clock_is_not_too_fast;
use crate::laws::setup::{after_all, goes_on, law_applied_clock_speed, law_attached_clock_speed};
use crate::properties::{clock_divisor, divided_clock};
use crate::setup::{clock_actions, pin_levels, start_setup, DeviceAction, SetupState};
use crate::state::AdapterState;
use vstd::prelude::*;

verus! {

/// What matters of an FTDI chip while it is being set up.
pub struct Chip {
    /// The output pins of the MPSSE, if the chip is in MPSSE mode.
    pub mpsse: Option<u8>,
    /// The latency timer, in milliseconds.
    pub latency_ms: u8,
    /// Whether the buffers of the chip may hold something from before.
    pub stale_buffers: bool,
    /// Whether there may be input from before that the host has not read.
    pub stale_input: bool,
    /// The levels and the directions of the pins.
    pub pins: (u16, u16),
    /// Whether the divide-by-5 clock mode is on.
    pub divide_by_5: bool,
    /// The clock divisor.
    pub divisor: u16,
    /// Whether TDI is connected to TDO inside the chip.
    pub loopback: bool,
}

impl Chip {
    /// The chip once it has performed an action. A reset ends MPSSE mode. Pins, clock and loopback
    /// are matters of the MPSSE, and cannot be set without it. Input is only gone for good if the
    /// buffers behind it are empty.
    pub open spec fn after(self, action: DeviceAction) -> Chip {
        match action {
            DeviceAction::UsbReset => Chip {
                mpsse: None,
                stale_buffers: true,
                stale_input: true,
                ..self
            },
            DeviceAction::EnterMpsse { pins } => Chip {
                mpsse: Some(pins),
                stale_buffers: true,
                stale_input: true,
                ..self
            },
            DeviceAction::SetLatencyTimer { ms } => Chip { latency_ms: ms, ..self },
            DeviceAction::PurgeBuffers => Chip { stale_buffers: false, ..self },
            DeviceAction::DiscardInput => Chip { stale_input: self.stale_buffers, ..self },
            _ if self.mpsse is None => self,
            DeviceAction::SetPins { output, direction } => Chip {
                pins: (output, direction),
                ..self
            },
            DeviceAction::DisableDivideBy5 => Chip { divide_by_5: false, ..self },
            DeviceAction::EnableDivideBy5 => Chip { divide_by_5: true, ..self },
            DeviceAction::ConfigureClockDivider { divisor } => Chip { divisor, ..self },
            DeviceAction::DisableLoopback => Chip { loopback: false, ..self },
        }
    }

    /// The chip once it has performed some actions, first one first.
    pub open spec fn after_each(self, actions: Seq<DeviceAction>) -> Chip
        decreases actions.len(),
    {
        if actions.len() == 0 {
            self
        } else {
            self.after(actions[0]).after_each(actions.skip(1))
        }
    }

    /// What the divisor divides, in kHz: half of 60 MHz, or of 12 MHz with divide-by-5.
    pub open spec fn base_khz(self) -> int {
        if self.divide_by_5 {
            6_000
        } else {
            30_000
        }
    }

    /// The frequency of TCK in kHz, rounded down.
    pub open spec fn tck_khz(self) -> int {
        self.base_khz() / (self.divisor + 1)
    }
}

/// A chip that performs two actions performs the one and then the other.
proof fn lemma_after_two(chip: Chip, actions: Seq<DeviceAction>)
    requires
        actions.len() == 2,
    ensures
        chip.after_each(actions) == chip.after(actions[0]).after(actions[1]),
{
    reveal_with_fuel(Chip::after_each, 3);
    assert(actions.skip(1)[0] == actions[1]);
}

/// For every speed, setting the clock takes divide-by-5 off exactly if the chip can do without
/// it, and TCK then runs at the speed that is reported: not faster than asked for, and at the
/// maximum if 0 is asked for. Nothing but the clock is touched.
pub proof fn law_clock_runs_as_reported(state: AdapterState, speed_khz: u32, chip: Chip)
    requires
        state.valid(),
        chip.mpsse is Some,
    ensures
        ({
            let actions = clock_actions(state.ftdi, speed_khz);
            let reported = divided_clock(
                state.ftdi.max_clock,
                clock_divisor(state.ftdi.max_clock, speed_khz),
            );
            let set = chip.after_each(actions);
            &&& set == Chip { divide_by_5: set.divide_by_5, divisor: set.divisor, ..chip }
            &&& set.divide_by_5 == !state.ftdi.has_divide_by_5
            &&& set.base_khz() == state.ftdi.max_clock
            &&& set.tck_khz() == reported
            &&& reported * (set.divisor + 1) <= set.base_khz()
            &&& set.base_khz() < (reported + 1) * (set.divisor + 1)
            &&& after_all(state, actions).speed_khz == set.tck_khz()
            &&& speed_khz > 0 ==> set.base_khz() <= speed_khz * (set.divisor + 1)
            &&& speed_khz == 0 ==> set.tck_khz() == set.base_khz()
        }),
{
    let actions = clock_actions(state.ftdi, speed_khz);
    let divisor = clock_divisor(state.ftdi.max_clock, speed_khz);
    let max = state.ftdi.max_clock as int;
    let reported = divided_clock(state.ftdi.max_clock, divisor);
    lemma_after_two(chip, actions);
    law_applied_clock_speed(state, speed_khz);
    if speed_khz > 0 {
        law_clock_is_not_too_fast(state.ftdi, speed_khz);
    }
    assert(reported * (divisor + 1) <= max < (reported + 1) * (divisor + 1)) by {
        vstd::arithmetic::div_mod::lemma_fundamental_div_mod(max, divisor + 1);
        assert((reported + 1) * (divisor + 1) == (divisor + 1) * reported + (divisor + 1))
            by (nonlinear_arith);
        assert(reported * (divisor + 1) == (divisor + 1) * reported) by (nonlinear_arith);
    }
    assert(max / 1 == max);
}

/// Setting the clock is a matter of the divide-by-5 mode, once, and then of the divisor, once.
pub proof fn law_clock_is_set_by_two_actions(state: AdapterState, speed_khz: u32)
    requires
        state.valid(),
    ensures
        ({
            let actions = clock_actions(state.ftdi, speed_khz);
            &&& actions.len() == 2
            &&& actions[0] is DisableDivideBy5 <==> state.ftdi.has_divide_by_5
            &&& actions[0] is EnableDivideBy5 <==> !state.ftdi.has_divide_by_5
            &&& actions[1] is ConfigureClockDivider
        }),
{
}

/// Whatever the device is, TCK, TDI and TMS are outputs and TDO is an input, TMS starts high and
/// the other two low, and no level is set on a pin that is not an output.
pub proof fn law_pins_suit_jtag(vendor_id: u16, product_id: u16, product: Option<Seq<char>>)
    ensures
        ({
            let (output, direction) = pin_levels(vendor_id, product_id, product);
            &&& direction & 0x000f == 0x000b
            &&& output & 0x000b == 0x0008
            &&& output & direction == output
        }),
{
    assert(0x308bu16 & 0x000f == 0x000b && 0x2088u16 & 0x000b == 0x0008 && 0x2088u16 & 0x308b
        == 0x2088) by (bit_vector);
    assert(0x60ebu16 & 0x000f == 0x000b && 0x00e8u16 & 0x000b == 0x0008 && 0x00e8u16 & 0x60eb
        == 0x00e8) by (bit_vector);
    assert(0x008bu16 & 0x000f == 0x000b && 0x0088u16 & 0x000b == 0x0008 && 0x0088u16 & 0x008b
        == 0x0088) by (bit_vector);
    assert(0x000bu16 & 0x000f == 0x000b && 0x0008u16 & 0x000b == 0x0008 && 0x0008u16 & 0x000b
        == 0x0008) by (bit_vector);
}

/// Only three cables have pins of their own, each told by its vendor, its product and its name
/// together. Every other device has one and the same layout.
pub proof fn law_pins_of_other_devices(vendor_id: u16, product_id: u16, product: Option<Seq<char>>)
    ensures
        ({
            let usb = product == Some("Digilent USB Device"@);
            let adept = product == Some("Digilent Adept USB Device"@);
            let layout = pin_levels(vendor_id, product_id, product);
            &&& vendor_id != 0x0403 ==> layout == (0x0008u16, 0x000bu16)
            &&& product_id != 0x6014 && product_id != 0x6010 ==> layout == (0x0008u16, 0x000bu16)
            &&& !usb && !adept ==> layout == (0x0008u16, 0x000bu16)
            &&& product_id == 0x6010 && !adept ==> layout == (0x0008u16, 0x000bu16)
            &&& vendor_id == 0x0403 && product_id == 0x6014 && usb ==> layout == (
                0x2088u16,
                0x308bu16,
            )
            &&& vendor_id == 0x0403 && product_id == 0x6014 && adept ==> layout == (
                0x00e8u16,
                0x60ebu16,
            )
            &&& vendor_id == 0x0403 && product_id == 0x6010 && adept ==> layout == (
                0x0088u16,
                0x008bu16,
            )
        }),
{
    reveal_strlit("Digilent USB Device");
    reveal_strlit("Digilent Adept USB Device");
    assert("Digilent USB Device"@.len() != "Digilent Adept USB Device"@.len());
}

/// Whatever the chip and whatever its state, attaching resets it once, and first, then enters
/// MPSSE mode on the JTAG pins, sets the latency timer to a millisecond, purges the buffers,
/// discards the input, sets the pins to the layout of the device, sets the clock to the speed
/// that was asked for, and disables the loopback last.
pub proof fn law_attach_in_order(state: AdapterState)
    requires
        state.valid(),
    ensures
        ({
            let actions = state.attach_actions();
            let (output, direction) = pin_levels(
                state.vendor_id,
                state.product_id,
                state.product,
            );
            &&& actions.len() == 9
            &&& actions[0] is UsbReset
            &&& actions[1] == DeviceAction::EnterMpsse { pins: 0x0b }
            &&& actions[2] == DeviceAction::SetLatencyTimer { ms: 1 }
            &&& actions[3] is PurgeBuffers
            &&& actions[4] is DiscardInput
            &&& actions[5] == DeviceAction::SetPins { output, direction }
            &&& actions.subrange(6, 8) == clock_actions(state.ftdi, state.speed_khz)
            &&& actions[8] is DisableLoopback
            &&& forall|i: int| 0 < i < actions.len() ==> !((#[trigger] actions[i]) is UsbReset)
            &&& forall|i: int|
                0 <= i < actions.len() && i != 1 ==> !((#[trigger] actions[i]) is EnterMpsse)
        }),
{
    let actions = state.attach_actions();
    assert(actions.subrange(6, 8) =~= clock_actions(state.ftdi, state.speed_khz));
}

/// Whatever state a chip is in, attaching leaves it in MPSSE mode with the pins of the device,
/// with nothing left over from before, without loopback, and with TCK at the speed that the
/// adapter then reports, which is not faster than the one that had been set.
pub proof fn law_attached_chip_is_ready(state: AdapterState, chip: Chip)
    requires
        state.valid(),
    ensures
        ({
            let set = chip.after_each(state.attach_actions());
            &&& set.mpsse == Some(0x0bu8)
            &&& set.latency_ms == 1
            &&& !set.stale_buffers
            &&& !set.stale_input
            &&& set.pins == pin_levels(state.vendor_id, state.product_id, state.product)
            &&& set.divide_by_5 == !state.ftdi.has_divide_by_5
            &&& !set.loopback
            &&& set.tck_khz() == after_all(state, state.attach_actions()).speed_khz
            &&& state.speed_khz > 0 ==> set.base_khz() <= state.speed_khz * (set.divisor + 1)
        }),
{
    let actions = state.attach_actions();
    let clock = clock_actions(state.ftdi, state.speed_khz);
    law_attach_in_order(state);
    law_attached_clock_speed(state);
    let c1 = chip.after(actions[0]);
    let c2 = c1.after(actions[1]);
    let c3 = c2.after(actions[2]);
    let c4 = c3.after(actions[3]);
    let c5 = c4.after(actions[4]);
    let c6 = c5.after(actions[5]);
    law_clock_runs_as_reported(state, state.speed_khz, c6);
    lemma_after_two(c6, clock);
    assert(actions[6] == actions.subrange(6, 8)[0]);
    assert(actions[7] == actions.subrange(6, 8)[1]);
    let set = c6.after_each(clock).after(actions[8]);
    assert(chip.after_each(actions) == set) by {
        reveal_with_fuel(Chip::after_each, 10);
        assert(actions.skip(1).skip(1) =~= actions.skip(2));
        assert(actions.skip(2).skip(1) =~= actions.skip(3));
        assert(actions.skip(3).skip(1) =~= actions.skip(4));
        assert(actions.skip(4).skip(1) =~= actions.skip(5));
        assert(actions.skip(5).skip(1) =~= actions.skip(6));
        assert(actions.skip(6).skip(1) =~= actions.skip(7));
        assert(actions.skip(7).skip(1) =~= actions.skip(8));
        assert(actions.skip(8).skip(1) =~= actions.skip(9));
    }
}

/// The actions that the device is asked for in a setup with the given outcomes, for as long as
/// there is an outcome.
pub open spec fn asked(
    state: AdapterState,
    step: SetupState,
    outcomes: Seq<Result<(), FtdiError>>,
) -> Seq<DeviceAction>
    decreases outcomes.len(),
{
    match step {
        SetupState::Perform(actions) if outcomes.len() > 0 => {
            let (after, next) = state.performed(actions, outcomes[0]);
            seq![actions[0]] + asked(after, next, outcomes.skip(1))
        },
        _ => seq![],
    }
}

/// The device is asked for the actions of a setup one by one, in order, up to and with the first
/// one that fails.
pub proof fn law_setup_asks_in_order(
    state: AdapterState,
    actions: Seq<DeviceAction>,
    outcomes: Seq<Result<(), FtdiError>>,
    n: int,
)
    requires
        0 <= n <= actions.len(),
        n <= outcomes.len(),
        n == actions.len() || n == outcomes.len() || (n > 0 && outcomes[n - 1] is Err
            && !(actions[n - 1] is DiscardInput)),
        forall|i: int| 0 <= i < n - 1 ==> #[trigger] goes_on(actions[i], outcomes[i]),
    ensures
        asked(state, start_setup(actions), outcomes) == actions.take(n),
    decreases n,
{
    if n == 0 {
        assert(actions.take(0) =~= Seq::<DeviceAction>::empty());
    } else {
        let (after, next) = state.performed(actions, outcomes[0]);
        let rest = actions.skip(1);
        let later = outcomes.skip(1);
        if goes_on(actions[0], outcomes[0]) {
            assert forall|i: int| 0 <= i < n - 2 implies #[trigger] goes_on(rest[i], later[i]) by {
                assert(goes_on(actions[i + 1], outcomes[i + 1]));
            }
            law_setup_asks_in_order(after, rest, later, n - 1);
            assert(next == start_setup(rest));
        } else {
            assert(n == 1);
            assert(asked(after, next, later) =~= Seq::<DeviceAction>::empty());
        }
        assert(seq![actions[0]] + rest.take(n - 1) =~= actions.take(n) || n == 1);
        assert(asked(state, start_setup(actions), outcomes) =~= actions.take(n));
    }
}

} // verus!
