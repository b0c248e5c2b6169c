//! Setting a device up for JTAG.

use crate::ftdaye::error::FtdiError;
use crate::properties::{clock_divisor, divided_clock, FtdiProperties};
use crate::state::AdapterState;
use vstd::prelude::*;

verus! {

/// The pins of a JTAG port: TCK, TDI and TMS are outputs, TDO is an input.
pub const JTAG_PINS: u8 = 0x0b;

/// The latency timer while JTAG is in use, in milliseconds.
pub const LATENCY_MS: u8 = 1;

/// Something that the device has to do while it is being set up.
#[derive(Clone, Copy, Debug, PartialEq, Eq, Structural)]
pub enum DeviceAction {
    /// Reset the USB side of the chip.
    UsbReset,
    /// Switch to MPSSE mode, with the given pins as outputs.
    EnterMpsse { pins: u8 },
    /// Set the latency timer, in milliseconds.
    SetLatencyTimer { ms: u8 },
    /// Purge the buffers of the chip.
    PurgeBuffers,
    /// Read everything that the chip still has, and forget it.
    DiscardInput,
    /// Set the levels and the directions of the pins.
    SetPins { output: u16, direction: u16 },
    /// Switch the divide-by-5 clock mode off.
    DisableDivideBy5,
    /// Switch the divide-by-5 clock mode on.
    EnableDivideBy5,
    /// Set the clock divisor.
    ConfigureClockDivider { divisor: u16 },
    /// Disconnect TDI from TDO inside the chip.
    DisableLoopback,
}

/// The levels and the directions of the pins that a device wants.
pub open spec fn pin_levels(vendor_id: u16, product_id: u16, product: Option<Seq<char>>) -> (
    u16,
    u16,
) {
    if vendor_id == 0x0403 && product_id == 0x6014 && product == Some("Digilent USB Device"@) {
        // Digilent HS3
        (0x2088, 0x308b)
    } else if vendor_id == 0x0403 && product_id == 0x6014 && product == Some(
        "Digilent Adept USB Device"@,
    ) {
        // Digilent HS2
        (0x00e8, 0x60eb)
    } else if vendor_id == 0x0403 && product_id == 0x6010 && product == Some(
        "Digilent Adept USB Device"@,
    ) {
        // Digilent HS1
        (0x0088, 0x008b)
    } else {
        // Other devices: TMS starts high; TMS, TDI and TCK are outputs.
        (0x0008, 0x000b)
    }
}

/// What the device has to do for a wanted clock speed, in order.
pub open spec fn clock_actions(ftdi: FtdiProperties, speed_khz: u32) -> Seq<DeviceAction> {
    seq![
        if ftdi.has_divide_by_5 {
            DeviceAction::DisableDivideBy5
        } else {
            DeviceAction::EnableDivideBy5
        },
        DeviceAction::ConfigureClockDivider {
            divisor: clock_divisor(ftdi.max_clock, speed_khz) as u16,
        },
    ]
}

impl AdapterState {
    /// What the device has to do to be attached, in order.
    pub open spec fn attach_actions(self) -> Seq<DeviceAction> {
        let (output, direction) = pin_levels(self.vendor_id, self.product_id, self.product);
        seq![
            DeviceAction::UsbReset,
            DeviceAction::EnterMpsse { pins: JTAG_PINS },
            DeviceAction::SetLatencyTimer { ms: LATENCY_MS },
            DeviceAction::PurgeBuffers,
            DeviceAction::DiscardInput,
            DeviceAction::SetPins { output, direction },
        ] + clock_actions(self.ftdi, self.speed_khz) + seq![DeviceAction::DisableLoopback]
    }

    /// The state once the device has done something: a new clock divisor means a new speed.
    pub open spec fn after_action(self, action: DeviceAction) -> AdapterState {
        match action {
            DeviceAction::ConfigureClockDivider { divisor } => AdapterState {
                speed_khz: divided_clock(self.ftdi.max_clock, divisor as int) as u32,
                ..self
            },
            _ => self,
        }
    }

    /// What comes of the first of some actions of the device. A success leads on to the next
    /// action, a failure ends the setup, and no other action is performed; except that nobody
    /// minds if there was no input to discard.
    pub open spec fn performed(
        self,
        actions: Seq<DeviceAction>,
        outcome: Result<(), FtdiError>,
    ) -> (AdapterState, SetupState) {
        match outcome {
            Ok(_) => (self.after_action(actions[0]), start_setup(actions.skip(1))),
            Err(err) => {
                if actions[0] is DiscardInput {
                    (self, start_setup(actions.skip(1)))
                } else {
                    (self, SetupState::Failed(err))
                }
            },
        }
    }
}

/// Where a setup stands.
pub enum SetupState {
    /// It has succeeded.
    Done,
    /// It has failed.
    Failed(FtdiError),
    /// The device has to perform the first of these actions; the others may follow.
    Perform(Seq<DeviceAction>),
}

/// A setup of which nothing has been done yet.
pub open spec fn start_setup(actions: Seq<DeviceAction>) -> SetupState {
    if actions.len() == 0 {
        SetupState::Done
    } else {
        SetupState::Perform(actions)
    }
}

/// Where a setup stands.
#[derive(Debug)]
pub enum SetupStep {
    /// The setup has succeeded.
    Done,
    /// The setup has failed.
    Failed(FtdiError),
    /// Have the device perform [`Setup::action`], then go on with
    /// [`crate::JtagAdapter::performed`].
    Perform(Setup),
}

/// A setup that waits for the device. Its view is the actions that are not done yet.
#[derive(Debug)]
pub struct Setup {
    actions: Vec<DeviceAction>,
    next: usize,
}

impl View for Setup {
    type V = Seq<DeviceAction>;

    closed spec fn view(&self) -> Seq<DeviceAction> {
        self.actions@.skip(self.next as int)
    }
}

impl Setup {
    /// There is an action that is not done yet.
    pub closed spec fn wf(&self) -> bool {
        self.next < self.actions@.len()
    }

    /// What the device has to do now.
    pub fn action(&self) -> (action: DeviceAction)
        requires
            self.wf(),
        ensures
            action == self@[0],
    {
        self.actions[self.next]
    }
}

impl View for SetupStep {
    type V = SetupState;

    open spec fn view(&self) -> SetupState {
        match *self {
            SetupStep::Done => SetupState::Done,
            SetupStep::Failed(err) => SetupState::Failed(err),
            SetupStep::Perform(setup) => SetupState::Perform(setup@),
        }
    }
}

impl SetupStep {
    /// If the device has to do something, there is something to do.
    pub open spec fn wf(&self) -> bool {
        self matches SetupStep::Perform(setup) ==> setup.wf()
    }

    /// The setup that consists of some actions.
    pub(crate) fn start(actions: Vec<DeviceAction>) -> (step: Self)
        ensures
            step.wf(),
            step@ == start_setup(actions@),
    {
        if actions.len() == 0 {
            SetupStep::Done
        } else {
            let setup = Setup { actions, next: 0 };
            assert(setup@ =~= actions@);
            SetupStep::Perform(setup)
        }
    }

    /// What is left of a setup once its first action is done.
    pub(crate) fn after_first(setup: Setup) -> (step: Self)
        requires
            setup.wf(),
        ensures
            step.wf(),
            step@ == start_setup(setup@.skip(1)),
    {
        let Setup { actions, next } = setup;
        if next == actions.len() - 1 {
            SetupStep::Done
        } else {
            let rest = Setup { actions, next: next + 1 };
            assert(rest@ =~= setup@.skip(1));
            SetupStep::Perform(rest)
        }
    }
}

} // verus!
