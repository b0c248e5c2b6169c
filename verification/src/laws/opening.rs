//! Opening: which chips are taken, and what an adapter starts out as.

use crate::adapter::{data_of, text_of};
use crate::error::{JtagProbeError, ProbeFailure};
use crate::ftdaye::error::FtdiError;
use crate::ftdaye::ChipType;
use crate::laws::exchange::{law_idle_adapter, outstanding, sendable, synchronized};
use crate::properties::{effective_chip_type, mpsse_properties, FtdiDevice, FtdiProperties};
use crate::setup::{SetupState, SetupStep};
use crate::state::{AdapterState, StepState};
use crate::step::Step;
use vstd::prelude::*;
use vstd::std_specs::convert::{FromSpec, TryFromSpec};

verus! {

/// Whether a chip has an MPSSE.
pub open spec fn has_mpsse(chip_type: ChipType) -> bool {
    chip_type is FT2232C || chip_type is FT2232H || chip_type is FT4232H || chip_type is FT232H
}

/// A chip that was recognized is taken for what it is, whatever the fallback would have been and
/// whatever the IDs are. One that was not is treated just as if its fallback had been recognized.
pub proof fn law_detected_chip_counts(f: FtdiDevice, g: FtdiDevice, chip_type: ChipType)
    ensures
        effective_chip_type(f, Some(chip_type)) == chip_type,
        effective_chip_type(f, None) == f.fallback_chip_type,
        FtdiProperties::try_from_spec((f, Some(chip_type))) == FtdiProperties::try_from_spec(
            (g, Some(chip_type)),
        ),
        FtdiProperties::try_from_spec((f, None)) == FtdiProperties::try_from_spec(
            (g, Some(f.fallback_chip_type)),
        ),
        match FtdiProperties::try_from_spec((f, Some(chip_type))) {
            Ok(properties) => has_mpsse(chip_type) && mpsse_properties(chip_type) == Some(
                properties,
            ),
            Err(err) => !has_mpsse(chip_type) && mpsse_properties(chip_type) is None && err
                == FtdiError::UnsupportedChipType(chip_type),
        },
        <FtdiProperties as TryFromSpec<(FtdiDevice, Option<ChipType>)>>::obeys_try_from_spec(),
{
}

/// Just the chips with an MPSSE have properties. The high-speed ones can do without divide-by-5
/// and so reach half of 60 MHz, the other one has half of 12 MHz.
pub proof fn law_properties_of_chips(chip_type: ChipType)
    ensures
        mpsse_properties(chip_type) is Some <==> has_mpsse(chip_type),
        mpsse_properties(chip_type) matches Some(properties) ==> {
            &&& properties.has_divide_by_5 <==> !(chip_type is FT2232C)
            &&& properties.max_clock == if properties.has_divide_by_5 {
                60_000u32 / 2
            } else {
                12_000u32 / 2
            }
            &&& chip_type is FT2232C ==> properties.buffer_size == 128
            &&& chip_type is FT232H ==> properties.buffer_size == 1024
            &&& chip_type is FT2232H || chip_type is FT4232H ==> properties.buffer_size == 4096
        },
{
}

/// An adapter that has just been opened knows its device, runs at one megahertz, and has nothing
/// to send, nothing to read and nothing captured.
pub proof fn law_opened_adapter_is_idle(
    vendor_id: u16,
    product_id: u16,
    product: Option<Seq<char>>,
    chip_type: ChipType,
)
    requires
        has_mpsse(chip_type),
    ensures
        ({
            let ftdi = mpsse_properties(chip_type)->Some_0;
            let state = AdapterState::opened(vendor_id, product_id, product, ftdi);
            &&& state.valid()
            &&& state.vendor_id == vendor_id
            &&& state.product_id == product_id
            &&& state.product == product
            &&& state.ftdi == ftdi
            &&& state.speed_khz == 1000
            &&& outstanding(state, StepState::Done).len() == 0
            &&& state.commands.len() == 0
            &&& state.command.len() == 0
            &&& state.in_bit_counts.len() == 0
            &&& state.in_bits.len() == 0
            &&& sendable(state)
            &&& synchronized(state)
        }),
{
    let ftdi = mpsse_properties(chip_type)->Some_0;
    let state = AdapterState::opened(vendor_id, product_id, product, ftdi);
    assert(mpsse_properties(chip_type) == Some(ftdi));
    assert(state.valid());
    law_idle_adapter(state);
}

/// What the device says of itself, and what is read from it, is taken as it is.
pub proof fn law_device_is_taken_at_its_word(text: String, data: Vec<u8>, err: std::io::Error)
    ensures
        text_of(Some(text)) == Some(text@),
        text_of(None) is None,
        data_of(Ok(data)) == Ok::<Seq<u8>, std::io::Error>(data@),
        data_of(Err(err)) == Err::<Seq<u8>, std::io::Error>(err),
{
}

/// An error of the USB connection stays one, with the cause that it has, on all ways to the
/// caller. Any other error of the chip is wrapped whole.
pub proof fn law_errors_keep_their_cause(err: std::io::Error, chip_type: ChipType)
    ensures
        FtdiError::from_spec(err) == FtdiError::Usb(err),
        JtagProbeError::from_spec(FtdiError::from_spec(err)) == JtagProbeError::Usb(err),
        JtagProbeError::from_spec(FtdiError::UnsupportedChipType(chip_type))
            == JtagProbeError::FtdiError(FtdiError::UnsupportedChipType(chip_type)),
        <FtdiError as FromSpec<std::io::Error>>::obeys_from_spec(),
        <JtagProbeError as FromSpec<FtdiError>>::obeys_from_spec(),
{
}

/// The view of an error is the same error.
pub proof fn law_error_view(err: JtagProbeError)
    ensures
        match err@ {
            ProbeFailure::Usb(cause) => err == JtagProbeError::Usb(cause),
            ProbeFailure::FtdiError(cause) => err == JtagProbeError::FtdiError(cause),
            ProbeFailure::Other(text) => err matches JtagProbeError::Other(s) && s@ == text,
            ProbeFailure::Timeout => err is Timeout,
        },
{
}

/// The view of a step is the same step.
pub proof fn law_step_view(step: Step, setup: SetupStep)
    ensures
        match step@ {
            StepState::Done => step is Done,
            StepState::Captured(bits) => step matches Step::Captured(b) && b@ == bits,
            StepState::Failed(failure) => step matches Step::Failed(err) && err@ == failure,
            StepState::Send(_) => step is Send,
            StepState::Receive(_) => step is Receive,
        },
        match setup@ {
            SetupState::Done => setup is Done,
            SetupState::Failed(err) => setup == SetupStep::Failed(err),
            SetupState::Perform(actions) => setup matches SetupStep::Perform(s) && s@ == actions,
        },
{
}

} // verus!
