//! Errors of the JTAG adapter.

use crate::ftdaye::error::FtdiError;
use vstd::prelude::*;

verus! {

/// What can go wrong while using a JTAG adapter.
#[derive(Debug)]
pub enum JtagProbeError {
    /// USB communication failed.
    Usb(std::io::Error),
    /// An error which is specific to the chip in use occurred.
    FtdiError(FtdiError),
    /// Some other error occurred.
    Other(String),
    /// The device stayed silent for too long.
    Timeout,
}

/// The view of a [`JtagProbeError`]: the same error, with its text as a sequence.
pub enum ProbeFailure {
    Usb(std::io::Error),
    FtdiError(FtdiError),
    Other(Seq<char>),
    Timeout,
}

impl View for JtagProbeError {
    type V = ProbeFailure;

    open spec fn view(&self) -> ProbeFailure {
        match *self {
            JtagProbeError::Usb(err) => ProbeFailure::Usb(err),
            JtagProbeError::FtdiError(err) => ProbeFailure::FtdiError(err),
            JtagProbeError::Other(text) => ProbeFailure::Other(text@),
            JtagProbeError::Timeout => ProbeFailure::Timeout,
        }
    }
}

impl From<FtdiError> for JtagProbeError {
    /// A USB error stays one; anything else is an error of the chip.
    fn from(err: FtdiError) -> (wrapped: Self) {
        match err {
            FtdiError::Usb(error) => JtagProbeError::Usb(error),
            ftdi_err => JtagProbeError::FtdiError(ftdi_err),
        }
    }
}

impl vstd::std_specs::convert::FromSpecImpl<FtdiError> for JtagProbeError {
    open spec fn obeys_from_spec() -> bool {
        true
    }

    open spec fn from_spec(err: FtdiError) -> Self {
        match err {
            FtdiError::Usb(error) => JtagProbeError::Usb(error),
            _ => JtagProbeError::FtdiError(err),
        }
    }
}

} // verus!
