//! Errors of the chip and its USB connection.

use super::ChipType;
use vstd::prelude::*;

verus! {

/// The I/O error of std, carried through as it is.
#[verifier::external_type_specification]
#[verifier::external_body]
pub struct ExIoError(std::io::Error);

/// What can go wrong with an FTDI chip.
#[derive(Debug)]
pub enum FtdiError {
    /// USB communication failed.
    Usb(std::io::Error),
    /// The chip has no MPSSE.
    UnsupportedChipType(ChipType),
}

impl From<std::io::Error> for FtdiError {
    fn from(err: std::io::Error) -> (wrapped: Self) {
        FtdiError::Usb(err)
    }
}

impl vstd::std_specs::convert::FromSpecImpl<std::io::Error> for FtdiError {
    open spec fn obeys_from_spec() -> bool {
        true
    }

    open spec fn from_spec(err: std::io::Error) -> Self {
        FtdiError::Usb(err)
    }
}

} // verus!
