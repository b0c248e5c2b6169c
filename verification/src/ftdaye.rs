//! What is known of FTDI chips and of the ways in which talking to one fails.

use vstd::prelude::*;

pub mod error;

verus! {

/// The families of FTDI chips.
#[derive(Clone, Copy, Debug, PartialEq, Eq, Structural)]
pub enum ChipType {
    Am,
    Bm,
    FT2232C,
    R,
    FT2232H,
    FT4232H,
    FT232H,
    FT230X,
}

} // verus!
