//! The factory for FTDI probes.

use vstd::prelude::*;
use vstd::string::*;

verus! {

/// A factory for creating FTDI probes.
#[derive(Debug)]
pub struct FtdiProbeFactory;

impl FtdiProbeFactory {
    /// The name that the factory goes by.
    pub fn name(&self) -> (name: String)
        ensures
            name@ == "FTDI"@,
    {
        "FTDI".to_owned()
    }
}

} // verus!
