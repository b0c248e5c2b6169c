//! FTDI-based JTAG adapters.
//!
//! A [`JtagAdapter`] turns single JTAG clock cycles into commands for the MPSSE of an FTDI chip,
//! and what the chip replies into the bits that were sampled on TDO. It does no I/O of its own:
//! [`JtagAdapter::attach`] and [`JtagAdapter::apply_clock_speed`] return a [`SetupStep`], which names
//! the action of the device that they wait for, and the exchange operations return a [`Step`], which
//! names the write or the read that they wait for.

pub mod adapter;
pub mod captured_bits;
pub mod command_compacter;
pub mod error;
pub mod factory;
pub mod ftdaye;
pub mod laws;
pub mod properties;
pub mod setup;
pub mod state;
pub mod step;
pub mod stream;
pub mod text;

pub use adapter::{JtagAdapter, OpenedDevice};
pub use captured_bits::CapturedBits;
pub use error::JtagProbeError;
pub use factory::FtdiProbeFactory;
pub use properties::{FtdiDevice, FtdiProperties};
pub use setup::{DeviceAction, Setup, SetupStep};
pub use step::{Reading, Sending, Step};
