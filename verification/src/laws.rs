//! What holds of the adapter as a whole.

pub mod chip;
pub mod clock;
pub mod composition;
pub mod encoding;
pub mod exchange;
pub mod opening;
pub mod operations;
pub mod session;
pub mod setup;
