//! Devices that limit the rate at which packets leave.
pub mod queue;
