//! Devices: effects that a path has on single packets, by their own clock.
pub mod bandwidth;
pub mod duplicate;
pub mod shadow;
