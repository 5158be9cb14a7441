//! Changing a running channel.
pub mod http;
