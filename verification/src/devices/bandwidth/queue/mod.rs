//! Queues that look into the packets they hold: they mark congestion where a flow can be
//! told of it, and drop where it cannot.
pub mod dual_pi2;
pub mod ecn;
pub mod fq_codel;
pub mod pie;
pub mod random;

pub use dual_pi2::{DualPI2Queue, DualPI2QueueConfig, ECNThreshHold, EcnCodePointMask};
pub use fq_codel::{FqCoDelQueue, FqCoDelQueueConfig};
pub use pie::{PIEQueue, PIEQueueConfig};
