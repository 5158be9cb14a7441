//! The verified core of an Internet path emulator.
//!
//! A path is a chain of cells in each direction. [`cells`] holds the cells that limit, delay,
//! lose, reorder, record and route packets, with the queues in front of a link;
//! [`devices`] holds further queues and the device that duplicates packets; [`config`] the
//! rules by which a channel is described; [`control`] the answers to those who steer it.
//!
//! Nothing here waits, sends or draws a real number. A cell is told what has happened and
//! when, and answers what to do next. What is computed in floating point is handed in as a
//! function or as its outcome.
pub mod cells;
pub mod config;
pub mod control;
pub mod devices;
pub mod error;
pub mod headers;
pub mod law;
pub mod number;
pub mod packet;
pub mod parse;
pub mod pattern;
pub mod sums;
pub mod text;
pub mod time;
pub mod transfer;

