//! How a channel is described: the cells it is made of, how they are linked, and what the
//! emulator may use.
use crate::cells::external::PacketLogMode;
use crate::parse::{chars_of, number_of, numbers_among, fields, parse_list, parse_number};
use vstd::prelude::*;

pub mod cell;
pub mod channel;
pub mod cli;
pub mod docker;
pub mod mahimahi;
pub mod trace;

verus! {

/// How many threads are used where nothing else is said.
pub const DEFAULT_THREADS: usize = 4;

/// What the emulator may use.
#[derive(Debug)]
pub struct RattanResourceConfig {
    pub memory: Option<usize>,
    pub cpu: Option<Vec<u32>>,
}

impl RattanResourceConfig {
    pub fn new() -> (c: Self)
        ensures
            c.memory is None,
            c.cpu is None,
    {
        RattanResourceConfig { memory: None, cpu: None }
    }

    /// How many threads are used: what the environment variable `RATTAN_WORKING_THREADS`
    /// says, if it is set to a number; else one for each core of the configuration.
    pub fn working_threads(&self, variable: Option<&str>) -> (n: usize)
        ensures
            n == if variable is Some && number_of(variable->0@, usize::MAX as nat) is Ok {
                number_of(variable->0@, usize::MAX as nat)->Ok_0
            } else if self.cpu is Some {
                self.cpu->0@.len()
            } else {
                DEFAULT_THREADS as nat
            },
    {
        if let Some(text) = variable {
            match parse_number(&chars_of(text), usize::MAX as u64) {
                Ok(n) => {
                    return n as usize;
                },
                Err(_) => {},
            }
        }
        match &self.cpu {
            Some(cpu) => cpu.len(),
            None => DEFAULT_THREADS,
        }
    }

    /// The cores that are used: what the environment variable `RATTAN_CPU` lists, if it is
    /// set; else those of the configuration.
    pub fn get_cpu(&self, variable: Option<&str>) -> (cpu: Option<Vec<u32>>)
        ensures
            variable is Some ==> cpu is Some && cpu->0@.map_values(|n: u32| n as nat)
                == numbers_among(fields(variable->0@, ','), u32::MAX as nat),
            variable is None ==> (cpu is Some <==> self.cpu is Some),
            variable is None && cpu is Some ==> cpu->0@ == self.cpu->0@,
    {
        match variable {
            Some(list) => Some(parse_list(list)),
            None => match &self.cpu {
                Some(cpu) => {
                    let copy: Vec<u32> = cpu.clone();
                    assert(copy@ =~= cpu@);
                    Some(copy)
                },
                None => None,
            },
        }
    }
}

/// What is logged, and where.
#[derive(Debug)]
pub struct RattanGeneralConfig {
    pub packet_log: Option<String>,
    pub packet_log_mode: Option<PacketLogMode>,
}

impl RattanGeneralConfig {
    pub fn new() -> (c: Self)
        ensures
            c.packet_log is None,
            c.packet_log_mode is None,
    {
        RattanGeneralConfig { packet_log: None, packet_log_mode: None }
    }
}

} // verus!
