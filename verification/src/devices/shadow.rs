//! A device that passes packets on as they are.
use crate::cells::CellState;
use crate::error::Error;
use vstd::prelude::*;

verus! {

#[derive(Debug, Clone, Copy)]
pub struct ShadowDeviceConfig {}

impl ShadowDeviceConfig {
    pub fn new() -> (c: Self)
        ensures
            c == (ShadowDeviceConfig {  }),
    {
        ShadowDeviceConfig {  }
    }
}

impl Default for ShadowDeviceConfig {
    fn default() -> (c: Self)
        ensures
            c == (ShadowDeviceConfig {  }),
    {
        ShadowDeviceConfig {  }
    }
}

/// Where a shadow device is configured. There is nothing to configure.
#[derive(Debug)]
pub struct ShadowDeviceControlInterface {}

impl ShadowDeviceControlInterface {
    pub fn set_config(&self, config: ShadowDeviceConfig) -> (r: Result<(), Error>)
        ensures
            r is Ok,
    {
        Ok(())
    }
}

/// The sending side of a shadow device.
#[derive(Debug)]
pub struct ShadowDeviceEgress {
    state: CellState,
}

impl ShadowDeviceEgress {
    pub closed spec fn state(self) -> CellState {
        self.state
    }

    pub fn new() -> (e: Self)
        ensures
            e.state() == CellState::Drop,
    {
        ShadowDeviceEgress { state: CellState::Drop }
    }

    pub fn change_state(&mut self, state: CellState)
        ensures
            final(self).state() == state,
    {
        self.state = state;
    }

    /// Whether the device takes packets in: unless it drops all of them, it passes each on as
    /// it is.
    pub fn is_open(&self) -> (open: bool)
        ensures
            open == (self.state() != CellState::Drop),
    {
        self.state != CellState::Drop
    }
}

} // verus!
