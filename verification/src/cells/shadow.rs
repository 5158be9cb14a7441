//! A cell that passes packets on as they are.
use super::{on_notify, CellState, RattanNotify, StartAction};
use crate::error::Error;
use vstd::prelude::*;

verus! {

#[derive(Debug, Clone, Copy)]
pub struct ShadowCellConfig {}

impl ShadowCellConfig {
    pub fn new() -> (c: Self)
        ensures
            c == (ShadowCellConfig {  }),
    {
        ShadowCellConfig {  }
    }

    /// The sending side of a cell with this configuration.
    pub fn into_factory(self) -> (e: ShadowCellEgress)
        ensures
            e.state() == CellState::Drop,
            !e.started(),
    {
        ShadowCellEgress::new()
    }
}

impl Default for ShadowCellConfig {
    fn default() -> (c: Self)
        ensures
            c == (ShadowCellConfig {  }),
    {
        ShadowCellConfig {  }
    }
}

/// Where a shadow cell is configured. There is nothing to configure.
#[derive(Debug)]
pub struct ShadowCellControlInterface {}

impl ShadowCellControlInterface {
    pub fn set_config(&self, config: ShadowCellConfig) -> (r: Result<(), Error>)
        ensures
            r is Ok,
    {
        Ok(())
    }
}

/// The sending side of a shadow cell.
#[derive(Debug)]
pub struct ShadowCellEgress {
    state: CellState,
    started: bool,
}

impl ShadowCellEgress {
    pub closed spec fn state(self) -> CellState {
        self.state
    }

    pub closed spec fn started(self) -> bool {
        self.started
    }

    pub fn new() -> (e: Self)
        ensures
            e.state() == CellState::Drop,
            !e.started(),
    {
        ShadowCellEgress { state: CellState::Drop, started: false }
    }

    pub fn change_state(&mut self, state: CellState)
        ensures
            final(self).state() == state,
            final(self).started() == old(self).started(),
    {
        self.state = state;
    }

    /// A notification has come, or the notifier is gone. The start switches the cell to
    /// normal operation; until it comes the cell keeps waiting for it.
    pub fn notified(&mut self, notify: Option<RattanNotify>) -> (action: StartAction)
        ensures
            action == match notify {
                None => StartAction::Quit,
                Some(RattanNotify::Start) => StartAction::Start,
                Some(RattanNotify::FirstPacket) => StartAction::KeepWaiting,
            },
            action == StartAction::Start ==> final(self).state() == CellState::Normal && final(
                self
            ).started(),
            action != StartAction::Start ==> *final(self) == *old(self),
    {
        let action: StartAction = on_notify(RattanNotify::Start, notify);
        if action == StartAction::Start {
            self.state = CellState::Normal;
            self.started = true;
        }
        action
    }

    /// Whether the cell takes packets in: unless it drops all of them, it passes each on as
    /// it is.
    pub fn is_open(&self) -> (open: bool)
        ensures
            open == (self.state() != CellState::Drop),
    {
        self.state != CellState::Drop
    }
}

} // verus!
