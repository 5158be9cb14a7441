//! Cells: one module for each effect that a path can have on the packets sent along it.
use crate::error::{data_channel, Error};
use crate::packet::Packet;
use crate::time::Instant;
use vstd::prelude::*;

pub mod bandwidth;
pub mod config_timestamp;
pub mod delay;
pub mod external;
pub mod incoming_config;
pub mod loss;
pub mod per_packet;
pub mod reorder_delay;
pub mod router;
pub mod shadow;
pub mod spy;
pub mod token_bucket;

verus! {

/// What a cell does with the packets that reach it.
#[derive(Debug, Clone, Copy, PartialEq, Eq, Structural)]
pub enum CellState {
    /// Drops all packets.
    Drop,
    /// Passes through all packets.
    PassThrough,
    /// Normal operation.
    Normal,
}

impl CellState {
    /// The number that stands for the state.
    pub open spec fn number(self) -> u8 {
        match self {
            CellState::Drop => 0,
            CellState::PassThrough => 1,
            CellState::Normal => 2,
        }
    }

    pub fn as_u8(&self) -> (n: u8)
        ensures
            n == self.number(),
    {
        match self {
            CellState::Drop => 0,
            CellState::PassThrough => 1,
            CellState::Normal => 2,
        }
    }

    /// The state that `n` stands for, if it stands for any.
    pub fn try_from_primitive(n: u8) -> (s: Option<CellState>)
        ensures
            s is Some <==> n <= 2,
            s is Some ==> s->0.number() == n,
    {
        if n == 0 {
            Some(CellState::Drop)
        } else if n == 1 {
            Some(CellState::PassThrough)
        } else if n == 2 {
            Some(CellState::Normal)
        } else {
            None
        }
    }
}

/// The state of a cell, held as a number.
#[derive(Debug)]
pub struct AtomicCellState {
    number: u8,
}

impl AtomicCellState {
    /// The state that is held.
    pub closed spec fn state(self) -> CellState {
        if self.number == 0 {
            CellState::Drop
        } else if self.number == 1 {
            CellState::PassThrough
        } else {
            CellState::Normal
        }
    }

    #[verifier::type_invariant]
    closed spec fn holds_state(self) -> bool {
        self.number <= 2
    }

    pub fn new(state: CellState) -> (s: Self)
        ensures
            s.state() == state,
    {
        AtomicCellState { number: state.as_u8() }
    }

    pub fn load(&self) -> (state: CellState)
        ensures
            state == self.state(),
    {
        proof {
            use_type_invariant(self);
        }
        CellState::try_from_primitive(self.number).unwrap()
    }

    pub fn store(&mut self, state: CellState)
        ensures
            final(self).state() == state,
    {
        *self = AtomicCellState::new(state);
    }
}

/// What becomes of a packet that has reached a cell.
#[derive(Debug)]
pub enum Admission<P> {
    /// It is lost.
    Drop,
    /// It leaves the cell as it is.
    PassThrough(P),
    /// The cell works on it.
    Normal(P),
}

/// What `state` makes of `packet`.
pub open spec fn admission<P>(state: CellState, packet: P) -> Admission<P> {
    match state {
        CellState::Drop => Admission::Drop,
        CellState::PassThrough => Admission::PassThrough(packet),
        CellState::Normal => Admission::Normal(packet),
    }
}

/// What `state` makes of `packet`.
pub fn admit_packet<P>(state: CellState, packet: P) -> (a: Admission<P>)
    ensures
        a == admission(state, packet),
{
    match state {
        CellState::Drop => Admission::Drop,
        CellState::PassThrough => Admission::PassThrough(packet),
        CellState::Normal => Admission::Normal(packet),
    }
}

/// What the emulator tells its cells.
#[derive(Debug, Clone, Copy, PartialEq, Eq, Structural)]
pub enum RattanNotify {
    Start,
    FirstPacket,
}

/// What a cell that has not started does next.
#[derive(Debug, Clone, Copy, PartialEq, Eq, Structural)]
pub enum StartAction {
    /// Reset, switch to normal operation and begin.
    Start,
    /// Wait for the next notification.
    KeepWaiting,
    /// Nobody is left to notify the cell.
    Quit,
}

/// What a cell that waits for `expected` does on a notification; `None` means that the
/// notifier is gone.
pub fn on_notify(expected: RattanNotify, notify: Option<RattanNotify>) -> (action: StartAction)
    ensures
        action == match notify {
            None => StartAction::Quit,
            Some(n) => if n == expected {
                StartAction::Start
            } else {
                StartAction::KeepWaiting
            },
        },
{
    match notify {
        None => StartAction::Quit,
        Some(n) => if n == expected {
            StartAction::Start
        } else {
            StartAction::KeepWaiting
        },
    }
}

/// Where packets enter a cell.
pub trait Ingress<P> {
    fn enqueue(&self, packet: P) -> Result<(), Error>;

    fn reset(&mut self) {
    }
}

/// Hands a packet at `now` to a cell that counts from the instant at which a packet comes to
/// it: the packet gets that instant for its timestamp. `send` tells whether the cell took it.
pub fn enqueue_stamped<P: Packet, S: Fn(P) -> bool>(packet: P, now: Instant, send: &S) -> (r:
    Result<(), Error>)
    requires
        call_requires(*send, (packet.stamped(now),)),
    ensures
        exists|sent: bool|
            {
                &&& #[trigger] call_ensures(*send, (packet.stamped(now),), sent)
                &&& r is Ok <==> sent
                &&& !sent ==> r->Err_0 is ChannelError && r->Err_0.text()
                    == "Data channel is closed."@
            },
{
    let mut packet = packet;
    packet.delay_until(now);
    let sent: bool = send(packet);
    data_channel(sent)
}

/// A state is found again by its number.
pub proof fn law_state_number_is_one_to_one(a: CellState, b: CellState)
    ensures
        a.number() <= 2,
        a.number() == b.number() ==> a == b,
{
}

/// A state decides on every packet in the same way: one drops all of them, one hands on all
/// of them as they are, and one leaves them to the cell.
pub proof fn law_state_decides_on_a_packet<P>(state: CellState, packet: P)
    ensures
        admission(state, packet) is Drop <==> state == CellState::Drop,
        admission(state, packet) is PassThrough <==> state == CellState::PassThrough,
        state == CellState::PassThrough ==> admission(state, packet)->PassThrough_0 == packet,
        state == CellState::Normal ==> admission(state, packet)->Normal_0 == packet,
{
}

} // verus!
