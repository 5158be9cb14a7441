//! A cell that records the packets that pass.
use super::{admission, admit_packet, Admission, CellState};
use crate::error::{control_channel, Error};
use crate::packet::{Packet, RawPacket};
use crate::time::{Duration, Instant};
use vstd::prelude::*;
use vstd::slice::slice_to_vec;

verus! {

/// Where the records of a cell go, if anywhere.
#[derive(Debug)]
pub struct SpyCellConfig<W> {
    pub spy: Option<W>,
}

impl<W> SpyCellConfig<W> {
    pub fn new(spy: W) -> (c: Self)
        ensures
            c.spy == Some(spy),
    {
        SpyCellConfig { spy: Some(spy) }
    }
}

/// Where a spy cell is configured. `send` hands a configuration to the cell and tells
/// whether it was taken.
pub struct SpyCellControlInterface<S> {
    pub send: S,
}

impl<S> SpyCellControlInterface<S> {
    pub fn set_config<W>(&self, config: SpyCellConfig<W>) -> (r: Result<(), Error>) where
        S: Fn(SpyCellConfig<W>) -> bool,

        requires
            call_requires(self.send, (config,)),
        ensures
            exists|sent: bool| #[trigger]
                call_ensures(self.send, (config,), sent) && (r is Ok <==> sent),
            r is Err ==> r->Err_0 is ConfigError && r->Err_0.text()
                == "Control channel is closed."@,
    {
        let sent: bool = (self.send)(config);
        control_channel(sent)
    }
}

/// What is recorded of a packet.
#[derive(Debug)]
pub struct SpyRecord {
    /// The time of day at which the packet came, since the epoch.
    pub timestamp: Duration,
    pub orig_len: u32,
    pub data: Vec<u8>,
}

impl SpyRecord {
    /// This is the record of `packet`, which came at `timestamp`.
    pub open spec fn describes<P: RawPacket>(self, packet: P, timestamp: Duration) -> bool {
        &&& self.timestamp == timestamp
        &&& self.orig_len == packet.bytes().len() % 0x1_0000_0000
        &&& self.data@ == packet.bytes()
    }
}

/// The sending side of a spy cell.
#[derive(Debug)]
pub struct SpyCellEgress {
    last: Instant,
    state: CellState,
    recording: bool,
}

impl SpyCellEgress {
    /// The logical time of the packet that was recorded last.
    pub closed spec fn last(self) -> Instant {
        self.last
    }

    pub closed spec fn state(self) -> CellState {
        self.state
    }

    /// Records go somewhere.
    pub closed spec fn recording(self) -> bool {
        self.recording
    }

    pub fn new(now: Instant) -> (e: Self)
        ensures
            e.last() == now,
            e.state() == CellState::Drop,
            e.recording(),
    {
        SpyCellEgress { last: now, state: CellState::Drop, recording: true }
    }

    pub fn change_state(&mut self, state: CellState)
        ensures
            final(self).state() == state,
            final(self).last() == old(self).last(),
            final(self).recording() == old(self).recording(),
    {
        self.state = state;
    }

    /// Another configuration comes into force. Returns where records go from now on.
    pub fn set_config<W>(&mut self, config: SpyCellConfig<W>) -> (spy: Option<W>)
        ensures
            spy == config.spy,
            final(self).recording() == config.spy is Some,
            final(self).state() == old(self).state(),
            final(self).last() == old(self).last(),
    {
        self.recording = config.spy.is_some();
        config.spy
    }

    /// A packet has come, at the time of day `timestamp`. Returns what is sent and what is
    /// recorded. In normal operation packets come in the order of their logical times.
    pub fn on_packet<P: RawPacket>(&mut self, timestamp: Duration, packet: P) -> (r: (
        Option<P>,
        Option<SpyRecord>,
    ))
        requires
            old(self).state() == CellState::Normal ==> old(self).last() < packet.timestamp(),
        ensures
            final(self).state() == old(self).state(),
            final(self).recording() == old(self).recording(),
            r.0 == match admission(old(self).state(), packet) {
                Admission::Drop => None,
                Admission::PassThrough(p) => Some(p),
                Admission::Normal(p) => Some(p),
            },
            r.1 is Some <==> old(self).state() == CellState::Normal && old(self).recording(),
            r.1 is Some ==> r.1->0.describes(packet, timestamp),
            final(self).last() == if old(self).state() == CellState::Normal {
                packet.timestamp()
            } else {
                old(self).last()
            },
    {
        match admit_packet(self.state, packet) {
            Admission::Drop => (None, None),
            Admission::PassThrough(packet) => (Some(packet), None),
            Admission::Normal(packet) => {
                self.last = packet.get_timestamp();
                if !self.recording {
                    return (Some(packet), None);
                }
                let bytes: &[u8] = packet.as_slice();
                let length: u64 = bytes.len() as u64;
                let record = SpyRecord {
                    timestamp,
                    orig_len: (length % 0x1_0000_0000) as u32,
                    data: slice_to_vec(bytes),
                };
                (Some(packet), Some(record))
            },
        }
    }
}

/// A record holds the whole packet and its length, as long as that fits its field.
pub proof fn law_record_holds_the_packet<P: RawPacket>(
    record: SpyRecord,
    packet: P,
    timestamp: Duration,
)
    requires
        record.describes(packet, timestamp),
    ensures
        record.data@ == packet.bytes(),
        record.timestamp == timestamp,
        packet.bytes().len() <= u32::MAX ==> record.orig_len == packet.bytes().len(),
{
}

} // verus!
