//! What a cell reads of a packet.
use crate::headers::ETHERNET_HEADER_LENGTH;
use crate::time::Instant;
use vstd::prelude::*;

verus! {

/// A packet on its way through the emulated path.
///
/// `P` is what an environment hands in; a cell reads its logical timestamp and its length
/// at layer 3, and moves the timestamp when it delays the packet.
pub trait Packet: Sized {
    /// The logical time at which the packet is where it is.
    spec fn timestamp(&self) -> Instant;

    /// The length from the network header on, in bytes.
    spec fn l3(&self) -> usize;

    /// The same packet with another timestamp.
    spec fn stamped(&self, t: Instant) -> Self;

    /// A packet with another timestamp is as long as it was.
    proof fn stamping_keeps_length(&self, t: Instant)
        ensures
            self.stamped(t).timestamp() == t,
            self.stamped(t).l3() == self.l3(),
    ;

    fn get_timestamp(&self) -> (t: Instant)
        ensures
            t == self.timestamp(),
    ;

    fn l3_length(&self) -> (n: usize)
        ensures
            n == self.l3(),
    ;

    /// Moves the packet to the logical time `t`.
    fn delay_until(&mut self, t: Instant)
        ensures
            *final(self) == old(self).stamped(t),
            final(self).timestamp() == t,
            final(self).l3() == old(self).l3(),
    ;
}

/// A packet that is an Ethernet frame, and whose bytes can be read and changed.
pub trait RawPacket: Packet {
    /// What a packet has besides its bytes.
    type Label;

    spec fn bytes(&self) -> Seq<u8>;

    spec fn label(&self) -> Self::Label;

    fn as_slice(&self) -> (bytes: &[u8])
        ensures
            bytes@ == self.bytes(),
    ;

    fn set_byte(&mut self, i: usize, byte: u8)
        requires
            i < old(self).bytes().len(),
        ensures
            final(self).bytes() == old(self).bytes().update(i as int, byte),
            final(self).label() == old(self).label(),
            final(self).timestamp() == old(self).timestamp(),
            final(self).l3() == old(self).l3(),
    ;

    /// Another packet with the same bytes, at the same point in time.
    fn copied(&self) -> (copy: Self)
        ensures
            copy.bytes() == self.bytes(),
            copy.timestamp() == self.timestamp(),
            copy.l3() == self.l3(),
    ;
}

/// A packet as it is read from an Ethernet device.
#[derive(Debug)]
pub struct StdPacket {
    pub buf: Vec<u8>,
    pub timestamp: Instant,
    pub flow_id: u32,
}

impl StdPacket {
    pub fn from_raw_buffer(buf: Vec<u8>, timestamp: Instant) -> (p: Self)
        ensures
            p.buf == buf,
            p.timestamp == timestamp,
            p.flow_id == 0,
    {
        StdPacket { buf, timestamp, flow_id: 0 }
    }

    pub fn length(&self) -> (n: usize)
        ensures
            n == self.buf@.len(),
    {
        self.buf.len()
    }

    pub fn set_flow_id(&mut self, flow_id: u32)
        ensures
            final(self).flow_id == flow_id,
            final(self).buf == old(self).buf,
            final(self).timestamp == old(self).timestamp,
    {
        self.flow_id = flow_id;
    }

    pub fn get_flow_id(&self) -> (id: u32)
        ensures
            id == self.flow_id,
    {
        self.flow_id
    }
}

impl Packet for StdPacket {
    open spec fn timestamp(&self) -> Instant {
        self.timestamp
    }

    /// What follows the Ethernet header; nothing, if the buffer ends before it does.
    open spec fn l3(&self) -> usize {
        if self.buf@.len() >= ETHERNET_HEADER_LENGTH {
            (self.buf@.len() - ETHERNET_HEADER_LENGTH) as usize
        } else {
            0
        }
    }

    open spec fn stamped(&self, t: Instant) -> Self {
        StdPacket { buf: self.buf, timestamp: t, flow_id: self.flow_id }
    }

    proof fn stamping_keeps_length(&self, t: Instant) {
    }

    fn get_timestamp(&self) -> (t: Instant) {
        self.timestamp
    }

    fn l3_length(&self) -> (n: usize) {
        let n: usize = self.buf.len();
        if n >= ETHERNET_HEADER_LENGTH {
            n - ETHERNET_HEADER_LENGTH
        } else {
            0
        }
    }

    fn delay_until(&mut self, t: Instant) {
        self.timestamp = t;
    }
}

impl RawPacket for StdPacket {
    type Label = (Instant, u32);

    open spec fn bytes(&self) -> Seq<u8> {
        self.buf@
    }

    open spec fn label(&self) -> (Instant, u32) {
        (self.timestamp, self.flow_id)
    }

    fn as_slice(&self) -> (bytes: &[u8]) {
        self.buf.as_slice()
    }

    fn set_byte(&mut self, i: usize, byte: u8) {
        self.buf.set(i, byte);
    }

    fn copied(&self) -> (copy: Self) {
        let buf: Vec<u8> = self.buf.clone();
        assert(buf@ =~= self.buf@);
        StdPacket::from_raw_buffer(buf, self.timestamp)
    }
}

/// A frame has 14 bytes before its network header. Moving a packet in time changes nothing
/// else about it.
pub proof fn law_frame_begins_with_its_header(p: StdPacket, t: Instant)
    requires
        p.buf@.len() <= usize::MAX,
    ensures
        p.buf@.len() >= 14 ==> p.l3() == p.buf@.len() - 14,
        p.buf@.len() < 14 ==> p.l3() == 0,
        p.bytes() == p.buf@,
        p.stamped(t).bytes() == p.bytes(),
        p.stamped(t).timestamp() == t,
        p.stamped(t).flow_id == p.flow_id,
{
}

} // verus!
