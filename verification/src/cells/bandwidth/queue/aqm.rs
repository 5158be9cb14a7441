//! A queue behind a buffer, so that packets enter the queue by their timestamps.
use super::PacketQueue;
use crate::packet::Packet;
use crate::time::{after, reachable, Instant, LARGE_DURATION};
use std::collections::VecDeque;
use vstd::prelude::*;

verus! {

/// Why no packet could be received.
#[derive(Debug, Clone, Copy, PartialEq, Eq, Structural)]
pub enum PacketInboundTryReceiveError {
    Empty,
    Failed,
}

/// Where packets come from.
pub trait PacketInbound<P> {
    fn try_receive(&mut self) -> Result<P, PacketInboundTryReceiveError>;
}

/// How many packets at the front of `inbound` have come by `timestamp`.
pub open spec fn arrived<P: Packet>(inbound: Seq<P>, timestamp: Instant) -> nat
    decreases inbound.len(),
{
    if inbound.len() > 0 && inbound[0].timestamp() <= timestamp {
        1 + arrived(inbound.drop_first(), timestamp)
    } else {
        0
    }
}

/// The queue once the packets of `inbound` that have come by `timestamp` are in it.
pub open spec fn admitted<P: Packet, Q: PacketQueue<P>>(
    queue: Q::Model,
    inbound: Seq<P>,
    timestamp: Instant,
) -> Q::Model
    decreases inbound.len(),
{
    if inbound.len() > 0 && inbound[0].timestamp() <= timestamp {
        admitted::<P, Q>(Q::enqueued(queue, inbound[0]), inbound.drop_first(), timestamp)
    } else {
        queue
    }
}

/// The counters of the queue fit the machine throughout.
pub open spec fn admissible<P: Packet, Q: PacketQueue<P>>(
    queue: Q::Model,
    inbound: Seq<P>,
    timestamp: Instant,
) -> bool
    decreases inbound.len(),
{
    if inbound.len() > 0 && inbound[0].timestamp() <= timestamp {
        &&& Q::room(queue, inbound[0])
        &&& admissible::<P, Q>(
            Q::enqueued(queue, inbound[0]),
            inbound.drop_first(),
            timestamp,
        )
    } else {
        true
    }
}

/// A queue and the packets that have yet to enter it.
pub struct AQM<Q, P> {
    inbound_buffer: VecDeque<P>,
    queue: Q,
    latest_enqueue_timestamp: Option<Instant>,
}

impl<Q: PacketQueue<P>, P: Packet> AQM<Q, P> {
    /// The packets that have not entered the queue yet, in the order of their coming.
    pub closed spec fn inbound(self) -> Seq<P> {
        self.inbound_buffer@
    }

    pub closed spec fn queue(self) -> Q::Model {
        self.queue.model()
    }

    /// The timestamp of the packet that came last.
    pub closed spec fn latest(self) -> Option<Instant> {
        self.latest_enqueue_timestamp
    }

    /// A packet can be asked for at `timestamp`: nothing overflows on the way.
    pub open spec fn ready(self, timestamp: Instant) -> bool {
        &&& Q::valid(self.queue())
        &&& admissible::<P, Q>(self.queue(), self.inbound(), timestamp)
        &&& Q::ready(admitted::<P, Q>(self.queue(), self.inbound(), timestamp), timestamp)
    }

    pub fn new(queue: Q) -> (a: Self)
        ensures
            a.inbound() == Seq::<P>::empty(),
            a.queue() == queue.model(),
            a.latest() is None,
    {
        AQM { inbound_buffer: VecDeque::new(), queue, latest_enqueue_timestamp: None }
    }

    pub fn configure(&mut self, config: Q::Config)
        ensures
            final(self).queue() == Q::configured(old(self).queue(), config),
            final(self).inbound() == old(self).inbound(),
            final(self).latest() == old(self).latest(),
    {
        self.queue.configure(config);
    }

    /// Whether a packet that is yet to come may belong into the queue at `next_available`.
    pub fn need_more_packets(&self, next_available: Instant) -> (more: bool)
        ensures
            more == (self.latest() is None || self.latest()->0 <= next_available),
    {
        match self.latest_enqueue_timestamp {
            Some(t) => t <= next_available,
            None => true,
        }
    }

    /// Takes a packet in. If the queue is zero-sized, the packet is returned at once.
    pub fn enqueue(&mut self, packet: P) -> (back: Option<P>)
        ensures
            final(self).queue() == old(self).queue(),
            final(self).latest() == Some(packet.timestamp()),
            Q::zero_buffer(old(self).queue()) ==> back == Some(packet) && final(self).inbound()
                == old(self).inbound(),
            !Q::zero_buffer(old(self).queue()) ==> back is None && final(self).inbound()
                == old(self).inbound().push(packet),
    {
        self.latest_enqueue_timestamp = Some(packet.get_timestamp());
        if self.queue.is_zero_buffer() {
            Some(packet)
        } else {
            self.inbound_buffer.push_back(packet);
            None
        }
    }

    /// Takes a packet out of the queue as it is at `timestamp`: what has come by then is in
    /// it, and nothing that comes later.
    pub fn dequeue_at(&mut self, timestamp: Instant) -> (packet: Option<P>)
        requires
            old(self).ready(timestamp),
        ensures
            Q::valid(final(self).queue()),
            final(self).inbound() == old(self).inbound().skip(
                arrived(old(self).inbound(), timestamp) as int,
            ),
            Q::dequeued(
                admitted::<P, Q>(old(self).queue(), old(self).inbound(), timestamp),
                timestamp,
                final(self).queue(),
                packet,
            ),
            final(self).latest() == old(self).latest(),
    {
        let ghost inbound = self.inbound();
        let ghost queue = self.queue();
        let ghost mut n: nat = 0;
        loop
            invariant
                self.latest() == old(self).latest(),
                inbound == old(self).inbound(),
                n <= inbound.len(),
                self.inbound() == inbound.skip(n as int),
                arrived(inbound, timestamp) == n + arrived(self.inbound(), timestamp),
                Q::valid(self.queue()),
                admissible::<P, Q>(self.queue(), self.inbound(), timestamp),
                admitted::<P, Q>(self.queue(), self.inbound(), timestamp) == admitted::<P, Q>(
                    queue,
                    inbound,
                    timestamp,
                ),
            ensures
                self.inbound().len() == 0 || self.inbound()[0].timestamp() > timestamp,
            decreases self.inbound().len(),
        {
            if self.inbound_buffer.len() == 0 {
                break;
            }
            if self.inbound_buffer[0].get_timestamp() > timestamp {
                break;
            }
            let ghost rest = self.inbound();
            match self.inbound_buffer.pop_front() {
                Some(packet) => {
                    proof {
                        assert(rest.subrange(1, rest.len() as int) =~= rest.drop_first());
                        assert(rest.drop_first() =~= inbound.skip(n as int + 1));
                        n = n + 1;
                    }
                    self.queue.enqueue(packet);
                },
                None => {},
            }
        }
        self.queue.dequeue_at(timestamp)
    }

    /// When the next packet enters the queue; far in the future, if none is waiting to.
    pub fn next_call_time(&self, now: Instant) -> (t: Instant)
        requires
            reachable(now, LARGE_DURATION),
        ensures
            t == if self.inbound().len() > 0 {
                self.inbound()[0].timestamp() as int
            } else {
                now + LARGE_DURATION
            },
    {
        if self.inbound_buffer.len() > 0 {
            self.inbound_buffer[0].get_timestamp()
        } else {
            after(now, LARGE_DURATION)
        }
    }

    /// Whether the queue is zero-sized.
    pub fn is_zero_buffer(&self) -> (zero: bool)
        ensures
            zero == Q::zero_buffer(self.queue()),
    {
        self.queue.is_zero_buffer()
    }
}

} // verus!
