//! A queue without limits.
use super::PacketQueue;
use crate::packet::Packet;
use crate::time::Instant;
use std::collections::VecDeque;
use vstd::prelude::*;

verus! {

#[derive(Debug, Clone, Copy)]
pub struct InfiniteQueueConfig {}

impl InfiniteQueueConfig {
    pub fn new() -> (c: Self)
        ensures
            c == (InfiniteQueueConfig {  }),
    {
        InfiniteQueueConfig {  }
    }
}

impl Default for InfiniteQueueConfig {
    fn default() -> (c: Self)
        ensures
            c == (InfiniteQueueConfig {  }),
    {
        InfiniteQueueConfig {  }
    }
}

/// Keeps every packet, first in first out.
#[derive(Debug)]
pub struct InfiniteQueue<P> {
    queue: VecDeque<P>,
}

impl<P> View for InfiniteQueue<P> {
    type V = Seq<P>;

    closed spec fn view(&self) -> Seq<P> {
        self.queue@
    }
}

impl<P: Packet> InfiniteQueue<P> {
    pub fn new(_config: InfiniteQueueConfig) -> (q: Self)
        ensures
            q@ == Seq::<P>::empty(),
    {
        InfiniteQueue { queue: VecDeque::new() }
    }
}

impl<P: Packet> PacketQueue<P> for InfiniteQueue<P> {
    type Config = InfiniteQueueConfig;

    type Model = Seq<P>;

    open spec fn model(&self) -> Seq<P> {
        self@
    }

    open spec fn packets(m: Seq<P>) -> Seq<P> {
        m
    }

    open spec fn extra(m: Seq<P>) -> usize {
        0
    }

    open spec fn valid(m: Seq<P>) -> bool {
        true
    }

    open spec fn zero_buffer(m: Seq<P>) -> bool {
        false
    }

    open spec fn configured(m: Seq<P>, config: InfiniteQueueConfig) -> Seq<P> {
        m
    }

    open spec fn room(m: Seq<P>, packet: P) -> bool {
        true
    }

    open spec fn enqueued(m: Seq<P>, packet: P) -> Seq<P> {
        m.push(packet)
    }

    open spec fn ready(m: Seq<P>, timestamp: Instant) -> bool {
        true
    }

    open spec fn dequeued(before: Seq<P>, timestamp: Instant, after: Seq<P>, packet: Option<P>) -> bool {
        if before.len() == 0 {
            after == before && packet is None
        } else {
            after == before.drop_first() && packet == Some(before[0])
        }
    }

    fn configure(&mut self, config: InfiniteQueueConfig) {
    }

    fn enqueue(&mut self, packet: P) {
        self.queue.push_back(packet);
    }

    fn dequeue_at(&mut self, timestamp: Instant) -> (packet: Option<P>) {
        self.queue.pop_front()
    }

    fn is_empty(&self) -> (empty: bool) {
        self.queue.len() == 0
    }

    fn is_zero_buffer(&self) -> (zero: bool) {
        false
    }

    fn get_extra_length(&self) -> (n: usize) {
        0
    }

    fn get_front_size(&self) -> (n: Option<usize>) {
        if self.queue.len() == 0 {
            None
        } else {
            Some(self.get_packet_size(&self.queue[0]))
        }
    }

    fn length(&self) -> (n: usize) {
        self.queue.len()
    }
}

impl<P: Packet> Default for InfiniteQueue<P> {
    fn default() -> (q: Self)
        ensures
            q@ == Seq::<P>::empty(),
    {
        InfiniteQueue::new(InfiniteQueueConfig::new())
    }
}

/// First in, first out: the packet that is handed out, followed by what is left, is what was
/// queued, and nothing is handed out only if nothing was. What comes goes behind what is
/// queued.
pub proof fn law_infinite_queue_is_first_in_first_out<P: Packet>(
    before: Seq<P>,
    arriving: P,
    timestamp: Instant,
    after: Seq<P>,
    packet: Option<P>,
)
    requires
        InfiniteQueue::<P>::dequeued(before, timestamp, after, packet),
    ensures
        packet is None <==> before.len() == 0,
        packet is Some ==> before == seq![packet->0] + after,
        packet is None ==> after == before,
        InfiniteQueue::<P>::enqueued(before, arriving) == before + seq![arriving],
{
}

/// Configuring an unlimited queue leaves what is queued alone.
pub proof fn law_infinite_queue_keeps_its_packets_when_configured<P: Packet>(
    m: Seq<P>,
    config: InfiniteQueueConfig,
)
    ensures
        <InfiniteQueue<P> as PacketQueue<P>>::configured(m, config) == m,
{
}

/// A queue without limits is never zero-sized.
pub proof fn law_infinite_queue_has_a_buffer<P: Packet>(m: Seq<P>)
    ensures
        !<InfiniteQueue<P> as PacketQueue<P>>::zero_buffer(m),
{
}

} // verus!
