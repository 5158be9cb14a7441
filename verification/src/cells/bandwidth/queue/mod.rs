//! The queues that a rate limited cell can hold its packets in.
use crate::cells::bandwidth::BwType;
use crate::packet::Packet;
use crate::time::Instant;
use vstd::prelude::*;

pub mod aqm;
pub mod codel;
pub mod drophead;
pub mod droptail;
pub mod infinite;
pub mod pie;
pub mod red;

pub use aqm::{PacketInbound, PacketInboundTryReceiveError, AQM};
pub use codel::{CoDelModel, CoDelQueue, CoDelQueueConfig};
pub use drophead::{DropHeadQueue, DropHeadQueueConfig};
pub use droptail::{DropTailQueue, DropTailQueueConfig};
pub use infinite::{InfiniteQueue, InfiniteQueueConfig};
pub use pie::{PieQueue, PieQueueConfig};
pub use red::{RedQueue, RedQueueConfig};

verus! {

/// The bytes that `packets` take up, each counted with `extra` bytes on top of its network
/// layer length.
pub open spec fn total_size<P: Packet>(packets: Seq<P>, extra: usize) -> int
    decreases packets.len(),
{
    if packets.len() == 0 {
        0
    } else {
        packets[0].l3() + extra + total_size(packets.drop_first(), extra)
    }
}

/// What one packet takes up.
pub open spec fn size_of<P: Packet>(packet: P, extra: usize) -> int {
    packet.l3() + extra
}

/// The bytes of two runs of packets add up.
pub proof fn lemma_total_size_append<P: Packet>(a: Seq<P>, b: Seq<P>, extra: usize)
    ensures
        total_size(a + b, extra) == total_size(a, extra) + total_size(b, extra),
    decreases a.len(),
{
    if a.len() == 0 {
        assert(a + b =~= b);
    } else {
        assert((a + b).drop_first() =~= a.drop_first() + b);
        lemma_total_size_append(a.drop_first(), b, extra);
    }
}

/// A packet at the end adds its size.
pub proof fn lemma_total_size_push<P: Packet>(a: Seq<P>, packet: P, extra: usize)
    ensures
        total_size(a.push(packet), extra) == total_size(a, extra) + size_of(packet, extra),
{
    let one = seq![packet];
    assert(a.push(packet) =~= a + one);
    lemma_total_size_append(a, one, extra);
    assert(one.drop_first() =~= Seq::<P>::empty());
    assert(total_size(one.drop_first(), extra) == 0);
}

/// No run of packets takes up less than nothing.
pub proof fn lemma_total_size_nonnegative<P: Packet>(a: Seq<P>, extra: usize)
    ensures
        total_size(a, extra) >= 0,
    decreases a.len(),
{
    if a.len() > 0 {
        lemma_total_size_nonnegative(a.drop_first(), extra);
    }
}

/// What a queue with limits on its length holds.
#[verifier::ext_equal]
pub struct LimitedModel<P> {
    pub packets: Seq<P>,
    /// The maximum number of packets, or `None` for unlimited.
    pub packet_limit: Option<usize>,
    /// The maximum number of bytes, or `None` for unlimited.
    pub byte_limit: Option<usize>,
    pub bw_type: BwType,
    /// Bytes counted for the queued packets.
    pub bytes: usize,
}

impl<P: Packet> LimitedModel<P> {
    pub open spec fn extra(self) -> usize {
        self.bw_type.extra()
    }

    /// The byte count covers the queued packets. It is exactly theirs as long as `bw_type`
    /// is not changed while packets are queued.
    pub open spec fn covered(self) -> bool {
        total_size(self.packets, self.extra()) <= self.bytes
    }

    /// The byte count is exactly that of the queued packets.
    pub open spec fn exact(self) -> bool {
        total_size(self.packets, self.extra()) == self.bytes
    }

    pub open spec fn zero_buffer(self) -> bool {
        self.packet_limit == Some(0usize) || self.byte_limit == Some(0usize)
    }

    /// One of the limits is exceeded.
    pub open spec fn over(self) -> bool {
        ||| self.packet_limit is Some && self.packets.len() > self.packet_limit->0
        ||| self.byte_limit is Some && self.bytes > self.byte_limit->0
    }

    pub open spec fn pushed(self, packet: P) -> Self {
        LimitedModel {
            packets: self.packets.push(packet),
            bytes: (self.bytes + size_of(packet, self.extra())) as usize,
            ..self
        }
    }

    pub open spec fn popped(self) -> Self {
        LimitedModel {
            packets: self.packets.drop_first(),
            bytes: (self.bytes - size_of(self.packets[0], self.extra())) as usize,
            ..self
        }
    }

    /// First in first out.
    pub open spec fn taken(self) -> (Self, Option<P>) {
        if self.packets.len() == 0 {
            (self, None)
        } else {
            (self.popped(), Some(self.packets[0]))
        }
    }
}

/// A queue of packets.
///
/// A queue is described by a `Model`; what each operation does to it is a function of the
/// model, or a relation between the models before and after where the queue is free to
/// choose.
pub trait PacketQueue<P: Packet>: Sized {
    type Config;

    /// What the queue holds and what it has counted.
    type Model;

    spec fn model(&self) -> Self::Model;

    /// The queued packets, oldest first.
    spec fn packets(m: Self::Model) -> Seq<P>;

    /// Bytes counted for each packet on top of its network layer length.
    spec fn extra(m: Self::Model) -> usize;

    /// The counters of the queue cover what it holds.
    spec fn valid(m: Self::Model) -> bool;

    /// Whether the queue holds no packet ever.
    spec fn zero_buffer(m: Self::Model) -> bool;

    /// The queue with another configuration.
    spec fn configured(m: Self::Model, config: Self::Config) -> Self::Model;

    /// The counters still fit the machine when the packet comes in.
    spec fn room(m: Self::Model, packet: P) -> bool;

    /// The queue once the packet has come to it.
    spec fn enqueued(m: Self::Model, packet: P) -> Self::Model;

    /// The counters and clocks still fit the machine when a packet is asked for.
    spec fn ready(m: Self::Model, timestamp: Instant) -> bool;

    /// What asking for a packet at `timestamp` may do and return.
    spec fn dequeued(before: Self::Model, timestamp: Instant, after: Self::Model, packet: Option<P>) -> bool;

    fn configure(&mut self, config: Self::Config)
        ensures
            final(self).model() == Self::configured(old(self).model(), config),
    ;

    fn enqueue(&mut self, packet: P)
        requires
            Self::valid(old(self).model()),
            Self::room(old(self).model(), packet),
        ensures
            Self::valid(final(self).model()),
            final(self).model() == Self::enqueued(old(self).model(), packet),
    ;

    /// If the queue is empty, returns `None`.
    fn dequeue_at(&mut self, timestamp: Instant) -> (packet: Option<P>)
        requires
            Self::valid(old(self).model()),
            Self::ready(old(self).model(), timestamp),
        ensures
            Self::valid(final(self).model()),
            Self::dequeued(old(self).model(), timestamp, final(self).model(), packet),
            Self::packets(old(self).model()).len() == 0 ==> packet is None,
    ;

    fn is_empty(&self) -> (empty: bool)
        ensures
            empty == (self.length_spec() == 0),
    ;

    /// How many packets are queued.
    open spec fn length_spec(&self) -> nat {
        Self::packets(self.model()).len()
    }

    /// Whether the buffer is zero-sized.
    fn is_zero_buffer(&self) -> (zero: bool)
        ensures
            zero == Self::zero_buffer(self.model()),
    ;

    /// Bytes that this queue counts for each packet on top of its network layer length.
    fn get_extra_length(&self) -> (n: usize)
        ensures
            n == Self::extra(self.model()),
    ;

    /// How this queue measures the size of a packet.
    fn get_packet_size(&self, packet: &P) -> (n: usize)
        requires
            size_of(*packet, Self::extra(self.model())) <= usize::MAX,
        ensures
            n == size_of(*packet, Self::extra(self.model())),
    {
        packet.l3_length() + self.get_extra_length()
    }

    /// The size of the packet that is next to leave; `None` if the queue is empty.
    fn get_front_size(&self) -> (n: Option<usize>)
        requires
            Self::packets(self.model()).len() > 0 ==> size_of(
                Self::packets(self.model())[0],
                Self::extra(self.model()),
            ) <= usize::MAX,
        ensures
            n is None <==> Self::packets(self.model()).len() == 0,
            n is Some ==> n->0 == size_of(
                Self::packets(self.model())[0],
                Self::extra(self.model()),
            ),
    ;

    fn length(&self) -> (n: usize)
        ensures
            n == self.length_spec(),
    ;
}

/// The bytes of packets add up one by one: each counts with its own length and `extra` bytes,
/// wherever it stands.
pub proof fn law_sizes_add_up<P: Packet>(a: Seq<P>, packet: P, b: Seq<P>, extra: usize)
    ensures
        total_size(Seq::<P>::empty(), extra) == 0,
        total_size(a + seq![packet] + b, extra) == total_size(a + b, extra) + packet.l3() + extra,
        size_of(packet, extra) == packet.l3() + extra,
{
    lemma_total_size_append(a + seq![packet], b, extra);
    lemma_total_size_push(a, packet, extra);
    assert(a.push(packet) =~= a + seq![packet]);
    lemma_total_size_append(a, b, extra);
}

} // verus!
