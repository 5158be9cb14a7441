//! A queue that drops the packet that does not fit.
use super::{
    lemma_total_size_nonnegative, lemma_total_size_push, size_of, total_size, LimitedModel,
    PacketQueue,
};
use crate::cells::bandwidth::BwType;
use crate::law::{answers, tests_for};
use crate::packet::Packet;
use crate::time::Instant;
use std::collections::VecDeque;
use vstd::prelude::*;

verus! {

#[derive(Debug, Clone, Copy)]
pub struct DropTailQueueConfig {
    /// The maximum number of packets, or `None` for unlimited.
    pub packet_limit: Option<usize>,
    /// The maximum number of bytes, or `None` for unlimited.
    pub byte_limit: Option<usize>,
    pub bw_type: BwType,
}

impl DropTailQueueConfig {
    pub fn new(packet_limit: Option<usize>, byte_limit: Option<usize>, bw_type: BwType) -> (c:
        Self)
        ensures
            c == (DropTailQueueConfig { packet_limit, byte_limit, bw_type }),
    {
        DropTailQueueConfig { packet_limit, byte_limit, bw_type }
    }
}

impl Default for DropTailQueueConfig {
    fn default() -> (c: Self)
        ensures
            c == (DropTailQueueConfig {
                packet_limit: None,
                byte_limit: None,
                bw_type: BwType::NetworkLayer,
            }),
    {
        DropTailQueueConfig { packet_limit: None, byte_limit: None, bw_type: BwType::NetworkLayer }
    }
}

#[derive(Debug)]
pub struct DropTailQueue<P> {
    queue: VecDeque<P>,
    bw_type: BwType,
    packet_limit: Option<usize>,
    byte_limit: Option<usize>,
    now_bytes: usize,
}

impl<P> View for DropTailQueue<P> {
    type V = LimitedModel<P>;

    closed spec fn view(&self) -> LimitedModel<P> {
        LimitedModel {
            packets: self.queue@,
            packet_limit: self.packet_limit,
            byte_limit: self.byte_limit,
            bw_type: self.bw_type,
            bytes: self.now_bytes,
        }
    }
}

impl<P: Packet> DropTailQueue<P> {
    pub fn new(config: DropTailQueueConfig) -> (q: Self)
        ensures
            q@ == (LimitedModel {
                packets: Seq::<P>::empty(),
                packet_limit: config.packet_limit,
                byte_limit: config.byte_limit,
                bw_type: config.bw_type,
                bytes: 0,
            }),
            q@.exact(),
    {
        DropTailQueue {
            queue: VecDeque::new(),
            bw_type: config.bw_type,
            packet_limit: config.packet_limit,
            byte_limit: config.byte_limit,
            now_bytes: 0,
        }
    }

    /// Keeps only the packets for which `f` returns `true`, in order, and takes the bytes of
    /// the others off the count.
    pub fn retain<F: Fn(&P) -> bool>(&mut self, f: F)
        requires
            old(self)@.covered(),
            answers(f),
        ensures
            forall|g: spec_fn(P) -> bool|
                #![trigger tests_for(f, g)]
                tests_for(f, g) ==> final(self)@.packets == old(self)@.packets.filter(g),
            final(self)@.bytes - total_size(final(self)@.packets, final(self)@.extra())
                == old(self)@.bytes - total_size(old(self)@.packets, old(self)@.extra()),
            final(self)@ == (LimitedModel {
                packets: final(self)@.packets,
                bytes: final(self)@.bytes,
                ..old(self)@
            }),
    {
        let ghost before = self@;
        let ghost extra = self@.extra();
        let mut kept: VecDeque<P> = VecDeque::new();
        let ghost mut i: int = 0;
        loop
            invariant
                0 <= i <= before.packets.len(),
                self@.packets == before.packets.skip(i),
                forall|g: spec_fn(P) -> bool|
                    #![trigger tests_for(f, g)]
                    tests_for(f, g) ==> kept@ == before.packets.take(i).filter(g),
                answers(f),
                extra == before.extra(),
                total_size(before.packets, extra) <= before.bytes,
                self@ == (LimitedModel {
                    packets: self@.packets,
                    bytes: self@.bytes,
                    ..before
                }),
                self@.bytes - total_size(self@.packets, extra) - total_size(kept@, extra)
                    == before.bytes - total_size(before.packets, extra),
            ensures
                self@.packets.len() == 0,
                i == before.packets.len(),
            decreases before.packets.len() - i,
        {
            let ghost rest = self@.packets;
            match self.queue.pop_front() {
                Some(packet) => {
                    proof {
                        assert(packet == before.packets[i]);
                        assert(rest.subrange(1, rest.len() as int) =~= rest.drop_first());
                        assert(rest.drop_first() =~= before.packets.skip(i + 1));
                        assert(before.packets.take(i + 1).drop_last() =~= before.packets.take(i));
                        lemma_total_size_nonnegative(rest.drop_first(), extra);
                        lemma_total_size_nonnegative(kept@, extra);
                        lemma_total_size_push(kept@, packet, extra);
                        reveal(Seq::filter);
                        i = i + 1;
                    }
                    if f(&packet) {
                        kept.push_back(packet);
                    } else {
                        self.now_bytes = self.now_bytes - (packet.l3_length()
                            + self.bw_type.extra_length());
                    }
                },
                None => {
                    break;
                },
            }
        }
        assert(before.packets.take(i) =~= before.packets);
        self.queue = kept;
    }
}

impl<P: Packet> DropTailQueue<P> {
    /// Whether the limits leave room for `packet` once the first packet has left.
    pub fn admits_behind_front(&self, packet: &P) -> (b: bool)
        requires
            self@.covered(),
            self@.packets.len() > 0,
        ensures
            b == self@.popped().admits(*packet),
    {
        let front: &P = &self.queue[0];
        let extra: usize = self.bw_type.extra_length();
        proof {
            lemma_total_size_nonnegative(self@.packets.drop_first(), self@.extra());
        }
        let bytes: usize = self.now_bytes - (front.l3_length() + extra);
        let packets_fit: bool = match self.packet_limit {
            Some(limit) => self.queue.len() - 1 < limit,
            None => true,
        };
        let bytes_fit: bool = match self.byte_limit {
            Some(limit) => bytes as u128 + (packet.l3_length() as u128 + extra as u128)
                <= limit as u128,
            None => true,
        };
        packets_fit && bytes_fit
    }
}

impl<P: Packet> LimitedModel<P> {
    /// The limits leave room for the packet.
    pub open spec fn admits(self, packet: P) -> bool {
        &&& self.packet_limit is Some ==> self.packets.len() < self.packet_limit->0
        &&& self.byte_limit is Some ==> self.bytes + size_of(packet, self.extra())
            <= self.byte_limit->0
    }
}

impl<P: Packet> PacketQueue<P> for DropTailQueue<P> {
    type Config = DropTailQueueConfig;

    type Model = LimitedModel<P>;

    open spec fn model(&self) -> LimitedModel<P> {
        self@
    }

    open spec fn packets(m: LimitedModel<P>) -> Seq<P> {
        m.packets
    }

    open spec fn extra(m: LimitedModel<P>) -> usize {
        m.extra()
    }

    open spec fn valid(m: LimitedModel<P>) -> bool {
        m.covered()
    }

    open spec fn zero_buffer(m: LimitedModel<P>) -> bool {
        m.zero_buffer()
    }

    open spec fn configured(m: LimitedModel<P>, config: DropTailQueueConfig) -> LimitedModel<P> {
        LimitedModel {
            packet_limit: config.packet_limit,
            byte_limit: config.byte_limit,
            bw_type: config.bw_type,
            ..m
        }
    }

    open spec fn room(m: LimitedModel<P>, packet: P) -> bool {
        m.bytes + size_of(packet, m.extra()) <= usize::MAX
    }

    open spec fn enqueued(m: LimitedModel<P>, packet: P) -> LimitedModel<P> {
        if m.admits(packet) {
            m.pushed(packet)
        } else {
            m
        }
    }

    open spec fn ready(m: LimitedModel<P>, timestamp: Instant) -> bool {
        true
    }

    open spec fn dequeued(
        before: LimitedModel<P>,
        timestamp: Instant,
        after: LimitedModel<P>,
        packet: Option<P>,
    ) -> bool {
        (after, packet) == before.taken()
    }

    fn configure(&mut self, config: DropTailQueueConfig) {
        self.packet_limit = config.packet_limit;
        self.byte_limit = config.byte_limit;
        self.bw_type = config.bw_type;
    }

    fn enqueue(&mut self, packet: P)
        ensures
            old(self)@.exact() ==> final(self)@.exact(),
    {
        let size: usize = packet.l3_length() + self.bw_type.extra_length();
        let packets_fit: bool = match self.packet_limit {
            Some(limit) => self.queue.len() < limit,
            None => true,
        };
        let bytes_fit: bool = match self.byte_limit {
            Some(limit) => self.now_bytes + size <= limit,
            None => true,
        };
        if packets_fit && bytes_fit {
            proof {
                lemma_total_size_push(self@.packets, packet, self@.extra());
            }
            self.now_bytes = self.now_bytes + size;
            self.queue.push_back(packet);
        }
    }

    fn dequeue_at(&mut self, timestamp: Instant) -> (packet: Option<P>)
        ensures
            old(self)@.exact() ==> final(self)@.exact(),
    {
        let ghost before = self@;
        match self.queue.pop_front() {
            Some(packet) => {
                proof {
                    lemma_total_size_nonnegative(before.packets.drop_first(), before.extra());
                    assert(before.packets.drop_first() =~= before.packets.subrange(
                        1,
                        before.packets.len() as int,
                    ));
                }
                self.now_bytes = self.now_bytes - (packet.l3_length()
                    + self.bw_type.extra_length());
                Some(packet)
            },
            None => None,
        }
    }

    fn is_empty(&self) -> (empty: bool) {
        self.queue.len() == 0
    }

    fn is_zero_buffer(&self) -> (zero: bool) {
        let no_packets: bool = match self.packet_limit {
            Some(limit) => limit == 0,
            None => false,
        };
        let no_bytes: bool = match self.byte_limit {
            Some(limit) => limit == 0,
            None => false,
        };
        no_packets || no_bytes
    }

    fn get_extra_length(&self) -> (n: usize) {
        self.bw_type.extra_length()
    }

    fn get_front_size(&self) -> (n: Option<usize>) {
        if self.queue.len() == 0 {
            None
        } else {
            Some(self.get_packet_size(&self.queue[0]))
        }
    }

    fn length(&self) -> (n: usize) {
        self.queue.len()
    }
}

impl<P: Packet> Default for DropTailQueue<P> {
    fn default() -> (q: Self)
        ensures
            q@ == (LimitedModel {
                packets: Seq::<P>::empty(),
                packet_limit: None,
                byte_limit: None,
                bw_type: BwType::NetworkLayer,
                bytes: 0,
            }),
    {
        DropTailQueue::new(DropTailQueueConfig::default())
    }
}

/// A queue that is within its limits stays within them, whatever comes, and what it holds
/// already stays in it, in its place.
pub proof fn law_drop_tail_stays_within_its_limits<P: Packet>(m: LimitedModel<P>, packet: P)
    requires
        !m.over(),
        DropTailQueue::<P>::room(m, packet),
    ensures
        !DropTailQueue::<P>::enqueued(m, packet).over(),
        m.packets.is_prefix_of(DropTailQueue::<P>::enqueued(m, packet).packets),
        DropTailQueue::<P>::enqueued(m, packet).packets.len() <= m.packets.len() + 1,
{
}

/// A packet is taken in exactly if both limits still hold with it, at the end of the queue;
/// otherwise nothing changes.
pub proof fn law_drop_tail_takes_what_fits<P: Packet>(m: LimitedModel<P>, packet: P)
    requires
        DropTailQueue::<P>::room(m, packet),
    ensures
        ({
            let after = DropTailQueue::<P>::enqueued(m, packet);
            let fits = (m.packet_limit is Some ==> m.packets.len() + 1 <= m.packet_limit->0) && (
            m.byte_limit is Some ==> m.bytes + packet.l3() + m.bw_type.extra()
                <= m.byte_limit->0);
            &&& fits ==> after.packets == m.packets + seq![packet] && after.bytes == m.bytes
                + packet.l3() + m.bw_type.extra()
            &&& !fits ==> after == m
            &&& after.packet_limit == m.packet_limit && after.byte_limit == m.byte_limit
            &&& after.bw_type == m.bw_type
        }),
{
}

/// First in, first out: the packet that is handed out, followed by what is left, is what was
/// queued, and nothing is handed out only if nothing was.
pub proof fn law_drop_tail_is_first_in_first_out<P: Packet>(
    before: LimitedModel<P>,
    timestamp: Instant,
    after: LimitedModel<P>,
    packet: Option<P>,
)
    requires
        before.covered(),
        DropTailQueue::<P>::dequeued(before, timestamp, after, packet),
    ensures
        packet is None <==> before.packets.len() == 0,
        packet is Some ==> before.packets == seq![packet->0] + after.packets && before.bytes
            == after.bytes + packet->0.l3() + before.bw_type.extra(),
        packet is None ==> after == before,
        after.packet_limit == before.packet_limit && after.byte_limit == before.byte_limit
            && after.bw_type == before.bw_type,
{
    if before.packets.len() > 0 {
        lemma_total_size_nonnegative(before.packets.drop_first(), before.extra());
    }
}

/// Where the buffer is zero-sized, no packet that takes up anything is ever taken in.
pub proof fn law_no_buffer_holds_nothing<P: Packet>(m: LimitedModel<P>, packet: P)
    requires
        DropTailQueue::<P>::zero_buffer(m),
        DropTailQueue::<P>::room(m, packet),
        packet.l3() > 0,
    ensures
        DropTailQueue::<P>::enqueued(m, packet) == m,
{
}

/// Another configuration brings its limits into force and leaves what is queued alone.
pub proof fn law_drop_tail_keeps_its_packets_when_configured<P: Packet>(
    m: LimitedModel<P>,
    config: DropTailQueueConfig,
)
    ensures
        ({
            let after = <DropTailQueue<P> as PacketQueue<P>>::configured(m, config);
            &&& after.packets == m.packets
            &&& after.bytes == m.bytes
            &&& after.packet_limit == config.packet_limit
            &&& after.byte_limit == config.byte_limit
            &&& after.bw_type == config.bw_type
        }),
{
}

/// A queue is zero-sized exactly if one of its limits is zero.
pub proof fn law_drop_tail_is_zero_sized_by_its_limits<P: Packet>(m: LimitedModel<P>)
    ensures
        <DropTailQueue<P> as PacketQueue<P>>::zero_buffer(m) <==> m.packet_limit == Some(0usize)
            || m.byte_limit == Some(0usize),
{
}

} // verus!
