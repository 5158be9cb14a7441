//! A queue that drops its oldest packets to make room for a new one.
use super::{
    lemma_total_size_append, lemma_total_size_nonnegative, lemma_total_size_push, size_of,
    total_size, LimitedModel, PacketQueue,
};
use crate::cells::bandwidth::BwType;
use crate::packet::Packet;
use crate::time::Instant;
use std::collections::VecDeque;
use vstd::prelude::*;

verus! {

#[derive(Debug, Clone, Copy)]
pub struct DropHeadQueueConfig {
    /// The maximum number of packets, or `None` for unlimited.
    pub packet_limit: Option<usize>,
    /// The maximum number of bytes, or `None` for unlimited.
    pub byte_limit: Option<usize>,
    pub bw_type: BwType,
}

impl DropHeadQueueConfig {
    pub fn new(packet_limit: Option<usize>, byte_limit: Option<usize>, bw_type: BwType) -> (c:
        Self)
        ensures
            c == (DropHeadQueueConfig { packet_limit, byte_limit, bw_type }),
    {
        DropHeadQueueConfig { packet_limit, byte_limit, bw_type }
    }
}

impl Default for DropHeadQueueConfig {
    fn default() -> (c: Self)
        ensures
            c == (DropHeadQueueConfig {
                packet_limit: None,
                byte_limit: None,
                bw_type: BwType::NetworkLayer,
            }),
    {
        DropHeadQueueConfig { packet_limit: None, byte_limit: None, bw_type: BwType::NetworkLayer }
    }
}

#[derive(Debug)]
pub struct DropHeadQueue<P> {
    queue: VecDeque<P>,
    bw_type: BwType,
    packet_limit: Option<usize>,
    byte_limit: Option<usize>,
    now_bytes: usize,
}

impl<P> View for DropHeadQueue<P> {
    type V = LimitedModel<P>;

    closed spec fn view(&self) -> LimitedModel<P> {
        LimitedModel {
            packets: self.queue@,
            packet_limit: self.packet_limit,
            byte_limit: self.byte_limit,
            bw_type: self.bw_type,
            bytes: self.now_bytes,
        }
    }
}

impl<P: Packet> DropHeadQueue<P> {
    pub fn new(config: DropHeadQueueConfig) -> (q: Self)
        ensures
            q@ == (LimitedModel {
                packets: Seq::<P>::empty(),
                packet_limit: config.packet_limit,
                byte_limit: config.byte_limit,
                bw_type: config.bw_type,
                bytes: 0,
            }),
            q@.exact(),
    {
        DropHeadQueue {
            queue: VecDeque::new(),
            bw_type: config.bw_type,
            packet_limit: config.packet_limit,
            byte_limit: config.byte_limit,
            now_bytes: 0,
        }
    }

    /// Whether one of the limits is exceeded.
    fn is_over(&self) -> (over: bool)
        ensures
            over == self@.over(),
    {
        let packets_over: bool = match self.packet_limit {
            Some(limit) => self.queue.len() > limit,
            None => false,
        };
        let bytes_over: bool = match self.byte_limit {
            Some(limit) => self.now_bytes > limit,
            None => false,
        };
        packets_over || bytes_over
    }
}

impl<P: Packet> LimitedModel<P> {
    /// The oldest packets are dropped until the limits are kept.
    pub open spec fn trimmed(self) -> Self
        decreases self.packets.len(),
    {
        if self.over() && self.packets.len() > 0 {
            self.popped().trimmed()
        } else {
            self
        }
    }

    /// The byte limit can be kept by dropping packets.
    pub open spec fn drainable(self) -> bool {
        self.byte_limit is Some ==> self.bytes - total_size(self.packets, self.extra())
            <= self.byte_limit->0
    }
}

impl<P: Packet> PacketQueue<P> for DropHeadQueue<P> {
    type Config = DropHeadQueueConfig;

    type Model = LimitedModel<P>;

    open spec fn model(&self) -> LimitedModel<P> {
        self@
    }

    open spec fn packets(m: LimitedModel<P>) -> Seq<P> {
        m.packets
    }

    open spec fn extra(m: LimitedModel<P>) -> usize {
        m.extra()
    }

    open spec fn valid(m: LimitedModel<P>) -> bool {
        m.covered() && m.drainable()
    }

    open spec fn zero_buffer(m: LimitedModel<P>) -> bool {
        m.zero_buffer()
    }

    open spec fn configured(m: LimitedModel<P>, config: DropHeadQueueConfig) -> LimitedModel<P> {
        LimitedModel {
            packet_limit: config.packet_limit,
            byte_limit: config.byte_limit,
            bw_type: config.bw_type,
            ..m
        }
    }

    open spec fn room(m: LimitedModel<P>, packet: P) -> bool {
        m.bytes + size_of(packet, m.extra()) <= usize::MAX
    }

    open spec fn enqueued(m: LimitedModel<P>, packet: P) -> LimitedModel<P> {
        m.pushed(packet).trimmed()
    }

    open spec fn ready(m: LimitedModel<P>, timestamp: Instant) -> bool {
        true
    }

    open spec fn dequeued(
        before: LimitedModel<P>,
        timestamp: Instant,
        after: LimitedModel<P>,
        packet: Option<P>,
    ) -> bool {
        (after, packet) == before.taken()
    }

    fn configure(&mut self, config: DropHeadQueueConfig) {
        self.packet_limit = config.packet_limit;
        self.byte_limit = config.byte_limit;
        self.bw_type = config.bw_type;
    }

    fn enqueue(&mut self, packet: P)
        ensures
            old(self)@.exact() ==> final(self)@.exact(),
    {
        let timestamp: Instant = packet.get_timestamp();
        proof {
            lemma_total_size_push(self@.packets, packet, self@.extra());
        }
        self.now_bytes = self.now_bytes + (packet.l3_length() + self.bw_type.extra_length());
        self.queue.push_back(packet);
        let ghost pushed = self@;
        let mut over: bool = self.is_over();
        while over
            invariant
                over == self@.over(),
                self@.covered(),
                self@.drainable(),
                old(self)@.exact() ==> self@.exact(),
                self@.trimmed() == pushed.trimmed(),
            decreases self@.packets.len(),
        {
            let _ = self.dequeue_at(timestamp);
            over = self.is_over();
        }
    }

    fn dequeue_at(&mut self, timestamp: Instant) -> (packet: Option<P>)
        ensures
            old(self)@.exact() ==> final(self)@.exact(),
    {
        let ghost before = self@;
        match self.queue.pop_front() {
            Some(packet) => {
                proof {
                    lemma_total_size_nonnegative(before.packets.drop_first(), before.extra());
                    assert(before.packets.drop_first() =~= before.packets.subrange(
                        1,
                        before.packets.len() as int,
                    ));
                }
                self.now_bytes = self.now_bytes - (packet.l3_length()
                    + self.bw_type.extra_length());
                Some(packet)
            },
            None => None,
        }
    }

    fn is_empty(&self) -> (empty: bool) {
        self.queue.len() == 0
    }

    fn is_zero_buffer(&self) -> (zero: bool) {
        let no_packets: bool = match self.packet_limit {
            Some(limit) => limit == 0,
            None => false,
        };
        let no_bytes: bool = match self.byte_limit {
            Some(limit) => limit == 0,
            None => false,
        };
        no_packets || no_bytes
    }

    fn get_extra_length(&self) -> (n: usize) {
        self.bw_type.extra_length()
    }

    fn get_front_size(&self) -> (n: Option<usize>) {
        if self.queue.len() == 0 {
            None
        } else {
            Some(self.get_packet_size(&self.queue[0]))
        }
    }

    fn length(&self) -> (n: usize) {
        self.queue.len()
    }
}

impl<P: Packet> Default for DropHeadQueue<P> {
    fn default() -> (q: Self)
        ensures
            q@ == (LimitedModel {
                packets: Seq::<P>::empty(),
                packet_limit: None,
                byte_limit: None,
                bw_type: BwType::NetworkLayer,
                bytes: 0,
            }),
    {
        DropHeadQueue::new(DropHeadQueueConfig::default())
    }
}

impl<P: Packet> LimitedModel<P> {
    /// The oldest `n` packets are taken out.
    pub open spec fn without(self, n: nat) -> Self {
        LimitedModel {
            packets: self.packets.skip(n as int),
            bytes: (self.bytes - total_size(self.packets.take(n as int), self.extra())) as usize,
            ..self
        }
    }
}

/// When a packet comes in, the queue drops as many of its oldest packets as it takes to be
/// within its limits, and no more.
pub proof fn law_drop_head_drops_no_more_than_needed<P: Packet>(m: LimitedModel<P>, packet: P)
    requires
        DropHeadQueue::<P>::valid(m),
        DropHeadQueue::<P>::room(m, packet),
    ensures
        !DropHeadQueue::<P>::enqueued(m, packet).over(),
        exists|n: nat| #[trigger]
            drops(m.pushed(packet), n) && DropHeadQueue::<P>::enqueued(m, packet) == m.pushed(
                packet,
            ).without(n),
{
    lemma_total_size_push(m.packets, packet, m.extra());
    lemma_trimmed(m.pushed(packet));
}

/// Dropping fewer than `n` packets would leave the queue over a limit.
pub open spec fn drops<P: Packet>(m: LimitedModel<P>, n: nat) -> bool {
    &&& n <= m.packets.len()
    &&& forall|k: nat| k < n ==> (#[trigger] m.without(k)).over()
}

proof fn lemma_trimmed<P: Packet>(m: LimitedModel<P>)
    requires
        m.covered(),
        m.drainable(),
    ensures
        !m.trimmed().over(),
        exists|n: nat| #[trigger] drops(m, n) && m.trimmed() == m.without(n),
    decreases m.packets.len(),
{
    assert(m.packets.take(0) =~= Seq::<P>::empty());
    assert(m.without(0) =~= m);
    if m.over() && m.packets.len() > 0 {
        let rest = m.popped();
        lemma_total_size_nonnegative(m.packets.drop_first(), m.extra());
        lemma_trimmed(rest);
        let n = choose|n: nat| #[trigger] drops(rest, n) && rest.trimmed() == rest.without(n);
        assert forall|k: nat| k <= rest.packets.len() implies #[trigger] m.without(k + 1)
            == rest.without(k) by {
            assert(m.packets.take(k as int + 1).drop_first() =~= rest.packets.take(k as int));
            assert(m.packets.skip(k as int + 1) =~= rest.packets.skip(k as int));
        }
        assert forall|k: nat| k < n + 1 implies (#[trigger] m.without(k)).over() by {
            if k > 0 {
                let j = (k - 1) as nat;
                assert(m.without(j + 1) == rest.without(j));
            }
        }
        assert(drops(m, n + 1));
        assert(m.trimmed() == m.without(n + 1));
    } else {
        assert(drops(m, 0));
    }
}

/// What is queued once a packet has come is the end of what was queued and that packet: the
/// oldest packets make room, and none if there is room. The bytes are those of what is left.
pub proof fn law_drop_head_keeps_the_newest<P: Packet>(m: LimitedModel<P>, packet: P)
    requires
        DropHeadQueue::<P>::valid(m),
        DropHeadQueue::<P>::room(m, packet),
    ensures
        ({
            let after = DropHeadQueue::<P>::enqueued(m, packet);
            let all = m.packets + seq![packet];
            let fits = (m.packet_limit is Some ==> m.packets.len() + 1 <= m.packet_limit->0) && (
            m.byte_limit is Some ==> m.bytes + packet.l3() + m.bw_type.extra()
                <= m.byte_limit->0);
            let n = all.len() - after.packets.len();
            &&& n >= 0 && after.packets == all.skip(n)
            &&& fits ==> n == 0
            &&& !fits ==> n > 0
            &&& after.packet_limit is Some ==> after.packets.len() <= m.packet_limit->0
            &&& after.byte_limit is Some ==> after.bytes <= m.byte_limit->0
            &&& after.packet_limit == m.packet_limit && after.byte_limit == m.byte_limit
            &&& m.exact() ==> after.exact()
        }),
{
    let all = m.packets + seq![packet];
    assert(m.packets.push(packet) =~= all);
    lemma_total_size_push(m.packets, packet, m.extra());
    lemma_trimmed(m.pushed(packet));
    let p = m.pushed(packet);
    let n = choose|n: nat| #[trigger] drops(p, n) && p.trimmed() == p.without(n);
    assert(p.packets.take(n as int) + p.packets.skip(n as int) =~= p.packets);
    lemma_total_size_append(p.packets.take(n as int), p.packets.skip(n as int), p.extra());
    lemma_total_size_nonnegative(p.packets.take(n as int), p.extra());
    lemma_total_size_nonnegative(p.packets.skip(n as int), p.extra());
    assert(p.packets.take(0) =~= Seq::<P>::empty());
    assert(p.without(0) =~= p);
}

/// First in, first out: the packet that is handed out, followed by what is left, is what was
/// queued, and nothing is handed out only if nothing was.
pub proof fn law_drop_head_is_first_in_first_out<P: Packet>(
    before: LimitedModel<P>,
    timestamp: Instant,
    after: LimitedModel<P>,
    packet: Option<P>,
)
    requires
        before.covered(),
        DropHeadQueue::<P>::dequeued(before, timestamp, after, packet),
    ensures
        packet is None <==> before.packets.len() == 0,
        packet is Some ==> before.packets == seq![packet->0] + after.packets && before.bytes
            == after.bytes + packet->0.l3() + before.bw_type.extra(),
        packet is None ==> after == before,
{
    if before.packets.len() > 0 {
        lemma_total_size_nonnegative(before.packets.drop_first(), before.extra());
    }
}

/// Another configuration brings its limits into force and leaves what is queued alone.
pub proof fn law_drop_head_keeps_its_packets_when_configured<P: Packet>(
    m: LimitedModel<P>,
    config: DropHeadQueueConfig,
)
    ensures
        ({
            let after = <DropHeadQueue<P> as PacketQueue<P>>::configured(m, config);
            &&& after.packets == m.packets
            &&& after.bytes == m.bytes
            &&& after.packet_limit == config.packet_limit
            &&& after.byte_limit == config.byte_limit
            &&& after.bw_type == config.bw_type
        }),
{
}

/// A queue is zero-sized exactly if one of its limits is zero.
pub proof fn law_drop_head_is_zero_sized_by_its_limits<P: Packet>(m: LimitedModel<P>)
    ensures
        <DropHeadQueue<P> as PacketQueue<P>>::zero_buffer(m) <==> m.packet_limit == Some(0usize)
            || m.byte_limit == Some(0usize),
{
}

} // verus!
