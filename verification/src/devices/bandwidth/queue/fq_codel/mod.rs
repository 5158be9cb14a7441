//! FQ-CoDel: packets are sorted into flows by a hash of their addresses, each flow is a
//! CoDel queue, and the flows are served in turn.
use crate::cells::bandwidth::BwType;
use crate::devices::bandwidth::queue::ecn::{code_point, is_ip, ControlBuffer};
use crate::devices::bandwidth::queue::random::{
    later, long_word, next_u64, seeded, seeded_words, QUEUE_SEED,
};
use crate::headers::{ip_hdr, ipv4_length, rest_after, ETHERNET_HEADER_LENGTH};
use crate::law::computes;
use crate::packet::{Packet, RawPacket};
use crate::sums::{lemma_sum_append, lemma_sum_nonnegative, lemma_sum_update, sum_by};
use crate::time::{Duration, Instant, MILLISECOND};
use flow::{
    frame_size, in_time, law_flow_hands_out_in_order, law_shedding_goes_on_until_enough_is_gone,
    law_shedding_keeps_the_rest, sent_as, shed_count, FlowModel, FlowState, FqCoDelFlow, Spacing,
};
use std::collections::VecDeque;
use vstd::prelude::*;

pub mod flow;

verus! {

#[derive(Debug, Clone, Copy)]
pub struct FqCoDelQueueConfig {
    pub packet_limit: Option<usize>,
    pub byte_limit: Option<usize>,
    pub mtu: u32,
    /// Number of flows.
    pub flows_cnt: u32,
    /// The bytes that a flow may send in a round.
    pub quantum: i32,
    /// Width of the moving time window.
    pub interval: Duration,
    /// Target queue delay.
    pub target: Duration,
    pub use_ecn: bool,
    /// How many packets to drop at most when the queue is full.
    pub drop_batch_size: u32,
    pub bw_type: BwType,
}

impl FqCoDelQueueConfig {
    pub fn new(
        packet_limit: Option<usize>,
        byte_limit: Option<usize>,
        mtu: u32,
        flows_cnt: u32,
        quantum: i32,
        interval: Duration,
        target: Duration,
        use_ecn: bool,
        drop_batch_size: u32,
        bw_type: BwType,
    ) -> (c: Self)
        ensures
            c == (FqCoDelQueueConfig {
                packet_limit,
                byte_limit,
                mtu,
                flows_cnt,
                quantum,
                interval,
                target,
                use_ecn,
                drop_batch_size,
                bw_type,
            }),
    {
        FqCoDelQueueConfig {
            packet_limit,
            byte_limit,
            mtu,
            flows_cnt,
            quantum,
            interval,
            target,
            use_ecn,
            drop_batch_size,
            bw_type,
        }
    }
}

impl Default for FqCoDelQueueConfig {
    fn default() -> (c: Self)
        ensures
            c == (FqCoDelQueueConfig {
                packet_limit: None,
                byte_limit: None,
                mtu: 1500,
                flows_cnt: 1024,
                quantum: 1500,
                interval: 100_000_000,
                target: 5_000_000,
                use_ecn: true,
                drop_batch_size: 64,
                bw_type: BwType::NetworkLayer,
            }),
    {
        FqCoDelQueueConfig {
            packet_limit: None,
            byte_limit: None,
            mtu: 1500,
            flows_cnt: 1024,
            quantum: 1500,
            interval: 100 * MILLISECOND,
            target: 5 * MILLISECOND,
            use_ecn: true,
            drop_batch_size: 64,
            bw_type: BwType::NetworkLayer,
        }
    }
}

/// The frame holds the ports that follow its IPv4 header, where it has one.
pub open spec fn has_ports(frame: Seq<u8>) -> bool {
    is_ip(frame) ==> frame.len() >= ports_index(frame) + 4
}

/// Where the ports are in a frame with an IPv4 header.
pub open spec fn ports_index(frame: Seq<u8>) -> int {
    ETHERNET_HEADER_LENGTH + ipv4_length(rest_after(frame, ETHERNET_HEADER_LENGTH as int))
}

/// What the packets of a flow have in common: source and destination address, source and
/// destination port, and a closing 4. All frames without an IPv4 header are one flow.
pub open spec fn flow_tuple(frame: Seq<u8>) -> Seq<u8> {
    if is_ip(frame) {
        frame.subrange(26, 34) + frame.subrange(
            ports_index(frame),
            ports_index(frame) + 4,
        ).push(4)
    } else {
        Seq::new(13, |i: int| 0u8)
    }
}

/// What the packets of a flow have in common.
#[derive(Debug, Clone, Copy)]
pub struct FqCoDelFlowTuple {
    content: [u8; 13],
}

impl FqCoDelFlowTuple {
    pub closed spec fn bytes(self) -> Seq<u8> {
        self.content@
    }

    pub fn new<P: RawPacket>(packet: &P) -> (t: Self)
        requires
            has_ports(packet.bytes()),
        ensures
            t.bytes() == flow_tuple(packet.bytes()),
    {
        let frame: &[u8] = packet.as_slice();
        match ip_hdr(frame) {
            Some(header) => {
                let at: usize = ETHERNET_HEADER_LENGTH + header.length;
                let from: [u8; 4] = header.source;
                let to: [u8; 4] = header.destination;
                let ghost ip = rest_after(frame@, ETHERNET_HEADER_LENGTH as int);
                assert(forall|i: int| 0 <= i < 4 ==> #[trigger] from@[i] == ip[12 + i]);
                assert(forall|i: int| 0 <= i < 4 ==> #[trigger] to@[i] == ip[16 + i]);
                let content: [u8; 13] = [
                    from[0],
                    from[1],
                    from[2],
                    from[3],
                    to[0],
                    to[1],
                    to[2],
                    to[3],
                    frame[at],
                    frame[at + 1],
                    frame[at + 2],
                    frame[at + 3],
                    4,
                ];
                assert(content@ =~= flow_tuple(frame@));
                FqCoDelFlowTuple { content }
            },
            None => {
                let content: [u8; 13] = [0u8; 13];
                assert(content@ =~= flow_tuple(frame@));
                FqCoDelFlowTuple { content }
            },
        }
    }

    pub fn into_bytes(self) -> (bytes: [u8; 13])
        ensures
            bytes@ == self.bytes(),
    {
        self.content
    }
}

/// SipHash-1-3 of `bytes` under the two words of a key.
pub uninterp spec fn sip13(key0: u64, key1: u64, bytes: Seq<u8>) -> u64;

/// Hashes with `siphasher::sip::SipHasher13::hash`, keyed by `new_with_keys`. The hash is a
/// function of the key and the bytes.
#[verifier::external_body]
fn sip13_hash(key0: u64, key1: u64, bytes: &[u8; 13]) -> (h: u64)
    ensures
        h == sip13(key0, key1, bytes@),
{
    siphasher::sip::SipHasher13::new_with_keys(key0, key1).hash(bytes)
}

/// The flow of `flows_cnt` that a hash falls to: its lower half as a share of the flows.
pub open spec fn flow_of(hash: u64, flows_cnt: u32) -> int {
    ((hash % 0x1_0000_0000) * flows_cnt) / 0x1_0000_0000
}

/// The flow that a hash falls to.
pub fn flow_index(hash: u64, flows_cnt: u32) -> (idx: u32)
    requires
        flows_cnt > 0,
    ensures
        idx == flow_of(hash, flows_cnt),
        idx < flows_cnt,
{
    let low: u64 = hash % 0x1_0000_0000;
    assert(low * flows_cnt <= 0xffff_ffff * flows_cnt) by (nonlinear_arith)
        requires
            low <= 0xffff_ffff,
            flows_cnt >= 0,
    ;
    let product: u64 = low * (flows_cnt as u64);
    (product / 0x1_0000_0000) as u32
}

/// What a FQ-CoDel queue holds and remembers.
#[verifier::ext_equal]
pub struct FqCoDelModel<P, L> {
    pub config: FqCoDelQueueConfig,
    pub flows: Seq<FlowModel<P>>,
    /// The flows that have packets since short, oldest first.
    pub new_flows: Seq<u32>,
    /// The flows that have had their turn.
    pub old_flows: Seq<u32>,
    /// Bytes counted for the queued packets.
    pub bytes: usize,
    pub packets: usize,
    pub key0: u64,
    pub key1: u64,
    /// The time to the next drop, from the interval and the number of drops.
    pub law: L,
}

/// The bytes in a flow.
pub open spec fn flow_bytes<P>() -> spec_fn(FlowModel<P>) -> int {
    |f: FlowModel<P>| f.state.bytes as int
}

/// The packets in a flow.
pub open spec fn flow_packets<P>() -> spec_fn(FlowModel<P>) -> int {
    |f: FlowModel<P>| f.state.packets as int
}

/// How far a flow is from being allowed to send.
pub open spec fn flow_debt<P>() -> spec_fn(FlowModel<P>) -> int {
    |f: FlowModel<P>|
        if f.deficit <= 0 {
            1 - f.deficit
        } else {
            0
        }
}

/// The flow with the most bytes among the first `n`; the first of them, if there are
/// several.
pub open spec fn fattest<P>(flows: Seq<FlowModel<P>>, n: int) -> int
    decreases n,
{
    if n <= 1 {
        0
    } else {
        let j = fattest(flows, n - 1);
        if flows[n - 1].state.bytes > flows[j].state.bytes {
            n - 1
        } else {
            j
        }
    }
}

impl<P: RawPacket, L: Fn(Duration, u32) -> Duration> FqCoDelModel<P, L> {
    /// Every flow is in order, the counters cover the flows, and every flow that holds a
    /// packet waits for its turn.
    pub open spec fn valid(self) -> bool {
        &&& self.flows.len() <= u32::MAX
        &&& forall|i: int| 0 <= i < self.flows.len() ==> (#[trigger] self.flows[i]).state.valid()
        &&& forall|k: int|
            0 <= k < self.new_flows.len() ==> (#[trigger] self.new_flows[k]) < self.flows.len()
        &&& forall|k: int|
            0 <= k < self.old_flows.len() ==> (#[trigger] self.old_flows[k]) < self.flows.len()
        &&& sum_by(self.flows, flow_bytes()) <= self.bytes
        &&& sum_by(self.flows, flow_packets()) == self.packets
        &&& self.all_listed()
    }

    /// Every flow that holds a packet waits for its turn.
    pub open spec fn all_listed(self) -> bool {
        forall|i: int|
            0 <= i < self.flows.len() && (#[trigger] self.flows[i]).state.queue.len() > 0
                ==> self.listed(i as u32)
    }

    /// The flow waits for its turn.
    pub open spec fn listed(self, i: u32) -> bool {
        self.new_flows.contains(i) || self.old_flows.contains(i)
    }

    /// No flow holds a packet.
    pub open spec fn is_empty(self) -> bool {
        &&& self.packets == 0
        &&& forall|i: int|
            0 <= i < self.flows.len() ==> (#[trigger] self.flows[i]).state.queue.len() == 0
    }

    /// The configuration fits the number of flows that the queue was made with.
    pub open spec fn hashes(self) -> bool {
        0 < self.config.flows_cnt <= self.flows.len()
    }

    /// The drops in each flow can be counted.
    pub open spec fn countable(self) -> bool {
        forall|i: int|
            0 <= i < self.flows.len() ==> (#[trigger] self.flows[i]).state.countable()
    }

    /// A limit would be exceeded with the packet.
    pub open spec fn over_limit(self, packet: P) -> bool {
        ||| self.config.packet_limit is Some && self.packets >= self.config.packet_limit->0
        ||| self.config.byte_limit is Some && self.bytes + packet.l3()
            + self.config.bw_type.extra() > self.config.byte_limit->0
    }

    /// The fattest flow drops from its head, up to half of its bytes and no more packets
    /// than a batch.
    pub open spec fn shed(self) -> Self {
        let i = fattest(self.flows, self.config.flows_cnt as int);
        let before = self.flows[i];
        let state = before.state.shed(
            self.config.drop_batch_size as int,
            (before.state.bytes / 2) as int,
        );
        FqCoDelModel {
            flows: self.flows.update(i, FlowModel { state, ..before }),
            bytes: (self.bytes - (before.state.bytes - state.bytes)) as usize,
            packets: (self.packets - (before.state.packets - state.packets)) as usize,
            ..self
        }
    }

    /// The packet joins flow `i` at `now`.
    pub open spec fn joined(self, packet: P, i: u32, now: Instant) -> Self {
        let b = ControlBuffer { ect: code_point(packet.bytes()), packet: packet.stamped(now) };
        let before = self.flows[i as int];
        let is_new = before.state.queue.len() == 0;
        FqCoDelModel {
            flows: self.flows.update(
                i as int,
                FlowModel {
                    deficit: if is_new {
                        self.config.quantum
                    } else {
                        before.deficit
                    },
                    state: before.state.pushed(b),
                },
            ),
            new_flows: if is_new {
                self.new_flows.push(i)
            } else {
                self.new_flows
            },
            bytes: (self.bytes + packet.l3() + self.config.bw_type.extra()) as usize,
            packets: (self.packets + 1) as usize,
            ..self
        }
    }

    /// A packet whose flow tuple hashes to `hash` comes at `now`: over a limit it is dropped,
    /// and packets of the fattest flow with it.
    pub open spec fn enqueued(self, packet: P, hash: u64, now: Instant) -> Self {
        if self.over_limit(packet) {
            self.shed()
        } else {
            self.joined(packet, flow_of(hash, self.config.flows_cnt) as u32, now)
        }
    }

    /// The hash of the packet's flow.
    pub open spec fn hash_of(self, packet: P) -> u64 {
        sip13(self.key0, self.key1, flow_tuple(packet.bytes()))
    }

    /// The counters fit the machine when the packet comes in.
    pub open spec fn room(self, packet: P) -> bool {
        &&& self.bytes + packet.l3() + self.config.bw_type.extra() <= usize::MAX
        &&& self.packets < usize::MAX
        &&& packet.l3() <= i32::MAX
    }

    /// The flow whose turn it is, and whether it is a new one.
    pub open spec fn next_flow(self) -> Option<(u32, bool)> {
        if self.new_flows.len() > 0 {
            Some((self.new_flows[0], true))
        } else if self.old_flows.len() > 0 {
            Some((self.old_flows[0], false))
        } else {
            None
        }
    }

    /// The flow whose turn it is leaves its list.
    pub open spec fn called(self) -> Self {
        if self.new_flows.len() > 0 {
            FqCoDelModel { new_flows: self.new_flows.drop_first(), ..self }
        } else {
            FqCoDelModel { old_flows: self.old_flows.drop_first(), ..self }
        }
    }

    /// How far all flows together are from being allowed to send.
    pub open spec fn debt(self) -> int {
        sum_by(self.flows, flow_debt())
    }

    /// One turn. A flow without credit gets a quantum and goes to the end of the old flows.
    /// A flow that has nothing to send leaves; if it was new and old ones wait, it goes to
    /// their end first. Otherwise its packet is sent, and the flow stays where it was.
    /// The second result is `None` if the turn sent nothing and the next one follows.
    pub open spec fn turn(self, now: Instant, spacing: Spacing) -> (Self, Option<Option<(P, bool)>>) {
        match self.next_flow() {
            None => (self, Some(None)),
            Some((i, from_new)) => {
                let flow = self.flows[i as int];
                let m = self.called();
                if flow.deficit <= 0 {
                    let paid = FlowModel {
                        deficit: (flow.deficit + self.config.quantum) as i32,
                        ..flow
                    };
                    (
                        FqCoDelModel {
                            flows: m.flows.update(i as int, paid),
                            old_flows: m.old_flows.push(i),
                            ..m
                        },
                        None,
                    )
                } else {
                    let (state, out) = flow.state.taken(self.config, now, spacing);
                    let counted = FqCoDelModel {
                        bytes: (m.bytes - (flow.state.bytes - state.bytes)) as usize,
                        packets: (m.packets - (flow.state.packets - state.packets)) as usize,
                        ..m
                    };
                    match out {
                        None => (
                            FqCoDelModel {
                                flows: m.flows.update(i as int, FlowModel { state, ..flow }),
                                old_flows: if from_new && m.old_flows.len() > 0 {
                                    m.old_flows.push(i)
                                } else {
                                    m.old_flows
                                },
                                ..counted
                            },
                            None,
                        ),
                        Some((p, marked)) => (
                            FqCoDelModel {
                                flows: m.flows.update(
                                    i as int,
                                    FlowModel { deficit: (flow.deficit - p.l3()) as i32, state },
                                ),
                                new_flows: self.new_flows,
                                old_flows: self.old_flows,
                                ..counted
                            },
                            Some(Some((p, marked))),
                        ),
                    }
                }
            },
        }
    }

    /// The lists name flows that are there, and a quantum brings a flow closer to sending.
    pub open spec fn orderly(self) -> bool {
        &&& self.config.quantum > 0
        &&& self.next_flow() is Some ==> (self.next_flow()->0).0 < self.flows.len()
    }

    /// What asking for a packet at `now` does: turns are taken until one sends, or until no
    /// flow is left. Returns the packet to send and whether it is to be marked.
    pub open spec fn served(self, now: Instant, spacing: Spacing) -> (Self, Option<(P, bool)>)
        decreases self.debt(), self.new_flows.len(), self.old_flows.len(),
        when self.orderly()
    {
        proof {
            lemma_turn_gets_closer(self, now, spacing);
        }
        match self.turn(now, spacing) {
            (m, Some(out)) => (m, out),
            (m, None) => m.served(now, spacing),
        }
    }
}

/// A turn that sends nothing brings the next packet closer: the flows owe less, or fewer of
/// them are new, or fewer of them wait.
pub proof fn lemma_turn_gets_closer<P: RawPacket, L: Fn(Duration, u32) -> Duration>(
    m: FqCoDelModel<P, L>,
    now: Instant,
    spacing: Spacing,
)
    requires
        m.orderly(),
    ensures
        m.debt() >= 0,
        m.turn(now, spacing).1 is None ==> {
            let after = m.turn(now, spacing).0;
            ||| 0 <= after.debt() < m.debt()
            ||| after.debt() == m.debt() && after.new_flows.len() < m.new_flows.len()
            ||| after.debt() == m.debt() && after.new_flows.len() == m.new_flows.len()
                && after.old_flows.len() < m.old_flows.len()
        },
{
    lemma_sum_nonnegative(m.flows, flow_debt());
    match m.next_flow() {
        None => {},
        Some((i, from_new)) => {
            let flow = m.flows[i as int];
            let after = m.turn(now, spacing).0;
            lemma_sum_nonnegative(after.flows, flow_debt());
            lemma_sum_update(m.flows, i as int, after.flows[i as int], flow_debt());
            assert(after.flows == m.flows.update(i as int, after.flows[i as int]));
        },
    }
}

/// A flow that is not the one whose turn it is still waits once that one has left its list.
proof fn lemma_others_wait<P: RawPacket, L: Fn(Duration, u32) -> Duration>(
    m: FqCoDelModel<P, L>,
)
    requires
        m.next_flow() is Some,
    ensures
        forall|j: u32|
            j != (m.next_flow()->0).0 && #[trigger] m.listed(j) ==> m.called().listed(j),
{
    let (i, from_new) = m.next_flow()->0;
    assert forall|j: u32| j != i && #[trigger] m.listed(j) implies m.called().listed(j) by {
        if m.new_flows.contains(j) {
            let k = m.new_flows.index_of(j);
            assert(m.new_flows[k] == j);
            assert(m.called().new_flows[k - 1] == j);
        } else {
            let k = m.old_flows.index_of(j);
            assert(m.old_flows[k] == j);
            if !from_new {
                assert(m.called().old_flows[k - 1] == j);
            }
        }
    }
}

/// Whoever waits, still waits when one more is put behind the old flows; and so does that
/// one.
proof fn lemma_append_old<P: RawPacket, L: Fn(Duration, u32) -> Duration>(
    m: FqCoDelModel<P, L>,
    after: FqCoDelModel<P, L>,
    i: u32,
)
    requires
        after.new_flows == m.new_flows,
        after.old_flows == m.old_flows.push(i),
    ensures
        forall|j: u32| #[trigger] m.listed(j) ==> after.listed(j),
        after.listed(i),
{
    assert(after.old_flows[m.old_flows.len() as int] == i);
    assert forall|j: u32| #[trigger] m.listed(j) implies after.listed(j) by {
        if m.old_flows.contains(j) {
            let k = m.old_flows.index_of(j);
            assert(after.old_flows[k] == j);
        }
    }
}

/// The queue stays in order when one flow shrinks and the others keep waiting.
proof fn lemma_one_flow_changed<P: RawPacket, L: Fn(Duration, u32) -> Duration>(
    m: FqCoDelModel<P, L>,
    after: FqCoDelModel<P, L>,
    i: u32,
)
    requires
        m.valid(),
        i < m.flows.len(),
        after.flows == m.flows.update(i as int, after.flows[i as int]),
        after.flows[i as int].state.valid(),
        after.flows[i as int].state.bytes <= m.flows[i as int].state.bytes,
        after.flows[i as int].state.packets <= m.flows[i as int].state.packets,
        after.bytes == m.bytes - (m.flows[i as int].state.bytes
            - after.flows[i as int].state.bytes),
        after.packets == m.packets - (m.flows[i as int].state.packets
            - after.flows[i as int].state.packets),
        forall|k: int|
            0 <= k < after.new_flows.len() ==> (#[trigger] after.new_flows[k]) < m.flows.len(),
        forall|k: int|
            0 <= k < after.old_flows.len() ==> (#[trigger] after.old_flows[k]) < m.flows.len(),
        forall|j: u32| j != i && #[trigger] m.listed(j) ==> after.listed(j),
        after.flows[i as int].state.queue.len() > 0 ==> after.listed(i),
    ensures
        after.valid(),
{
    lemma_sum_update(m.flows, i as int, after.flows[i as int], flow_bytes());
    lemma_sum_update(m.flows, i as int, after.flows[i as int], flow_packets());
    assert forall|j: int| 0 <= j < after.flows.len() implies (
    #[trigger] after.flows[j]).state.valid() by {
        if j != i {
            assert(after.flows[j] == m.flows[j]);
        }
    }
    assert forall|j: int|
        0 <= j < after.flows.len() && (#[trigger] after.flows[j]).state.queue.len()
            > 0 implies after.listed(j as u32) by {
        if j != i {
            assert(after.flows[j] == m.flows[j]);
            assert(m.listed(j as u32));
        }
    }
}

/// A flow holds no more than is counted for all of them.
proof fn lemma_flow_is_covered<P: RawPacket, L: Fn(Duration, u32) -> Duration>(
    m: FqCoDelModel<P, L>,
    i: int,
)
    requires
        m.valid(),
        0 <= i < m.flows.len(),
    ensures
        m.flows[i].state.bytes <= m.bytes,
        m.flows[i].state.packets <= m.packets,
{
    lemma_sum_nonnegative(m.flows, flow_bytes());
    lemma_sum_nonnegative(m.flows, flow_packets());
    assert(flow_bytes()(m.flows[i]) <= sum_by(m.flows, flow_bytes()));
    assert(flow_packets()(m.flows[i]) <= sum_by(m.flows, flow_packets()));
}

/// The flow that is found is one of those looked at, and none of them holds more.
pub proof fn lemma_fattest<P>(flows: Seq<FlowModel<P>>, n: int)
    requires
        0 < n <= flows.len(),
    ensures
        0 <= fattest(flows, n) < n,
        forall|i: int|
            0 <= i < n ==> (#[trigger] flows[i]).state.bytes <= flows[fattest(
                flows,
                n,
            )].state.bytes,
    decreases n,
{
    if n > 1 {
        lemma_fattest(flows, n - 1);
    }
}

/// A queue that serves its flows in turn, each a CoDel queue.
pub struct FqCoDelQueue<P, L> {
    config: FqCoDelQueueConfig,
    flows: Vec<FqCoDelFlow<P>>,
    new_flows: VecDeque<u32>,
    old_flows: VecDeque<u32>,
    bytes_in_queue: usize,
    packets_in_queue: usize,
    key0: u64,
    key1: u64,
    law: L,
}

impl<P, L> View for FqCoDelQueue<P, L> {
    type V = FqCoDelModel<P, L>;

    closed spec fn view(&self) -> FqCoDelModel<P, L> {
        FqCoDelModel {
            config: self.config,
            flows: self.flows@.map_values(|f: FqCoDelFlow<P>| f@),
            new_flows: self.new_flows@,
            old_flows: self.old_flows@,
            bytes: self.bytes_in_queue,
            packets: self.packets_in_queue,
            key0: self.key0,
            key1: self.key1,
            law: self.law,
        }
    }
}

impl<P: RawPacket, L: Fn(Duration, u32) -> Duration> FqCoDelQueue<P, L> {
    /// As many flows as the configuration asks for, all of them empty, made at `now`.
    /// `law(interval, count)` is the time to the next drop after `count` drops: `interval`
    /// divided by the square root of `count`.
    pub fn new(config: FqCoDelQueueConfig, now: Instant, law: L) -> (q: Self)
        ensures
            q@ == (FqCoDelModel {
                config,
                flows: Seq::new(
                    config.flows_cnt as nat,
                    |i: int| FlowModel { deficit: 0, state: FlowState::<P>::fresh(now) },
                ),
                new_flows: Seq::<u32>::empty(),
                old_flows: Seq::<u32>::empty(),
                bytes: 0,
                packets: 0,
                key0: long_word(later(seeded_words(QUEUE_SEED), 2)),
                key1: long_word(seeded_words(QUEUE_SEED)),
                law,
            }),
            q@.valid(),
            q@.countable(),
    {
        let mut flows: Vec<FqCoDelFlow<P>> = Vec::new();
        let mut i: u32 = 0;
        while i < config.flows_cnt
            invariant
                i <= config.flows_cnt,
                flows@.len() == i,
                forall|k: int|
                    0 <= k < i ==> (#[trigger] flows@[k])@ == (FlowModel {
                        deficit: 0,
                        state: FlowState::<P>::fresh(now),
                    }),
            decreases config.flows_cnt - i,
        {
            flows.push(FqCoDelFlow::new(now));
            i = i + 1;
        }
        let mut rng = seeded(QUEUE_SEED);
        let first: u64 = next_u64(&mut rng);
        let second: u64 = next_u64(&mut rng);
        let q = FqCoDelQueue {
            config,
            flows,
            new_flows: VecDeque::new(),
            old_flows: VecDeque::new(),
            bytes_in_queue: 0,
            packets_in_queue: 0,
            key0: second,
            key1: first,
            law,
        };
        proof {
            lemma_empty_sums(q@.flows);
        }
        q
    }

    pub fn configure(&mut self, config: FqCoDelQueueConfig)
        ensures
            final(self)@ == (FqCoDelModel { config, ..old(self)@ }),
            old(self)@.valid() ==> final(self)@.valid(),
            old(self)@.countable() ==> final(self)@.countable(),
    {
        self.config = config;
        assert(old(self)@.valid() ==> self@.all_listed()) by {
            if old(self)@.valid() {
                assert forall|i: int|
                    0 <= i < self@.flows.len() && (#[trigger] self@.flows[i]).state.queue.len()
                        > 0 implies self@.listed(i as u32) by {
                    assert(old(self)@.listed(i as u32));
                }
            }
        }
    }

    /// Drops packets of the fattest flow: up to half of its bytes, and no more packets than
    /// a batch.
    fn fq_codel_drop(&mut self)
        requires
            old(self)@.valid(),
            old(self)@.hashes(),
            old(self)@.countable(),
        ensures
            final(self)@ == old(self)@.shed(),
            final(self)@.valid(),
            final(self)@.countable(),
    {
        let ghost before = self@;
        let mut idx: usize = 0;
        let mut i: usize = 1;
        while i < self.config.flows_cnt as usize
            invariant
                self@ == before,
                before.hashes(),
                1 <= i <= self.config.flows_cnt,
                0 <= idx < i,
                idx == fattest(before.flows, i as int),
            decreases self.config.flows_cnt - i,
        {
            assert(self@.flows[i as int] == self.flows@[i as int]@);
            assert(self@.flows[idx as int] == self.flows@[idx as int]@);
            if self.flows[i].backlog() > self.flows[idx].backlog() {
                idx = i;
            }
            i = i + 1;
        }
        assert(self@.flows[idx as int] == self.flows@[idx as int]@);
        let threshold: usize = self.flows[idx].backlog() / 2;
        proof {
            lemma_flow_is_covered(before, idx as int);
        }
        let (count, byte) = self.flows[idx].dequeue_from_head(
            self.config.drop_batch_size as usize,
            threshold,
        );
        assert(self@.flows =~= before.flows.update(idx as int, self.flows@[idx as int]@));
        self.bytes_in_queue = self.bytes_in_queue - byte;
        self.packets_in_queue = self.packets_in_queue - count;
        proof {
            assert(forall|j: u32| #[trigger] before.listed(j) ==> self@.listed(j));
            assert(before.flows[idx as int].state.queue.len() > 0 ==> before.listed(idx as u32));
            lemma_one_flow_changed(before, self@, idx as u32);
        }
    }

    /// Whether a limit would be exceeded with `packet`.
    fn is_over_limit(&self, packet: &P) -> (over: bool)
        requires
            self@.room(*packet),
        ensures
            over == self@.over_limit(*packet),
    {
        let too_many: bool = match self.config.packet_limit {
            Some(limit) => self.packets_in_queue >= limit,
            None => false,
        };
        let too_much: bool = match self.config.byte_limit {
            Some(limit) => self.bytes_in_queue + packet.l3_length()
                + self.config.bw_type.extra_length() > limit,
            None => false,
        };
        too_many || too_much
    }

    /// Takes in a packet whose flow tuple hashes to `hash`, at `now`.
    pub fn enqueue_hashed(&mut self, packet: P, hash: u64, now: Instant)
        requires
            old(self)@.valid(),
            old(self)@.hashes(),
            old(self)@.countable(),
            old(self)@.room(packet),
        ensures
            final(self)@ == old(self)@.enqueued(packet, hash, now),
            final(self)@.valid(),
    {
        if self.is_over_limit(&packet) {
            self.fq_codel_drop();
            return;
        }
        let ghost before = self@;
        let idx: u32 = flow_index(hash, self.config.flows_cnt);
        let i: usize = idx as usize;
        let size: usize = packet.l3_length();
        let mut b = ControlBuffer::new(packet);
        b.packet.delay_until(now);
        proof {
            lemma_flow_is_covered(before, i as int);
            assert(before.flows[i as int] == self.flows@[i as int]@);
        }
        self.bytes_in_queue = self.bytes_in_queue + (size + self.config.bw_type.extra_length());
        self.packets_in_queue = self.packets_in_queue + 1;
        let is_new: bool = self.flows[i].enqueue(b);
        if is_new {
            let quantum: i32 = self.config.quantum;
            self.flows[i].set_deficit(quantum);
            self.new_flows.push_back(idx);
        }
        proof {
            let after = self@;
            assert(after.flows =~= before.flows.update(i as int, self.flows@[i as int]@));
            assert(after =~= before.joined(packet, idx, now));
            lemma_sum_update(before.flows, i as int, after.flows[i as int], flow_bytes());
            lemma_sum_update(before.flows, i as int, after.flows[i as int], flow_packets());
            assert forall|j: int|
                0 <= j < after.flows.len() && (#[trigger] after.flows[j]).state.queue.len()
                    > 0 implies after.listed(j as u32) by {
                if j == i && is_new {
                    assert(after.new_flows[before.new_flows.len() as int] == idx);
                } else {
                    assert(before.flows[j].state.queue.len() > 0);
                    assert(before.listed(j as u32));
                    if before.new_flows.contains(j as u32) {
                        let k = before.new_flows.index_of(j as u32);
                        assert(after.new_flows[k] == j as u32);
                    }
                }
            }
            assert forall|j: int| 0 <= j < after.flows.len() implies (
            #[trigger] after.flows[j]).state.valid() by {
                if j != i {
                    assert(after.flows[j] == before.flows[j]);
                }
            }
        }
    }

    /// Takes a packet in at `now`.
    pub fn enqueue(&mut self, packet: P, now: Instant)
        requires
            old(self)@.valid(),
            old(self)@.hashes(),
            old(self)@.countable(),
            old(self)@.room(packet),
            !old(self)@.over_limit(packet) ==> has_ports(packet.bytes()),
        ensures
            final(self)@ == old(self)@.enqueued(packet, old(self)@.hash_of(packet), now),
            final(self)@.valid(),
    {
        if self.is_over_limit(&packet) {
            self.fq_codel_drop();
            return;
        }
        let tuple: [u8; 13] = FqCoDelFlowTuple::new(&packet).into_bytes();
        let hash: u64 = sip13_hash(self.key0, self.key1, &tuple);
        self.enqueue_hashed(packet, hash, now);
    }

    /// Takes a packet out at `now`. If no flow holds any, returns `None`.
    pub fn dequeue(&mut self, now: Instant) -> (packet: Option<P>)
        requires
            old(self)@.valid(),
            old(self)@.countable(),
            old(self)@.config.quantum > 0,
            in_time(old(self)@.config, old(self)@.law, now),
        ensures
            final(self)@.valid(),
            final(self)@.countable(),
            packet is None ==> final(self)@.is_empty(),
            forall|g: Spacing| #[trigger]
                computes(old(self)@.law, g) ==> {
                    let (after, out) = old(self)@.served(now, g);
                    final(self)@ == after && sent_as(out, packet)
                },
    {
        loop
            invariant
                self@.valid(),
                self@.countable(),
                self@.config == old(self)@.config,
                self@.law == old(self)@.law,
                self@.config.quantum > 0,
                in_time(self@.config, self@.law, now),
                forall|g: Spacing| #[trigger]
                    computes(old(self)@.law, g) ==> old(self)@.served(now, g) == self@.served(
                        now,
                        g,
                    ),
            decreases self@.debt(), self@.new_flows.len(), self@.old_flows.len(),
        {
            let ghost before = self@;
            let mut from_new: bool = true;
            let flow_idx: u32 = match self.new_flows.pop_front() {
                Some(idx) => idx,
                None => {
                    from_new = false;
                    match self.old_flows.pop_front() {
                        Some(idx) => idx,
                        None => {
                            proof {
                                assert(self@ =~= before);
                                lemma_nothing_waits(before);
                            }
                            return None;
                        },
                    }
                },
            };
            let i: usize = flow_idx as usize;
            proof {
                assert(before.new_flows.drop_first() =~= before.new_flows.subrange(
                    1,
                    before.new_flows.len() as int,
                ));
                assert(before.old_flows.drop_first() =~= before.old_flows.subrange(
                    1,
                    before.old_flows.len() as int,
                ));
                assert(self@ =~= before.called());
                assert(before.next_flow() == Some((flow_idx, from_new)));
                assert(before.flows[i as int] == self.flows@[i as int]@);
                lemma_others_wait(before);
                lemma_flow_is_covered(before, i as int);
            }
            let ghost called = self@;
            let deficit: i32 = self.flows[i].get_deficit();
            if deficit <= 0 {
                let quantum: i32 = self.config.quantum;
                self.flows[i].set_deficit(deficit + quantum);
                self.old_flows.push_back(flow_idx);
                proof {
                    assert(self@.flows =~= before.flows.update(i as int, self.flows@[i as int]@));
                    lemma_append_old(called, self@, flow_idx);
                    lemma_one_flow_changed(before, self@, flow_idx);
                    lemma_debt_shrinks(before, self@, flow_idx);
                    assert forall|g: Spacing| #[trigger]
                        computes(old(self)@.law, g) implies old(self)@.served(now, g)
                        == self@.served(now, g) by {
                        assert(before.turn(now, g).0 =~= self@);
                    }
                }
            } else {
                let bytes_before: usize = self.flows[i].backlog();
                let packets_before: usize = self.flows[i].length();
                let out = self.flows[i].dequeue(&self.config, &self.law, now);
                let bytes_after: usize = self.flows[i].backlog();
                let packets_after: usize = self.flows[i].length();
                self.bytes_in_queue = self.bytes_in_queue - (bytes_before - bytes_after);
                self.packets_in_queue = self.packets_in_queue - (packets_before - packets_after);
                match out {
                    Some(packet) => {
                        let size: i32 = packet.l3_length() as i32;
                        self.flows[i].set_deficit(deficit - size);
                        if from_new {
                            self.new_flows.push_front(flow_idx);
                        } else {
                            self.old_flows.push_front(flow_idx);
                        }
                        proof {
                            assert(self@.flows =~= before.flows.update(
                                i as int,
                                self.flows@[i as int]@,
                            ));
                            assert(self@.new_flows =~= before.new_flows);
                            assert(self@.old_flows =~= before.old_flows);
                            assert(forall|j: u32| before.listed(j) ==> #[trigger] self@.listed(j));
                            assert(before.listed(flow_idx));
                            lemma_one_flow_changed(before, self@, flow_idx);
                            assert forall|g: Spacing| #[trigger]
                                computes(old(self)@.law, g) implies self@ == old(self)@.served(
                                now,
                                g,
                            ).0 && sent_as(old(self)@.served(now, g).1, Some(packet)) by {
                                assert(before.turn(now, g).0 =~= self@);
                            }
                        }
                        return Some(packet);
                    },
                    None => {
                        if from_new && self.old_flows.len() > 0 {
                            self.old_flows.push_back(flow_idx);
                            proof {
                                lemma_append_old(called, self@, flow_idx);
                            }
                        }
                        proof {
                            assert(self@.flows =~= before.flows.update(
                                i as int,
                                self.flows@[i as int]@,
                            ));
                            assert(forall|j: u32| called.listed(j) ==> #[trigger] self@.listed(j));
                            lemma_one_flow_changed(before, self@, flow_idx);
                            lemma_debt_shrinks(before, self@, flow_idx);
                            assert forall|g: Spacing| #[trigger]
                                computes(old(self)@.law, g) implies old(self)@.served(now, g)
                                == self@.served(now, g) by {
                                assert(before.turn(now, g).0 =~= self@);
                            }
                        }
                    },
                }
            }
        }
    }
}

/// Flows that hold nothing count for nothing.
proof fn lemma_empty_sums<P>(flows: Seq<FlowModel<P>>)
    requires
        forall|i: int|
            0 <= i < flows.len() ==> (#[trigger] flows[i]).state.bytes == 0
                && flows[i].state.packets == 0,
    ensures
        sum_by(flows, flow_bytes()) == 0,
        sum_by(flows, flow_packets()) == 0,
    decreases flows.len(),
{
    if flows.len() > 0 {
        let rest = flows.drop_first();
        assert forall|i: int| 0 <= i < rest.len() implies (#[trigger] rest[i]).state.bytes == 0
            && rest[i].state.packets == 0 by {
            assert(rest[i] == flows[i + 1]);
        }
        lemma_empty_sums(rest);
    }
}

/// Where no flow waits for its turn, none holds a packet.
proof fn lemma_nothing_waits<P: RawPacket, L: Fn(Duration, u32) -> Duration>(
    m: FqCoDelModel<P, L>,
)
    requires
        m.valid(),
        m.new_flows.len() == 0,
        m.old_flows.len() == 0,
    ensures
        m.is_empty(),
{
    assert forall|i: int| 0 <= i < m.flows.len() implies (
    #[trigger] m.flows[i]).state.queue.len() == 0 by {
        if m.flows[i].state.queue.len() > 0 {
            assert(m.listed(i as u32));
        }
    }
    assert forall|i: int| 0 <= i < m.flows.len() implies (#[trigger] m.flows[i]).state.bytes == 0
        && m.flows[i].state.packets == 0 by {
        assert(m.flows[i].state.valid());
    }
    lemma_empty_sums(m.flows);
}

/// When the flow whose turn it is gets a quantum, or only its queue changes, the flows owe
/// no more than before.
proof fn lemma_debt_shrinks<P: RawPacket, L: Fn(Duration, u32) -> Duration>(
    m: FqCoDelModel<P, L>,
    after: FqCoDelModel<P, L>,
    i: u32,
)
    requires
        i < m.flows.len(),
        m.config.quantum > 0,
        after.flows == m.flows.update(i as int, after.flows[i as int]),
        after.flows[i as int].deficit == if m.flows[i as int].deficit <= 0 {
            m.flows[i as int].deficit + m.config.quantum
        } else {
            m.flows[i as int].deficit as int
        },
    ensures
        0 <= after.debt() <= m.debt(),
        m.flows[i as int].deficit <= 0 ==> after.debt() < m.debt(),
        m.flows[i as int].deficit > 0 ==> after.debt() == m.debt(),
{
    lemma_sum_nonnegative(after.flows, flow_debt());
    lemma_sum_update(m.flows, i as int, after.flows[i as int], flow_debt());
}

/// What happens to a queue.
pub enum FqCoDelEvent<P> {
    /// A flow has its turn at this instant.
    Turn(Instant),
    /// A packet whose flow tuple hashes to this comes at this instant.
    Arrival(P, u64, Instant),
}

impl<P: RawPacket, L: Fn(Duration, u32) -> Duration> FqCoDelModel<P, L> {
    /// The queue after one event.
    pub open spec fn stepped(self, e: FqCoDelEvent<P>, spacing: Spacing) -> Self {
        match e {
            FqCoDelEvent::Turn(now) => self.turn(now, spacing).0,
            FqCoDelEvent::Arrival(packet, hash, now) => self.enqueued(packet, hash, now),
        }
    }

    /// The bytes that flow `i` sends in one event.
    pub open spec fn sends(self, e: FqCoDelEvent<P>, spacing: Spacing, i: u32) -> int {
        match e {
            FqCoDelEvent::Turn(now) => match self.turn(now, spacing).1 {
                Some(Some((p, _))) => if (self.next_flow()->0).0 == i {
                    p.l3() as int
                } else {
                    0
                },
                _ => 0,
            },
            FqCoDelEvent::Arrival(..) => 0,
        }
    }

    /// The queue after these events.
    pub open spec fn run(self, events: Seq<FqCoDelEvent<P>>, spacing: Spacing) -> Self
        decreases events.len(),
    {
        if events.len() == 0 {
            self
        } else {
            self.stepped(events[0], spacing).run(events.drop_first(), spacing)
        }
    }

    /// The bytes that flow `i` sends in these events.
    pub open spec fn sent(self, events: Seq<FqCoDelEvent<P>>, spacing: Spacing, i: u32) -> int
        decreases events.len(),
    {
        if events.len() == 0 {
            0
        } else {
            self.sends(events[0], spacing, i) + self.stepped(events[0], spacing).sent(
                events.drop_first(),
                spacing,
                i,
            )
        }
    }

    /// Flow `i` holds packets, none of them longer than `size`.
    pub open spec fn backlogged(self, i: u32, size: int) -> bool {
        &&& self.flows[i as int].state.queue.len() > 0
        &&& forall|k: int|
            0 <= k < self.flows[i as int].state.queue.len() ==> (
            #[trigger] self.flows[i as int].state.queue[k]).packet.l3() <= size
    }

    /// Flow `i` stays backlogged all through these events.
    pub open spec fn stays_backlogged(
        self,
        events: Seq<FqCoDelEvent<P>>,
        spacing: Spacing,
        i: u32,
        size: int,
    ) -> bool
        decreases events.len(),
    {
        &&& self.backlogged(i, size)
        &&& events.len() > 0 ==> self.stepped(events[0], spacing).stays_backlogged(
            events.drop_first(),
            spacing,
            i,
            size,
        )
    }

    /// Flow `i` waits at place `k` of the old flows and nowhere else. It has used up none of
    /// its quantum but what it owed, unless it is the first.
    pub open spec fn waits_at(self, i: u32, k: int, size: int) -> bool {
        &&& i < self.flows.len()
        &&& 0 <= k < self.old_flows.len()
        &&& self.old_flows[k] == i
        &&& forall|j: int|
            0 <= j < self.old_flows.len() && j != k ==> #[trigger] self.old_flows[j] != i
        &&& !self.new_flows.contains(i)
        &&& -size < self.flows[i as int].deficit <= self.config.quantum
        &&& k > 0 ==> self.config.quantum - size < self.flows[i as int].deficit
    }

    /// The lists name flows that are there.
    pub open spec fn lists_flows(self) -> bool {
        &&& self.flows.len() <= u32::MAX
        &&& forall|k: int|
            0 <= k < self.new_flows.len() ==> (#[trigger] self.new_flows[k]) < self.flows.len()
        &&& forall|k: int|
            0 <= k < self.old_flows.len() ==> (#[trigger] self.old_flows[k]) < self.flows.len()
    }
}

/// The events keep the lists in order and the number of flows.
proof fn lemma_step_lists_flows<P: RawPacket, L: Fn(Duration, u32) -> Duration>(
    m: FqCoDelModel<P, L>,
    e: FqCoDelEvent<P>,
    spacing: Spacing,
)
    requires
        m.lists_flows(),
        m.hashes(),
    ensures
        m.stepped(e, spacing).lists_flows(),
        m.stepped(e, spacing).hashes(),
        m.stepped(e, spacing).config == m.config,
        m.stepped(e, spacing).flows.len() == m.flows.len(),
{
    match e {
        FqCoDelEvent::Turn(now) => {},
        FqCoDelEvent::Arrival(packet, hash, now) => {
            lemma_fattest(m.flows, m.config.flows_cnt as int);
            lemma_flow_in_range(hash, m.config.flows_cnt);
        },
    }
}

/// A hash falls to one of the flows.
proof fn lemma_flow_in_range(hash: u64, flows_cnt: u32)
    requires
        flows_cnt > 0,
    ensures
        0 <= flow_of(hash, flows_cnt) < flows_cnt,
{
    let low = (hash % 0x1_0000_0000) as int;
    let n = flows_cnt as int;
    assert(0 <= (low * n) / 0x1_0000_0000 < n) by (nonlinear_arith)
        requires
            0 <= low < 0x1_0000_0000,
            n > 0,
    ;
}

/// An arrival moves no flow that is backlogged, and no credit.
proof fn lemma_arrival_keeps_places<P: RawPacket, L: Fn(Duration, u32) -> Duration>(
    m: FqCoDelModel<P, L>,
    packet: P,
    hash: u64,
    now: Instant,
    i: u32,
    k: int,
    size: int,
)
    requires
        m.lists_flows(),
        m.hashes(),
        m.backlogged(i, size),
        m.waits_at(i, k, size),
    ensures
        m.enqueued(packet, hash, now).waits_at(i, k, size),
        m.enqueued(packet, hash, now).flows[i as int].deficit == m.flows[i as int].deficit,
{
    lemma_fattest(m.flows, m.config.flows_cnt as int);
    lemma_flow_in_range(hash, m.config.flows_cnt);
    let after = m.enqueued(packet, hash, now);
    if after.new_flows.contains(i) {
        let j = after.new_flows.index_of(i);
        assert(after.new_flows[j] == i);
        assert(m.new_flows.contains(i));
    }
}

/// A turn pays flow `i`, if at all, for what it sends: its credit falls by the bytes that it
/// sends and grows by a quantum when it is sent to the end of the line.
proof fn lemma_turn_moves_place<P: RawPacket, L: Fn(Duration, u32) -> Duration>(
    m: FqCoDelModel<P, L>,
    now: Instant,
    spacing: Spacing,
    i: u32,
    k: int,
    size: int,
) -> (r: (int, int))
    requires
        m.lists_flows(),
        m.hashes(),
        m.config.quantum > 0,
        0 < size <= i32::MAX,
        m.backlogged(i, size),
        m.waits_at(i, k, size),
        m.turn(now, spacing).0.backlogged(i, size),
    ensures
        ({
            let (after, out) = m.turn(now, spacing);
            let (quanta, place) = r;
            &&& after.waits_at(i, place, size)
            &&& after.flows[i as int].deficit == m.flows[i as int].deficit + (if quanta == 1 {
                m.config.quantum as int
            } else {
                0
            }) - m.sends(FqCoDelEvent::Turn(now), spacing, i)
            &&& quanta == 0 || quanta == 1
            &&& quanta == 1 <==> m.new_flows.len() == 0 && k == 0 && m.flows[i as int].deficit
                <= 0
            &&& quanta == 1 ==> place == after.old_flows.len() - 1 && after.old_flows.len()
                == m.old_flows.len()
            &&& quanta == 0 ==> place == k - (if m.new_flows.len() == 0 && k > 0 && !(out
                is Some) {
                1int
            } else {
                0
            })
        }),
{
    let (f, from_new) = m.next_flow()->0;
    let (after, out) = m.turn(now, spacing);
    let flow = m.flows[f as int];
    law_flow_hands_out_in_order(flow.state, m.config, now, spacing);
    assert(f < m.flows.len());
    if from_new {
        assert(m.new_flows.contains(f)) by {
            assert(m.new_flows[0] == f);
        }
        assert(f != i);
        if after.new_flows.contains(i) {
            let j = after.new_flows.index_of(i);
            assert(after.new_flows[j] == i);
            assert(m.new_flows.contains(i)) by {
                if out is Some {
                    assert(m.new_flows[j] == i);
                } else {
                    assert(m.new_flows[j + 1] == i);
                }
            }
        }
        (0, k)
    } else if k == 0 {
        assert(f == i);
        if flow.deficit <= 0 {
            (1, after.old_flows.len() - 1)
        } else {
            assert(out is Some);
            (0, k)
        }
    } else {
        assert(m.old_flows[0] != i);
        if out is Some {
            (0, k)
        } else {
            assert(after.old_flows[k - 1] == i);
            (0, k - 1)
        }
    }
}

/// Flow `i` waits before flow `j`.
spec fn lead(ki: int, kj: int) -> int {
    if ki < kj {
        1
    } else {
        0
    }
}

/// What two backlogged flows have sent balances what their credits have changed by, up to a
/// quantum for the one that had its turn before the other.
proof fn lemma_shares_balance<P: RawPacket, L: Fn(Duration, u32) -> Duration>(
    m: FqCoDelModel<P, L>,
    events: Seq<FqCoDelEvent<P>>,
    spacing: Spacing,
    a: u32,
    b: u32,
    ka: int,
    kb: int,
    size: int,
) -> (r: (int, int))
    requires
        m.lists_flows(),
        m.hashes(),
        m.config.quantum > 0,
        0 < size <= i32::MAX,
        a != b,
        m.waits_at(a, ka, size),
        m.waits_at(b, kb, size),
        m.stays_backlogged(events, spacing, a, size),
        m.stays_backlogged(events, spacing, b, size),
    ensures
        ({
            let after = m.run(events, spacing);
            &&& after.waits_at(a, r.0, size)
            &&& after.waits_at(b, r.1, size)
            &&& after.config == m.config
            &&& m.sent(events, spacing, a) - m.sent(events, spacing, b) == m.config.quantum * (
            lead(ka, kb) - lead(r.0, r.1)) + (m.flows[a as int].deficit
                - m.flows[b as int].deficit) - (after.flows[a as int].deficit
                - after.flows[b as int].deficit)
        }),
    decreases events.len(),
{
    let q = m.config.quantum as int;
    if events.len() == 0 {
        assert(q * (lead(ka, kb) - lead(ka, kb)) == 0) by (nonlinear_arith);
        (ka, kb)
    } else {
        let e = events[0];
        let next = m.stepped(e, spacing);
        let rest = events.drop_first();
        lemma_step_lists_flows(m, e, spacing);
        assert(next.stays_backlogged(rest, spacing, a, size));
        assert(next.stays_backlogged(rest, spacing, b, size));
        assert(next.backlogged(a, size) && next.backlogged(b, size));
        match e {
            FqCoDelEvent::Turn(now) => {
                let (qa, pa) = lemma_turn_moves_place(m, now, spacing, a, ka, size);
                let (qb, pb) = lemma_turn_moves_place(m, now, spacing, b, kb, size);
                assert(ka != kb);
                assert(qa - qb == lead(ka, kb) - lead(pa, pb));
                let (ra, rb) = lemma_shares_balance(next, rest, spacing, a, b, pa, pb, size);
                let x = lead(ka, kb);
                let y = lead(pa, pb);
                let z = lead(ra, rb);
                assert(q * (x - y) + q * (y - z) == q * (x - z)) by (nonlinear_arith);
                assert(x - y == 0 ==> q * (x - y) == 0) by (nonlinear_arith);
                assert(x - y == 1 ==> q * (x - y) == q) by (nonlinear_arith);
                assert(x - y == -1 ==> q * (x - y) == -q) by (nonlinear_arith);
                (ra, rb)
            },
            FqCoDelEvent::Arrival(packet, hash, now) => {
                lemma_arrival_keeps_places(m, packet, hash, now, a, ka, size);
                lemma_arrival_keeps_places(m, packet, hash, now, b, kb, size);
                lemma_shares_balance(next, rest, spacing, a, b, ka, kb, size)
            },
        }
    }
}

/// The flows share the link fairly, in bytes. Over any run of turns and arrivals during which
/// two old flows stay backlogged, whatever the sizes of their packets and whoever else sends,
/// the bytes that they send differ by less than a quantum and two largest packets; and by
/// less than a quantum and one largest packet, if they start with the same credit.
pub proof fn law_flows_share_in_bytes<P: RawPacket, L: Fn(Duration, u32) -> Duration>(
    m: FqCoDelModel<P, L>,
    events: Seq<FqCoDelEvent<P>>,
    spacing: Spacing,
    a: u32,
    b: u32,
    ka: int,
    kb: int,
    size: int,
)
    requires
        m.lists_flows(),
        m.hashes(),
        m.config.quantum > 0,
        0 < size <= i32::MAX,
        a != b,
        m.waits_at(a, ka, size),
        m.waits_at(b, kb, size),
        m.stays_backlogged(events, spacing, a, size),
        m.stays_backlogged(events, spacing, b, size),
    ensures
        ({
            let more = m.sent(events, spacing, a) - m.sent(events, spacing, b);
            &&& -(m.config.quantum + 2 * size) < more < m.config.quantum + 2 * size
            &&& m.flows[a as int].deficit == m.flows[b as int].deficit ==> -(m.config.quantum
                + size) < more < m.config.quantum + size
        }),
{
    let (ra, rb) = lemma_shares_balance(m, events, spacing, a, b, ka, kb, size);
    let q = m.config.quantum as int;
    let d = lead(ka, kb) - lead(ra, rb);
    assert(d == 0 ==> q * d == 0) by (nonlinear_arith);
    assert(d == 1 ==> q * d == q) by (nonlinear_arith);
    assert(d == -1 ==> q * d == -q) by (nonlinear_arith);
}

/// A turn that sends a packet takes the length of that packet off the credit of the flow that
/// sends it, which had credit left, and leaves the credit of every other flow. A turn that
/// finds no credit left adds a quantum and sends nothing.
pub proof fn law_flow_pays_for_what_it_sends<P: RawPacket, L: Fn(Duration, u32) -> Duration>(
    m: FqCoDelModel<P, L>,
    now: Instant,
    spacing: Spacing,
)
    requires
        m.valid(),
        m.next_flow() is Some,
    ensures
        ({
            let i = (m.next_flow()->0).0 as int;
            let (after, out) = m.turn(now, spacing);
            &&& forall|j: int|
                0 <= j < m.flows.len() && j != i ==> #[trigger] after.flows[j] == m.flows[j]
            &&& out is Some && out->0 is Some ==> {
                &&& m.flows[i].deficit > 0
                &&& after.flows[i].deficit == m.flows[i].deficit - (out->0->0).0.l3()
                &&& exists|k: int|
                    0 <= k < m.flows[i].state.queue.len() && (
                    #[trigger] m.flows[i].state.queue[k]).packet == (out->0->0).0
            }
            &&& m.flows[i].deficit <= 0 && m.config.quantum >= 0 ==> out is None
                && after.flows[i].deficit == m.flows[i].deficit + m.config.quantum
                && after.flows[i].state == m.flows[i].state
            &&& m.flows[i].deficit > 0 && m.flows[i].state.queue.len() == 0 ==> out is None
                && after.flows[i].deficit == m.flows[i].deficit
        }),
{
    let (i, from_new) = m.next_flow()->0;
    assert(i < m.flows.len());
    let flow = m.flows[i as int];
    let (after, out) = m.turn(now, spacing);
    law_flow_hands_out_in_order(flow.state, m.config, now, spacing);
    if out is Some && out->0 is Some {
        let state = flow.state.taken(m.config, now, spacing).0;
        let k = flow.state.queue.len() - state.queue.len();
        assert(flow.state.queue[k - 1].packet == (out->0->0).0);
        assert(flow.state.valid());
    }
}

/// Flows that have packets since short come before the others: as long as there is a new
/// flow, it is the first of them that has its turn, and no old flow moves up. A flow that
/// has used up its credit goes to the end of the old flows; one that has sent keeps its
/// place.
pub proof fn law_new_flows_come_first<P: RawPacket, L: Fn(Duration, u32) -> Duration>(
    m: FqCoDelModel<P, L>,
    now: Instant,
    spacing: Spacing,
)
    requires
        m.valid(),
        m.new_flows.len() + m.old_flows.len() > 0,
    ensures
        ({
            let first = if m.new_flows.len() > 0 {
                m.new_flows[0]
            } else {
                m.old_flows[0]
            };
            let (after, out) = m.turn(now, spacing);
            &&& forall|j: int|
                0 <= j < m.flows.len() && j != first ==> #[trigger] after.flows[j] == m.flows[j]
            &&& m.new_flows.len() > 0 ==> m.old_flows.is_prefix_of(after.old_flows)
            &&& out is Some ==> after.new_flows == m.new_flows && after.old_flows == m.old_flows
            &&& m.flows[first as int].deficit <= 0 ==> after.old_flows.len() > 0
                && after.old_flows.last() == first && after.new_flows.len()
                + after.old_flows.len() == m.new_flows.len() + m.old_flows.len()
            &&& m.flows[first as int].deficit > 0 && m.flows[first as int].state.queue.len()
                == 0 ==> if m.new_flows.len() > 0 && m.old_flows.len() > 0 {
                after.old_flows == m.old_flows.push(first)
            } else {
                after.new_flows.len() + after.old_flows.len() + 1 == m.new_flows.len()
                    + m.old_flows.len()
            }
        }),
{
}

/// A packet that does not exceed a limit goes to the end of the flow that its hash falls to,
/// and no other flow is touched. A flow that held nothing becomes the last of the new flows,
/// with a whole quantum to send.
pub proof fn law_arrival_joins_its_flow<P: RawPacket, L: Fn(Duration, u32) -> Duration>(
    m: FqCoDelModel<P, L>,
    packet: P,
    hash: u64,
    now: Instant,
)
    requires
        m.valid(),
        m.hashes(),
        m.room(packet),
        m.config.packet_limit is Some ==> m.packets < m.config.packet_limit->0,
        m.config.byte_limit is Some ==> m.bytes + packet.l3() + m.config.bw_type.extra()
            <= m.config.byte_limit->0,
    ensures
        ({
            let i = flow_of(hash, m.config.flows_cnt);
            let after = m.enqueued(packet, hash, now);
            let before_queue = m.flows[i].state.queue;
            let queue = after.flows[i].state.queue;
            &&& 0 <= i < m.flows.len()
            &&& queue.len() == before_queue.len() + 1
            &&& before_queue.is_prefix_of(queue)
            &&& queue.last().packet == packet.stamped(now)
            &&& queue.last().ect == code_point(packet.bytes())
            &&& forall|j: int|
                0 <= j < m.flows.len() && j != i ==> #[trigger] after.flows[j] == m.flows[j]
            &&& after.old_flows == m.old_flows
            &&& before_queue.len() > 0 ==> after.new_flows == m.new_flows
                && after.flows[i].deficit == m.flows[i].deficit
            &&& before_queue.len() == 0 ==> after.new_flows == m.new_flows.push(i as u32)
                && after.flows[i].deficit == m.config.quantum
            &&& after.packets == m.packets + 1
            &&& after.bytes == m.bytes + packet.l3() + m.config.bw_type.extra()
        }),
{
    lemma_flow_in_range(hash, m.config.flows_cnt);
}

/// A queue that starts within its limits stays within them, whatever comes: a packet that
/// would exceed a limit is dropped, and then the packets do not grow.
pub proof fn law_fair_queue_stays_within_its_limits<
    P: RawPacket,
    L: Fn(Duration, u32) -> Duration,
>(m: FqCoDelModel<P, L>, packet: P, hash: u64, now: Instant)
    requires
        m.valid(),
        m.countable(),
        m.hashes(),
        m.room(packet),
    ensures
        ({
            let after = m.enqueued(packet, hash, now);
            &&& m.config.packet_limit is Some && m.packets <= m.config.packet_limit->0
                ==> after.packets <= m.config.packet_limit->0
            &&& m.config.byte_limit is Some && m.bytes <= m.config.byte_limit->0 ==> after.bytes
                <= m.config.byte_limit->0
            &&& after.packets <= m.packets + 1
            &&& m.config.packet_limit is Some && m.packets >= m.config.packet_limit->0
                ==> after.packets <= m.packets && after.new_flows == m.new_flows
        }),
{
    law_fattest_flow_is_shed(m);
}

/// What makes room is taken from the flow that holds the most bytes: from its head, up to a
/// batch of packets, until half of its bytes are gone. All other flows keep what they hold,
/// and every flow keeps its turn and its credit.
pub proof fn law_fattest_flow_is_shed<P: RawPacket, L: Fn(Duration, u32) -> Duration>(
    m: FqCoDelModel<P, L>,
)
    requires
        m.valid(),
        m.countable(),
        m.hashes(),
    ensures
        exists|i: int|
            #![trigger m.flows[i]]
            {
                let after = m.shed();
                let n = m.flows[i].state.queue.len() - after.flows[i].state.queue.len();
                &&& 0 <= i < m.config.flows_cnt
                &&& forall|j: int|
                    0 <= j < m.config.flows_cnt ==> (#[trigger] m.flows[j]).state.bytes
                        <= m.flows[i].state.bytes
                &&& forall|j: int|
                    0 <= j < m.flows.len() && j != i ==> #[trigger] after.flows[j] == m.flows[j]
                &&& 0 <= n <= m.config.drop_batch_size
                &&& after.flows[i].state.queue == m.flows[i].state.queue.skip(n)
                &&& after.flows[i].state.bytes <= m.flows[i].state.bytes
                &&& n == m.config.drop_batch_size || 2 * after.flows[i].state.bytes
                    <= m.flows[i].state.bytes + 1
                &&& after.flows[i].deficit == m.flows[i].deficit
                &&& after.new_flows == m.new_flows && after.old_flows == m.old_flows
                &&& after.packets == m.packets - n
                &&& after.bytes == m.bytes - (m.flows[i].state.bytes
                    - after.flows[i].state.bytes)
            },
{
    let i = fattest(m.flows, m.config.flows_cnt as int);
    lemma_fattest(m.flows, m.config.flows_cnt as int);
    let f = m.flows[i].state;
    let max = m.config.drop_batch_size as int;
    let threshold = (f.bytes / 2) as int;
    law_shedding_keeps_the_rest(f, max, threshold);
    law_shedding_goes_on_until_enough_is_gone(f.queue, max, threshold);
    lemma_flow_is_covered(m, i);
    let n = shed_count(f.queue, max, threshold) as int;
    assert(f.queue.take(n) + f.queue.skip(n) =~= f.queue);
    lemma_sum_append(f.queue.take(n), f.queue.skip(n), frame_size());
    lemma_sum_nonnegative(f.queue.take(n), frame_size());
    lemma_sum_nonnegative(f.queue.skip(n), frame_size());
    let after = m.shed();
    if n == f.queue.len() {
        assert(f.queue.skip(n) =~= Seq::<ControlBuffer<P>>::empty());
    }
    assert(after.flows[i].state.queue == f.queue.skip(n));
}

/// The hashes are shared out evenly: flow `i` gets those whose lower half lies between `i`
/// and `i + 1` parts of `flows_cnt`, and every hash falls to some flow.
pub proof fn law_hashes_are_shared_out(hash: u64, flows_cnt: u32)
    requires
        flows_cnt > 0,
    ensures
        0 <= flow_of(hash, flows_cnt) < flows_cnt,
        flow_of(hash, flows_cnt) * 0x1_0000_0000 <= (hash % 0x1_0000_0000) * flows_cnt,
        (hash % 0x1_0000_0000) * flows_cnt < (flow_of(hash, flows_cnt) + 1) * 0x1_0000_0000,
{
    lemma_flow_in_range(hash, flows_cnt);
}

/// Two IPv4 packets are of one flow exactly if they have their addresses and ports in common.
pub proof fn law_flow_is_told_by_addresses_and_ports(a: Seq<u8>, b: Seq<u8>)
    requires
        is_ip(a) && has_ports(a),
        is_ip(b) && has_ports(b),
    ensures
        flow_tuple(a) == flow_tuple(b) <==> {
            &&& forall|i: int| 26 <= i < 34 ==> #[trigger] a[i] == b[i]
            &&& forall|i: int| 0 <= i < 4 ==> #[trigger] a[ports_index(a) + i] == b[ports_index(b) + i]
        },
{
    let ta = flow_tuple(a);
    let tb = flow_tuple(b);
    assert(ta.len() == 13 && tb.len() == 13);
    assert(forall|i: int| 0 <= i < 8 ==> #[trigger] ta[i] == a[26 + i]);
    assert(forall|i: int| 0 <= i < 8 ==> #[trigger] tb[i] == b[26 + i]);
    assert(forall|i: int| 0 <= i < 4 ==> ta[8 + i] == #[trigger] a[ports_index(a) + i]);
    assert(forall|i: int| 0 <= i < 4 ==> tb[8 + i] == #[trigger] b[ports_index(b) + i]);
    if ta == tb {
        assert forall|i: int| 26 <= i < 34 implies #[trigger] a[i] == b[i] by {
            assert(ta[i - 26] == tb[i - 26]);
        }
        assert forall|i: int| 0 <= i < 4 implies #[trigger] a[ports_index(a) + i]
            == b[ports_index(b) + i] by {
            assert(ta[8 + i] == tb[8 + i]);
        }
    }
    if (forall|i: int| 26 <= i < 34 ==> #[trigger] a[i] == b[i]) && (forall|i: int|
        0 <= i < 4 ==> #[trigger] a[ports_index(a) + i] == b[ports_index(b) + i]) {
        assert forall|i: int| 0 <= i < 13 implies #[trigger] ta[i] == tb[i] by {
            if i < 8 {
                assert(a[26 + i] == b[26 + i]);
            } else if i < 12 {
                assert(a[ports_index(a) + (i - 8)] == b[ports_index(b) + (i - 8)]);
            }
        }
        assert(ta =~= tb);
    }
}

/// `n` turns at `now`.
pub open spec fn turns<P>(n: nat, now: Instant) -> Seq<FqCoDelEvent<P>> {
    Seq::new(n, |i: int| FqCoDelEvent::Turn(now))
}

/// Asking for a packet is a number of turns, of which only the last one sends: what it sends
/// is what is handed out. Without one that sends, no flow waits any more.
pub proof fn law_asking_takes_turns<P: RawPacket, L: Fn(Duration, u32) -> Duration>(
    m: FqCoDelModel<P, L>,
    now: Instant,
    spacing: Spacing,
)
    requires
        m.lists_flows(),
        m.hashes(),
        m.config.quantum > 0,
    ensures
        ({
            let (after, out) = m.served(now, spacing);
            exists|n: nat|
                {
                    let before = #[trigger] m.run(turns(n, now), spacing);
                    &&& before.turn(now, spacing) == (after, Some(out))
                    &&& forall|i: u32| #[trigger] m.sent(turns(n, now), spacing, i) == 0
                }
        }),
        m.served(now, spacing).1 is None ==> m.served(now, spacing).0.new_flows.len() == 0
            && m.served(now, spacing).0.old_flows.len() == 0,
    decreases m.debt(), m.new_flows.len(), m.old_flows.len(),
{
    lemma_turn_gets_closer(m, now, spacing);
    let (after, out) = m.served(now, spacing);
    match m.turn(now, spacing) {
        (next, Some(out)) => {
            assert(m.run(turns(0, now), spacing) == m);
            assert forall|i: u32| #[trigger] m.sent(turns(0, now), spacing, i) == 0 by {}
        },
        (next, None) => {
            lemma_step_lists_flows(m, FqCoDelEvent::Turn(now), spacing);
            law_asking_takes_turns(next, now, spacing);
            let n = choose|n: nat|
                {
                    let before = #[trigger] next.run(turns(n, now), spacing);
                    &&& before.turn(now, spacing) == (after, Some(out))
                    &&& forall|i: u32| #[trigger] next.sent(turns(n, now), spacing, i) == 0
                };
            let all = turns::<P>(n + 1, now);
            assert(all.drop_first() =~= turns(n, now));
            assert(all[0] == FqCoDelEvent::<P>::Turn(now));
            assert(m.stepped(all[0], spacing) == next);
            assert(m.run(all, spacing) == next.run(turns(n, now), spacing));
            assert forall|i: u32| #[trigger] m.sent(all, spacing, i) == 0 by {
                assert(next.sent(turns(n, now), spacing, i) == 0);
            }
        },
    }
}

} // verus!
