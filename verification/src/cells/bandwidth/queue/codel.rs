//! CoDel: drops packets from the head once the queueing delay has stayed above a target for
//! an interval, and then at a rate that grows with the number of drops.
use super::{
    lemma_total_size_nonnegative, lemma_total_size_push, size_of, total_size, PacketQueue,
};
use crate::cells::bandwidth::BwType;
use crate::law::{callable, computes};
use crate::packet::Packet;
use crate::time::{after, duration_since, elapsed, reachable, Duration, Instant, MILLISECOND};
use std::collections::VecDeque;
use vstd::prelude::*;

verus! {

#[derive(Debug, Clone, Copy)]
pub struct CoDelQueueConfig {
    /// The maximum number of packets in the queue, or `None` for unlimited.
    pub packet_limit: Option<usize>,
    /// The maximum number of bytes in the queue, or `None` for unlimited.
    pub byte_limit: Option<usize>,
    /// Width of the moving time window.
    pub interval: Duration,
    /// Target queue delay.
    pub target: Duration,
    /// Cell MTU, or minimal queue backlog in bytes.
    pub mtu: u32,
    pub bw_type: BwType,
}

impl CoDelQueueConfig {
    pub fn new(
        packet_limit: Option<usize>,
        byte_limit: Option<usize>,
        interval: Duration,
        target: Duration,
        mtu: u32,
        bw_type: BwType,
    ) -> (c: Self)
        ensures
            c == (CoDelQueueConfig { packet_limit, byte_limit, interval, target, mtu, bw_type }),
    {
        CoDelQueueConfig { packet_limit, byte_limit, interval, target, mtu, bw_type }
    }
}

impl Default for CoDelQueueConfig {
    fn default() -> (c: Self)
        ensures
            c == (CoDelQueueConfig {
                packet_limit: None,
                byte_limit: None,
                interval: 100_000_000,
                target: 5_000_000,
                mtu: 1500,
                bw_type: BwType::NetworkLayer,
            }),
    {
        CoDelQueueConfig {
            packet_limit: None,
            byte_limit: None,
            interval: 100 * MILLISECOND,
            target: 5 * MILLISECOND,
            mtu: 1500,
            bw_type: BwType::NetworkLayer,
        }
    }
}

/// What a CoDel queue holds and remembers.
#[verifier::ext_equal]
pub struct CoDelModel<P, L> {
    pub packets: Seq<P>,
    pub config: CoDelQueueConfig,
    /// Bytes counted for the queued packets.
    pub bytes: usize,
    /// Drops since the dropping state was entered.
    pub count: u32,
    /// `count` when the dropping state was entered.
    pub lastcount: u32,
    pub dropping: bool,
    /// When the delay will have been above target for an interval.
    pub first_above_time: Option<Instant>,
    /// When the next packet is to be dropped, or the last one was.
    pub drop_next: Instant,
    /// Sojourn time of the packet that was looked at last.
    pub ldelay: Duration,
    /// The time to the next drop, from the interval and the number of drops.
    pub law: L,
}

/// The time to the next drop, from the interval and the number of drops.
pub type Spacing = spec_fn(Duration, u32) -> Duration;

impl<P: Packet, L: Fn(Duration, u32) -> Duration> CoDelModel<P, L> {
    pub open spec fn extra(self) -> usize {
        self.config.bw_type.extra()
    }

    /// The limits leave room for the packet.
    pub open spec fn admits(self, packet: P) -> bool {
        &&& self.config.packet_limit is Some ==> self.packets.len()
            < self.config.packet_limit->0
        &&& self.config.byte_limit is Some ==> self.bytes + size_of(packet, self.extra())
            <= self.config.byte_limit->0
    }

    /// The head packet is taken out.
    pub open spec fn popped(self) -> Self {
        CoDelModel {
            packets: self.packets.drop_first(),
            bytes: (self.bytes - size_of(self.packets[0], self.extra())) as usize,
            ..self
        }
    }

    /// The delay of `packet` at `now` is short, or hardly anything is queued behind it.
    pub open spec fn below(self, packet: P, now: Instant) -> bool {
        elapsed(now, packet.timestamp()) < self.config.target || self.bytes <= self.config.mtu
    }

    /// `packet` has been looked at.
    pub open spec fn judged(self, packet: P, now: Instant) -> Self {
        CoDelModel {
            ldelay: elapsed(now, packet.timestamp()),
            first_above_time: if self.below(packet, now) {
                None
            } else if self.first_above_time is Some {
                self.first_above_time
            } else {
                Some((now + self.config.interval) as i128)
            },
            ..self
        }
    }

    /// Whether `packet` may be dropped: the delay has been above target for an interval.
    pub open spec fn droppable(self, packet: P, now: Instant) -> bool {
        &&& !self.below(packet, now)
        &&& self.first_above_time is Some
        &&& now >= self.first_above_time->0
    }

    pub open spec fn left_dropping(self) -> Self {
        CoDelModel { dropping: false, ..self }
    }

    /// In the dropping state, with `packet` taken out: as long as a drop is due, the packet
    /// in hand is dropped for the next one.
    pub open spec fn drained(self, packet: P, now: Instant, spacing: Spacing) -> (Self, Option<P>)
        decreases self.packets.len(),
    {
        if !self.dropping || now < self.drop_next {
            (self, Some(packet))
        } else {
            let dropped = CoDelModel { count: (self.count + 1) as u32, ..self };
            if self.packets.len() == 0 {
                (dropped.left_dropping(), None)
            } else {
                let next = self.packets[0];
                let seen = dropped.popped().judged(next, now);
                if dropped.popped().droppable(next, now) {
                    let later = CoDelModel {
                        drop_next: (seen.drop_next + spacing(seen.config.interval, seen.count)) as i128,
                        ..seen
                    };
                    later.drained(next, now, spacing)
                } else {
                    (seen.left_dropping(), Some(next))
                }
            }
        }
    }

    /// `count` on entering the dropping state: it goes on from where it was if the queue was
    /// in that state not long ago.
    pub open spec fn entry_count(self, now: Instant) -> u32 {
        let delta = (self.count - self.lastcount) as u32;
        if delta > 1 && elapsed(now, self.drop_next) < 16 * self.config.interval {
            delta
        } else {
            1
        }
    }

    /// The dropping state is entered.
    pub open spec fn entered_dropping(self, now: Instant, spacing: Spacing) -> Self {
        let count = self.entry_count(now);
        CoDelModel {
            dropping: true,
            count,
            lastcount: count,
            drop_next: (now + spacing(self.config.interval, count)) as i128,
            ..self
        }
    }

    /// What asking for a packet at `now` does and returns, where the time to the next drop
    /// is given by `spacing`.
    pub open spec fn taken(self, now: Instant, spacing: Spacing) -> (Self, Option<P>) {
        if self.packets.len() == 0 {
            (self.left_dropping(), None)
        } else {
            let head = self.packets[0];
            let seen = self.popped().judged(head, now);
            let drop = self.popped().droppable(head, now);
            if self.dropping && !drop {
                (seen.left_dropping(), Some(head))
            } else if self.dropping {
                seen.drained(head, now, spacing)
            } else if !drop {
                (seen, Some(head))
            } else if seen.packets.len() == 0 {
                (seen, None)
            } else {
                (seen.popped().entered_dropping(now, spacing), Some(head))
            }
        }
    }

    pub open spec fn valid(self) -> bool {
        &&& self.lastcount <= self.count
        &&& total_size(self.packets, self.extra()) <= self.bytes
    }

    /// The byte count is that of the queued packets.
    pub open spec fn exact(self) -> bool {
        self.bytes == total_size(self.packets, self.extra())
    }

    pub open spec fn ready(self, now: Instant) -> bool {
        &&& self.count + self.packets.len() <= u32::MAX
        &&& self.in_time(now)
    }

    /// The clock can hold every instant that is computed from `now`.
    pub open spec fn in_time(self, now: Instant) -> bool {
        &&& 16 * self.config.interval <= u128::MAX
        &&& reachable(now, self.config.interval)
        &&& callable(self.law)
        &&& forall|count: u32, d: Duration| #[trigger]
            call_ensures(self.law, (self.config.interval, count), d) ==> reachable(now, d)
    }
}

/// A queue that drops from the head by the CoDel law.
pub struct CoDelQueue<P, L> {
    queue: VecDeque<P>,
    config: CoDelQueueConfig,
    now_bytes: usize,
    count: u32,
    lastcount: u32,
    dropping: bool,
    first_above_time: Option<Instant>,
    drop_next: Instant,
    ldelay: Duration,
    law: L,
}

impl<P, L> View for CoDelQueue<P, L> {
    type V = CoDelModel<P, L>;

    closed spec fn view(&self) -> CoDelModel<P, L> {
        CoDelModel {
            packets: self.queue@,
            config: self.config,
            bytes: self.now_bytes,
            count: self.count,
            lastcount: self.lastcount,
            dropping: self.dropping,
            first_above_time: self.first_above_time,
            drop_next: self.drop_next,
            ldelay: self.ldelay,
            law: self.law,
        }
    }
}

impl<P: Packet, L: Fn(Duration, u32) -> Duration> CoDelQueue<P, L> {
    /// An empty queue, made at `now`. `law(interval, count)` is the time to the next drop
    /// after `count` drops: `interval` divided by the square root of `count`.
    pub fn new(config: CoDelQueueConfig, now: Instant, law: L) -> (q: Self)
        ensures
            q@ == (CoDelModel {
                packets: Seq::<P>::empty(),
                config,
                bytes: 0,
                count: 0,
                lastcount: 0,
                dropping: false,
                first_above_time: None,
                drop_next: now,
                ldelay: 0,
                law,
            }),
            q@.valid(),
    {
        CoDelQueue {
            queue: VecDeque::new(),
            config,
            now_bytes: 0,
            count: 0,
            lastcount: 0,
            dropping: false,
            first_above_time: None,
            drop_next: now,
            ldelay: 0,
            law,
        }
    }

    /// Takes the head packet out and its bytes off the count.
    fn pop(&mut self) -> (packet: Option<P>)
        requires
            old(self)@.valid(),
        ensures
            match packet {
                Some(p) => {
                    &&& old(self)@.packets.len() > 0
                    &&& p == old(self)@.packets[0]
                    &&& final(self)@ == old(self)@.popped()
                    &&& final(self)@.valid()
                    &&& final(self)@.bytes == old(self)@.bytes - size_of(p, old(self)@.extra())
                },
                None => old(self)@.packets.len() == 0 && final(self)@ == old(self)@,
            },
    {
        let ghost before = self@;
        match self.queue.pop_front() {
            Some(packet) => {
                proof {
                    lemma_total_size_nonnegative(before.packets.drop_first(), before.extra());
                    assert(before.packets.drop_first() =~= before.packets.subrange(
                        1,
                        before.packets.len() as int,
                    ));
                }
                self.now_bytes = self.now_bytes - (packet.l3_length()
                    + self.config.bw_type.extra_length());
                Some(packet)
            },
            None => None,
        }
    }

    /// Looks at `packet` at `now` and tells whether it may be dropped.
    fn should_drop(&mut self, packet: &P, now: Instant) -> (drop: bool)
        requires
            reachable(now, old(self)@.config.interval),
        ensures
            final(self)@ == old(self)@.judged(*packet, now),
            drop == old(self)@.droppable(*packet, now),
    {
        self.ldelay = duration_since(now, packet.get_timestamp());
        if self.ldelay < self.config.target || self.now_bytes as u64 <= self.config.mtu as u64 {
            self.first_above_time = None;
            false
        } else {
            match self.first_above_time {
                Some(first_above_time) => now >= first_above_time,
                None => {
                    self.first_above_time = Some(after(now, self.config.interval));
                    false
                },
            }
        }
    }

    /// When the next packet is to be dropped, if the last one was at `t`.
    fn control_law(&self, t: Instant) -> (next: Instant)
        requires
            callable(self@.law),
            forall|d: Duration| #[trigger]
                call_ensures(self@.law, (self@.config.interval, self@.count), d) ==> reachable(
                    t,
                    d,
                ),
        ensures
            forall|g: Spacing|
                #![trigger computes(self@.law, g)]
                computes(self@.law, g) ==> next == t + g(self@.config.interval, self@.count),
    {
        let spacing: Duration = (self.law)(self.config.interval, self.count);
        after(t, spacing)
    }

    /// In the dropping state with `packet` in hand: drops as long as a drop is due.
    fn drain(&mut self, packet: P, now: Instant) -> (out: Option<P>)
        requires
            old(self)@.valid(),
            old(self)@.in_time(now),
            old(self)@.count + old(self)@.packets.len() < u32::MAX,
        ensures
            final(self)@.valid(),
            forall|g: Spacing|
                computes(old(self)@.law, g) ==> (final(self)@, out) == old(self)@.drained(
                    packet,
                    now,
                    g,
                ),
    {
        let mut current = packet;
        while self.dropping && now >= self.drop_next
            invariant
                self@.valid(),
                self@.in_time(now),
                self@.count + self@.packets.len() < u32::MAX,
                self@.law == old(self)@.law,
                forall|g: Spacing|
                    computes(self@.law, g) ==> old(self)@.drained(packet, now, g)
                        == self@.drained(current, now, g),
            decreases self@.packets.len(),
        {
            self.count = self.count + 1;
            match self.pop() {
                Some(next) => {
                    current = next;
                },
                None => {
                    self.dropping = false;
                    return None;
                },
            }
            if self.should_drop(&current, now) {
                self.drop_next = self.control_law(self.drop_next);
            } else {
                self.dropping = false;
            }
        }
        Some(current)
    }
}

impl<P: Packet, L: Fn(Duration, u32) -> Duration> PacketQueue<P> for CoDelQueue<P, L> {
    type Config = CoDelQueueConfig;

    type Model = CoDelModel<P, L>;

    open spec fn model(&self) -> CoDelModel<P, L> {
        self@
    }

    open spec fn packets(m: CoDelModel<P, L>) -> Seq<P> {
        m.packets
    }

    open spec fn extra(m: CoDelModel<P, L>) -> usize {
        m.extra()
    }

    open spec fn valid(m: CoDelModel<P, L>) -> bool {
        m.valid()
    }

    open spec fn zero_buffer(m: CoDelModel<P, L>) -> bool {
        m.config.packet_limit == Some(0usize) || m.config.byte_limit == Some(0usize)
    }

    open spec fn configured(m: CoDelModel<P, L>, config: CoDelQueueConfig) -> CoDelModel<P, L> {
        CoDelModel { config, ..m }
    }

    open spec fn room(m: CoDelModel<P, L>, packet: P) -> bool {
        m.bytes + size_of(packet, m.extra()) <= usize::MAX
    }

    open spec fn enqueued(m: CoDelModel<P, L>, packet: P) -> CoDelModel<P, L> {
        if m.admits(packet) {
            CoDelModel {
                packets: m.packets.push(packet),
                bytes: (m.bytes + size_of(packet, m.extra())) as usize,
                ..m
            }
        } else {
            m
        }
    }

    open spec fn ready(m: CoDelModel<P, L>, timestamp: Instant) -> bool {
        m.ready(timestamp)
    }

    open spec fn dequeued(
        before: CoDelModel<P, L>,
        timestamp: Instant,
        after: CoDelModel<P, L>,
        packet: Option<P>,
    ) -> bool {
        forall|g: Spacing|
            #![trigger computes(before.law, g)]
            computes(before.law, g) ==> (after, packet) == before.taken(timestamp, g)
    }

    fn configure(&mut self, config: CoDelQueueConfig) {
        self.config = config;
    }

    fn enqueue(&mut self, packet: P) {
        let size: usize = packet.l3_length() + self.config.bw_type.extra_length();
        let packets_fit: bool = match self.config.packet_limit {
            Some(limit) => self.queue.len() < limit,
            None => true,
        };
        let bytes_fit: bool = match self.config.byte_limit {
            Some(limit) => self.now_bytes + size <= limit,
            None => true,
        };
        if packets_fit && bytes_fit {
            proof {
                lemma_total_size_push(self@.packets, packet, self@.extra());
            }
            self.now_bytes = self.now_bytes + size;
            self.queue.push_back(packet);
        }
    }

    fn dequeue_at(&mut self, timestamp: Instant) -> (packet: Option<P>) {
        let packet = match self.pop() {
            Some(packet) => packet,
            None => {
                self.dropping = false;
                return None;
            },
        };
        let drop: bool = self.should_drop(&packet, timestamp);
        if self.dropping {
            if drop {
                return self.drain(packet, timestamp);
            }
            self.dropping = false;
        } else if drop {
            match self.pop() {
                Some(_) => {},
                None => {
                    self.dropping = false;
                    return None;
                },
            }
            let ghost seen = self@;
            self.dropping = true;
            let delta: u32 = self.count - self.lastcount;
            if delta > 1 && duration_since(timestamp, self.drop_next) < 16 * self.config.interval {
                self.count = delta;
            } else {
                self.count = 1;
            }
            self.lastcount = self.count;
            self.drop_next = self.control_law(timestamp);
            assert forall|g: Spacing| computes(old(self)@.law, g) implies (self@, Some(packet))
                == old(self)@.taken(timestamp, g) by {
                assert(seen == old(self)@.popped().judged(packet, timestamp).popped());
                assert(self@.count == seen.entry_count(timestamp));
                assert(self@.drop_next == timestamp + g(seen.config.interval, self@.count));
                assert(self@ == seen.entered_dropping(timestamp, g));
            }
        }
        Some(packet)
    }

    fn is_empty(&self) -> (empty: bool) {
        self.queue.len() == 0
    }

    fn is_zero_buffer(&self) -> (zero: bool) {
        let no_packets: bool = match self.config.packet_limit {
            Some(limit) => limit == 0,
            None => false,
        };
        let no_bytes: bool = match self.config.byte_limit {
            Some(limit) => limit == 0,
            None => false,
        };
        no_packets || no_bytes
    }

    fn get_extra_length(&self) -> (n: usize) {
        self.config.bw_type.extra_length()
    }

    fn get_front_size(&self) -> (n: Option<usize>) {
        if self.queue.len() == 0 {
            None
        } else {
            Some(self.get_packet_size(&self.queue[0]))
        }
    }

    fn length(&self) -> (n: usize) {
        self.queue.len()
    }
}

/// Where the delay of the head packet is below the target, or hardly anything is queued, that
/// packet is handed out and no packet is dropped.
pub proof fn law_codel_leaves_a_short_queue_alone<P: Packet, L: Fn(Duration, u32) -> Duration>(
    m: CoDelModel<P, L>,
    now: Instant,
    spacing: Spacing,
)
    requires
        m.packets.len() > 0,
        m.popped().below(m.packets[0], now),
    ensures
        m.taken(now, spacing).1 == Some(m.packets[0]),
        m.taken(now, spacing).0.packets == m.packets.drop_first(),
        !m.taken(now, spacing).0.dropping,
{
}

/// From the moment at which the delay is first seen above the target, an interval passes
/// before a packet may be dropped.
pub proof fn law_codel_waits_for_an_interval<P: Packet, L: Fn(Duration, u32) -> Duration>(
    m: CoDelModel<P, L>,
    packet: P,
    since: Instant,
    later: CoDelModel<P, L>,
    other: P,
    now: Instant,
)
    requires
        m.first_above_time is None,
        reachable(since, m.config.interval),
        later.first_above_time == m.judged(packet, since).first_above_time,
    ensures
        !m.droppable(packet, since),
        later.droppable(other, now) ==> now >= since + m.config.interval,
{
}

/// Whatever CoDel drops, packets leave in the order in which they came: one that is handed
/// out was queued, and all that stay are behind it.
pub proof fn law_codel_hands_out_in_order<P: Packet, L: Fn(Duration, u32) -> Duration>(
    m: CoDelModel<P, L>,
    now: Instant,
    spacing: Spacing,
)
    ensures
        hands_out(m, m.taken(now, spacing)),
{
    if m.packets.len() > 0 {
        let head = m.packets[0];
        let seen = m.popped().judged(head, now);
        let drop = m.popped().droppable(head, now);
        assert(m.packets.skip(1) =~= m.packets.drop_first());
        if m.dropping && drop {
            lemma_drained_in_order(seen, head, now, spacing);
            let r = seen.drained(head, now, spacing);
            let n = choose|n: nat| #[trigger] drained_to(seen, head, r, n);
            assert(m.packets.skip(n as int + 1) =~= seen.packets.skip(n as int));
            assert(handed(m, r, n + 1, n));
        } else if !drop {
            assert(handed(m, m.taken(now, spacing), 1, 0));
        } else if seen.packets.len() == 0 {
            assert(handed(m, m.taken(now, spacing), 1, 0));
        } else {
            assert(m.packets.skip(2) =~= m.packets.drop_first().drop_first());
            assert(handed(m, m.taken(now, spacing), 2, 0));
        }
    } else {
        assert(m.packets.skip(0) =~= m.packets);
        assert(handed(m, m.taken(now, spacing), 0, 0));
    }
}

/// `gone` packets have left the front of the queue, and the one at `place` among them is
/// handed out, if any is.
pub open spec fn handed<P, L>(
    m: CoDelModel<P, L>,
    r: (CoDelModel<P, L>, Option<P>),
    gone: nat,
    place: nat,
) -> bool {
    &&& gone <= m.packets.len()
    &&& r.0.packets == m.packets.skip(gone as int)
    &&& r.1 is Some ==> place < gone && r.1 == Some(m.packets[place as int])
}

/// What has left is the front of the queue, and what is handed out is among it.
pub open spec fn hands_out<P, L>(
    m: CoDelModel<P, L>,
    r: (CoDelModel<P, L>, Option<P>),
) -> bool {
    exists|gone: nat, place: nat| #[trigger] handed(m, r, gone, place)
}

spec fn drained_to<P, L>(
    m: CoDelModel<P, L>,
    packet: P,
    r: (CoDelModel<P, L>, Option<P>),
    n: nat,
) -> bool {
    &&& n <= m.packets.len()
    &&& r.0.packets == m.packets.skip(n as int)
    &&& r.1 is Some ==> r.1 == Some(
        if n == 0 {
            packet
        } else {
            m.packets[n - 1]
        },
    )
}

proof fn lemma_drained_in_order<P: Packet, L: Fn(Duration, u32) -> Duration>(
    m: CoDelModel<P, L>,
    packet: P,
    now: Instant,
    spacing: Spacing,
)
    ensures
        exists|n: nat| #[trigger] drained_to(m, packet, m.drained(packet, now, spacing), n),
    decreases m.packets.len(),
{
    let r = m.drained(packet, now, spacing);
    assert(m.packets.skip(0) =~= m.packets);
    if !m.dropping || now < m.drop_next || m.packets.len() == 0 {
        assert(drained_to(m, packet, r, 0));
    } else {
        let dropped = CoDelModel { count: (m.count + 1) as u32, ..m };
        let next = m.packets[0];
        let seen = dropped.popped().judged(next, now);
        assert(m.packets.skip(1) =~= m.packets.drop_first());
        if dropped.popped().droppable(next, now) {
            let later = CoDelModel {
                drop_next: (seen.drop_next + spacing(seen.config.interval, seen.count)) as i128,
                ..seen
            };
            lemma_drained_in_order(later, next, now, spacing);
            let n = choose|n: nat| #[trigger] drained_to(later, next, r, n);
            assert(m.packets.skip(n as int + 1) =~= later.packets.skip(n as int));
            assert(drained_to(m, packet, r, n + 1));
        } else {
            assert(drained_to(m, packet, r, 1));
        }
    }
}

/// Where the byte count is exact, drops never use up the whole queue: asking for a packet
/// gives none if and only if the queue was empty. Else one of the packets that leave the front
/// of the queue is handed out, the others of them are dropped, and the count is exact again.
pub proof fn law_codel_always_hands_one_out<P: Packet, L: Fn(Duration, u32) -> Duration>(
    m: CoDelModel<P, L>,
    now: Instant,
    spacing: Spacing,
)
    requires
        m.exact(),
    ensures
        m.taken(now, spacing).1 is None <==> m.packets.len() == 0,
        m.taken(now, spacing).0.exact(),
        m.packets.len() > 0 ==> exists|gone: nat, place: nat|
            gone >= 1 && place < gone && #[trigger] handed(m, m.taken(now, spacing), gone, place),
{
    law_codel_hands_out_in_order(m, now, spacing);
    if m.packets.len() > 0 {
        let head = m.packets[0];
        let seen = m.popped().judged(head, now);
        lemma_popping_keeps_the_count(m);
        if m.dropping && m.popped().droppable(head, now) {
            lemma_drain_keeps_the_count(seen, head, now, spacing);
        } else if m.popped().droppable(head, now) {
            lemma_popping_keeps_the_count(seen);
        }
        let r = m.taken(now, spacing);
        let (gone, place) = choose|gone: nat, place: nat| #[trigger] handed(m, r, gone, place);
        assert(handed(m, r, gone, place) && place < gone);
    }
}

/// Taking a packet in keeps an exact byte count exact.
pub proof fn law_codel_counts_what_comes<P: Packet, L: Fn(Duration, u32) -> Duration>(
    m: CoDelModel<P, L>,
    packet: P,
)
    requires
        m.exact(),
        <CoDelQueue<P, L> as PacketQueue<P>>::room(m, packet),
    ensures
        <CoDelQueue<P, L> as PacketQueue<P>>::enqueued(m, packet).exact(),
{
    lemma_total_size_push(m.packets, packet, m.extra());
}

/// Without its head a queue is counted exactly, and one that is empty then counts for nothing.
proof fn lemma_popping_keeps_the_count<P: Packet, L: Fn(Duration, u32) -> Duration>(
    m: CoDelModel<P, L>,
)
    requires
        m.exact(),
        m.packets.len() > 0,
    ensures
        m.popped().exact(),
        m.packets.len() == 1 ==> m.popped().bytes == 0,
{
    lemma_total_size_nonnegative(m.packets.drop_first(), m.extra());
}

/// As long as a drop can be due something is queued, so a packet is found to hand out.
proof fn lemma_drain_keeps_the_count<P: Packet, L: Fn(Duration, u32) -> Duration>(
    m: CoDelModel<P, L>,
    packet: P,
    now: Instant,
    spacing: Spacing,
)
    requires
        m.exact(),
        m.packets.len() > 0,
    ensures
        m.drained(packet, now, spacing).0.exact(),
        m.drained(packet, now, spacing).1 is Some,
    decreases m.packets.len(),
{
    if m.dropping && now >= m.drop_next {
        let dropped = CoDelModel { count: (m.count + 1) as u32, ..m };
        let next = m.packets[0];
        let seen = dropped.popped().judged(next, now);
        lemma_popping_keeps_the_count(dropped);
        if dropped.popped().droppable(next, now) {
            let later = CoDelModel {
                drop_next: (seen.drop_next + spacing(seen.config.interval, seen.count)) as i128,
                ..seen
            };
            lemma_drain_keeps_the_count(later, next, now, spacing);
        }
    }
}

/// A packet is taken in exactly if both limits still hold with it, at the end of the queue;
/// otherwise nothing changes. So a queue that is within its limits stays within them.
pub proof fn law_codel_stays_within_its_limits<P: Packet, L: Fn(Duration, u32) -> Duration>(
    m: CoDelModel<P, L>,
    packet: P,
)
    requires
        <CoDelQueue<P, L> as PacketQueue<P>>::room(m, packet),
    ensures
        ({
            let after = <CoDelQueue<P, L> as PacketQueue<P>>::enqueued(m, packet);
            let fits = (m.config.packet_limit is Some ==> m.packets.len() + 1
                <= m.config.packet_limit->0) && (m.config.byte_limit is Some ==> m.bytes
                + packet.l3() + m.config.bw_type.extra() <= m.config.byte_limit->0);
            &&& fits ==> after.packets == m.packets + seq![packet] && after.bytes == m.bytes
                + packet.l3() + m.config.bw_type.extra()
            &&& !fits ==> after == m
            &&& after.config == m.config && after.count == m.count && after.dropping
                == m.dropping && after.drop_next == m.drop_next && after.first_above_time
                == m.first_above_time
            &&& m.config.byte_limit is Some && m.bytes <= m.config.byte_limit->0 ==> after.bytes
                <= m.config.byte_limit->0
            &&& m.config.packet_limit is Some && m.packets.len() <= m.config.packet_limit->0
                ==> after.packets.len() <= m.config.packet_limit->0
        }),
{
}

/// A head packet that has waited for less than the target, or behind which no more waits than
/// a largest packet, is handed out, and nothing else leaves.
pub proof fn law_codel_spares_what_waited_shortly<P: Packet, L: Fn(Duration, u32) -> Duration>(
    m: CoDelModel<P, L>,
    now: Instant,
    spacing: Spacing,
)
    requires
        m.valid(),
        m.packets.len() > 0,
        m.config.target > 0,
        now - m.packets[0].timestamp() < m.config.target || m.bytes - m.packets[0].l3()
            - m.config.bw_type.extra() <= m.config.mtu,
    ensures
        ({
            let (after, out) = m.taken(now, spacing);
            &&& out == Some(m.packets[0])
            &&& after.packets == m.packets.skip(1)
            &&& after.count == m.count
            &&& !after.dropping
            &&& after.first_above_time is None
        }),
{
    lemma_total_size_nonnegative(m.packets.drop_first(), m.extra());
    assert(m.packets.drop_first() =~= m.packets.skip(1));
}

/// The delay has to stay above the target for an interval before a packet is dropped: until
/// then the head is handed out, and the interval begins when the delay is first seen above.
pub proof fn law_codel_drops_after_an_interval<P: Packet, L: Fn(Duration, u32) -> Duration>(
    m: CoDelModel<P, L>,
    now: Instant,
    spacing: Spacing,
)
    requires
        m.valid(),
        m.packets.len() > 0,
        m.first_above_time is Some ==> now < m.first_above_time->0,
        reachable(now, m.config.interval),
    ensures
        ({
            let (after, out) = m.taken(now, spacing);
            let above = now >= m.packets[0].timestamp() && now - m.packets[0].timestamp()
                >= m.config.target && m.bytes - m.packets[0].l3() - m.config.bw_type.extra()
                > m.config.mtu;
            &&& out == Some(m.packets[0])
            &&& after.packets == m.packets.skip(1)
            &&& after.count == m.count
            &&& above && m.first_above_time is None ==> after.first_above_time is Some
                && after.first_above_time->0 == now + m.config.interval
            &&& above && m.first_above_time is Some ==> after.first_above_time
                == m.first_above_time
        }),
{
    lemma_total_size_nonnegative(m.packets.drop_first(), m.extra());
    assert(m.packets.drop_first() =~= m.packets.skip(1));
}

/// In the dropping state nothing is dropped before the next drop is due.
pub proof fn law_codel_drops_when_due<P: Packet, L: Fn(Duration, u32) -> Duration>(
    m: CoDelModel<P, L>,
    now: Instant,
    spacing: Spacing,
)
    requires
        m.packets.len() > 0,
        m.dropping,
        now < m.drop_next,
    ensures
        m.taken(now, spacing).1 == Some(m.packets[0]),
        m.taken(now, spacing).0.packets == m.packets.skip(1),
        m.taken(now, spacing).0.count == m.count,
        m.taken(now, spacing).0.drop_next == m.drop_next,
{
    assert(m.packets.drop_first() =~= m.packets.skip(1));
}

/// When a drop is due and the delay stays above the target, one more packet is dropped and
/// counted, and the next drop is due after the spacing for that count: it is no longer the
/// head that is handed out.
pub proof fn law_codel_drops_one_for_the_next<P: Packet, L: Fn(Duration, u32) -> Duration>(
    m: CoDelModel<P, L>,
    now: Instant,
    spacing: Spacing,
)
    requires
        m.valid(),
        m.packets.len() > 2,
        m.dropping,
        m.first_above_time is Some && now >= m.first_above_time->0,
        now >= m.drop_next,
        now >= m.packets[0].timestamp() && now - m.packets[0].timestamp() >= m.config.target,
        now >= m.packets[1].timestamp() && now - m.packets[1].timestamp() >= m.config.target,
        m.bytes - m.packets[0].l3() - m.packets[1].l3() - 2 * m.config.bw_type.extra()
            > m.config.mtu,
        m.count < u32::MAX,
        now < m.drop_next + spacing(m.config.interval, (m.count + 1) as u32),
        reachable(m.drop_next, spacing(m.config.interval, (m.count + 1) as u32)),
    ensures
        ({
            let (after, out) = m.taken(now, spacing);
            &&& out == Some(m.packets[1])
            &&& after.packets == m.packets.skip(2)
            &&& after.count == m.count + 1
            &&& after.dropping
            &&& after.drop_next == m.drop_next + spacing(m.config.interval, after.count)
        }),
{
    lemma_total_size_nonnegative(m.packets.drop_first().drop_first(), m.extra());
    assert(m.packets.drop_first().drop_first() =~= m.packets.skip(2));
    reveal_with_fuel(CoDelModel::drained, 2);
}

/// The dropping state is entered once the delay has been above the target for an interval.
/// Two packets leave the queue, of which the first is handed out, and the next drop is due
/// after the spacing for the number of drops. That number starts over at one, unless the
/// queue has been in the dropping state within the last sixteen intervals.
pub proof fn law_codel_enters_the_dropping_state<P: Packet, L: Fn(Duration, u32) -> Duration>(
    m: CoDelModel<P, L>,
    now: Instant,
    spacing: Spacing,
)
    requires
        m.valid(),
        m.packets.len() > 1,
        !m.dropping,
        now >= m.packets[0].timestamp() && now - m.packets[0].timestamp() >= m.config.target,
        m.bytes - m.packets[0].l3() - m.config.bw_type.extra() > m.config.mtu,
        m.first_above_time is Some && now >= m.first_above_time->0,
        reachable(now, spacing(m.config.interval, m.taken(now, spacing).0.count)),
    ensures
        ({
            let (after, out) = m.taken(now, spacing);
            &&& out == Some(m.packets[0])
            &&& after.packets == m.packets.skip(2)
            &&& after.dropping
            &&& after.count >= 1 && after.lastcount == after.count
            &&& after.drop_next == now + spacing(m.config.interval, after.count)
            &&& now >= m.drop_next && now - m.drop_next >= 16 * m.config.interval
                ==> after.count == 1
            &&& now - m.drop_next < 16 * m.config.interval && m.config.interval > 0 && m.count
                - m.lastcount > 1 ==> after.count == m.count - m.lastcount
        }),
{
    lemma_total_size_nonnegative(m.packets.drop_first(), m.extra());
    assert(m.packets.drop_first().drop_first() =~= m.packets.skip(2));
}

/// Another configuration comes into force for what happens from then on: what is queued, how
/// long the delay has been above the target and when the next drop is due stay as they are.
pub proof fn law_codel_keeps_its_state_when_configured<
    P: Packet,
    L: Fn(Duration, u32) -> Duration,
>(m: CoDelModel<P, L>, config: CoDelQueueConfig)
    ensures
        ({
            let after = <CoDelQueue<P, L> as PacketQueue<P>>::configured(m, config);
            &&& after.config == config
            &&& after.packets == m.packets
            &&& after.bytes == m.bytes
            &&& after.count == m.count
            &&& after.lastcount == m.lastcount
            &&& after.dropping == m.dropping
            &&& after.first_above_time == m.first_above_time
            &&& after.drop_next == m.drop_next
            &&& after.ldelay == m.ldelay
        }),
{
}

/// The delay that a queue reports is that of the head packet when one was last asked for, and
/// an empty queue is not in the dropping state.
pub proof fn law_codel_tells_the_delay<P: Packet, L: Fn(Duration, u32) -> Duration>(
    m: CoDelModel<P, L>,
    now: Instant,
    spacing: Spacing,
)
    requires
        !m.dropping || m.packets.len() == 0,
    ensures
        ({
            let (after, out) = m.taken(now, spacing);
            &&& m.packets.len() > 0 && now >= m.packets[0].timestamp() && now
                - m.packets[0].timestamp() <= u128::MAX ==> after.ldelay == now
                - m.packets[0].timestamp()
            &&& m.packets.len() > 0 && now < m.packets[0].timestamp() ==> after.ldelay == 0
            &&& m.packets.len() == 0 ==> out is None && !after.dropping && after.packets
                == m.packets
        }),
{
}

/// A queue is zero-sized exactly if one of its limits is zero; then nothing gets in.
pub proof fn law_codel_without_a_buffer_takes_nothing<
    P: Packet,
    L: Fn(Duration, u32) -> Duration,
>(m: CoDelModel<P, L>, packet: P)
    ensures
        <CoDelQueue<P, L> as PacketQueue<P>>::zero_buffer(m) <==> m.config.packet_limit == Some(
            0usize,
        ) || m.config.byte_limit == Some(0usize),
        <CoDelQueue<P, L> as PacketQueue<P>>::zero_buffer(m) && packet.l3() > 0 ==> !m.admits(
            packet,
        ),
{
}

} // verus!
