//! One flow of a FQ-CoDel queue: a CoDel queue that marks a packet rather than drop it,
//! where the packet is capable of ECN.
use super::FqCoDelQueueConfig;
use crate::devices::bandwidth::queue::ecn::{
    code_point, is_ip, law_marking_keeps_the_checksum, marked_as, ControlBuffer, NOT_ECT,
};
use crate::law::{callable, computes};
use crate::packet::{Packet, RawPacket};
use crate::sums::{lemma_sum_nonnegative, lemma_sum_push, sum_by};
use crate::time::{after, duration_since, elapsed, reachable, Duration, Instant};
use std::collections::VecDeque;
use vstd::prelude::*;

verus! {

/// The time to the next drop, from the interval and the number of drops.
pub type Spacing = spec_fn(Duration, u32) -> Duration;

/// The bytes that a queued packet counts for.
pub open spec fn frame_size<P: RawPacket>() -> spec_fn(ControlBuffer<P>) -> int {
    |b: ControlBuffer<P>| b.packet.l3() as int
}

/// What a flow holds and remembers.
#[verifier::ext_equal]
pub struct FlowState<P> {
    pub queue: Seq<ControlBuffer<P>>,
    pub bytes: usize,
    pub packets: usize,
    pub dropping: bool,
    /// Sojourn time of the packet that was looked at last.
    pub ldelay: Duration,
    /// When the delay will have been above target for an interval.
    pub first_above_time: Option<Instant>,
    /// When the next packet is to be dropped, or the last one was.
    pub drop_next: Instant,
    /// Drops and marks since the dropping state was entered.
    pub count: u32,
    /// `count` when the dropping state was entered.
    pub last_count: u32,
}

/// How many packets leave from the head of `queue` when at most `max` are dropped, and no
/// more once `threshold` bytes are gone.
pub open spec fn shed_count<P: RawPacket>(
    queue: Seq<ControlBuffer<P>>,
    max: int,
    threshold: int,
) -> nat
    decreases queue.len(),
{
    if queue.len() > 0 && max > 0 && threshold > 0 {
        1 + shed_count(queue.drop_first(), max - 1, threshold - queue[0].packet.l3())
    } else {
        0
    }
}

impl<P: RawPacket> FlowState<P> {
    /// A flow that has not seen a packet, made at `now`.
    pub open spec fn fresh(now: Instant) -> Self {
        FlowState {
            queue: Seq::empty(),
            bytes: 0,
            packets: 0,
            dropping: false,
            ldelay: 0,
            first_above_time: None,
            drop_next: now,
            count: 0,
            last_count: 0,
        }
    }

    /// The counters are those of the queued packets, and no packet is longer than a credit
    /// can pay for.
    pub open spec fn valid(self) -> bool {
        &&& self.last_count <= self.count
        &&& self.bytes == sum_by(self.queue, frame_size())
        &&& self.packets == self.queue.len()
        &&& forall|i: int|
            0 <= i < self.queue.len() ==> (#[trigger] self.queue[i]).packet.l3() <= i32::MAX
    }

    /// The number of drops fits its counter, whatever is dropped next.
    pub open spec fn countable(self) -> bool {
        self.count + self.queue.len() < u32::MAX
    }

    pub open spec fn pushed(self, b: ControlBuffer<P>) -> Self {
        FlowState {
            queue: self.queue.push(b),
            bytes: (self.bytes + b.packet.l3()) as usize,
            packets: (self.packets + 1) as usize,
            ..self
        }
    }

    /// The head packet is taken out.
    pub open spec fn popped(self) -> Self {
        FlowState {
            queue: self.queue.drop_first(),
            bytes: (self.bytes - self.queue[0].packet.l3()) as usize,
            packets: (self.packets - 1) as usize,
            ..self
        }
    }

    /// The delay of `packet` at `now` is short, or hardly anything is queued behind it.
    pub open spec fn below(self, packet: P, config: FqCoDelQueueConfig, now: Instant) -> bool {
        elapsed(now, packet.timestamp()) < config.target || self.bytes <= config.mtu
    }

    /// `packet` has been looked at.
    pub open spec fn judged(self, packet: P, config: FqCoDelQueueConfig, now: Instant) -> Self {
        FlowState {
            ldelay: elapsed(now, packet.timestamp()),
            first_above_time: if self.below(packet, config, now) {
                None
            } else if self.first_above_time is Some {
                self.first_above_time
            } else {
                Some((now + config.interval) as i128)
            },
            ..self
        }
    }

    /// Whether `packet` may be dropped: the delay has been above target for an interval.
    pub open spec fn droppable(self, packet: P, config: FqCoDelQueueConfig, now: Instant) -> bool {
        &&& !self.below(packet, config, now)
        &&& self.first_above_time is Some
        &&& now >= self.first_above_time->0
    }

    pub open spec fn left_dropping(self) -> Self {
        FlowState { dropping: false, ..self }
    }

    /// The packet is marked in place of being dropped.
    pub open spec fn spares(b: ControlBuffer<P>, config: FqCoDelQueueConfig) -> bool {
        config.use_ecn && b.ect != NOT_ECT
    }

    /// In the dropping state, with `b` taken out: as long as a drop is due, the packet in
    /// hand is dropped for the next one, or marked, which ends it. Returns the packet to send
    /// and whether it is to be marked.
    pub open spec fn drained(
        self,
        b: ControlBuffer<P>,
        config: FqCoDelQueueConfig,
        now: Instant,
        spacing: Spacing,
    ) -> (Self, Option<(P, bool)>)
        decreases self.queue.len(),
    {
        if !self.dropping || now < self.drop_next {
            (self, Some((b.packet, false)))
        } else {
            let counted = FlowState { count: (self.count + 1) as u32, ..self };
            if Self::spares(b, config) {
                (
                    FlowState {
                        drop_next: (counted.drop_next + spacing(
                            config.interval,
                            counted.count,
                        )) as i128,
                        ..counted
                    },
                    Some((b.packet, true)),
                )
            } else if self.queue.len() == 0 {
                (counted.left_dropping(), None)
            } else {
                let next = self.queue[0];
                let seen = counted.popped().judged(next.packet, config, now);
                if counted.popped().droppable(next.packet, config, now) {
                    FlowState {
                        drop_next: (seen.drop_next + spacing(config.interval, seen.count)) as i128,
                        ..seen
                    }.drained(next, config, now, spacing)
                } else {
                    (seen.left_dropping(), Some((next.packet, false)))
                }
            }
        }
    }

    /// `count` on entering the dropping state: it goes on from where it was if the flow was
    /// in that state not long ago.
    pub open spec fn entry_count(self, config: FqCoDelQueueConfig, now: Instant) -> u32 {
        let delta = (self.count - self.last_count) as u32;
        if delta > 1 && elapsed(now, self.drop_next) < 16 * config.interval {
            delta
        } else {
            1
        }
    }

    /// The dropping state is entered.
    pub open spec fn entered_dropping(
        self,
        config: FqCoDelQueueConfig,
        now: Instant,
        spacing: Spacing,
    ) -> Self {
        let count = self.entry_count(config, now);
        FlowState {
            dropping: true,
            count,
            last_count: count,
            drop_next: (now + spacing(config.interval, count)) as i128,
            ..self
        }
    }

    /// What asking for a packet at `now` does, where the time to the next drop is given by
    /// `spacing`. Returns the packet to send and whether it is to be marked.
    pub open spec fn taken(
        self,
        config: FqCoDelQueueConfig,
        now: Instant,
        spacing: Spacing,
    ) -> (Self, Option<(P, bool)>) {
        if self.queue.len() == 0 {
            (self.left_dropping(), None)
        } else {
            let head = self.queue[0];
            let seen = self.popped().judged(head.packet, config, now);
            let drop = self.popped().droppable(head.packet, config, now);
            if self.dropping && !drop {
                (seen.left_dropping(), Some((head.packet, false)))
            } else if self.dropping {
                seen.drained(head, config, now, spacing)
            } else if !drop {
                (seen, Some((head.packet, false)))
            } else if Self::spares(head, config) {
                (seen.entered_dropping(config, now, spacing), Some((head.packet, true)))
            } else if seen.queue.len() == 0 {
                (seen, None)
            } else {
                let next = seen.queue[0];
                (
                    seen.popped().judged(next.packet, config, now).entered_dropping(
                        config,
                        now,
                        spacing,
                    ),
                    Some((next.packet, false)),
                )
            }
        }
    }

    /// Packets are dropped from the head: at most `max`, and no more once `threshold` bytes
    /// are gone.
    pub open spec fn shed(self, max: int, threshold: int) -> Self {
        let n = shed_count(self.queue, max, threshold);
        FlowState {
            queue: self.queue.skip(n as int),
            bytes: sum_by(self.queue.skip(n as int), frame_size()) as usize,
            packets: (self.packets - n) as usize,
            count: (self.count + n) as u32,
            ..self
        }
    }
}

/// What is sent is the packet itself, or the packet with a mark.
pub open spec fn sent_as<P: RawPacket>(out: Option<(P, bool)>, packet: Option<P>) -> bool {
    match out {
        None => packet is None,
        Some((p, marked)) => {
            &&& packet is Some
            &&& if marked {
                marked_as(p, packet->0)
            } else {
                packet->0 == p
            }
        },
    }
}

/// The clock can hold every instant that is computed from `now`.
pub open spec fn in_time<L: Fn(Duration, u32) -> Duration>(
    config: FqCoDelQueueConfig,
    law: L,
    now: Instant,
) -> bool {
    &&& 16 * config.interval <= u128::MAX
    &&& reachable(now, config.interval)
    &&& callable(law)
    &&& forall|count: u32, d: Duration| #[trigger]
        call_ensures(law, (config.interval, count), d) ==> reachable(now, d)
}

/// Taking the head packet out keeps the counters.
pub proof fn lemma_popped_valid<P: RawPacket>(f: FlowState<P>)
    requires
        f.valid(),
        f.queue.len() > 0,
    ensures
        f.popped().valid(),
        f.popped().bytes == f.bytes - f.queue[0].packet.l3(),
        f.popped().packets == f.packets - 1,
        f.queue[0].packet.l3() <= f.bytes,
{
    let rest = f.queue.drop_first();
    lemma_sum_nonnegative(rest, frame_size());
    assert forall|i: int| 0 <= i < rest.len() implies (#[trigger] rest[i]).packet.l3()
        <= i32::MAX by {
        assert(rest[i] == f.queue[i + 1]);
    }
}

/// However full a flow is, no more packets are shed at once than the batch allows, nor more
/// than there are.
pub proof fn law_shedding_is_limited<P: RawPacket>(
    queue: Seq<ControlBuffer<P>>,
    max: int,
    threshold: int,
)
    ensures
        shed_count(queue, max, threshold) <= queue.len(),
        max >= 0 ==> shed_count(queue, max, threshold) <= max,
    decreases queue.len(),
{
    if queue.len() > 0 && max > 0 && threshold > 0 {
        law_shedding_is_limited(queue.drop_first(), max - 1, threshold - queue[0].packet.l3());
    }
}

#[derive(Debug)]
pub struct FqCoDelFlow<P> {
    queue: VecDeque<ControlBuffer<P>>,
    bytes_in_flow: usize,
    packets_in_flow: usize,
    deficit: i32,
    dropping: bool,
    ldelay: Duration,
    first_above_time: Option<Instant>,
    drop_next: Instant,
    count: u32,
    last_count: u32,
}

/// A flow and what it may still send in this round, in bytes.
#[verifier::ext_equal]
pub struct FlowModel<P> {
    pub deficit: i32,
    pub state: FlowState<P>,
}

impl<P> View for FqCoDelFlow<P> {
    type V = FlowModel<P>;

    closed spec fn view(&self) -> FlowModel<P> {
        FlowModel {
            deficit: self.deficit,
            state: FlowState {
                queue: self.queue@,
                bytes: self.bytes_in_flow,
                packets: self.packets_in_flow,
                dropping: self.dropping,
                ldelay: self.ldelay,
                first_above_time: self.first_above_time,
                drop_next: self.drop_next,
                count: self.count,
                last_count: self.last_count,
            },
        }
    }
}

impl<P: RawPacket> FqCoDelFlow<P> {
    pub fn new(now: Instant) -> (f: Self)
        ensures
            f@ == (FlowModel { deficit: 0, state: FlowState::<P>::fresh(now) }),
            f@.state.valid(),
    {
        FqCoDelFlow {
            queue: VecDeque::new(),
            bytes_in_flow: 0,
            packets_in_flow: 0,
            deficit: 0,
            dropping: false,
            ldelay: 0,
            first_above_time: None,
            drop_next: now,
            count: 0,
            last_count: 0,
        }
    }

    pub fn get_deficit(&self) -> (d: i32)
        ensures
            d == self@.deficit,
    {
        self.deficit
    }

    pub fn set_deficit(&mut self, deficit: i32)
        ensures
            final(self)@ == (FlowModel { deficit, ..old(self)@ }),
    {
        self.deficit = deficit;
    }

    /// The bytes that are queued.
    pub fn backlog(&self) -> (n: usize)
        ensures
            n == self@.state.bytes,
    {
        self.bytes_in_flow
    }

    /// How many packets are queued.
    pub fn length(&self) -> (n: usize)
        ensures
            n == self@.state.packets,
    {
        self.packets_in_flow
    }

    /// Takes the head packet out.
    fn pop(&mut self) -> (b: Option<ControlBuffer<P>>)
        requires
            old(self)@.state.valid(),
        ensures
            final(self)@.deficit == old(self)@.deficit,
            match b {
                Some(b) => {
                    &&& old(self)@.state.queue.len() > 0
                    &&& b == old(self)@.state.queue[0]
                    &&& final(self)@.state == old(self)@.state.popped()
                    &&& final(self)@.state.valid()
                },
                None => old(self)@.state.queue.len() == 0 && final(self)@ == old(self)@,
            },
    {
        let ghost before = self@.state;
        match self.queue.pop_front() {
            Some(b) => {
                proof {
                    lemma_popped_valid(before);
                    assert(before.queue.drop_first() =~= before.queue.subrange(
                        1,
                        before.queue.len() as int,
                    ));
                }
                self.bytes_in_flow = self.bytes_in_flow - b.packet.l3_length();
                self.packets_in_flow = self.packets_in_flow - 1;
                Some(b)
            },
            None => None,
        }
    }

    /// Looks at `packet` at `now` and tells whether it may be dropped.
    fn should_drop(&mut self, packet: &P, config: &FqCoDelQueueConfig, now: Instant) -> (drop: bool)
        requires
            reachable(now, config.interval),
        ensures
            final(self)@.deficit == old(self)@.deficit,
            final(self)@.state == old(self)@.state.judged(*packet, *config, now),
            drop == old(self)@.state.droppable(*packet, *config, now),
    {
        self.ldelay = duration_since(now, packet.get_timestamp());
        if self.ldelay < config.target || self.bytes_in_flow as u64 <= config.mtu as u64 {
            self.first_above_time = None;
            return false;
        }
        match self.first_above_time {
            Some(first_above_time) => now >= first_above_time,
            None => {
                self.first_above_time = Some(after(now, config.interval));
                false
            },
        }
    }

    /// When the next packet is to be dropped, if the last one was at `t`.
    fn control_law<L: Fn(Duration, u32) -> Duration>(
        &self,
        t: Instant,
        interval: Duration,
        law: &L,
    ) -> (next: Instant)
        requires
            callable(*law),
            forall|d: Duration| #[trigger]
                call_ensures(*law, (interval, self@.state.count), d) ==> reachable(t, d),
        ensures
            forall|g: Spacing|
                #![trigger computes(*law, g)]
                computes(*law, g) ==> next == t + g(interval, self@.state.count),
    {
        let spacing: Duration = law(interval, self.count);
        after(t, spacing)
    }

    /// Drops packets from the head, at most `packet_count`, until `bytes_count` bytes are
    /// gone. Returns how many packets and bytes went.
    pub fn dequeue_from_head(&mut self, packet_count: usize, bytes_count: usize) -> (dropped: (
        usize,
        usize,
    ))
        requires
            old(self)@.state.valid(),
            old(self)@.state.countable(),
        ensures
            final(self)@.state.valid(),
            final(self)@.state.countable(),
            final(self)@.deficit == old(self)@.deficit,
            final(self)@.state == old(self)@.state.shed(packet_count as int, bytes_count as int),
            dropped.0 == old(self)@.state.packets - final(self)@.state.packets,
            dropped.1 == old(self)@.state.bytes - final(self)@.state.bytes,
    {
        let ghost before = self@.state;
        let mut count: usize = 0;
        let mut byte: usize = 0;
        proof {
            assert(before.queue.skip(0) =~= before.queue);
        }
        while count < packet_count && byte < bytes_count && self.queue.len() > 0
            invariant
                self@.deficit == old(self)@.deficit,
                before == old(self)@.state,
                before.countable(),
                count <= before.queue.len(),
                self@.state == (FlowState {
                    queue: before.queue.skip(count as int),
                    bytes: (before.bytes - byte) as usize,
                    packets: (before.packets - count) as usize,
                    ..before
                }),
                self@.state.valid(),
                byte + self@.state.bytes == before.bytes,
                count + self@.state.packets == before.packets,
                before.packets == before.queue.len(),
                shed_count(before.queue, packet_count as int, bytes_count as int) == count
                    + shed_count(
                    self@.state.queue,
                    packet_count - count,
                    bytes_count - byte,
                ),
            decreases self@.state.queue.len(),
        {
            let ghost now = self@.state;
            match self.pop() {
                Some(b) => {
                    proof {
                        lemma_popped_valid(now);
                        assert(now.queue.drop_first() =~= before.queue.skip(count + 1));
                    }
                    byte = byte + b.packet.l3_length();
                    count = count + 1;
                },
                None => {},
            }
        }
        assert(self@.state.queue.len() == self.queue@.len());
        assert(shed_count(self@.state.queue, packet_count - count, bytes_count - byte) == 0);
        self.count = self.count + count as u32;
        (count, byte)
    }

    /// Takes a packet in. Tells whether the flow was empty, and is to be considered a new
    /// flow.
    pub fn enqueue(&mut self, b: ControlBuffer<P>) -> (is_new: bool)
        requires
            old(self)@.state.valid(),
            old(self)@.state.bytes + b.packet.l3() <= usize::MAX,
            old(self)@.state.packets < usize::MAX,
            b.packet.l3() <= i32::MAX,
        ensures
            final(self)@.state.valid(),
            final(self)@.deficit == old(self)@.deficit,
            final(self)@.state == old(self)@.state.pushed(b),
            final(self)@.state.packets == old(self)@.state.packets + 1,
            is_new == (old(self)@.state.queue.len() == 0),
    {
        let is_empty: bool = self.queue.len() == 0;
        proof {
            lemma_sum_push(self@.state.queue, b, frame_size());
        }
        self.bytes_in_flow = self.bytes_in_flow + b.packet.l3_length();
        self.packets_in_flow = self.packets_in_flow + 1;
        self.queue.push_back(b);
        is_empty
    }

    /// In the dropping state with `b` in hand: drops as long as a drop is due.
    fn drain<L: Fn(Duration, u32) -> Duration>(
        &mut self,
        b: ControlBuffer<P>,
        config: &FqCoDelQueueConfig,
        law: &L,
        now: Instant,
    ) -> (out: Option<P>)
        requires
            old(self)@.state.valid(),
            old(self)@.state.countable(),
            b.packet.l3() <= i32::MAX,
            in_time(*config, *law, now),
        ensures
            final(self)@.state.valid(),
            out is Some ==> out->0.l3() <= i32::MAX,
            final(self)@.deficit == old(self)@.deficit,
            final(self)@.state.count + final(self)@.state.queue.len() <= old(self)@.state.count
                + old(self)@.state.queue.len() + 1,
            final(self)@.state.bytes <= old(self)@.state.bytes,
            final(self)@.state.packets <= old(self)@.state.packets,
            out is None ==> final(self)@.state.queue.len() == 0,
            forall|g: Spacing| #[trigger]
                computes(*law, g) ==> {
                    let (state, sent) = old(self)@.state.drained(b, *config, now, g);
                    final(self)@.state == state && sent_as(sent, out)
                },
    {
        let mut current = b;
        while self.dropping && now >= self.drop_next
            invariant
                self@.state.valid(),
                self@.state.countable(),
                current.packet.l3() <= i32::MAX,
                self@.state.count + self@.state.queue.len() <= old(self)@.state.count + old(
                    self,
                )@.state.queue.len(),
                self@.state.bytes <= old(self)@.state.bytes,
                self@.state.packets <= old(self)@.state.packets,
                self@.deficit == old(self)@.deficit,
                in_time(*config, *law, now),
                forall|g: Spacing| #[trigger]
                    computes(*law, g) ==> old(self)@.state.drained(b, *config, now, g)
                        == self@.state.drained(current, *config, now, g),
            decreases self@.state.queue.len(),
        {
            self.count = self.count + 1;
            if config.use_ecn && current.ect != NOT_ECT {
                self.drop_next = self.control_law(self.drop_next, config.interval, law);
                current.set_ce();
                return Some(current.packet);
            }
            let ghost counted = self@.state;
            match self.pop() {
                Some(next) => {
                    proof {
                        lemma_popped_valid(counted);
                    }
                    current = next;
                },
                None => {
                    self.dropping = false;
                    return None;
                },
            }
            if self.should_drop(&current.packet, config, now) {
                self.drop_next = self.control_law(self.drop_next, config.interval, law);
            } else {
                self.dropping = false;
            }
        }
        Some(current.packet)
    }

    /// Enters the dropping state.
    fn enter_dropping<L: Fn(Duration, u32) -> Duration>(
        &mut self,
        config: &FqCoDelQueueConfig,
        law: &L,
        now: Instant,
    )
        requires
            old(self)@.state.valid(),
            in_time(*config, *law, now),
        ensures
            final(self)@.state.valid(),
            final(self)@.deficit == old(self)@.deficit,
            final(self)@.state.queue == old(self)@.state.queue,
            final(self)@.state.bytes == old(self)@.state.bytes,
            final(self)@.state.packets == old(self)@.state.packets,
            final(self)@.state.count <= old(self)@.state.count + 1,
            forall|g: Spacing| #[trigger]
                computes(*law, g) ==> final(self)@.state == old(self)@.state.entered_dropping(
                    *config,
                    now,
                    g,
                ),
    {
        self.dropping = true;
        let delta: u32 = self.count - self.last_count;
        if delta > 1 && duration_since(now, self.drop_next) < 16 * config.interval {
            self.count = delta;
        } else {
            self.count = 1;
        }
        self.last_count = self.count;
        self.drop_next = self.control_law(now, config.interval, law);
    }

    /// Takes a packet out at `now`, by the CoDel law.
    pub fn dequeue<L: Fn(Duration, u32) -> Duration>(
        &mut self,
        config: &FqCoDelQueueConfig,
        law: &L,
        now: Instant,
    ) -> (out: Option<P>)
        requires
            old(self)@.state.valid(),
            old(self)@.state.countable(),
            in_time(*config, *law, now),
        ensures
            final(self)@.state.valid(),
            final(self)@.state.countable(),
            out is Some ==> out->0.l3() <= i32::MAX,
            final(self)@.deficit == old(self)@.deficit,
            final(self)@.state.bytes <= old(self)@.state.bytes,
            final(self)@.state.packets <= old(self)@.state.packets,
            out is None ==> final(self)@.state.queue.len() == 0,
            forall|g: Spacing| #[trigger]
                computes(*law, g) ==> {
                    let (state, sent) = old(self)@.state.taken(*config, now, g);
                    final(self)@.state == state && sent_as(sent, out)
                },
    {
        let ghost before = self@.state;
        let mut b = match self.pop() {
            Some(b) => b,
            None => {
                self.dropping = false;
                return None;
            },
        };
        proof {
            lemma_popped_valid(before);
        }
        let drop: bool = self.should_drop(&b.packet, config, now);
        if self.dropping {
            if drop {
                return self.drain(b, config, law, now);
            }
            self.dropping = false;
        } else if drop {
            if config.use_ecn && b.ect != NOT_ECT {
                b.set_ce();
            } else {
                let ghost seen = self@.state;
                match self.pop() {
                    Some(next) => {
                        proof {
                            lemma_popped_valid(seen);
                        }
                        b = next;
                    },
                    None => {
                        return None;
                    },
                }
                let _ = self.should_drop(&b.packet, config, now);
            }
            self.enter_dropping(config, law, now);
        }
        Some(b.packet)
    }
}

/// What the dropping state leaves of a queue is its end, and the packet to send is the one
/// in hand or came last before what is left.
proof fn lemma_drained_in_order<P: RawPacket>(
    f: FlowState<P>,
    b: ControlBuffer<P>,
    config: FqCoDelQueueConfig,
    now: Instant,
    spacing: Spacing,
)
    ensures
        ({
            let (after, out) = f.drained(b, config, now, spacing);
            let k = f.queue.len() - after.queue.len();
            &&& k >= 0 && after.queue == f.queue.skip(k)
            &&& out is Some ==> (out->0).0 == if k == 0 {
                b.packet
            } else {
                f.queue[k - 1].packet
            }
            &&& out is None ==> after.queue.len() == 0
        }),
    decreases f.queue.len(),
{
    assert(f.queue.skip(0) =~= f.queue);
    if f.dropping && now >= f.drop_next && !FlowState::<P>::spares(b, config) && f.queue.len()
        > 0 {
        let counted = FlowState { count: (f.count + 1) as u32, ..f };
        let next = f.queue[0];
        let seen = counted.popped().judged(next.packet, config, now);
        assert(seen.queue =~= f.queue.skip(1));
        if counted.popped().droppable(next.packet, config, now) {
            let going = FlowState {
                drop_next: (seen.drop_next + spacing(config.interval, seen.count)) as i128,
                ..seen
            };
            lemma_drained_in_order(going, next, config, now, spacing);
            let after = going.drained(next, config, now, spacing).0;
            let k = going.queue.len() - after.queue.len();
            assert(f.queue.skip(1).skip(k) =~= f.queue.skip(k + 1));
        }
    }
}

/// A flow is first in, first out: what asking for a packet leaves is the end of the queue,
/// and the packet to send came last before what is left. Nothing is sent only if nothing is
/// left, and whatever waits, something leaves.
pub proof fn law_flow_hands_out_in_order<P: RawPacket>(
    f: FlowState<P>,
    config: FqCoDelQueueConfig,
    now: Instant,
    spacing: Spacing,
)
    ensures
        ({
            let (after, out) = f.taken(config, now, spacing);
            let k = f.queue.len() - after.queue.len();
            &&& k >= 0 && after.queue == f.queue.skip(k)
            &&& f.queue.len() > 0 ==> k > 0
            &&& out is Some ==> k > 0 && (out->0).0 == f.queue[k - 1].packet
            &&& out is None ==> after.queue.len() == 0
        }),
{
    assert(f.queue.skip(0) =~= f.queue);
    if f.queue.len() > 0 {
        let head = f.queue[0];
        let seen = f.popped().judged(head.packet, config, now);
        assert(seen.queue =~= f.queue.skip(1));
        if f.queue.len() > 1 {
            assert(f.queue.skip(1).drop_first() =~= f.queue.skip(2));
        }
        lemma_drained_in_order(seen, head, config, now, spacing);
        let after = seen.drained(head, config, now, spacing).0;
        let k = seen.queue.len() - after.queue.len();
        assert(f.queue.skip(1).skip(k) =~= f.queue.skip(k + 1));
    }
}

/// A packet that has waited for less than the target, or behind which hardly anything waits,
/// is sent as it is, and the flow is not in the dropping state afterwards.
pub proof fn law_flow_leaves_a_short_queue_alone<P: RawPacket>(
    f: FlowState<P>,
    config: FqCoDelQueueConfig,
    now: Instant,
    spacing: Spacing,
)
    requires
        f.valid(),
        f.queue.len() > 0,
        now - f.queue[0].packet.timestamp() < config.target || f.bytes - f.queue[0].packet.l3()
            <= config.mtu,
        config.target > 0,
    ensures
        ({
            let (after, out) = f.taken(config, now, spacing);
            &&& out == Some((f.queue[0].packet, false))
            &&& after.queue == f.queue.skip(1)
            &&& after.count == f.count
            &&& !after.dropping
            &&& after.first_above_time is None
        }),
{
    lemma_popped_valid(f);
    assert(f.queue.drop_first() =~= f.queue.skip(1));
}

/// The delay has to stay above the target for an interval before a flow acts: until then the
/// head is sent as it is, and the interval begins when the delay is first seen above.
pub proof fn law_flow_waits_for_an_interval<P: RawPacket>(
    f: FlowState<P>,
    config: FqCoDelQueueConfig,
    now: Instant,
    spacing: Spacing,
)
    requires
        f.valid(),
        f.queue.len() > 0,
        f.first_above_time is Some ==> now < f.first_above_time->0,
        reachable(now, config.interval),
    ensures
        ({
            let (after, out) = f.taken(config, now, spacing);
            &&& out == Some((f.queue[0].packet, false))
            &&& after.queue == f.queue.skip(1)
            &&& after.count == f.count
            &&& f.first_above_time is None && now - f.queue[0].packet.timestamp() >= config.target
                && now >= f.queue[0].packet.timestamp() && f.bytes - f.queue[0].packet.l3()
                > config.mtu ==> after.first_above_time is Some && after.first_above_time->0
                == now + config.interval
            &&& f.first_above_time is Some && now - f.queue[0].packet.timestamp()
                >= config.target && now >= f.queue[0].packet.timestamp() && f.bytes
                - f.queue[0].packet.l3() > config.mtu ==> after.first_above_time
                == f.first_above_time
        }),
{
    lemma_popped_valid(f);
    assert(f.queue.drop_first() =~= f.queue.skip(1));
}

/// Where marks are to be used, a packet that is capable of ECN is never dropped: it is the
/// one that is sent when it is at the head.
pub proof fn law_flow_spares_capable_packets<P: RawPacket>(
    f: FlowState<P>,
    config: FqCoDelQueueConfig,
    now: Instant,
    spacing: Spacing,
)
    requires
        f.valid(),
        f.countable(),
        f.queue.len() > 0,
        config.use_ecn,
        f.queue[0].ect != 0,
    ensures
        ({
            let (after, out) = f.taken(config, now, spacing);
            &&& out is Some && (out->0).0 == f.queue[0].packet
            &&& after.queue == f.queue.skip(1)
            &&& (out->0).1 ==> after.count >= 1 && after.dropping
        }),
{
    assert(f.queue.drop_first() =~= f.queue.skip(1));
    let head = f.queue[0];
    let seen = f.popped().judged(head.packet, config, now);
    if f.dropping && f.popped().droppable(head.packet, config, now) {
        lemma_drained_in_order(seen, head, config, now, spacing);
    }
}

/// A flow drops or marks only once the head has waited for the target or longer, more than a
/// largest packet waits behind it, and an interval has passed since the delay was first seen
/// above. Where it drops, the head is not to be marked. In the dropping state it waits for
/// the time of the next drop besides.
pub proof fn law_flow_acts_only_on_a_standing_queue<P: RawPacket>(
    f: FlowState<P>,
    config: FqCoDelQueueConfig,
    now: Instant,
    spacing: Spacing,
)
    requires
        f.valid(),
        f.queue.len() > 0,
        config.target > 0,
    ensures
        ({
            let (after, out) = f.taken(config, now, spacing);
            let drops = out is None || after.queue.len() + 1 < f.queue.len();
            let marks = out is Some && (out->0).1;
            &&& drops || marks ==> {
                &&& now - f.queue[0].packet.timestamp() >= config.target
                &&& f.bytes - f.queue[0].packet.l3() > config.mtu
                &&& f.first_above_time is Some && now >= f.first_above_time->0
                &&& f.dropping ==> now >= f.drop_next
            }
            &&& drops ==> f.queue[0].ect == 0 || !config.use_ecn
            &&& marks && after.queue.len() + 1 == f.queue.len() ==> f.queue[0].ect != 0
                && config.use_ecn
        }),
{
    lemma_popped_valid(f);
    assert(f.queue.drop_first() =~= f.queue.skip(1));
    let head = f.queue[0];
    let seen = f.popped().judged(head.packet, config, now);
    if f.dropping && f.popped().droppable(head.packet, config, now) {
        lemma_drained_in_order(seen, head, config, now, spacing);
        lemma_head_stays_in_hand(seen, head, config, now, spacing);
    }
}

/// Where the packet in hand is marked, or no drop is due, it is the one to send.
proof fn lemma_head_stays_in_hand<P: RawPacket>(
    f: FlowState<P>,
    b: ControlBuffer<P>,
    config: FqCoDelQueueConfig,
    now: Instant,
    spacing: Spacing,
)
    ensures
        ({
            let (after, out) = f.drained(b, config, now, spacing);
            &&& !f.dropping || now < f.drop_next ==> after == f && out == Some((b.packet, false))
            &&& after.queue.len() == f.queue.len() && out is Some && (out->0).1
                ==> FlowState::<P>::spares(b, config)
            &&& FlowState::<P>::spares(b, config) ==> after.queue == f.queue && out is Some
        }),
{
    if f.dropping && now >= f.drop_next && !FlowState::<P>::spares(b, config) && f.queue.len()
        > 0 {
        let counted = FlowState { count: (f.count + 1) as u32, ..f };
        let next = f.queue[0];
        let seen = counted.popped().judged(next.packet, config, now);
        if counted.popped().droppable(next.packet, config, now) {
            let going = FlowState {
                drop_next: (seen.drop_next + spacing(config.interval, seen.count)) as i128,
                ..seen
            };
            lemma_drained_in_order(going, next, config, now, spacing);
        }
    }
}

/// On entering the dropping state the head is dropped or marked, and the next drop is due
/// after the spacing for the number of drops. That number starts over at one, unless the
/// flow has been in the dropping state within the last sixteen intervals.
pub proof fn law_flow_enters_the_dropping_state<P: RawPacket>(
    f: FlowState<P>,
    config: FqCoDelQueueConfig,
    now: Instant,
    spacing: Spacing,
)
    requires
        f.valid(),
        f.queue.len() > 1,
        !f.dropping,
        now - f.queue[0].packet.timestamp() >= config.target,
        now >= f.queue[0].packet.timestamp(),
        f.bytes - f.queue[0].packet.l3() > config.mtu,
        f.first_above_time is Some && now >= f.first_above_time->0,
        reachable(now, spacing(config.interval, f.taken(config, now, spacing).0.count)),
    ensures
        ({
            let (after, out) = f.taken(config, now, spacing);
            &&& after.dropping
            &&& after.count >= 1 && after.last_count == after.count
            &&& after.drop_next == now + spacing(config.interval, after.count)
            &&& now - f.drop_next >= 16 * config.interval && now >= f.drop_next ==> after.count
                == 1
            &&& now - f.drop_next < 16 * config.interval && 0 < config.interval && f.count
                - f.last_count > 1 ==> after.count == f.count - f.last_count
            &&& config.use_ecn && f.queue[0].ect != 0 ==> out == Some((f.queue[0].packet, true))
                && after.queue == f.queue.skip(1)
            &&& !config.use_ecn || f.queue[0].ect == 0 ==> out == Some((f.queue[1].packet, false))
                && after.queue == f.queue.skip(2)
        }),
{
    lemma_popped_valid(f);
    assert(f.queue.drop_first() =~= f.queue.skip(1));
    assert(f.queue.skip(1).drop_first() =~= f.queue.skip(2));
}

/// Shedding goes on from the head until the bytes asked for are gone, the batch is used up
/// or nothing is left, and stops there: without the last packet that is shed, the bytes
/// asked for would not be gone.
pub proof fn law_shedding_goes_on_until_enough_is_gone<P: RawPacket>(
    queue: Seq<ControlBuffer<P>>,
    max: int,
    threshold: int,
)
    requires
        max >= 0,
    ensures
        ({
            let n = shed_count(queue, max, threshold) as int;
            &&& 0 <= n <= queue.len()
            &&& n == max || n == queue.len() || sum_by(queue.take(n), frame_size()) >= threshold
            &&& n > 0 ==> sum_by(queue.take(n - 1), frame_size()) < threshold
        }),
    decreases queue.len(),
{
    if queue.len() > 0 && max > 0 && threshold > 0 {
        let rest = queue.drop_first();
        law_shedding_goes_on_until_enough_is_gone(
            rest,
            max - 1,
            threshold - queue[0].packet.l3(),
        );
        let n = shed_count(rest, max - 1, threshold - queue[0].packet.l3()) as int;
        assert(queue.take(n + 1).drop_first() =~= rest.take(n));
        if n > 0 {
            assert(queue.take(n).drop_first() =~= rest.take(n - 1));
        } else {
            assert(queue.take(0) =~= Seq::<ControlBuffer<P>>::empty());
        }
    } else {
        assert(queue.take(0) =~= Seq::<ControlBuffer<P>>::empty());
    }
}

/// Shedding takes packets from the head and nothing else, and counts them.
pub proof fn law_shedding_keeps_the_rest<P: RawPacket>(
    f: FlowState<P>,
    max: int,
    threshold: int,
)
    requires
        f.valid(),
        f.countable(),
        max >= 0,
    ensures
        ({
            let after = f.shed(max, threshold);
            let n = f.queue.len() - after.queue.len();
            &&& 0 <= n <= max
            &&& after.queue == f.queue.skip(n)
            &&& after.packets == after.queue.len()
            &&& after.count == f.count + n
            &&& after.dropping == f.dropping && after.drop_next == f.drop_next
            &&& after.first_above_time == f.first_above_time
        }),
{
    law_shedding_is_limited(f.queue, max, threshold);
}

/// A packet that comes to a flow goes to the end of its queue and counts with its length;
/// nothing else about the flow changes.
pub proof fn law_flow_takes_in_at_the_end<P: RawPacket>(f: FlowState<P>, b: ControlBuffer<P>)
    requires
        f.bytes + b.packet.l3() <= usize::MAX,
    ensures
        f.pushed(b).queue == f.queue.push(b),
        f.pushed(b).bytes == f.bytes + b.packet.l3(),
        f.pushed(b).count == f.count && f.pushed(b).dropping == f.dropping && f.pushed(
            b,
        ).first_above_time == f.first_above_time,
{
}

/// A packet that is to be marked is sent with congestion experienced, of the same length and
/// at the same time; every other packet is sent as it is.
pub proof fn law_mark_is_on_what_is_sent<P: RawPacket>(
    p: P,
    marked: bool,
    packet: Option<P>,
)
    requires
        sent_as(Some((p, marked)), packet),
    ensures
        packet is Some,
        !marked ==> packet == Some(p),
        marked && code_point(p.bytes()) != 0 ==> code_point(packet->0.bytes()) == 3,
        packet->0.l3() == p.l3(),
        packet->0.timestamp() == p.timestamp(),
        packet->0.bytes().len() == p.bytes().len(),
        packet->0.label() == p.label(),
{
    if marked && is_ip(p.bytes()) {
        law_marking_keeps_the_checksum(p.bytes());
    }
}

} // verus!
