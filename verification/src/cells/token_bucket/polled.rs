//! A token bucket cell that is driven by the wall clock: every packet goes through the queue,
//! and the tokens are counted when the queue is looked at.
use super::bucket::{generation_time, length_to_time, Timing};
use super::{lemma_filter_keeps, TokenAction, TokenBucketCellConfig};
use crate::cells::bandwidth::queue::{
    lemma_total_size_nonnegative, size_of, total_size, DropTailQueue, DropTailQueueConfig,
    LimitedModel, PacketQueue,
};
use crate::cells::bandwidth::BwType;
use crate::cells::{admission, admit_packet, Admission, CellState};
use crate::law::{computes, is_timing, tests_for};
use crate::packet::Packet;
use crate::time::{
    after, duration_since, elapsed, longer_of, longest, on_clock, Duration, Instant,
    LARGE_DURATION, MAX_DURATION,
};
use vstd::prelude::*;

verus! {

/// The size of a bucket without a limit, in bytes.
pub const UNLIMITED_BURST: u64 = 0x1fff_ffff_ffff_ffff;

/// A bucket, and the tokens in it counted in the time that they take.
#[derive(Debug, Clone, Copy, PartialEq, Eq, Structural)]
pub struct TokenBucket {
    /// In bytes.
    pub burst: u64,
    /// In bits per second.
    pub rate: u128,
    pub tokens: Duration,
}

impl TokenBucket {
    /// The time in which tokens for `size` bytes are generated.
    pub open spec fn price(self, size: int, timing: Timing) -> Duration {
        generation_time(timing, size as u64, self.rate)
    }

    /// The time in which the empty bucket fills up.
    pub open spec fn fill_up_time(self, timing: Timing) -> Duration {
        self.price(self.burst as int, timing)
    }

    /// With the tokens that are generated in `d`.
    pub open spec fn refilled(self, d: Duration, timing: Timing) -> Self {
        let full = self.fill_up_time(timing);
        TokenBucket {
            tokens: if full <= d + self.tokens {
                full
            } else {
                (d + self.tokens) as u128
            },
            ..self
        }
    }

    /// With the given parts of a configuration, and full.
    pub open spec fn reshaped(self, rate: Option<u128>, burst: Option<u64>, timing: Timing) -> Self {
        let b = TokenBucket {
            rate: match rate {
                Some(r) => r,
                None => self.rate,
            },
            burst: match burst {
                Some(b) => b,
                None => self.burst,
            },
            ..self
        };
        TokenBucket { tokens: b.fill_up_time(timing), ..b }
    }

    /// The time until there are tokens for `size` bytes.
    pub open spec fn shortfall(self, size: int, timing: Timing) -> Duration {
        let price = self.price(size, timing);
        if price <= self.tokens {
            0
        } else {
            (price - self.tokens) as u128
        }
    }

    /// An empty bucket.
    pub fn new(burst: u64, rate: u128) -> (b: Self)
        ensures
            b == (TokenBucket { burst, rate, tokens: 0 }),
    {
        TokenBucket { burst, rate, tokens: 0 }
    }

    fn refill<T: Fn(u64, u128) -> Duration>(&mut self, d: Duration, timing: &T)
        requires
            is_timing(*timing),
            old(self).tokens <= MAX_DURATION,
            d <= 3 * MAX_DURATION,
        ensures
            final(self).tokens <= MAX_DURATION,
            final(self).rate == old(self).rate,
            forall|g: Timing|
                #![trigger computes(*timing, g)]
                computes(*timing, g) ==> *final(self) == old(self).refilled(d, g),
    {
        let full: Duration = length_to_time(timing, self.burst, self.rate);
        let tokens: Duration = d + self.tokens;
        self.tokens = if full <= tokens {
            full
        } else {
            tokens
        };
    }

    fn reshape<T: Fn(u64, u128) -> Duration>(
        &mut self,
        rate: Option<u128>,
        burst: Option<u64>,
        timing: &T,
    )
        requires
            is_timing(*timing),
        ensures
            final(self).tokens <= MAX_DURATION,
            final(self).burst == match burst {
                Some(b) => b,
                None => old(self).burst,
            },
            forall|g: Timing|
                #![trigger computes(*timing, g)]
                computes(*timing, g) ==> *final(self) == old(self).reshaped(rate, burst, g),
    {
        match rate {
            Some(rate) => {
                self.rate = rate;
            },
            None => {},
        }
        match burst {
            Some(burst) => {
                self.burst = burst;
            },
            None => {},
        }
        self.tokens = length_to_time(timing, self.burst, self.rate);
    }
}

impl Default for TokenBucket {
    fn default() -> (b: Self)
        ensures
            b == (TokenBucket { burst: UNLIMITED_BURST, rate: u64::MAX as u128, tokens: 0 }),
    {
        TokenBucket { burst: UNLIMITED_BURST, rate: u64::MAX as u128, tokens: 0 }
    }
}

/// What the cell holds.
#[verifier::ext_equal]
pub struct PolledModel<P> {
    pub token: TokenBucket,
    pub peak: TokenBucket,
    /// When the cell wants to be woken up.
    pub next_available: Instant,
    /// When the tokens were counted last.
    pub last_check: Instant,
    /// The largest packet that may pass.
    pub max_size: u64,
    pub queue: LimitedModel<P>,
    pub state: CellState,
}

impl<P: Packet> PolledModel<P> {
    pub open spec fn valid(self) -> bool {
        &&& self.token.tokens <= MAX_DURATION
        &&& self.peak.tokens <= MAX_DURATION
        &&& on_clock(self.last_check)
        &&& self.queue.exact()
        &&& self.queue.bw_type == BwType::NetworkLayer
    }

    /// Every queued packet fits into both buckets.
    pub open spec fn queue_fits(self) -> bool {
        forall|i: int|
            0 <= i < self.queue.packets.len() ==> (#[trigger] self.queue.packets[i]).l3()
                <= self.max_size
    }

    /// The tokens are counted at `now`.
    pub open spec fn counted(self, now: Instant, timing: Timing) -> Self {
        let d = elapsed(now, self.last_check);
        PolledModel {
            token: self.token.refilled(d, timing),
            peak: self.peak.refilled(d, timing),
            last_check: now,
            ..self
        }
    }

    /// The time until there are tokens for `size` bytes in both buckets.
    pub open spec fn shortfall(self, size: int, timing: Timing) -> Duration {
        longer_of(self.token.shortfall(size, timing), self.peak.shortfall(size, timing))
    }

    pub open spec fn front_size(self) -> int {
        size_of(self.queue.packets[0], self.queue.extra())
    }

    /// The first packet of the queue has left.
    pub open spec fn paid(self, timing: Timing) -> Self {
        let size = self.front_size();
        PolledModel {
            token: TokenBucket {
                tokens: (self.token.tokens - self.token.price(size, timing)) as u128,
                ..self.token
            },
            peak: TokenBucket {
                tokens: (self.peak.tokens - self.peak.price(size, timing)) as u128,
                ..self.peak
            },
            queue: self.queue.popped(),
            ..self
        }
    }

    /// The queue is looked at, at `now`: its first packet leaves if there are tokens for it in
    /// both buckets.
    pub open spec fn polled(self, now: Instant, timing: Timing) -> (Self, Option<P>) {
        if self.queue.packets.len() == 0 {
            (PolledModel { next_available: (now + LARGE_DURATION) as i128, ..self }, None)
        } else {
            let seen = self.counted(now, timing);
            let size = self.front_size();
            if seen.shortfall(size, timing) == 0 {
                let rest = seen.paid(timing);
                (
                    PolledModel {
                        next_available: if rest.queue.packets.len() > 0 {
                            (now + rest.shortfall(rest.front_size(), timing)) as i128
                        } else {
                            (now + LARGE_DURATION) as i128
                        },
                        ..rest
                    },
                    Some(self.queue.packets[0]),
                )
            } else {
                (
                    PolledModel {
                        next_available: (now + seen.shortfall(size, timing)) as i128,
                        ..seen
                    },
                    None,
                )
            }
        }
    }

    /// The queue without the packets that are larger than `max_size`.
    pub open spec fn trimmed(self, max_size: u64) -> LimitedModel<P> {
        let packets = self.queue.packets.filter(|p: P| p.l3() <= max_size);
        LimitedModel {
            packets,
            bytes: total_size(packets, self.queue.extra()) as usize,
            ..self.queue
        }
    }

    /// `config` comes into force at `now`.
    pub open spec fn reconfigured(self, config: TokenBucketCellConfig, now: Instant, timing: Timing) -> Self {
        let token = self.token.reshaped(config.rate, config.burst, timing);
        let peak = self.peak.reshaped(config.peakrate, config.minburst, timing);
        let max_size = if token.burst <= peak.burst {
            token.burst
        } else {
            peak.burst
        };
        let limited = PolledModel {
            queue: match config.limit {
                Some(limit) => LimitedModel {
                    packet_limit: None,
                    byte_limit: Some(limit),
                    ..self.queue
                },
                None => self.queue,
            },
            ..self
        };
        let queue = if max_size < self.max_size {
            limited.trimmed(max_size)
        } else {
            limited.queue
        };
        PolledModel {
            token,
            peak,
            last_check: now,
            max_size,
            queue,
            next_available: if queue.packets.len() > 0 {
                now
            } else {
                (now + LARGE_DURATION) as i128
            },
            ..self
        }
    }

    /// What a packet does at `now`; `None` means that no packet will come any more. The queue
    /// is looked at if the packet is the first in it.
    pub open spec fn on_packet(self, packet: Option<P>, now: Instant, timing: Timing) -> (
        Self,
        TokenAction<P>,
    ) {
        match packet {
            None => (self, TokenAction::Return(None)),
            Some(p) => match admission(self.state, p) {
                Admission::Drop => (self, TokenAction::Return(None)),
                Admission::PassThrough(p) => (self, TokenAction::Return(Some(p))),
                Admission::Normal(p) => if size_of(p, self.queue.extra()) > self.max_size {
                    (self, TokenAction::Wait)
                } else {
                    let with = PolledModel { queue: DropTailQueue::enqueued(self.queue, p), ..self };
                    if self.queue.packets.len() == 0 {
                        let (next, out) = with.polled(now, timing);
                        (next, TokenAction::Return(out))
                    } else {
                        (with, TokenAction::Wait)
                    }
                },
            },
        }
    }
}

/// The sending side of the cell. `timing(bytes, rate)` is the time that a number of bytes
/// takes at a number of bits per second.
pub struct TokenBucketCellEgress<P, T> {
    max_size: u64,
    token_bucket: TokenBucket,
    peak_token_bucket: TokenBucket,
    packet_queue: DropTailQueue<P>,
    next_available: Instant,
    last_check: Instant,
    state: CellState,
    timing: T,
}

impl<P: Packet, T: Fn(u64, u128) -> Duration> TokenBucketCellEgress<P, T> {
    pub closed spec fn model(self) -> PolledModel<P> {
        PolledModel {
            token: self.token_bucket,
            peak: self.peak_token_bucket,
            next_available: self.next_available,
            last_check: self.last_check,
            max_size: self.max_size,
            queue: self.packet_queue@,
            state: self.state,
        }
    }

    pub closed spec fn timing(self) -> T {
        self.timing
    }

    /// The cell can be worked with.
    pub open spec fn wf(self) -> bool {
        self.model().valid() && is_timing(self.timing())
    }

    /// A cell with full buckets and an empty queue, at `now`. It drops what comes until its
    /// state is changed.
    pub fn new(config: TokenBucketCellConfig, now: Instant, timing: T) -> (e: Self)
        requires
            is_timing(timing),
            on_clock(now),
        ensures
            e.wf(),
            e.timing() == timing,
            e.model().queue_fits(),
            forall|g: Timing|
                #![trigger computes(timing, g)]
                computes(timing, g) ==> e.model() == ({
                    let unlimited = TokenBucket {
                        burst: UNLIMITED_BURST,
                        rate: u64::MAX as u128,
                        tokens: 0,
                    };
                    let token = unlimited.reshaped(config.rate, config.burst, g);
                    let peak = unlimited.reshaped(config.peakrate, config.minburst, g);
                    PolledModel {
                        token,
                        peak,
                        next_available: (now + LARGE_DURATION) as i128,
                        last_check: now,
                        max_size: if token.burst <= peak.burst {
                            token.burst
                        } else {
                            peak.burst
                        },
                        queue: LimitedModel {
                            packets: Seq::<P>::empty(),
                            packet_limit: None,
                            byte_limit: config.limit,
                            bw_type: BwType::NetworkLayer,
                            bytes: 0,
                        },
                        state: CellState::Drop,
                    }
                }),
    {
        let mut token_bucket = TokenBucket::default();
        token_bucket.reshape(config.rate, config.burst, &timing);
        let mut peak_token_bucket = TokenBucket::default();
        peak_token_bucket.reshape(config.peakrate, config.minburst, &timing);
        let max_size: u64 = if token_bucket.burst <= peak_token_bucket.burst {
            token_bucket.burst
        } else {
            peak_token_bucket.burst
        };
        TokenBucketCellEgress {
            max_size,
            token_bucket,
            peak_token_bucket,
            packet_queue: DropTailQueue::new(
                DropTailQueueConfig::new(None, config.limit, BwType::NetworkLayer),
            ),
            next_available: after(now, LARGE_DURATION),
            last_check: now,
            state: CellState::Drop,
            timing,
        }
    }

    /// `config` comes into force at `now`. The buckets are full. Packets in the queue that do
    /// not fit into both of them any more are dropped.
    pub fn set_config(&mut self, config: TokenBucketCellConfig, now: Instant)
        requires
            old(self).wf(),
            on_clock(now),
        ensures
            final(self).wf(),
            final(self).timing() == old(self).timing(),
            forall|g: Timing|
                #![trigger computes(old(self).timing(), g)]
                computes(old(self).timing(), g) ==> final(self).model()
                    == old(self).model().reconfigured(config, now, g),
            old(self).model().queue_fits() ==> final(self).model().queue_fits(),
    {
        let ghost before = self.model();
        self.last_check = now;
        self.token_bucket.reshape(config.rate, config.burst, &self.timing);
        self.peak_token_bucket.reshape(config.peakrate, config.minburst, &self.timing);
        let old_max_size: u64 = self.max_size;
        self.max_size = if self.token_bucket.burst <= self.peak_token_bucket.burst {
            self.token_bucket.burst
        } else {
            self.peak_token_bucket.burst
        };
        match config.limit {
            Some(limit) => {
                self.packet_queue.configure(
                    DropTailQueueConfig::new(None, Some(limit), BwType::NetworkLayer),
                );
            },
            None => {},
        }
        if self.max_size < old_max_size {
            let max_size: u64 = self.max_size;
            let small_enough = |packet: &P| -> (keep: bool)
                ensures
                    keep == (packet.l3() <= max_size),
                { packet.l3_length() as u64 <= max_size };
            proof {
                let g = |p: P| p.l3() <= max_size;
                assert(tests_for(small_enough, g));
                lemma_filter_keeps::<P>(self.packet_queue@.packets, g);
            }
            let ghost limited = self.model();
            self.packet_queue.retain(small_enough);
            assert(self.packet_queue@ == limited.trimmed(max_size));
        }
        if self.packet_queue.is_empty() {
            self.next_available = after(now, LARGE_DURATION);
        } else {
            self.next_available = now;
        }
        proof {
            assert forall|g: Timing|
                #![trigger computes(old(self).timing(), g)]
                computes(old(self).timing(), g) implies self.model() == before.reconfigured(
                config,
                now,
                g,
            ) by {
                let want = before.reconfigured(config, now, g);
                assert(self.model().token == want.token);
                assert(self.model().peak == want.peak);
                assert(self.model().max_size == want.max_size);
                assert(self.model().queue =~= want.queue);
                assert(self.model().next_available == want.next_available);
            }
        }
    }

    /// The time until there are tokens for `size` bytes in both buckets.
    fn shortfall(&self, size: usize) -> (d: Duration)
        requires
            is_timing(self.timing()),
        ensures
            d <= MAX_DURATION,
            forall|g: Timing|
                #![trigger computes(self.timing(), g)]
                computes(self.timing(), g) ==> d == self.model().shortfall(size as int, g),
    {
        let tokens: Duration = length_to_time(&self.timing, size as u64, self.token_bucket.rate);
        let ptokens: Duration = length_to_time(
            &self.timing,
            size as u64,
            self.peak_token_bucket.rate,
        );
        longest(
            tokens.saturating_sub(self.token_bucket.tokens),
            ptokens.saturating_sub(self.peak_token_bucket.tokens),
        )
    }

    /// Looks at the queue at `now`: its first packet leaves if there are tokens for it in both
    /// buckets.
    fn poll(&mut self, now: Instant) -> (out: Option<P>)
        requires
            old(self).wf(),
            on_clock(now),
        ensures
            final(self).wf(),
            final(self).timing() == old(self).timing(),
            forall|g: Timing|
                #![trigger computes(old(self).timing(), g)]
                computes(old(self).timing(), g) ==> (final(self).model(), out)
                    == old(self).model().polled(now, g),
            old(self).model().queue_fits() ==> final(self).model().queue_fits(),
    {
        let ghost before = self.model();
        proof {
            if before.queue.packets.len() > 0 {
                lemma_total_size_nonnegative(
                    before.queue.packets.drop_first(),
                    before.queue.extra(),
                );
            }
        }
        let size: usize = match self.packet_queue.get_front_size() {
            Some(size) => size,
            None => {
                self.next_available = after(now, LARGE_DURATION);
                return None;
            },
        };
        let passed: Duration = duration_since(now, self.last_check);
        self.token_bucket.refill(passed, &self.timing);
        self.peak_token_bucket.refill(passed, &self.timing);
        self.last_check = now;
        let consumed_tokens: Duration = length_to_time(
            &self.timing,
            size as u64,
            self.token_bucket.rate,
        );
        let consumed_ptokens: Duration = length_to_time(
            &self.timing,
            size as u64,
            self.peak_token_bucket.rate,
        );
        if self.token_bucket.tokens >= consumed_tokens && self.peak_token_bucket.tokens
            >= consumed_ptokens {
            let packet = self.packet_queue.dequeue_at(now);
            self.token_bucket.tokens = self.token_bucket.tokens - consumed_tokens;
            self.peak_token_bucket.tokens = self.peak_token_bucket.tokens - consumed_ptokens;
            proof {
                if self.packet_queue@.packets.len() > 0 {
                    lemma_total_size_nonnegative(
                        self.packet_queue@.packets.drop_first(),
                        self.packet_queue@.extra(),
                    );
                }
                assert(self.timing() == old(self).timing());
            }
            match self.packet_queue.get_front_size() {
                Some(next_size) => {
                    let wait: Duration = self.shortfall(next_size);
                    self.next_available = after(now, wait);
                },
                None => {
                    self.next_available = after(now, LARGE_DURATION);
                },
            }
            packet
        } else {
            let wait: Duration = longest(
                consumed_tokens.saturating_sub(self.token_bucket.tokens),
                consumed_ptokens.saturating_sub(self.peak_token_bucket.tokens),
            );
            self.next_available = after(now, wait);
            None
        }
    }

    /// A packet has come at `now`, or none will come any more.
    pub fn on_packet(&mut self, packet: Option<P>, now: Instant) -> (action: TokenAction<P>)
        requires
            old(self).wf(),
            on_clock(now),
            packet is Some ==> old(self).model().queue.bytes + packet->0.l3() <= usize::MAX,
        ensures
            final(self).wf(),
            final(self).timing() == old(self).timing(),
            forall|g: Timing|
                #![trigger computes(old(self).timing(), g)]
                computes(old(self).timing(), g) ==> (final(self).model(), action)
                    == old(self).model().on_packet(packet, now, g),
            old(self).model().queue_fits() ==> final(self).model().queue_fits(),
    {
        let packet = match packet {
            Some(packet) => packet,
            None => {
                return TokenAction::Return(None);
            },
        };
        match admit_packet(self.state, packet) {
            Admission::Drop => TokenAction::Return(None),
            Admission::PassThrough(packet) => TokenAction::Return(Some(packet)),
            Admission::Normal(packet) => {
                let packet_size: usize = self.packet_queue.get_packet_size(&packet);
                if packet_size as u64 > self.max_size {
                    return TokenAction::Wait;
                }
                let first: bool = self.packet_queue.is_empty();
                self.packet_queue.enqueue(packet);
                assert(self.timing() == old(self).timing());
                if first {
                    TokenAction::Return(self.poll(now))
                } else {
                    TokenAction::Wait
                }
            },
        }
    }

    /// The time at which the cell wanted to be woken up has come.
    pub fn on_timer(&mut self, now: Instant) -> (out: Option<P>)
        requires
            old(self).wf(),
            on_clock(now),
        ensures
            final(self).wf(),
            final(self).timing() == old(self).timing(),
            forall|g: Timing|
                #![trigger computes(old(self).timing(), g)]
                computes(old(self).timing(), g) ==> (final(self).model(), out)
                    == old(self).model().polled(now, g),
            old(self).model().queue_fits() ==> final(self).model().queue_fits(),
    {
        self.poll(now)
    }

    /// When the cell wants to be woken up.
    pub fn wake_time(&self) -> (t: Instant)
        ensures
            t == self.model().next_available,
    {
        self.next_available
    }

    pub fn reset(&mut self, start: Instant)
        requires
            old(self).wf(),
            on_clock(start),
        ensures
            final(self).wf(),
            final(self).timing() == old(self).timing(),
            final(self).model() == (PolledModel {
                next_available: start,
                last_check: start,
                ..old(self).model()
            }),
    {
        self.next_available = start;
        self.last_check = start;
    }

    pub fn change_state(&mut self, state: CellState)
        requires
            old(self).wf(),
        ensures
            final(self).wf(),
            final(self).timing() == old(self).timing(),
            final(self).model() == (PolledModel { state, ..old(self).model() }),
    {
        self.state = state;
    }
}

/// What happens to a cell, and when.
pub enum PolledEvent<P> {
    /// A packet comes.
    Packet(P, Instant),
    /// The timer rings.
    Timer(Instant),
}

impl<P: Packet> PolledModel<P> {
    /// What an event does, and the packet that it lets out, if any.
    pub open spec fn on_event(self, event: PolledEvent<P>, timing: Timing) -> (Self, Option<P>) {
        match event {
            PolledEvent::Packet(p, now) => match self.on_packet(Some(p), now, timing) {
                (after, TokenAction::Return(out)) => (after, out),
                (after, TokenAction::Wait) => (after, None),
            },
            PolledEvent::Timer(now) => self.polled(now, timing),
        }
    }

    /// What is left of the cell after events in turn, and the packets that it has returned.
    pub open spec fn run(self, events: Seq<PolledEvent<P>>, timing: Timing) -> (Self, Seq<P>)
        decreases events.len(),
    {
        if events.len() == 0 {
            (self, Seq::empty())
        } else {
            let (before, out) = self.run(events.drop_last(), timing);
            match before.on_event(events.last(), timing) {
                (after, Some(p)) => (after, out.push(p)),
                (after, None) => (after, out),
            }
        }
    }
}

/// In normal operation no packet that is larger than the smaller one of the two buckets ever
/// comes out, whatever happens to the cell; and a packet that is too large changes nothing.
pub proof fn law_no_large_packet_is_polled<P: Packet>(
    m: PolledModel<P>,
    events: Seq<PolledEvent<P>>,
    timing: Timing,
)
    requires
        m.state == CellState::Normal,
        m.queue.bw_type == BwType::NetworkLayer,
        m.queue_fits(),
    ensures
        m.run(events, timing).0.state == CellState::Normal,
        m.run(events, timing).0.queue.bw_type == BwType::NetworkLayer,
        m.run(events, timing).0.queue_fits(),
        m.run(events, timing).0.max_size == m.max_size,
        forall|k: int|
            0 <= k < m.run(events, timing).1.len() ==> (#[trigger] m.run(events, timing).1[k]).l3()
                <= m.max_size,
        forall|p: P, now: Instant|
            p.l3() > m.max_size ==> (#[trigger] m.run(events, timing).0.on_event(
                PolledEvent::Packet(p, now),
                timing,
            )) == (m.run(events, timing).0, None::<P>),
    decreases events.len(),
{
    if events.len() > 0 {
        law_no_large_packet_is_polled(m, events.drop_last(), timing);
    }
}

/// Time adds as many tokens as has passed, up to what fills the bucket.
pub proof fn law_polled_bucket_fills_up(b: TokenBucket, d: Duration, timing: Timing)
    requires
        b.rate > 0,
        b.tokens + d <= u128::MAX,
    ensures
        b.tokens + d <= timing(b.burst, b.rate) ==> b.refilled(d, timing).tokens == b.tokens + d,
        b.tokens + d >= timing(b.burst, b.rate) ==> b.refilled(d, timing).tokens == timing(
            b.burst,
            b.rate,
        ),
        b.refilled(d, timing).burst == b.burst && b.refilled(d, timing).rate == b.rate,
{
}

/// The first packet leaves exactly if both buckets hold tokens for its length once they are
/// counted, and then takes them out of both; the others stay in their order. Otherwise
/// nothing leaves and no tokens are taken.
pub proof fn law_polled_buckets_are_both_paid<P: Packet>(
    m: PolledModel<P>,
    now: Instant,
    timing: Timing,
)
    requires
        m.valid(),
        m.token.rate > 0,
        m.peak.rate > 0,
        m.queue.packets.len() > 0,
    ensures
        ({
            let seen = m.counted(now, timing);
            let first = m.queue.packets[0];
            let a = timing(first.l3() as u64, m.token.rate);
            let b = timing(first.l3() as u64, m.peak.rate);
            let (after, out) = m.polled(now, timing);
            &&& out is Some <==> a <= seen.token.tokens && b <= seen.peak.tokens
            &&& out is Some ==> out->0 == first && after.queue.packets == m.queue.packets.skip(1)
                && after.token.tokens == seen.token.tokens - a && after.peak.tokens
                == seen.peak.tokens - b
            &&& out is None ==> after.queue == m.queue && after.token == seen.token && after.peak
                == seen.peak
            &&& after.last_check == now && after.max_size == m.max_size && after.state == m.state
        }),
{
    assert(m.queue.packets.drop_first() =~= m.queue.packets.skip(1));
}

/// A cell that cannot send its first packet asks to be polled when it can: polled from then on
/// it sends, and before that it does not.
pub proof fn law_polled_cell_is_woken_when_it_can_send<P: Packet>(
    m: PolledModel<P>,
    now: Instant,
    t: Instant,
    timing: Timing,
)
    requires
        m.valid(),
        m.token.rate > 0,
        m.peak.rate > 0,
        m.queue.packets.len() > 0,
        m.polled(now, timing).1 is None,
        timing(m.queue.packets[0].l3() as u64, m.token.rate) <= timing(m.token.burst, m.token.rate),
        timing(m.queue.packets[0].l3() as u64, m.peak.rate) <= timing(m.peak.burst, m.peak.rate),
        timing(m.token.burst, m.token.rate) <= MAX_DURATION,
        timing(m.peak.burst, m.peak.rate) <= MAX_DURATION,
        now <= t,
        on_clock(now),
        on_clock(t),
    ensures
        m.polled(now, timing).0.polled(t, timing).1 is Some <==> t >= m.polled(
            now,
            timing,
        ).0.next_available,
        m.polled(now, timing).0.next_available > now,
{
}

/// A packet that comes goes to the end of the queue, if it fits; one that finds the queue
/// empty is looked at at once, and one that does not waits for its turn.
pub proof fn law_polled_packet_waits_for_its_turn<P: Packet>(
    m: PolledModel<P>,
    packet: P,
    now: Instant,
    timing: Timing,
)
    requires
        m.valid(),
        m.state == CellState::Normal,
        packet.l3() <= m.max_size,
        m.queue.packet_limit is None,
        m.queue.byte_limit is Some ==> m.queue.bytes + packet.l3() <= m.queue.byte_limit->0,
        m.queue.bytes + packet.l3() <= usize::MAX,
    ensures
        m.queue.packets.len() > 0 ==> {
            let (after, action) = m.on_packet(Some(packet), now, timing);
            &&& action == TokenAction::<P>::Wait
            &&& after.queue.packets == m.queue.packets.push(packet)
            &&& after.token == m.token && after.peak == m.peak
        },
        m.queue.packets.len() == 0 ==> {
            let (after, action) = m.on_packet(Some(packet), now, timing);
            &&& action is Return
            &&& action->Return_0 is Some ==> action->Return_0->0 == packet
                && after.queue.packets.len() == 0
            &&& action->Return_0 is None ==> after.queue.packets == seq![packet]
        },
{
    if m.queue.packets.len() == 0 {
        assert(m.queue.packets.push(packet) =~= seq![packet]);
    }
}

} // verus!
