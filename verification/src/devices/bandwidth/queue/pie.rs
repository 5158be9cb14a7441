//! PIE: a controller that drops or marks packets on arrival, with a probability that follows
//! the queueing delay.
use super::ecn::{
    code_point, is_ip, law_marking_keeps_the_checksum, markable, marked_as, ControlBuffer, CE,
    NOT_ECT,
};
use super::random::{
    later, long_word, next_u64, seeded, seeded_words, words_of, Words, QUEUE_SEED,
};
use crate::cells::bandwidth::BwType;
use crate::packet::{Packet, RawPacket};
use crate::sums::{lemma_sum_nonnegative, lemma_sum_push, sum_by};
use crate::time::{after, duration_since, elapsed, Duration, Instant, MILLISECOND};
use std::collections::VecDeque;
use vstd::prelude::*;

verus! {

/// The largest probability: certainty, for draws of 56 bits.
pub const MAX_PROB: u64 = 0x00ff_ffff_ffff_ffff;

/// Bytes that have to be queued before the drain rate is measured.
pub const QUEUE_THRESHOLD: u64 = 16384;

/// How long a burst is let through.
pub const BURST_TIME: Duration = 150_000_000;

/// Delays above this raise the probability faster.
pub const HIGH_DELAY: Duration = 250_000_000;

/// A gain factor, given in 1/16, in the units that the controller works in.
pub open spec fn scaled_gain(coeff: u8) -> u64 {
    ((coeff * (MAX_PROB / 15_625_000)) / 16) as u64
}

#[derive(Debug, Clone, Copy)]
pub struct PIEQueueConfig {
    pub packet_limit: Option<usize>,
    pub byte_limit: Option<usize>,
    pub mtu: u32,
    /// Target delay.
    pub target: Duration,
    /// Time between two updates of the probability.
    pub t_update: Duration,
    /// Gain factor for the distance from the target, scaled.
    pub alpha: u64,
    /// Gain factor for the change of the delay, scaled.
    pub beta: u64,
    /// Packets that are capable of ECN are marked in place of being dropped.
    pub use_ecn: bool,
    /// The drop probability is scaled with the size of the packet.
    pub bytemode: bool,
    /// The delay is computed from the drain rate; if not, it is what packets have waited.
    pub dq_rate_estimator: bool,
    pub bw_type: BwType,
}

impl PIEQueueConfig {
    /// `alpha` and `beta` are given in 1/16, from 0 to 32.
    pub fn new(
        packet_limit: Option<usize>,
        byte_limit: Option<usize>,
        mtu: u32,
        target: Duration,
        t_update: Duration,
        alpha: u8,
        beta: u8,
        use_ecn: bool,
        bytemode: bool,
        dq_rate_estimator: bool,
        bw_type: BwType,
    ) -> (c: Self)
        ensures
            c == (PIEQueueConfig {
                packet_limit,
                byte_limit,
                mtu,
                target,
                t_update,
                alpha: scaled_gain(alpha),
                beta: scaled_gain(beta),
                use_ecn,
                bytemode,
                dq_rate_estimator,
                bw_type,
            }),
    {
        PIEQueueConfig {
            packet_limit,
            byte_limit,
            mtu,
            target,
            t_update,
            alpha: Self::scale_alpha_beta(alpha),
            beta: Self::scale_alpha_beta(beta),
            use_ecn,
            bytemode,
            dq_rate_estimator,
            bw_type,
        }
    }

    /// A gain factor in the units of the controller.
    pub fn scale_alpha_beta(coeff: u8) -> (scaled: u64)
        ensures
            scaled == scaled_gain(coeff),
    {
        ((coeff as u64) * (MAX_PROB / 15_625_000)) / 16
    }
}

impl Default for PIEQueueConfig {
    fn default() -> (c: Self)
        ensures
            c == (PIEQueueConfig {
                packet_limit: None,
                byte_limit: None,
                mtu: 1500,
                target: 15_000_000,
                t_update: 15_000_000,
                alpha: scaled_gain(2),
                beta: scaled_gain(20),
                use_ecn: false,
                bytemode: false,
                dq_rate_estimator: false,
                bw_type: BwType::NetworkLayer,
            }),
    {
        PIEQueueConfig {
            packet_limit: None,
            byte_limit: None,
            mtu: 1500,
            target: 15 * MILLISECOND,
            t_update: 15 * MILLISECOND,
            alpha: Self::scale_alpha_beta(2),
            beta: Self::scale_alpha_beta(20),
            use_ecn: false,
            bytemode: false,
            dq_rate_estimator: false,
            bw_type: BwType::NetworkLayer,
        }
    }
}

/// By what the gains are divided: the lower the probability, the gentler the controller.
pub open spec fn gain_divisor(prob: u64) -> u64 {
    if prob < MAX_PROB / 1_000_000 {
        2048
    } else if prob < MAX_PROB / 100_000 {
        512
    } else if prob < MAX_PROB / 10_000 {
        128
    } else if prob < MAX_PROB / 1_000 {
        32
    } else if prob < MAX_PROB / 100 {
        8
    } else if prob < MAX_PROB / 10 {
        2
    } else {
        1
    }
}

/// By what the gains are divided.
fn divisor_of(prob: u64) -> (d: u64)
    ensures
        d == gain_divisor(prob),
        d > 0,
{
    let mut d: u64 = 1;
    if prob < MAX_PROB / 10 {
        d = 2;
        let mut power: u64 = 100;
        while power <= 1_000_000 && prob < MAX_PROB / power
            invariant
                prob < MAX_PROB / 10,
                power == 100 || power == 1_000 || power == 10_000 || power == 100_000 || power
                    == 1_000_000 || power == 10_000_000,
                power == 100 ==> d == 2,
                power == 1_000 ==> d == 8 && prob < MAX_PROB / 100,
                power == 10_000 ==> d == 32 && prob < MAX_PROB / 1_000,
                power == 100_000 ==> d == 128 && prob < MAX_PROB / 10_000,
                power == 1_000_000 ==> d == 512 && prob < MAX_PROB / 100_000,
                power == 10_000_000 ==> d == 2048 && prob < MAX_PROB / 1_000_000,
            decreases 10_000_000 - power,
        {
            d = d * 4;
            power = power * 10;
        }
    }
    d
}

/// `x / 64`, rounded down.
fn floor_64(x: i64) -> (r: i64)
    requires
        x > i64::MIN,
    ensures
        r == (x as int) / 64,
{
    if x >= 0 {
        x / 64
    } else {
        let up: i64 = (-(x + 1)) / 64;
        -up - 1
    }
}

/// The last instant `last + k * period` that is not after `now`.
pub open spec fn caught_up(last: Instant, now: Instant, period: Duration) -> Instant
    decreases elapsed(now, last),
    when period > 0
{
    if elapsed(now, last) >= period {
        caught_up((last + period) as i128, now, period)
    } else {
        last
    }
}

/// The bytes that a queued packet counts for.
pub open spec fn frame_size<P: RawPacket>(extra: usize) -> spec_fn(ControlBuffer<P>) -> int {
    |b: ControlBuffer<P>| b.packet.l3() + extra
}

/// What a PIE queue holds and remembers.
#[verifier::ext_equal]
pub struct PIEModel<P> {
    pub queue: Seq<ControlBuffer<P>>,
    pub config: PIEQueueConfig,
    pub qdelay: Duration,
    /// `qdelay` at the update before the last.
    pub qdelay_old: Duration,
    /// What is left of the time that a burst is let through.
    pub burst_time: Duration,
    /// When the drain rate was last computed.
    pub dq_timestamp: Instant,
    /// The probability that the controller has arrived at.
    pub prob: u64,
    /// The probabilities added up since the last drop.
    pub accu_prob: u64,
    /// Bytes that have left in this measurement, if one is going on.
    pub dq_count: Option<u64>,
    /// The drain rate, in 1/256 bytes per 64 ns.
    pub avg_dq_rate: u32,
    /// The bytes in the queue at the last update.
    pub backlog_old: usize,
    pub packets_in_q: u32,
    pub bytes_in_q: usize,
    pub last_update_time: Instant,
}

impl<P: RawPacket> PIEModel<P> {
    pub open spec fn extra(self) -> usize {
        self.config.bw_type.extra()
    }

    /// The counters cover the queued packets, and the probability is one.
    pub open spec fn valid(self) -> bool {
        &&& self.packets_in_q == self.queue.len()
        &&& sum_by(self.queue, frame_size(self.extra())) <= self.bytes_in_q
        &&& self.prob <= MAX_PROB
    }

    /// The delay that an update goes by.
    pub open spec fn delay(self) -> Duration {
        if self.config.dq_rate_estimator {
            if self.avg_dq_rate > 0 {
                (((self.bytes_in_q * 256) / self.avg_dq_rate as int) * 64) as u128
            } else {
                0
            }
        } else {
            self.qdelay
        }
    }

    /// The delay that the update before went by.
    pub open spec fn delay_before(self) -> Duration {
        if self.config.dq_rate_estimator {
            self.qdelay
        } else {
            self.qdelay_old
        }
    }

    /// The move of the probability before it is bounded: with the distance of the delay from
    /// the target, and with the change of the delay.
    pub open spec fn raw_delta(self) -> int {
        (self.config.alpha / gain_divisor(self.prob)) * ((self.delay() - self.config.target) / 64)
            + (self.config.beta / gain_divisor(self.prob)) * ((self.delay() - self.delay_before())
            / 64)
    }

    /// The move of the probability: at most two percent up, unless the probability is low;
    /// two percent more if the delay is high.
    pub open spec fn delta(self) -> int {
        let bounded = if self.raw_delta() > MAX_PROB / 50 && self.prob >= MAX_PROB / 10 {
            (MAX_PROB / 100) * 2
        } else {
            self.raw_delta()
        };
        if self.delay() > HIGH_DELAY {
            bounded + MAX_PROB / 50
        } else {
            bounded
        }
    }

    /// The probability after an update. It falls off when there is no delay at two updates in
    /// a row, except when a backlog shows that the delay is only too small to be seen.
    pub open spec fn next_prob(self) -> u64 {
        let moved = self.prob + self.delta();
        if moved > MAX_PROB {
            MAX_PROB
        } else {
            let p = if moved < 0 {
                0
            } else {
                moved
            };
            if self.delay() == 0 && self.delay_before() == 0 && self.bytes_in_q == 0 {
                (p - p / 64) as u64
            } else {
                p as u64
            }
        }
    }

    /// The measurement starts over: the delay was low at two updates in a row, and nothing is
    /// dropped.
    pub open spec fn restarts(self) -> bool {
        &&& self.delay() < self.config.target / 2
        &&& self.delay_before() < self.config.target / 2
        &&& self.next_prob() == 0
        &&& !self.config.dq_rate_estimator || self.avg_dq_rate > 0
    }

    /// One update at `now`.
    pub open spec fn recalculated(self, now: Instant) -> Self {
        let m = PIEModel {
            prob: self.next_prob(),
            qdelay: self.delay(),
            qdelay_old: if self.config.dq_rate_estimator {
                self.qdelay
            } else {
                self.delay()
            },
            backlog_old: self.bytes_in_q,
            ..self
        };
        if self.restarts() {
            PIEModel {
                burst_time: BURST_TIME,
                dq_timestamp: now,
                accu_prob: 0,
                dq_count: None,
                avg_dq_rate: 0,
                ..m
            }
        } else {
            m
        }
    }

    /// The probability is brought up to date: one update, if a period has passed.
    pub open spec fn updated(self, now: Instant) -> Self {
        if elapsed(now, self.last_update_time) >= self.config.t_update {
            PIEModel {
                last_update_time: caught_up(self.last_update_time, now, self.config.t_update),
                ..self.recalculated(now)
            }
        } else {
            self
        }
    }

    /// An update stays within 64 bits.
    pub open spec fn delta_fits(self) -> bool {
        let d = self.delay();
        let a = (self.config.alpha / gain_divisor(self.prob)) as int;
        let b = (self.config.beta / gain_divisor(self.prob)) as int;
        let x = (d - self.config.target) / 64;
        let y = (d - self.delay_before()) / 64;
        &&& d <= i64::MAX
        &&& self.config.target <= i64::MAX
        &&& self.delay_before() <= i64::MAX
        &&& a <= i64::MAX
        &&& b <= i64::MAX
        &&& i64::MIN <= a * x <= i64::MAX
        &&& i64::MIN <= b * y <= i64::MAX
        &&& i64::MIN <= self.raw_delta()
        &&& self.raw_delta() + MAX_PROB / 50 <= i64::MAX
    }

    /// The probability can be brought up to date at `now`.
    pub open spec fn in_time(self, now: Instant) -> bool {
        &&& self.config.t_update > 0
        &&& elapsed(now, self.last_update_time) >= self.config.t_update ==> self.delta_fits()
    }

    /// A limit would be exceeded with the packet.
    pub open spec fn over_limit(self, packet: P) -> bool {
        ||| self.config.packet_limit is Some && self.queue.len() >= self.config.packet_limit->0
        ||| self.config.byte_limit is Some && self.bytes_in_q + packet.l3() + self.extra()
            > self.config.byte_limit->0
    }

    /// Nothing is dropped: a burst is let through, or the delay and the probability are low,
    /// or hardly anything is queued.
    pub open spec fn lets_through(self) -> bool {
        ||| self.burst_time > 0
        ||| self.qdelay < self.config.target / 2 && self.prob < MAX_PROB / 5
        ||| self.bytes_in_q < 2 * self.config.mtu
    }

    /// The probability that a packet of `size` bytes is dropped with.
    pub open spec fn local_prob(self, size: u64) -> u64 {
        if self.config.bytemode && size < self.config.mtu {
            (size * (self.prob / self.config.mtu as u64)) as u64
        } else {
            self.prob
        }
    }

    /// The probabilities added up, with that of a packet of `size` bytes.
    pub open spec fn accumulated(self, size: u64) -> int {
        if self.local_prob(size) == 0 {
            0
        } else {
            self.accu_prob + self.local_prob(size)
        }
    }

    /// A draw decides on a packet of `size` bytes.
    pub open spec fn needs_draw(self, size: u64) -> bool {
        &&& !self.lets_through()
        &&& (MAX_PROB / 100) * 85 <= self.accumulated(size) < (MAX_PROB / 2) * 17
    }

    /// A packet of `size` bytes is to be dropped, where the draw came out as `rolled`. Too
    /// soon after the last drop none is, and none is let through for too long.
    pub open spec fn drops(self, size: u64, rolled: bool) -> bool {
        &&& !self.lets_through()
        &&& self.accumulated(size) >= (MAX_PROB / 2) * 17 || self.needs_draw(size) && rolled
    }

    /// A packet of `size` bytes has been judged.
    pub open spec fn judged(self, size: u64, rolled: bool) -> Self {
        if self.lets_through() {
            self
        } else if self.needs_draw(size) && rolled {
            PIEModel { accu_prob: 0, ..self }
        } else {
            PIEModel { accu_prob: self.accumulated(size) as u64, ..self }
        }
    }

    /// A packet that is to be dropped is marked in place of it.
    pub open spec fn spares(self, ect: u8) -> bool {
        self.config.use_ecn && ect != NOT_ECT && self.prob <= MAX_PROB / 10
    }

    /// `packet`, which came with ECN code point `ect`, is put into the queue at `now`.
    pub open spec fn joined(self, packet: P, ect: u8, now: Instant) -> Self {
        PIEModel {
            queue: self.queue.push(
                ControlBuffer {
                    ect,
                    packet: if self.config.dq_rate_estimator {
                        packet
                    } else {
                        packet.stamped(now)
                    },
                },
            ),
            bytes_in_q: (self.bytes_in_q + packet.l3() + self.extra()) as usize,
            packets_in_q: (self.packets_in_q + 1) as u32,
            ..self
        }
    }

    /// `after` is the queue once `packet` has come at `now`, where the draw came out as
    /// `rolled`.
    pub open spec fn enqueued_to(
        self,
        packet: P,
        rolled: bool,
        now: Instant,
        after: Self,
    ) -> bool {
        let m = self.updated(now);
        let size = packet.l3() as u64;
        let ect = code_point(packet.bytes());
        let j = m.judged(size, rolled);
        if m.over_limit(packet) {
            after == (PIEModel { accu_prob: 0, ..m })
        } else if !m.drops(size, rolled) {
            after == j.joined(packet, ect, now)
        } else if m.spares(ect) {
            exists|marked: P| #[trigger]
                marked_as(packet, marked) && after == j.joined(
                    marked,
                    if markable(packet.bytes()) {
                        CE
                    } else {
                        ect
                    },
                    now,
                )
        } else {
            after == j
        }
    }

    /// A draw decides on `packet` when it comes at `now`.
    pub open spec fn arrival_needs_draw(self, packet: P, now: Instant) -> bool {
        let m = self.updated(now);
        !m.over_limit(packet) && m.needs_draw(packet.l3() as u64)
    }

    /// The counters fit the machine when the packet comes in.
    pub open spec fn room(self, packet: P) -> bool {
        &&& self.bytes_in_q + packet.l3() + self.extra() <= usize::MAX
        &&& self.packets_in_q < u32::MAX
        &&& self.accu_prob + MAX_PROB <= u64::MAX
    }

    /// What is left of the burst allowance after `dtime`.
    pub open spec fn burst_left(self, dtime: Duration) -> Duration {
        if self.burst_time > dtime {
            (self.burst_time - dtime) as u128
        } else {
            0
        }
    }

    /// The head packet is taken out.
    pub open spec fn popped(self) -> Self {
        PIEModel {
            queue: self.queue.drop_first(),
            packets_in_q: (self.packets_in_q - 1) as u32,
            bytes_in_q: (self.bytes_in_q - self.queue[0].packet.l3() - self.extra()) as usize,
            ..self
        }
    }

    /// A measurement is going on, or begins at `now` because enough is queued.
    pub open spec fn measuring(self, now: Instant) -> Self {
        if self.bytes_in_q >= QUEUE_THRESHOLD && self.dq_count is None {
            PIEModel { dq_timestamp: now, dq_count: Some(0), ..self }
        } else {
            self
        }
    }

    /// `size` more bytes have left in this measurement.
    pub open spec fn counted(self, size: usize) -> Self {
        PIEModel { dq_count: Some((self.dq_count->0 + size) as u64), ..self }
    }

    /// The drain rate of a measurement over `dtime`.
    pub open spec fn measured_rate(self, dtime: Duration) -> int {
        (self.dq_count->0 * 256) / (dtime as int / 64)
    }

    /// A measurement over `dtime` ends at `now`.
    pub open spec fn measured(self, dtime: Duration, now: Instant) -> Self {
        let rate = self.measured_rate(dtime);
        let m = PIEModel {
            avg_dq_rate: if self.avg_dq_rate == 0 {
                rate as u32
            } else {
                (self.avg_dq_rate - self.avg_dq_rate / 8 + rate / 8) as u32
            },
            burst_time: self.burst_left(dtime),
            ..self
        };
        if self.bytes_in_q < QUEUE_THRESHOLD {
            PIEModel { dq_count: None, ..m }
        } else {
            PIEModel { dq_count: Some(0), dq_timestamp: now, ..m }
        }
    }

    /// The queue once `b` has been taken out of it at `now`, and what that tells of the delay
    /// or of the drain rate has been noted.
    pub open spec fn noted(self, b: ControlBuffer<P>, now: Instant) -> Self {
        if !self.config.dq_rate_estimator {
            let dtime = elapsed(now, self.dq_timestamp);
            PIEModel {
                qdelay: if self.bytes_in_q == 0 {
                    0
                } else {
                    elapsed(now, b.packet.timestamp())
                },
                dq_timestamp: now,
                burst_time: self.burst_left(dtime),
                ..self
            }
        } else {
            let m = self.measuring(now);
            if m.dq_count is None {
                m
            } else {
                let c = m.counted(b.packet.l3());
                let dtime = elapsed(now, c.dq_timestamp);
                if c.dq_count->0 >= QUEUE_THRESHOLD && dtime > 0 {
                    c.measured(dtime, now)
                } else {
                    c
                }
            }
        }
    }

    /// What asking for a packet at `now` does and returns.
    pub open spec fn taken(self, now: Instant) -> (Self, Option<P>) {
        if self.queue.len() == 0 {
            (self, None)
        } else {
            (self.popped().noted(self.queue[0], now), Some(self.queue[0].packet))
        }
    }

    /// A measurement that ends at `now` took at least 64 ns, and its numbers fit the machine.
    pub open spec fn measurable(self, now: Instant) -> bool {
        self.config.dq_rate_estimator && self.queue.len() > 0 ==> {
            let m = self.popped().measuring(now);
            let c = m.counted(self.queue[0].packet.l3());
            let dtime = elapsed(now, c.dq_timestamp);
            m.dq_count is Some ==> {
                &&& m.dq_count->0 + self.queue[0].packet.l3() <= u64::MAX / 256
                &&& c.dq_count->0 >= QUEUE_THRESHOLD && dtime > 0 ==> dtime >= 64
                    && c.measured_rate(dtime) <= u32::MAX
            }
        }
    }
}

/// A queue that drops on arrival, by the PIE controller.
pub struct PIEQueue<P> {
    queue: VecDeque<ControlBuffer<P>>,
    config: PIEQueueConfig,
    qdelay: Duration,
    qdelay_old: Duration,
    burst_time: Duration,
    dq_timestamp: Instant,
    prob: u64,
    accu_prob: u64,
    dq_count: Option<u64>,
    avg_dq_rate: u32,
    backlog_old: usize,
    packets_in_q: u32,
    bytes_in_q: usize,
    last_update_time: Instant,
    rng: rand::rngs::StdRng,
}

impl<P> View for PIEQueue<P> {
    type V = PIEModel<P>;

    closed spec fn view(&self) -> PIEModel<P> {
        PIEModel {
            queue: self.queue@,
            config: self.config,
            qdelay: self.qdelay,
            qdelay_old: self.qdelay_old,
            burst_time: self.burst_time,
            dq_timestamp: self.dq_timestamp,
            prob: self.prob,
            accu_prob: self.accu_prob,
            dq_count: self.dq_count,
            avg_dq_rate: self.avg_dq_rate,
            backlog_old: self.backlog_old,
            packets_in_q: self.packets_in_q,
            bytes_in_q: self.bytes_in_q,
            last_update_time: self.last_update_time,
        }
    }
}

impl<P: RawPacket> PIEQueue<P> {
    /// What will be drawn.
    pub closed spec fn words(self) -> Words {
        words_of(self.rng)
    }

    /// An empty queue, made at `now`.
    pub fn new(config: PIEQueueConfig, now: Instant) -> (q: Self)
        ensures
            q@ == (PIEModel {
                queue: Seq::<ControlBuffer<P>>::empty(),
                config,
                qdelay: 0,
                qdelay_old: 0,
                burst_time: BURST_TIME,
                dq_timestamp: now,
                prob: 0,
                accu_prob: 0,
                dq_count: None,
                avg_dq_rate: 0,
                backlog_old: 0,
                packets_in_q: 0,
                bytes_in_q: 0,
                last_update_time: now,
            }),
            q@.valid(),
            q.words() == seeded_words(QUEUE_SEED),
    {
        PIEQueue {
            queue: VecDeque::new(),
            config,
            qdelay: 0,
            qdelay_old: 0,
            burst_time: BURST_TIME,
            dq_timestamp: now,
            prob: 0,
            accu_prob: 0,
            dq_count: None,
            avg_dq_rate: 0,
            backlog_old: 0,
            packets_in_q: 0,
            bytes_in_q: 0,
            last_update_time: now,
            rng: seeded(QUEUE_SEED),
        }
    }

    pub fn configure(&mut self, config: PIEQueueConfig)
        ensures
            final(self).words() == old(self).words(),
            final(self)@ == (PIEModel { config, ..old(self)@ }),
            old(self)@.valid() && config.bw_type == old(self)@.config.bw_type ==> final(
                self
            )@.valid(),
    {
        self.config = config;
    }

    /// The probability after an update at `now`.
    fn calculate_prob(&mut self, now: Instant) -> (prob: u64)
        requires
            old(self)@.valid(),
            old(self)@.delta_fits(),
        ensures
            final(self).words() == old(self).words(),
            prob == old(self)@.next_prob(),
            final(self)@ == (PIEModel { prob: old(self)@.prob, ..old(self)@.recalculated(now) }),
    {
        let ghost m = self@;
        let qdelay: Duration = if self.config.dq_rate_estimator {
            if self.avg_dq_rate > 0 {
                (((self.bytes_in_q as u128) * 256) / (self.avg_dq_rate as u128)) * 64
            } else {
                0
            }
        } else {
            self.qdelay
        };
        let qdelay_old: Duration = if self.config.dq_rate_estimator {
            self.qdelay
        } else {
            self.qdelay_old
        };
        assert(qdelay == m.delay());
        assert(qdelay_old == m.delay_before());
        let mut update_prob: bool = qdelay != 0 || self.bytes_in_q == 0;
        let divisor: u64 = divisor_of(self.prob);
        let alpha: u64 = self.config.alpha / divisor;
        let beta: u64 = self.config.beta / divisor;
        let off_target: i64 = floor_64((qdelay as i64) - (self.config.target as i64));
        let change: i64 = floor_64((qdelay as i64) - (qdelay_old as i64));
        let mut delta: i64 = (alpha as i64) * off_target + (beta as i64) * change;
        assert(delta == m.raw_delta());
        if delta > (MAX_PROB / 50) as i64 && self.prob >= MAX_PROB / 10 {
            delta = ((MAX_PROB / 100) * 2) as i64;
        }
        if qdelay > HIGH_DELAY {
            delta = delta + (MAX_PROB / 50) as i64;
        }
        assert(delta == m.delta());
        let moved: i128 = (self.prob as i128) + (delta as i128);
        let mut prob: u64 = if moved > MAX_PROB as i128 {
            update_prob = false;
            MAX_PROB
        } else if moved < 0 {
            0
        } else {
            moved as u64
        };
        if qdelay == 0 && qdelay_old == 0 && update_prob {
            prob = prob - prob / 64;
        }
        assert(prob == m.next_prob());
        self.qdelay = qdelay;
        self.backlog_old = self.bytes_in_q;
        if qdelay < self.config.target / 2 && qdelay_old < self.config.target / 2 && prob == 0 && (
        !self.config.dq_rate_estimator || self.avg_dq_rate > 0) {
            self.burst_time = BURST_TIME;
            self.dq_timestamp = now;
            self.accu_prob = 0;
            self.dq_count = None;
            self.avg_dq_rate = 0;
        }
        self.qdelay_old = if self.config.dq_rate_estimator {
            qdelay_old
        } else {
            qdelay
        };
        prob
    }

    /// Brings the probability up to date.
    fn update_prob(&mut self, now: Instant)
        requires
            old(self)@.valid(),
            old(self)@.in_time(now),
        ensures
            final(self).words() == old(self).words(),
            final(self)@.valid(),
            final(self)@ == old(self)@.updated(now),
            final(self)@.updated(now) == final(self)@,
            final(self)@.in_time(now),
            final(self)@.config == old(self)@.config,
            final(self)@.queue == old(self)@.queue,
            final(self)@.bytes_in_q == old(self)@.bytes_in_q,
            final(self)@.packets_in_q == old(self)@.packets_in_q,
            final(self)@.accu_prob <= old(self)@.accu_prob,
    {
        if duration_since(now, self.last_update_time) >= self.config.t_update {
            self.prob = self.calculate_prob(now);
            let ghost m = self@;
            while duration_since(now, self.last_update_time) >= self.config.t_update
                invariant
                    self.words() == old(self).words(),
                    self@.config.t_update > 0,
                    self@ == (PIEModel { last_update_time: self@.last_update_time, ..m }),
                    caught_up(self@.last_update_time, now, self@.config.t_update) == caught_up(
                        m.last_update_time,
                        now,
                        m.config.t_update,
                    ),
                decreases elapsed(now, self@.last_update_time),
            {
                self.last_update_time = after(self.last_update_time, self.config.t_update);
            }
        }
    }

    /// Whether a limit would be exceeded with `packet`.
    fn is_over_limit(&self, packet: &P) -> (over: bool)
        requires
            self@.bytes_in_q + packet.l3() + self@.extra() <= usize::MAX,
        ensures
            over == self@.over_limit(*packet),
    {
        let too_many: bool = match self.config.packet_limit {
            Some(limit) => self.queue.len() >= limit,
            None => false,
        };
        let too_much: bool = match self.config.byte_limit {
            Some(limit) => self.bytes_in_q + packet.l3_length() + self.config.bw_type.extra_length()
                > limit,
            None => false,
        };
        too_many || too_much
    }

    /// Whether nothing is dropped.
    fn is_letting_through(&self) -> (r: bool)
        ensures
            r == self@.lets_through(),
    {
        self.burst_time > 0 || (self.qdelay < self.config.target / 2 && self.prob < MAX_PROB / 5)
            || (self.bytes_in_q as u128) < 2 * (self.config.mtu as u128)
    }

    /// The probability that a packet of `size` bytes is dropped with, and what the
    /// probabilities add up to with it.
    fn accumulate(&self, size: u64) -> (r: (u64, u64))
        requires
            self@.valid(),
            self@.accu_prob + MAX_PROB <= u64::MAX,
        ensures
            r.0 == self@.local_prob(size),
            r.1 == self@.accumulated(size),
            r.0 <= MAX_PROB,
    {
        let local_prob: u64 = if self.config.bytemode && size < self.config.mtu as u64 {
            let share: u64 = self.prob / (self.config.mtu as u64);
            assert(size * share <= self.prob) by (nonlinear_arith)
                requires
                    size < self.config.mtu,
                    share == self.prob / (self.config.mtu as u64),
                    self.config.mtu > 0,
            ;
            size * share
        } else {
            self.prob
        };
        if local_prob == 0 {
            (0, 0)
        } else {
            (local_prob, self.accu_prob + local_prob)
        }
    }

    /// Judges a packet of `size` bytes by a draw that came out as `rolled`. Tells whether the
    /// packet is to be dropped.
    pub fn drop_early(&mut self, size: u64, rolled: bool) -> (drop: bool)
        requires
            old(self)@.valid(),
            old(self)@.accu_prob + MAX_PROB <= u64::MAX,
        ensures
            final(self).words() == old(self).words(),
            drop == old(self)@.drops(size, rolled),
            final(self)@ == old(self)@.judged(size, rolled),
    {
        if self.is_letting_through() {
            return false;
        }
        let (_, accu) = self.accumulate(size);
        self.accu_prob = accu;
        if accu < (MAX_PROB / 100) * 85 {
            return false;
        }
        if accu >= (MAX_PROB / 2) * 17 {
            return true;
        }
        if rolled {
            self.accu_prob = 0;
            return true;
        }
        false
    }

    /// Brings the probability up to date. If a draw decides on `packet`, returns the
    /// probability that it goes by.
    pub fn arrival_prob(&mut self, packet: &P, now: Instant) -> (prob: Option<u64>)
        requires
            old(self)@.valid(),
            old(self)@.in_time(now),
            old(self)@.room(*packet),
        ensures
            final(self).words() == old(self).words(),
            final(self)@.valid(),
            final(self)@ == old(self)@.updated(now),
            final(self)@.updated(now) == final(self)@,
            final(self)@.in_time(now),
            final(self)@.room(*packet),
            prob is Some <==> old(self)@.arrival_needs_draw(*packet, now),
            prob is Some ==> prob->0 == final(self)@.local_prob(packet.l3() as u64),
    {
        self.update_prob(now);
        if self.is_over_limit(packet) || self.is_letting_through() {
            return None;
        }
        let (local_prob, accu) = self.accumulate(packet.l3_length() as u64);
        if accu < (MAX_PROB / 100) * 85 || accu >= (MAX_PROB / 2) * 17 {
            return None;
        }
        Some(local_prob)
    }

    /// Takes a packet in at `now`, where the draw came out as `rolled`.
    pub fn enqueue_rolled(&mut self, packet: P, rolled: bool, now: Instant)
        requires
            old(self)@.valid(),
            old(self)@.in_time(now),
            old(self)@.room(packet),
        ensures
            final(self).words() == old(self).words(),
            final(self)@.valid(),
            old(self)@.enqueued_to(packet, rolled, now, final(self)@),
    {
        self.update_prob(now);
        let ghost m = self@;
        if self.is_over_limit(&packet) {
            self.accu_prob = 0;
            return;
        }
        let size: usize = packet.l3_length();
        let mut b = ControlBuffer::new(packet);
        if self.drop_early(size as u64, rolled) {
            if self.config.use_ecn && b.ect != NOT_ECT && self.prob <= MAX_PROB / 10 {
                b.set_ce();
            } else {
                return;
            }
        }
        let ghost judged = self@;
        let ghost marked = b.packet;
        let ghost ect = b.ect;
        if !self.config.dq_rate_estimator {
            b.packet.delay_until(now);
        }
        proof {
            lemma_sum_push(judged.queue, b, frame_size(judged.extra()));
        }
        self.bytes_in_q = self.bytes_in_q + (size + self.config.bw_type.extra_length());
        self.packets_in_q = self.packets_in_q + 1;
        self.queue.push_back(b);
        assert(self@ =~= judged.joined(marked, ect, now));
    }

    /// Takes a packet in at `now`; a draw may decide on it.
    pub fn enqueue(&mut self, packet: P, now: Instant)
        requires
            old(self)@.valid(),
            old(self)@.in_time(now),
            old(self)@.room(packet),
        ensures
            final(self)@.valid(),
            ({
                let drawn = old(self)@.arrival_needs_draw(packet, now);
                let prob = old(self)@.updated(now).local_prob(packet.l3() as u64);
                let rolled = drawn && long_word(old(self).words()) / 256 < prob;
                &&& old(self)@.enqueued_to(packet, rolled, now, final(self)@)
                &&& final(self).words() == later(
                    old(self).words(),
                    if drawn {
                        2
                    } else {
                        0
                    },
                )
            }),
    {
        let rolled: bool = match self.arrival_prob(&packet, now) {
            Some(prob) => next_u64(&mut self.rng) / 256 < prob,
            None => false,
        };
        let ghost m = self@;
        self.enqueue_rolled(packet, rolled, now);
        assert(m.enqueued_to(packet, rolled, now, self@));
        assert(old(self)@.enqueued_to(packet, rolled, now, self@));
    }

    /// Takes `dtime` off the burst allowance.
    fn reduce_burst(&mut self, dtime: Duration)
        ensures
            final(self).words() == old(self).words(),
            final(self)@ == (PIEModel { burst_time: old(self)@.burst_left(dtime), ..old(self)@ }),
    {
        if self.burst_time > dtime {
            self.burst_time = self.burst_time - dtime;
        } else {
            self.burst_time = 0;
        }
    }

    /// Notes what the departure of `b` at `now` tells of the delay or of the drain rate.
    fn note(&mut self, b: &ControlBuffer<P>, now: Instant)
        requires
            old(self)@.config.dq_rate_estimator ==> {
                let m = old(self)@.measuring(now);
                let c = m.counted(b.packet.l3());
                let dtime = elapsed(now, c.dq_timestamp);
                m.dq_count is Some ==> {
                    &&& m.dq_count->0 + b.packet.l3() <= u64::MAX / 256
                    &&& c.dq_count->0 >= QUEUE_THRESHOLD && dtime > 0 ==> dtime >= 64
                        && c.measured_rate(dtime) <= u32::MAX
                }
            },
        ensures
            final(self).words() == old(self).words(),
            final(self)@ == old(self)@.noted(*b, now),
    {
        if !self.config.dq_rate_estimator {
            self.qdelay = duration_since(now, b.packet.get_timestamp());
            let dtime: Duration = duration_since(now, self.dq_timestamp);
            self.dq_timestamp = now;
            if self.bytes_in_q == 0 {
                self.qdelay = 0;
            }
            self.reduce_burst(dtime);
            return;
        }
        if self.bytes_in_q as u64 >= QUEUE_THRESHOLD && self.dq_count.is_none() {
            self.dq_timestamp = now;
            self.dq_count = Some(0);
        }
        if let Some(before) = self.dq_count {
            let dq_count: u64 = before + b.packet.l3_length() as u64;
            self.dq_count = Some(dq_count);
            let ghost c = self@;
            if dq_count >= QUEUE_THRESHOLD {
                let dtime: Duration = duration_since(now, self.dq_timestamp);
                if dtime == 0 {
                    return;
                }
                let rate: u128 = ((dq_count * 256) as u128) / (dtime / 64);
                assert(rate == c.measured_rate(dtime));
                if self.avg_dq_rate == 0 {
                    self.avg_dq_rate = rate as u32;
                } else {
                    self.avg_dq_rate = (self.avg_dq_rate - self.avg_dq_rate / 8) + (rate
                        / 8) as u32;
                }
                if (self.bytes_in_q as u64) < QUEUE_THRESHOLD {
                    self.dq_count = None;
                } else {
                    self.dq_count = Some(0);
                    self.dq_timestamp = now;
                }
                self.reduce_burst(dtime);
            }
        }
    }

    /// Takes a packet out at `now`. If the queue is empty, returns `None`.
    pub fn dequeue(&mut self, now: Instant) -> (packet: Option<P>)
        requires
            old(self)@.valid(),
            old(self)@.measurable(now),
        ensures
            final(self).words() == old(self).words(),
            final(self)@.valid(),
            (final(self)@, packet) == old(self)@.taken(now),
    {
        let ghost before = self@;
        match self.queue.pop_front() {
            None => None,
            Some(b) => {
                proof {
                    lemma_sum_nonnegative(
                        before.queue.drop_first(),
                        frame_size(before.extra()),
                    );
                    assert(before.queue.drop_first() =~= before.queue.subrange(
                        1,
                        before.queue.len() as int,
                    ));
                }
                self.packets_in_q = self.packets_in_q - 1;
                self.bytes_in_q = self.bytes_in_q - (b.packet.l3_length()
                    + self.config.bw_type.extra_length());
                assert(self@ =~= before.popped());
                self.note(&b, now);
                Some(b.packet)
            },
        }
    }
}

/// While a burst is let through no packet is dropped, whatever the probability.
pub proof fn law_burst_is_let_through<P: RawPacket>(m: PIEModel<P>, size: u64, rolled: bool)
    requires
        m.burst_time > 0,
    ensures
        !m.drops(size, rolled),
        m.judged(size, rolled) == m,
{
}

/// No draw drops a packet as long as the probabilities since the last drop add up to less
/// than 85 percent; from eight and a half times certainty on, every packet is dropped.
pub proof fn law_drops_are_spread<P: RawPacket>(m: PIEModel<P>, size: u64, rolled: bool)
    requires
        !m.lets_through(),
    ensures
        m.accumulated(size) < (MAX_PROB / 100) * 85 ==> !m.drops(size, rolled),
        m.accumulated(size) >= (MAX_PROB / 2) * 17 ==> m.drops(size, rolled),
{
}

/// The probability stays one.
pub proof fn law_probability_is_bounded<P: RawPacket>(m: PIEModel<P>)
    ensures
        m.next_prob() <= MAX_PROB,
{
}

/// Without delay at two updates in a row and with nothing queued, the probability does not
/// grow.
pub proof fn law_idle_queue_recovers<P: RawPacket>(m: PIEModel<P>)
    requires
        m.prob <= MAX_PROB,
        m.delay() == 0,
        m.delay_before() == 0,
        m.bytes_in_q == 0,
    ensures
        m.next_prob() <= m.prob,
{
    let a = (m.config.alpha / gain_divisor(m.prob)) as int;
    let b = (m.config.beta / gain_divisor(m.prob)) as int;
    let x = (m.delay() - m.config.target) / 64;
    assert(a * x <= 0) by (nonlinear_arith)
        requires
            a >= 0,
            x <= 0,
    ;
    assert(b * (0int / 64) == 0) by (nonlinear_arith);
}

/// First in, first out: the packet that is handed out, followed by what is left, is what was
/// queued, and nothing is handed out only if nothing was. The bytes of that packet leave with
/// it. The probability stays as it is.
pub proof fn law_pie_device_is_first_in_first_out<P: RawPacket>(m: PIEModel<P>, now: Instant)
    requires
        m.valid(),
    ensures
        ({
            let (after, packet) = m.taken(now);
            &&& packet is None <==> m.queue.len() == 0
            &&& packet is Some ==> packet->0 == m.queue[0].packet && after.queue == m.queue.skip(1)
                && m.bytes_in_q == after.bytes_in_q + packet->0.l3() + m.config.bw_type.extra()
                && after.packets_in_q + 1 == m.packets_in_q
            &&& packet is None ==> after == m
            &&& after.prob == m.prob && after.accu_prob == m.accu_prob
            &&& after.config == m.config && after.last_update_time == m.last_update_time
        }),
{
    if m.queue.len() > 0 {
        lemma_sum_nonnegative(m.queue.drop_first(), frame_size(m.extra()));
        assert(m.queue.drop_first() =~= m.queue.skip(1));
    }
}

/// Where packets tell how long they have waited, the delay is that of the packet that leaves,
/// or none once the queue is empty, and the time that a burst is let through runs off with
/// the clock.
pub proof fn law_departure_tells_the_delay<P: RawPacket>(m: PIEModel<P>, now: Instant)
    requires
        m.valid(),
        m.queue.len() > 0,
        !m.config.dq_rate_estimator,
        m.queue[0].packet.timestamp() <= now,
        m.dq_timestamp <= now,
    ensures
        ({
            let after = m.taken(now).0;
            &&& after.qdelay == if after.bytes_in_q == 0 {
                0
            } else {
                now - m.queue[0].packet.timestamp()
            }
            &&& after.dq_timestamp == now
            &&& m.burst_time >= now - m.dq_timestamp ==> after.burst_time == m.burst_time - (now
                - m.dq_timestamp)
            &&& m.burst_time < now - m.dq_timestamp ==> after.burst_time == 0
        }),
{
}

/// Nothing is dropped while a burst is let through, while the delay is below half of its
/// target and the probability below a fifth, or while less than two largest packets are
/// queued.
pub proof fn law_pie_device_lets_through<P: RawPacket>(m: PIEModel<P>, size: u64, rolled: bool)
    requires
        m.burst_time > 0 || m.qdelay < m.config.target / 2 && m.prob < MAX_PROB / 5
            || m.bytes_in_q < 2 * m.config.mtu,
    ensures
        !m.drops(size, rolled),
        !m.needs_draw(size),
        m.judged(size, rolled) == m,
{
}

/// Otherwise the probabilities are added up from drop to drop. Below 85 percent no packet is
/// dropped, from eight and a half times certainty on every one is, and in between the draw
/// decides; a drop by draw starts over. The probability of a packet is that of the queue, or,
/// where sizes count, its share of it by its length.
pub proof fn law_pie_device_adds_up_to_a_drop<P: RawPacket>(m: PIEModel<P>, size: u64, rolled: bool)
    requires
        m.valid(),
        m.accu_prob + MAX_PROB <= u64::MAX,
        m.burst_time == 0,
        m.qdelay >= m.config.target / 2 || m.prob >= MAX_PROB / 5,
        m.bytes_in_q >= 2 * m.config.mtu,
        !m.config.bytemode || size >= m.config.mtu,
        m.prob > 0,
    ensures
        ({
            let sum = m.accu_prob + m.prob;
            &&& sum < MAX_PROB / 100 * 85 ==> !m.drops(size, rolled)
            &&& sum >= MAX_PROB / 2 * 17 ==> m.drops(size, rolled)
            &&& MAX_PROB / 100 * 85 <= sum < MAX_PROB / 2 * 17 ==> m.drops(size, rolled) == rolled
            &&& m.judged(size, rolled).accu_prob == if rolled && MAX_PROB / 100 * 85 <= sum
                < MAX_PROB / 2 * 17 {
                0
            } else {
                sum
            }
            &&& m.needs_draw(size) <==> MAX_PROB / 100 * 85 <= sum < MAX_PROB / 2 * 17
            &&& m.local_prob(size) == m.prob
        }),
{
}

/// Where sizes count, a packet shorter than the largest one is dropped with its share of the
/// probability, and a shorter one never with a higher probability than a longer one.
pub proof fn law_short_packets_are_dropped_less<P: RawPacket>(m: PIEModel<P>, a: u64, b: u64)
    requires
        m.valid(),
        m.config.bytemode,
        a <= b,
        b < m.config.mtu,
    ensures
        m.local_prob(a) <= m.local_prob(b) <= m.prob,
        m.local_prob(a) * m.config.mtu <= a * m.prob < (m.local_prob(a) + a + 1)
            * m.config.mtu,
{
    let mtu = m.config.mtu as int;
    let share = m.prob as int / mtu;
    let p = m.prob as int;
    let x = a as int;
    let y = b as int;
    assert(0 <= share && share * mtu <= p && p < (share + 1) * mtu) by (nonlinear_arith)
        requires
            share == p / mtu,
            mtu > 0,
            p >= 0,
    ;
    assert(x * share <= y * share && y * share <= p && 0 <= x * share) by (nonlinear_arith)
        requires
            0 <= x <= y < mtu,
            share >= 0,
            share * mtu <= p,
    ;
    assert((x * share) * mtu <= x * p && x * p < (x * share + x + 1) * mtu) by (nonlinear_arith)
        requires
            x >= 0,
            mtu > 0,
            share * mtu <= p,
            p < (share + 1) * mtu,
    ;
}

/// Bringing the probability up to date touches no packet.
proof fn lemma_update_keeps_queue<P: RawPacket>(m: PIEModel<P>, now: Instant)
    ensures
        m.updated(now).queue == m.queue,
        m.updated(now).bytes_in_q == m.bytes_in_q,
        m.updated(now).packets_in_q == m.packets_in_q,
        m.updated(now).config == m.config,
{
}

/// What comes while both limits still hold with it is taken in at the end of the queue unless
/// it is dropped early, and a packet that is capable of ECN is not, where marks are to be used
/// and the probability is at most a tenth: it carries congestion experienced instead. What
/// exceeds a limit is dropped. What waits is not touched.
pub proof fn law_pie_device_marks_what_it_can<P: RawPacket>(
    m: PIEModel<P>,
    packet: P,
    rolled: bool,
    now: Instant,
    after: PIEModel<P>,
)
    requires
        m.valid(),
        m.room(packet),
        m.enqueued_to(packet, rolled, now, after),
    ensures
        ({
            let u = m.updated(now);
            let fits = (m.config.packet_limit is Some ==> m.queue.len() + 1
                <= m.config.packet_limit->0) && (m.config.byte_limit is Some ==> m.bytes_in_q
                + packet.l3() + m.config.bw_type.extra() <= m.config.byte_limit->0);
            let hit = u.drops(packet.l3() as u64, rolled);
            let capable = m.config.use_ecn && code_point(packet.bytes()) != 0 && u.prob
                <= MAX_PROB / 10;
            &&& !fits || hit && !capable ==> after.queue == m.queue && after.bytes_in_q
                == m.bytes_in_q
            &&& fits && (!hit || capable) ==> {
                &&& after.queue.len() == m.queue.len() + 1
                &&& m.queue.is_prefix_of(after.queue)
                &&& after.bytes_in_q == m.bytes_in_q + packet.l3() + m.config.bw_type.extra()
            }
            &&& fits && !hit && !m.config.dq_rate_estimator ==> after.queue.last().packet
                == packet.stamped(now)
            &&& fits && hit && capable ==> exists|marked: P|
                {
                    &&& code_point(marked.bytes()) == 3
                    &&& marked.l3() == packet.l3()
                    &&& after.queue.last().packet == if m.config.dq_rate_estimator {
                        marked
                    } else {
                        #[trigger] marked.stamped(now)
                    }
                }
            &&& m.config.byte_limit is Some && m.bytes_in_q <= m.config.byte_limit->0
                ==> after.bytes_in_q <= m.config.byte_limit->0
            &&& m.config.packet_limit is Some && m.queue.len() <= m.config.packet_limit->0
                ==> after.queue.len() <= m.config.packet_limit->0
        }),
{
    lemma_update_keeps_queue(m, now);
    let u = m.updated(now);
    if is_ip(packet.bytes()) {
        law_marking_keeps_the_checksum(packet.bytes());
    }
    let size = packet.l3() as u64;
    if !u.over_limit(packet) && u.drops(size, rolled) && u.spares(code_point(packet.bytes())) {
        let j = u.judged(size, rolled);
        let ect = if markable(packet.bytes()) {
            CE
        } else {
            code_point(packet.bytes())
        };
        let marked = choose|marked: P| #[trigger]
            marked_as(packet, marked) && after == j.joined(marked, ect, now);
        assert(marked_as(packet, marked) && after == j.joined(marked, ect, now));
        let s = marked.stamped(now);
        assert(after.queue.last().packet == if m.config.dq_rate_estimator {
            marked
        } else {
            s
        });
    }
}

/// The controller is proportional and integral: the probability never falls while the delay
/// is over its target and not shrinking, nor rises while the delay is under it and not
/// growing. Above a tenth it rises by at most two percent at a time, and by two percent more
/// while the delay is over a quarter of a second.
pub proof fn law_pie_device_follows_the_delay<P: RawPacket>(m: PIEModel<P>)
    requires
        m.prob <= MAX_PROB,
    ensures
        m.delay() >= m.config.target && m.delay() >= m.delay_before() && m.delay() > 0
            ==> m.next_prob() >= m.prob,
        m.delay() <= m.config.target && m.delay() <= m.delay_before() && m.delay()
            <= 250_000_000 ==> m.next_prob() <= m.prob,
        m.prob >= MAX_PROB / 10 && m.delay() <= 250_000_000 ==> m.next_prob() <= m.prob + MAX_PROB
            / 50,
        m.prob >= MAX_PROB / 10 ==> m.next_prob() <= m.prob + 2 * (MAX_PROB / 50),
        m.delay() > 250_000_000 && m.delay() >= m.config.target && m.delay()
            >= m.delay_before() ==> m.next_prob() == MAX_PROB || m.next_prob() >= m.prob
            + MAX_PROB / 50,
{
    let a = (m.config.alpha / gain_divisor(m.prob)) as int;
    let b = (m.config.beta / gain_divisor(m.prob)) as int;
    let x = (m.delay() - m.config.target) / 64;
    let y = (m.delay() - m.delay_before()) / 64;
    assert(x >= 0 && y >= 0 ==> a * x + b * y >= 0) by (nonlinear_arith)
        requires
            a >= 0,
            b >= 0,
    ;
    assert(x <= 0 && y <= 0 ==> a * x + b * y <= 0) by (nonlinear_arith)
        requires
            a >= 0,
            b >= 0,
    ;
}

/// Within the bounds the probability moves by the gains, each divided for the size of the
/// probability, times the distance of the delay from its target and times its change, in
/// units of 64 ns.
pub proof fn law_pie_device_moves_by_its_gains<P: RawPacket>(m: PIEModel<P>)
    requires
        m.prob <= MAX_PROB,
        0 < m.delay() <= 250_000_000,
        m.prob < MAX_PROB / 10 || m.raw_delta() <= MAX_PROB / 50,
        0 <= m.prob + m.raw_delta() <= MAX_PROB,
    ensures
        m.next_prob() - m.prob == (m.config.alpha / gain_divisor(m.prob)) * ((m.delay()
            - m.config.target) / 64) + (m.config.beta / gain_divisor(m.prob)) * ((m.delay()
            - m.delay_before()) / 64),
{
}

/// The lower the probability, the gentler the controller: the gains are whole from a tenth
/// on, halved below that, and quartered again for each power of ten below, down to a
/// millionth.
pub proof fn law_gains_are_scaled_down(p: u64, q: u64)
    requires
        p <= q <= MAX_PROB,
    ensures
        gain_divisor(p) >= gain_divisor(q),
        gain_divisor(q) == 1 <==> q >= MAX_PROB / 10,
        MAX_PROB / 100 <= q < MAX_PROB / 10 ==> gain_divisor(q) == 2,
        MAX_PROB / 1_000 <= q < MAX_PROB / 100 ==> gain_divisor(q) == 2 * 4,
        MAX_PROB / 10_000 <= q < MAX_PROB / 1_000 ==> gain_divisor(q) == 2 * 4 * 4,
        MAX_PROB / 100_000 <= q < MAX_PROB / 10_000 ==> gain_divisor(q) == 2 * 4 * 4 * 4,
        MAX_PROB / 1_000_000 <= q < MAX_PROB / 100_000 ==> gain_divisor(q) == 2 * 4 * 4 * 4 * 4,
        q < MAX_PROB / 1_000_000 ==> gain_divisor(q) == 2 * 4 * 4 * 4 * 4 * 4,
{
}

/// The times of the updates are whole periods apart, and the last one is less than a period
/// ago.
pub proof fn law_updates_are_whole_periods_apart(last: Instant, now: Instant, period: Duration)
    requires
        period > 0,
    ensures
        ({
            let t = caught_up(last, now, period);
            &&& t >= last
            &&& now - t < period
            &&& t <= now || t == last
            &&& (t - last) % period as int == 0
        }),
    decreases elapsed(now, last),
{
    let p = period as int;
    if elapsed(now, last) >= period {
        let next = (last + period) as i128;
        law_updates_are_whole_periods_apart(next, now, period);
        let d = caught_up(next, now, period) - next;
        vstd::arithmetic::div_mod::lemma_mod_add_multiples_vanish(d, p);
        assert(p + d == caught_up(last, now, period) - last);
    } else {
        vstd::arithmetic::div_mod::lemma_small_mod(0, p as nat);
    }
}

/// The probability is brought up to date once a period has passed, and not before.
pub proof fn law_pie_device_updates_in_each_period<P: RawPacket>(m: PIEModel<P>, now: Instant)
    requires
        m.config.t_update > 0,
    ensures
        now - m.last_update_time < m.config.t_update ==> m.updated(now) == m,
        now - m.last_update_time >= m.config.t_update ==> m.updated(now).prob == m.next_prob()
            && m.updated(now).qdelay == m.delay() && m.updated(now).backlog_old == m.bytes_in_q,
        now - m.updated(now).last_update_time < m.config.t_update,
        m.updated(now).updated(now) == m.updated(now),
{
    law_updates_are_whole_periods_apart(m.last_update_time, now, m.config.t_update);
}

/// Once the delay has been below half of its target at two updates in a row and nothing is
/// dropped any more, the next burst is let through for 150 ms.
pub proof fn law_quiet_queue_lets_the_next_burst_through<P: RawPacket>(
    m: PIEModel<P>,
    now: Instant,
)
    requires
        !m.config.dq_rate_estimator,
    ensures
        m.qdelay < m.config.target / 2 && m.qdelay_old < m.config.target / 2 && m.next_prob() == 0
            ==> m.recalculated(now).burst_time == 150_000_000 && m.recalculated(now).accu_prob
            == 0,
        m.qdelay >= m.config.target / 2 || m.qdelay_old >= m.config.target / 2 || m.next_prob()
            != 0 ==> m.recalculated(now).burst_time == m.burst_time && m.recalculated(
            now,
        ).accu_prob == m.accu_prob,
        m.recalculated(now).qdelay_old == m.qdelay,
{
}

/// Where the delay is computed from the drain rate, it is the time that the queued bytes take
/// at that rate: so many units of 64 ns, up to rounding, at so many 256th of a byte in each.
pub proof fn law_delay_is_backlog_by_rate<P: RawPacket>(m: PIEModel<P>)
    requires
        m.config.dq_rate_estimator,
    ensures
        m.avg_dq_rate == 0 ==> m.delay() == 0,
        m.avg_dq_rate > 0 ==> {
            let units = m.delay() / 64;
            &&& m.delay() == units * 64
            &&& units * m.avg_dq_rate <= m.bytes_in_q * 256 < (units + 1) * m.avg_dq_rate
        },
{
    if m.avg_dq_rate > 0 {
        let n = m.bytes_in_q * 256;
        let r = m.avg_dq_rate as int;
        let q = n / r;
        assert(0 <= q <= n && q * r <= n && n < (q + 1) * r) by (nonlinear_arith)
            requires
                r >= 1,
                n >= 0,
                q == n / r,
        ;
    }
}

/// A measurement that ends takes its rate into the average with a weight of one eighth, or
/// for the whole of it if there was none.
pub proof fn law_rate_is_averaged<P: RawPacket>(m: PIEModel<P>, dtime: Duration, now: Instant)
    requires
        m.dq_count is Some,
        dtime >= 64,
        0 <= m.measured_rate(dtime) <= u32::MAX,
    ensures
        ({
            let rate = m.measured_rate(dtime);
            let after = m.measured(dtime, now);
            &&& m.avg_dq_rate == 0 ==> after.avg_dq_rate == rate
            &&& m.avg_dq_rate > 0 ==> -8 < 8 * after.avg_dq_rate - (7 * m.avg_dq_rate + rate)
                < 8
            &&& rate * (dtime as int / 64) <= m.dq_count->0 * 256 < (rate + 1) * (dtime as int
                / 64)
            &&& m.bytes_in_q >= 16384 ==> after.dq_count == Some(0u64) && after.dq_timestamp
                == now
            &&& m.bytes_in_q < 16384 ==> after.dq_count is None
        }),
{
    let n = m.dq_count->0 * 256;
    let u = dtime as int / 64;
    let rate = n / u;
    assert(rate * u <= n && n < (rate + 1) * u) by (nonlinear_arith)
        requires
            u >= 1,
            rate == n / u,
    ;
}

/// A gain is counted in sixteenths. One is as much of the largest probability, of 56 bits, as
/// falls on 64 ns out of a second; both divisions round down.
pub proof fn law_gain_is_scaled(coeff: u8)
    ensures
        16 * scaled_gain(coeff) <= coeff * (0x00ff_ffff_ffff_ffff_u64 / 15_625_000),
        coeff * (0x00ff_ffff_ffff_ffff_u64 / 15_625_000) < 16 * (scaled_gain(coeff) + 1),
{
}

/// Where the drain rate is estimated, a measurement begins with the packet that leaves 16384
/// bytes or more behind it, counts the bytes that leave, and ends with the packet that makes
/// them 16384 or more, once time has passed. Until then the estimate stays, and only then does
/// the time that a burst is let through run off.
pub proof fn law_departures_measure_the_rate<P: RawPacket>(m: PIEModel<P>, now: Instant)
    requires
        m.valid(),
        m.queue.len() > 0,
        m.config.dq_rate_estimator,
        m.measurable(now),
        now >= m.dq_timestamp,
    ensures
        ({
            let size = m.queue[0].packet.l3();
            let after = m.taken(now).0;
            let left = m.bytes_in_q - size - m.config.bw_type.extra();
            let ends = m.dq_count is Some && m.dq_count->0 + size >= 16384 && now
                > m.dq_timestamp;
            &&& after.qdelay == m.qdelay
            &&& m.dq_count is None && left < 16384 ==> after.dq_count is None
                && after.dq_timestamp == m.dq_timestamp
            &&& m.dq_count is None && left >= 16384 ==> after.dq_count is Some
                && after.dq_count->0 == size && after.dq_timestamp == now
            &&& m.dq_count is Some && !ends ==> after.dq_count is Some && after.dq_count->0
                == m.dq_count->0 + size && after.dq_timestamp == m.dq_timestamp
            &&& !ends ==> after.avg_dq_rate == m.avg_dq_rate && after.burst_time == m.burst_time
            &&& ends && m.avg_dq_rate == 0 ==> after.avg_dq_rate == ((m.dq_count->0 + size) * 256)
                / ((now - m.dq_timestamp) / 64)
            &&& ends && left < 16384 ==> after.dq_count is None
            &&& ends && left >= 16384 ==> after.dq_count == Some(0u64) && after.dq_timestamp
                == now
            &&& ends && m.burst_time >= now - m.dq_timestamp ==> after.burst_time == m.burst_time
                - (now - m.dq_timestamp)
            &&& ends && m.burst_time < now - m.dq_timestamp ==> after.burst_time == 0
        }),
{
    lemma_sum_nonnegative(m.queue.drop_first(), frame_size(m.extra()));
    let c = m.popped().measuring(now).counted(m.queue[0].packet.l3());
    let dtime = elapsed(now, c.dq_timestamp);
    if c.dq_count->0 >= 16384 && dtime >= 64 {
        let n = c.dq_count->0 * 256;
        let u = dtime as int / 64;
        assert(n / u >= 0) by (nonlinear_arith)
            requires
                n >= 0,
                u >= 1,
        ;
    }
}

/// The count of packets goes up exactly with the queue.
pub proof fn law_pie_device_counts_its_packets<P: RawPacket>(
    m: PIEModel<P>,
    packet: P,
    rolled: bool,
    now: Instant,
    after: PIEModel<P>,
)
    requires
        m.valid(),
        m.room(packet),
        m.enqueued_to(packet, rolled, now, after),
    ensures
        after.packets_in_q - m.packets_in_q == after.queue.len() - m.queue.len(),
{
    lemma_update_keeps_queue(m, now);
}

} // verus!
