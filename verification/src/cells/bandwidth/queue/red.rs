//! RED: drops on arrival, the more often the longer the queue is on average. In adaptive
//! mode the largest drop probability follows the average too.
//!
//! The average and the probabilities are computed in floating point, by the caller. The
//! queue tells what becomes of the average when a packet comes, and for which packets a
//! number has to be drawn; the caller tells where the average lies and how the draw came out.
use super::{
    lemma_total_size_nonnegative, lemma_total_size_push, size_of, total_size,
};
use crate::cells::bandwidth::BwType;
use crate::number::Real;
use crate::packet::Packet;
use crate::time::{after, duration_since, elapsed, Duration, Instant};
use std::collections::VecDeque;
use vstd::prelude::*;

verus! {

/// Time between two adjustments of the largest drop probability.
pub const ADAPT_INTERVAL: Duration = 500_000_000;

/// The count of packets right after a drop: the next packet is the first.
pub const FRESH_COUNT: i32 = -1;

#[derive(Debug, Clone, Copy)]
pub struct RedQueueConfig {
    pub packet_limit: Option<usize>,
    pub byte_limit: Option<usize>,
    /// Weight of the present queue length in the average.
    pub w_q: Real,
    /// Minimum threshold of the average queue length.
    pub min_th: usize,
    /// Maximum threshold of the average queue length.
    pub max_th: usize,
    /// Largest drop probability between the thresholds.
    pub max_p: Real,
    /// Packet transmission time in microseconds.
    pub pkt_tx_time: Real,
    /// The largest drop probability is adjusted on the way.
    pub adaptive: bool,
    pub bw_type: BwType,
    pub seed: u64,
}

impl Default for RedQueueConfig {
    fn default() -> (c: Self)
        ensures
            c == (RedQueueConfig {
                packet_limit: None,
                byte_limit: None,
                w_q: Real::UpToOne,
                min_th: 7500,
                max_th: 22500,
                max_p: Real::UpToOne,
                pkt_tx_time: Real::AboveOne,
                adaptive: false,
                bw_type: BwType::NetworkLayer,
                seed: 42,
            }),
    {
        RedQueueConfig {
            packet_limit: None,
            byte_limit: None,
            w_q: Real::UpToOne,
            min_th: 7500,
            max_th: 22500,
            max_p: Real::UpToOne,
            pkt_tx_time: Real::AboveOne,
            adaptive: false,
            bw_type: BwType::NetworkLayer,
            seed: 42,
        }
    }
}

impl RedQueueConfig {
    /// What is wrong with the configuration, if anything is.
    pub open spec fn fault(self) -> Option<Seq<char>> {
        if self.min_th >= self.max_th {
            Some("RedQueueConfig: min_th >= max_th"@)
        } else if !(self.w_q is UpToOne) {
            Some("RedQueueConfig: w_q must be in (0.0, 1.0] and finite"@)
        } else if !(self.max_p is Zero || self.max_p is UpToOne) {
            Some("RedQueueConfig: max_p must be in [0.0, 1.0] and finite"@)
        } else if !self.pkt_tx_time.positive() {
            Some("RedQueueConfig: pkt_tx_time must be > 0 and finite"@)
        } else {
            None
        }
    }

    pub fn validate(&self) -> (r: Result<(), &'static str>)
        ensures
            match r {
                Ok(_) => self.fault() is None,
                Err(e) => self.fault() == Some(e@),
            },
    {
        if self.min_th >= self.max_th {
            return Err("RedQueueConfig: min_th >= max_th");
        }
        if self.w_q != Real::UpToOne {
            return Err("RedQueueConfig: w_q must be in (0.0, 1.0] and finite");
        }
        if self.max_p != Real::Zero && self.max_p != Real::UpToOne {
            return Err("RedQueueConfig: max_p must be in [0.0, 1.0] and finite");
        }
        if !self.pkt_tx_time.is_positive() {
            return Err("RedQueueConfig: pkt_tx_time must be > 0 and finite");
        }
        Ok(())
    }

    pub fn with_packet_limit(self, limit: usize) -> (c: Self)
        ensures
            c == (RedQueueConfig { packet_limit: Some(limit), ..self }),
    {
        RedQueueConfig { packet_limit: Some(limit), ..self }
    }

    pub fn with_byte_limit(self, limit: usize) -> (c: Self)
        ensures
            c == (RedQueueConfig { byte_limit: Some(limit), ..self }),
    {
        RedQueueConfig { byte_limit: Some(limit), ..self }
    }

    pub fn with_w_q(self, w_q: Real) -> (c: Self)
        ensures
            c == (RedQueueConfig { w_q, ..self }),
    {
        RedQueueConfig { w_q, ..self }
    }

    pub fn with_min_th(self, min_th: usize) -> (c: Self)
        ensures
            c == (RedQueueConfig { min_th, ..self }),
    {
        RedQueueConfig { min_th, ..self }
    }

    pub fn with_max_th(self, max_th: usize) -> (c: Self)
        ensures
            c == (RedQueueConfig { max_th, ..self }),
    {
        RedQueueConfig { max_th, ..self }
    }

    pub fn with_max_p(self, max_p: Real) -> (c: Self)
        ensures
            c == (RedQueueConfig { max_p, ..self }),
    {
        RedQueueConfig { max_p, ..self }
    }

    pub fn with_pkt_tx_time(self, pkt_tx_time: Real) -> (c: Self)
        ensures
            c == (RedQueueConfig { pkt_tx_time, ..self }),
    {
        RedQueueConfig { pkt_tx_time, ..self }
    }

    pub fn with_adaptive(self, adaptive: bool) -> (c: Self)
        ensures
            c == (RedQueueConfig { adaptive, ..self }),
    {
        RedQueueConfig { adaptive, ..self }
    }

    pub fn with_bw_type(self, bw_type: BwType) -> (c: Self)
        ensures
            c == (RedQueueConfig { bw_type, ..self }),
    {
        RedQueueConfig { bw_type, ..self }
    }

    pub fn with_seed(self, seed: u64) -> (c: Self)
        ensures
            c == (RedQueueConfig { seed, ..self }),
    {
        RedQueueConfig { seed, ..self }
    }
}

/// What became of a configuration.
#[derive(Debug, Clone, Copy)]
pub enum Configured {
    /// It was not taken, for this reason.
    Discarded(&'static str),
    /// It was taken. Draws start over from the new seed, if `reseed`.
    Taken { reseed: bool },
}

/// What becomes of the average queue length when a packet comes.
#[derive(Debug, Clone, Copy, PartialEq, Eq, Structural)]
pub enum AverageUpdate {
    /// It moves towards the number of bytes queued.
    Blend(usize),
    /// It falls off, for the time that the queue was empty.
    Decay(Duration),
    /// Nothing.
    Keep,
}

/// What the arrival of a packet means for the average and for the largest drop probability.
#[derive(Debug, Clone, Copy, PartialEq, Eq, Structural)]
pub struct RedArrival {
    pub average: AverageUpdate,
    /// The largest drop probability is to be adjusted to the average.
    pub adapt: bool,
}

/// A packet that has come and is not judged yet.
#[derive(Debug)]
pub struct RedPending<P> {
    packet: P,
}

impl<P> RedPending<P> {
    pub closed spec fn packet(self) -> P {
        self.packet
    }
}

/// Where the average queue length lies.
#[derive(Debug, Clone, Copy, PartialEq, Eq, Structural)]
pub enum Zone {
    /// Below the minimum threshold.
    Below,
    /// Between the thresholds.
    Between,
    /// At the maximum threshold or above.
    Above,
}

/// What a RED queue holds and remembers.
#[verifier::ext_equal]
pub struct RedModel<P> {
    pub packets: Seq<P>,
    pub config: RedQueueConfig,
    /// Bytes counted for the queued packets.
    pub bytes: usize,
    /// Packets since the last drop; -1 right after it.
    pub count: i32,
    /// Since when the queue is empty.
    pub idle_start: Option<Instant>,
    /// When the largest drop probability was last adjusted.
    pub latest_max_p_update: Option<Instant>,
}

impl<P: Packet> RedModel<P> {
    pub open spec fn extra(self) -> usize {
        self.config.bw_type.extra()
    }

    /// The byte count covers the queued packets.
    pub open spec fn valid(self) -> bool {
        total_size(self.packets, self.extra()) <= self.bytes
    }

    pub open spec fn zero_buffer(self) -> bool {
        self.config.packet_limit == Some(0usize) || self.config.byte_limit == Some(0usize)
    }

    /// The limits leave room for the packet.
    pub open spec fn admits(self, packet: P) -> bool {
        &&& self.config.packet_limit is Some ==> self.packets.len() < self.config.packet_limit->0
        &&& self.config.byte_limit is Some ==> self.bytes + size_of(packet, self.extra())
            <= self.config.byte_limit->0
    }

    /// What becomes of the average when a packet comes at `t`.
    pub open spec fn average_update(self, t: Instant) -> AverageUpdate {
        if self.packets.len() > 0 {
            AverageUpdate::Blend(self.bytes)
        } else if self.idle_start is Some {
            AverageUpdate::Decay(elapsed(t, self.idle_start->0))
        } else {
            AverageUpdate::Keep
        }
    }

    /// An adjustment is due at `t`.
    pub open spec fn adapt_due(self, t: Instant) -> bool {
        &&& self.config.adaptive
        &&& self.latest_max_p_update is Some
        &&& elapsed(t, self.latest_max_p_update->0) >= ADAPT_INTERVAL
    }

    /// A packet has come at `t`: the idle time that it ends is accounted for, and the grid of
    /// adjustments moves by one interval if one was due.
    pub open spec fn arrived(self, t: Instant) -> Self {
        RedModel {
            idle_start: if self.packets.len() == 0 && self.idle_start is Some {
                Some(t)
            } else {
                self.idle_start
            },
            latest_max_p_update: if !self.config.adaptive {
                self.latest_max_p_update
            } else if self.latest_max_p_update is None {
                Some(t)
            } else if self.adapt_due(t) {
                Some((self.latest_max_p_update->0 + ADAPT_INTERVAL) as i128)
            } else {
                self.latest_max_p_update
            },
            ..self
        }
    }

    /// The packet is dropped by chance or because the average is high.
    pub open spec fn drops(zone: Zone, rolled: bool) -> bool {
        zone is Above || zone is Between && rolled
    }

    /// The packet has come, where the average lies in `zone` and the draw came out as
    /// `rolled`.
    pub open spec fn enqueued(self, packet: P, zone: Zone, rolled: bool) -> Self {
        if !self.admits(packet) {
            RedModel { count: FRESH_COUNT, ..self }
        } else {
            let count = if zone is Between && !rolled {
                (self.count + 1) as i32
            } else {
                FRESH_COUNT
            };
            if Self::drops(zone, rolled) {
                RedModel { count, ..self }
            } else {
                RedModel {
                    packets: self.packets.push(packet),
                    bytes: (self.bytes + size_of(packet, self.extra())) as usize,
                    count,
                    idle_start: None,
                    ..self
                }
            }
        }
    }

    /// First in first out; an empty queue is idle from `t` on.
    pub open spec fn taken(self, t: Instant) -> (Self, Option<P>) {
        if self.packets.len() == 0 {
            (self, None)
        } else {
            (
                RedModel {
                    packets: self.packets.drop_first(),
                    bytes: (self.bytes - size_of(self.packets[0], self.extra())) as usize,
                    idle_start: if self.packets.len() == 1 {
                        Some(t)
                    } else {
                        self.idle_start
                    },
                    ..self
                },
                Some(self.packets[0]),
            )
        }
    }
}

#[derive(Debug)]
pub struct RedQueue<P> {
    queue: VecDeque<P>,
    config: RedQueueConfig,
    now_bytes: usize,
    count_packet: i32,
    idle_start: Option<Instant>,
    latest_max_p_update: Option<Instant>,
}

impl<P> View for RedQueue<P> {
    type V = RedModel<P>;

    closed spec fn view(&self) -> RedModel<P> {
        RedModel {
            packets: self.queue@,
            config: self.config,
            bytes: self.now_bytes,
            count: self.count_packet,
            idle_start: self.idle_start,
            latest_max_p_update: self.latest_max_p_update,
        }
    }
}

impl<P: Packet> RedQueue<P> {
    /// An empty queue, if the configuration makes sense.
    pub fn new(config: RedQueueConfig) -> (r: Result<Self, &'static str>)
        ensures
            match r {
                Ok(q) => {
                    &&& config.fault() is None
                    &&& q@ == (RedModel {
                        packets: Seq::<P>::empty(),
                        config,
                        bytes: 0,
                        count: FRESH_COUNT,
                        idle_start: None,
                        latest_max_p_update: None,
                    })
                    &&& q@.valid()
                },
                Err(e) => config.fault() == Some(e@),
            },
    {
        match config.validate() {
            Ok(_) => Ok(
                RedQueue {
                    queue: VecDeque::new(),
                    config,
                    now_bytes: 0,
                    count_packet: FRESH_COUNT,
                    idle_start: None,
                    latest_max_p_update: None,
                },
            ),
            Err(e) => Err(e),
        }
    }

    /// Takes another configuration, if it makes sense.
    pub fn configure(&mut self, config: RedQueueConfig) -> (r: Configured)
        ensures
            match r {
                Configured::Discarded(e) => {
                    &&& config.fault() == Some(e@)
                    &&& final(self)@ == old(self)@
                },
                Configured::Taken { reseed } => {
                    &&& config.fault() is None
                    &&& reseed == (config.seed != old(self)@.config.seed)
                    &&& final(self)@ == (RedModel { config, ..old(self)@ })
                },
            },
    {
        match config.validate() {
            Ok(_) => {
                let reseed: bool = config.seed != self.config.seed;
                self.config = config;
                Configured::Taken { reseed }
            },
            Err(e) => Configured::Discarded(e),
        }
    }

    pub fn is_zero_buffer(&self) -> (zero: bool)
        ensures
            zero == self@.zero_buffer(),
    {
        let no_packets: bool = match self.config.packet_limit {
            Some(limit) => limit == 0,
            None => false,
        };
        let no_bytes: bool = match self.config.byte_limit {
            Some(limit) => limit == 0,
            None => false,
        };
        no_packets || no_bytes
    }

    /// A packet comes: what that means for the average and for the largest drop probability.
    /// Once these are brought up to date, the packet can be judged and taken in.
    pub fn on_arrival(&mut self, packet: P) -> (r: (RedArrival, RedPending<P>))
        ensures
            r.0.average == old(self)@.average_update(packet.timestamp()),
            r.0.adapt == old(self)@.adapt_due(packet.timestamp()),
            r.1.packet() == packet,
            final(self)@ == old(self)@.arrived(packet.timestamp()),
            old(self)@.valid() ==> final(self)@.valid(),
    {
        let timestamp: Instant = packet.get_timestamp();
        let average: AverageUpdate = if self.queue.len() > 0 {
            AverageUpdate::Blend(self.now_bytes)
        } else {
            match self.idle_start {
                Some(idle_start) => {
                    self.idle_start = Some(timestamp);
                    AverageUpdate::Decay(duration_since(timestamp, idle_start))
                },
                None => AverageUpdate::Keep,
            }
        };
        let mut adapt: bool = false;
        if self.config.adaptive {
            match self.latest_max_p_update {
                None => {
                    self.latest_max_p_update = Some(timestamp);
                },
                Some(latest) => {
                    if duration_since(timestamp, latest) >= ADAPT_INTERVAL {
                        adapt = true;
                        self.latest_max_p_update = Some(after(latest, ADAPT_INTERVAL));
                    }
                },
            }
        }
        (RedArrival { average, adapt }, RedPending { packet })
    }

    /// Whether the limits leave room for `packet`.
    fn has_room(&self, packet: &P) -> (room: bool)
        requires
            self@.bytes + size_of(*packet, self@.extra()) <= usize::MAX,
        ensures
            room == self@.admits(*packet),
    {
        let packets_fit: bool = match self.config.packet_limit {
            Some(limit) => self.queue.len() < limit,
            None => true,
        };
        let bytes_fit: bool = match self.config.byte_limit {
            Some(limit) => self.now_bytes + (packet.l3_length()
                + self.config.bw_type.extra_length()) <= limit,
            None => true,
        };
        packets_fit && bytes_fit
    }

    /// If a draw decides on the packet that has come, how many packets have come since the
    /// last drop.
    pub fn draw_for(&self, pending: &RedPending<P>, zone: Zone) -> (count: Option<i32>)
        requires
            self@.bytes + size_of(pending.packet(), self@.extra()) <= usize::MAX,
            self@.count < i32::MAX,
        ensures
            count == if self@.admits(pending.packet()) && zone is Between {
                Some((self@.count + 1) as i32)
            } else {
                None
            },
    {
        if self.has_room(&pending.packet) && zone == Zone::Between {
            Some(self.count_packet + 1)
        } else {
            None
        }
    }

    /// Takes in the packet that has come, where the average lies in `zone` and the draw came
    /// out as `rolled`.
    pub fn enqueue(&mut self, pending: RedPending<P>, zone: Zone, rolled: bool)
        requires
            old(self)@.valid(),
            old(self)@.bytes + size_of(pending.packet(), old(self)@.extra()) <= usize::MAX,
            old(self)@.count < i32::MAX,
        ensures
            final(self)@.valid(),
            final(self)@ == old(self)@.enqueued(pending.packet(), zone, rolled),
    {
        let packet = pending.packet;
        if !self.has_room(&packet) {
            self.count_packet = FRESH_COUNT;
            return;
        }
        let drop: bool = match zone {
            Zone::Between => {
                self.count_packet = if rolled {
                    FRESH_COUNT
                } else {
                    self.count_packet + 1
                };
                rolled
            },
            Zone::Above => {
                self.count_packet = FRESH_COUNT;
                true
            },
            Zone::Below => {
                self.count_packet = FRESH_COUNT;
                false
            },
        };
        if drop {
            return;
        }
        proof {
            lemma_total_size_push(self@.packets, packet, self@.extra());
        }
        self.now_bytes = self.now_bytes + (packet.l3_length() + self.config.bw_type.extra_length());
        self.queue.push_back(packet);
        self.idle_start = None;
    }

    /// Takes the oldest packet out. If the queue is empty, returns `None`.
    pub fn dequeue_at(&mut self, timestamp: Instant) -> (packet: Option<P>)
        requires
            old(self)@.valid(),
        ensures
            final(self)@.valid(),
            (final(self)@, packet) == old(self)@.taken(timestamp),
    {
        let ghost before = self@;
        match self.queue.pop_front() {
            Some(packet) => {
                proof {
                    lemma_total_size_nonnegative(before.packets.drop_first(), before.extra());
                    assert(before.packets.drop_first() =~= before.packets.subrange(
                        1,
                        before.packets.len() as int,
                    ));
                }
                self.now_bytes = self.now_bytes - (packet.l3_length()
                    + self.config.bw_type.extra_length());
                if self.queue.len() == 0 {
                    self.idle_start = Some(timestamp);
                }
                Some(packet)
            },
            None => None,
        }
    }

    pub fn is_empty(&self) -> (empty: bool)
        ensures
            empty == (self@.packets.len() == 0),
    {
        self.queue.len() == 0
    }

    pub fn get_extra_length(&self) -> (n: usize)
        ensures
            n == self@.extra(),
    {
        self.config.bw_type.extra_length()
    }

    /// The size of the packet that is next to leave; `None` if the queue is empty.
    pub fn get_front_size(&self) -> (n: Option<usize>)
        requires
            self@.valid(),
        ensures
            n is None <==> self@.packets.len() == 0,
            n is Some ==> n->0 == size_of(self@.packets[0], self@.extra()),
    {
        if self.queue.len() == 0 {
            None
        } else {
            proof {
                lemma_total_size_nonnegative(self@.packets.drop_first(), self@.extra());
            }
            Some(self.queue[0].l3_length() + self.config.bw_type.extra_length())
        }
    }

    pub fn length(&self) -> (n: usize)
        ensures
            n == self@.packets.len(),
    {
        self.queue.len()
    }

    /// Packets since the last drop; -1 right after it.
    pub fn count_since_drop(&self) -> (n: i32)
        ensures
            n == self@.count,
    {
        self.count_packet
    }
}

/// One arrival accounts for at most one interval of the grid: intervals that were missed are
/// caught up with over the arrivals that follow, each by exactly one interval.
pub proof fn law_adjustments_stay_on_the_grid<P: Packet>(m: RedModel<P>, t: Instant)
    requires
        m.config.adaptive,
        m.latest_max_p_update is Some,
    ensures
        m.arrived(t).latest_max_p_update is Some,
        m.adapt_due(t) ==> m.arrived(t).latest_max_p_update->0 == m.latest_max_p_update->0
            + ADAPT_INTERVAL && m.arrived(t).latest_max_p_update->0 <= t,
        !m.adapt_due(t) ==> m.arrived(t).latest_max_p_update == m.latest_max_p_update,
{
}

/// Every way of dropping a packet, and an average below the thresholds, start the count over.
pub proof fn law_count_starts_over<P: Packet>(
    m: RedModel<P>,
    packet: P,
    zone: Zone,
    rolled: bool,
)
    ensures
        !m.admits(packet) || RedModel::<P>::drops(zone, rolled) || zone is Below ==> m.enqueued(
            packet,
            zone,
            rolled,
        ).count == FRESH_COUNT,
{
}

/// First in, first out: the packet that is handed out, followed by what is left, is what was
/// queued, and nothing is handed out only if nothing was. The bytes of that packet leave with
/// it, and the packets that come afterwards count on as they did.
pub proof fn law_red_is_first_in_first_out<P: Packet>(m: RedModel<P>, t: Instant)
    requires
        m.valid(),
    ensures
        ({
            let (after, packet) = m.taken(t);
            &&& packet is None <==> m.packets.len() == 0
            &&& packet is Some ==> m.packets == seq![packet->0] + after.packets && m.bytes
                == after.bytes + packet->0.l3() + m.config.bw_type.extra()
            &&& packet is None ==> after == m
            &&& after.count == m.count
            &&& after.config == m.config
            &&& after.latest_max_p_update == m.latest_max_p_update
        }),
{
    if m.packets.len() > 0 {
        lemma_total_size_nonnegative(m.packets.drop_first(), m.extra());
    }
}

/// A packet is taken in, at the end of the queue, exactly if both limits still hold with it
/// and it is not dropped early: never below the minimum threshold, always at the maximum one
/// and above, and in between by the draw. So a queue within its limits stays within them.
pub proof fn law_red_takes_what_fits_and_is_not_dropped<P: Packet>(
    m: RedModel<P>,
    packet: P,
    zone: Zone,
    rolled: bool,
)
    requires
        m.bytes + size_of(packet, m.extra()) <= usize::MAX,
        m.count < i32::MAX,
    ensures
        ({
            let after = m.enqueued(packet, zone, rolled);
            let fits = (m.config.packet_limit is Some ==> m.packets.len() + 1
                <= m.config.packet_limit->0) && (m.config.byte_limit is Some ==> m.bytes
                + packet.l3() + m.config.bw_type.extra() <= m.config.byte_limit->0);
            let spared = match zone {
                Zone::Below => true,
                Zone::Between => !rolled,
                Zone::Above => false,
            };
            &&& fits && spared ==> after.packets == m.packets + seq![packet] && after.bytes
                == m.bytes + packet.l3() + m.config.bw_type.extra() && after.idle_start is None
            &&& !(fits && spared) ==> after.packets == m.packets && after.bytes == m.bytes
                && after.idle_start == m.idle_start
            &&& fits && zone == Zone::Between && !rolled ==> after.count == m.count + 1
            &&& !(fits && zone == Zone::Between && !rolled) ==> after.count == -1
            &&& m.config.byte_limit is Some && m.bytes <= m.config.byte_limit->0 ==> after.bytes
                <= m.config.byte_limit->0
            &&& m.config.packet_limit is Some && m.packets.len() <= m.config.packet_limit->0
                ==> after.packets.len() <= m.config.packet_limit->0
            &&& after.config == m.config
        }),
{
}

/// While packets wait, the average moves towards the bytes that are queued. Once the last
/// packet has left at `t0`, the queue is idle: an arrival at `t1` lets the average fall off
/// for the time since `t0`, and another one at `t2`, where the first was not taken in, for
/// the time since `t1`. So no idle time is counted twice.
pub proof fn law_average_falls_off_while_idle<P: Packet>(
    m: RedModel<P>,
    t0: Instant,
    t1: Instant,
    t2: Instant,
)
    requires
        m.packets.len() == 1,
        t0 <= t1 <= t2,
    ensures
        m.average_update(t0) == AverageUpdate::Blend(m.bytes),
        m.taken(t0).0.average_update(t1) is Decay,
        m.taken(t0).0.average_update(t1)->Decay_0 == t1 - t0,
        m.taken(t0).0.arrived(t1).average_update(t2) is Decay,
        m.taken(t0).0.arrived(t1).average_update(t2)->Decay_0 == t2 - t1,
        m.taken(t0).0.arrived(t1).packets == m.taken(t0).0.packets,
{
}

/// The largest drop probability is adjusted only in adaptive mode, and once half a second
/// has passed since the last point of the grid, which begins with the first arrival.
pub proof fn law_probability_is_adjusted_twice_a_second<P: Packet>(m: RedModel<P>, t: Instant)
    ensures
        m.adapt_due(t) <==> m.config.adaptive && m.latest_max_p_update is Some && t
            - m.latest_max_p_update->0 >= 500_000_000,
        m.config.adaptive && m.latest_max_p_update is None ==> m.arrived(t).latest_max_p_update
            == Some(t),
        !m.config.adaptive ==> m.arrived(t).latest_max_p_update == m.latest_max_p_update,
        m.arrived(t).packets == m.packets && m.arrived(t).bytes == m.bytes && m.arrived(t).count
            == m.count && m.arrived(t).config == m.config,
{
}

/// A configuration is in order exactly if its thresholds leave a range between them, the
/// weight of the average is above zero and at most one, the largest probability is at least
/// zero and at most one, and sending a packet takes some time.
pub proof fn law_red_configuration_in_order(c: RedQueueConfig)
    ensures
        c.fault() is None <==> c.min_th < c.max_th && c.w_q == Real::UpToOne && (c.max_p
            == Real::Zero || c.max_p == Real::UpToOne) && (c.pkt_tx_time == Real::UpToOne
            || c.pkt_tx_time == Real::AboveOne),
{
}

/// A queue is zero-sized exactly if one of its limits is zero; then nothing gets in.
pub proof fn law_red_without_a_buffer_takes_nothing<P: Packet>(m: RedModel<P>, packet: P)
    ensures
        m.zero_buffer() <==> m.config.packet_limit == Some(0usize) || m.config.byte_limit == Some(
            0usize,
        ),
        m.zero_buffer() && packet.l3() > 0 ==> !m.admits(packet),
{
}

} // verus!
