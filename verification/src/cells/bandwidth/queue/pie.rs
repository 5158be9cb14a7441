//! PIE: drops on arrival, with a probability that is brought up to date on a fixed grid and
//! follows the queueing delay, which is estimated from the rate at which packets leave.
//!
//! The probability, the delay and the rate are computed in floating point, by the caller. The
//! queue tells when the probability is to be brought up to date, for which packets a number
//! has to be drawn and what a finished measurement has counted; the caller tells whether a
//! burst is let through, whether the queue is calm and how the draw came out.
use super::red::Configured;
use super::{
    lemma_total_size_nonnegative, lemma_total_size_push, size_of, total_size,
};
use crate::cells::bandwidth::BwType;
use crate::number::Real;
use crate::packet::Packet;
use crate::time::{after, duration_since, elapsed, Duration, Instant, MILLISECOND};
use std::collections::VecDeque;
use vstd::prelude::*;

verus! {

/// Bytes that have to be queued before the rate is measured, and that have to leave before
/// it is computed: 16 KiB.
pub const DQ_THRESHOLD: usize = 16384;

/// What a packet is taken to be long.
pub const MEAN_PKTSIZE: usize = 1500;

#[derive(Debug, Clone, Copy)]
pub struct PieQueueConfig {
    pub packet_limit: Option<usize>,
    pub byte_limit: Option<usize>,
    /// Target delay in seconds.
    pub ref_del: Real,
    /// Longest burst in milliseconds.
    pub max_burst: Real,
    /// Time between two updates of the probability.
    pub t_update: Duration,
    pub bw_type: BwType,
    pub seed: u64,
}

impl Default for PieQueueConfig {
    fn default() -> (c: Self)
        ensures
            c == (PieQueueConfig {
                packet_limit: None,
                byte_limit: None,
                ref_del: Real::UpToOne,
                max_burst: Real::AboveOne,
                t_update: 15_000_000,
                bw_type: BwType::NetworkLayer,
                seed: 42,
            }),
    {
        PieQueueConfig {
            packet_limit: None,
            byte_limit: None,
            ref_del: Real::UpToOne,
            max_burst: Real::AboveOne,
            t_update: 15 * MILLISECOND,
            bw_type: BwType::NetworkLayer,
            seed: 42,
        }
    }
}

impl PieQueueConfig {
    pub fn new(
        packet_limit: Option<usize>,
        byte_limit: Option<usize>,
        ref_del: Real,
        max_burst: Real,
        t_update: Duration,
        bw_type: BwType,
        seed: u64,
    ) -> (c: Self)
        ensures
            c == (PieQueueConfig {
                packet_limit,
                byte_limit,
                ref_del,
                max_burst,
                t_update,
                bw_type,
                seed,
            }),
    {
        PieQueueConfig { packet_limit, byte_limit, ref_del, max_burst, t_update, bw_type, seed }
    }

    /// What is wrong with the configuration, if anything is.
    pub open spec fn fault(self) -> Option<Seq<char>> {
        if !self.ref_del.positive() {
            Some("PieQueueConfig: ref_del must be > 0 and finite"@)
        } else if self.max_burst is Negative || self.max_burst is NotFinite {
            Some("PieQueueConfig: max_burst must be >= 0 and finite"@)
        } else if self.t_update == 0 {
            Some("PieQueueConfig: t_update must be > 0"@)
        } else {
            None
        }
    }

    pub fn validate(&self) -> (r: Result<(), &'static str>)
        ensures
            match r {
                Ok(_) => self.fault() is None,
                Err(e) => self.fault() == Some(e@),
            },
    {
        if !self.ref_del.is_positive() {
            return Err("PieQueueConfig: ref_del must be > 0 and finite");
        }
        if self.max_burst == Real::Negative || self.max_burst == Real::NotFinite {
            return Err("PieQueueConfig: max_burst must be >= 0 and finite");
        }
        if self.t_update == 0 {
            return Err("PieQueueConfig: t_update must be > 0");
        }
        Ok(())
    }
}

/// A finished measurement: so many bytes have left in so much time.
#[derive(Debug, Clone, Copy, PartialEq, Eq, Structural)]
pub struct Measurement {
    pub bytes: usize,
    pub interval: Duration,
}

/// A packet that has come and is not judged yet.
#[derive(Debug)]
pub struct PiePending<P> {
    packet: P,
}

impl<P> PiePending<P> {
    pub closed spec fn packet(self) -> P {
        self.packet
    }
}

/// What a PIE queue holds and remembers.
#[verifier::ext_equal]
pub struct PieModel<P> {
    pub packets: Seq<P>,
    pub config: PieQueueConfig,
    /// Bytes counted for the queued packets.
    pub bytes: usize,
    /// Bytes that have left in this measurement.
    pub dq_count: usize,
    /// The point of the grid that was reached last.
    pub start_update: Option<Instant>,
    /// When this measurement began, if one is going on.
    pub start_measurement: Option<Instant>,
}

impl<P: Packet> PieModel<P> {
    pub open spec fn extra(self) -> usize {
        self.config.bw_type.extra()
    }

    /// The byte count covers the queued packets, and the configuration makes sense.
    pub open spec fn valid(self) -> bool {
        &&& total_size(self.packets, self.extra()) <= self.bytes
        &&& self.config.fault() is None
    }

    pub open spec fn zero_buffer(self) -> bool {
        self.config.packet_limit == Some(0usize) || self.config.byte_limit == Some(0usize)
    }

    /// The limits leave room for the packet.
    pub open spec fn admits(self, packet: P) -> bool {
        &&& self.config.packet_limit is Some ==> self.packets.len() < self.config.packet_limit->0
        &&& self.config.byte_limit is Some ==> self.bytes + size_of(packet, self.extra())
            <= self.config.byte_limit->0
    }

    /// An update is due at `t`.
    pub open spec fn update_due(self, t: Instant) -> bool {
        self.start_update is Some && elapsed(t, self.start_update->0) >= self.config.t_update
    }

    /// A packet has come at `t`: the grid begins with the first one, and moves by one period
    /// if an update was due.
    pub open spec fn arrived(self, t: Instant) -> Self {
        PieModel {
            start_update: if self.start_update is None {
                Some(t)
            } else if self.update_due(t) {
                Some((self.start_update->0 + self.config.t_update) as i128)
            } else {
                self.start_update
            },
            ..self
        }
    }

    /// No packet is dropped by chance: a burst is let through, or the queue is calm, or it
    /// holds no more than two packets.
    pub open spec fn bypasses(self, bursting: bool, calm: bool) -> bool {
        bursting || calm || self.bytes <= 2 * (MEAN_PKTSIZE + self.extra())
    }

    /// A draw decides on the packet.
    pub open spec fn needs_draw(self, packet: P, bursting: bool, calm: bool) -> bool {
        self.admits(packet) && !self.bypasses(bursting, calm)
    }

    /// The packet has come, where the draw came out as `rolled`.
    pub open spec fn enqueued(self, packet: P, bursting: bool, calm: bool, rolled: bool) -> Self {
        if !self.admits(packet) || (!self.bypasses(bursting, calm) && rolled) {
            self
        } else {
            PieModel {
                packets: self.packets.push(packet),
                bytes: (self.bytes + size_of(packet, self.extra())) as usize,
                ..self
            }
        }
    }

    /// The oldest packet is taken out.
    pub open spec fn popped(self) -> Self {
        PieModel {
            packets: self.packets.drop_first(),
            bytes: (self.bytes - size_of(self.packets[0], self.extra())) as usize,
            ..self
        }
    }

    /// A measurement is going on, or begins at `t` because enough is queued.
    pub open spec fn measuring(self, t: Instant) -> Self {
        if self.bytes > DQ_THRESHOLD && self.start_measurement is None {
            PieModel { start_measurement: Some(t), dq_count: 0, ..self }
        } else {
            self
        }
    }

    /// The measurement that ends at `t`, when `size` more bytes leave.
    pub open spec fn finished(self, size: int, t: Instant) -> Option<Measurement> {
        let m = self.measuring(t);
        if m.start_measurement is Some && m.dq_count + size >= DQ_THRESHOLD && elapsed(
            t,
            m.start_measurement->0,
        ) > 0 {
            Some(
                Measurement {
                    bytes: (m.dq_count + size) as usize,
                    interval: elapsed(t, m.start_measurement->0),
                },
            )
        } else {
            None
        }
    }

    /// `size` more bytes have left at `t`. A measurement ends when it is finished, and when
    /// the queue gets too short for it.
    pub open spec fn departed(self, size: int, t: Instant) -> Self {
        let m = self.measuring(t);
        if m.start_measurement is None {
            m
        } else if self.finished(size, t) is Some || m.bytes < DQ_THRESHOLD {
            PieModel { start_measurement: None, dq_count: 0, ..m }
        } else {
            PieModel { dq_count: (m.dq_count + size) as usize, ..m }
        }
    }

    /// The bytes that have left can be counted.
    pub open spec fn countable(self) -> bool {
        self.packets.len() > 0 ==> self.dq_count + size_of(self.packets[0], self.extra())
            <= usize::MAX
    }
}

#[derive(Debug)]
pub struct PieQueue<P> {
    queue: VecDeque<P>,
    config: PieQueueConfig,
    now_bytes: usize,
    dq_count: usize,
    start_update: Option<Instant>,
    start_measurement: Option<Instant>,
}

impl<P> View for PieQueue<P> {
    type V = PieModel<P>;

    closed spec fn view(&self) -> PieModel<P> {
        PieModel {
            packets: self.queue@,
            config: self.config,
            bytes: self.now_bytes,
            dq_count: self.dq_count,
            start_update: self.start_update,
            start_measurement: self.start_measurement,
        }
    }
}

impl<P: Packet> PieQueue<P> {
    /// An empty queue, if the configuration makes sense.
    pub fn new(config: PieQueueConfig) -> (r: Result<Self, &'static str>)
        ensures
            match r {
                Ok(q) => {
                    &&& config.fault() is None
                    &&& q@ == (PieModel {
                        packets: Seq::<P>::empty(),
                        config,
                        bytes: 0,
                        dq_count: 0,
                        start_update: None,
                        start_measurement: None,
                    })
                    &&& q@.valid()
                },
                Err(e) => config.fault() == Some(e@),
            },
    {
        match config.validate() {
            Ok(_) => Ok(
                PieQueue {
                    queue: VecDeque::new(),
                    config,
                    now_bytes: 0,
                    dq_count: 0,
                    start_update: None,
                    start_measurement: None,
                },
            ),
            Err(e) => Err(e),
        }
    }

    /// Takes another configuration, if it makes sense.
    pub fn configure(&mut self, config: PieQueueConfig) -> (r: Configured)
        ensures
            match r {
                Configured::Discarded(e) => {
                    &&& config.fault() == Some(e@)
                    &&& final(self)@ == old(self)@
                },
                Configured::Taken { reseed } => {
                    &&& config.fault() is None
                    &&& reseed == (config.seed != old(self)@.config.seed)
                    &&& final(self)@ == (PieModel { config, ..old(self)@ })
                },
            },
    {
        match config.validate() {
            Ok(_) => {
                let reseed: bool = config.seed != self.config.seed;
                self.config = config;
                Configured::Taken { reseed }
            },
            Err(e) => Configured::Discarded(e),
        }
    }

    pub fn is_zero_buffer(&self) -> (zero: bool)
        ensures
            zero == self@.zero_buffer(),
    {
        let no_packets: bool = match self.config.packet_limit {
            Some(limit) => limit == 0,
            None => false,
        };
        let no_bytes: bool = match self.config.byte_limit {
            Some(limit) => limit == 0,
            None => false,
        };
        no_packets || no_bytes
    }

    /// A packet comes. Tells whether the probability is to be brought up to date by one period;
    /// once it is, the packet can be judged and taken in.
    pub fn on_arrival(&mut self, packet: P) -> (r: (bool, PiePending<P>))
        ensures
            r.0 == old(self)@.update_due(packet.timestamp()),
            r.1.packet() == packet,
            final(self)@ == old(self)@.arrived(packet.timestamp()),
            old(self)@.valid() ==> final(self)@.valid(),
    {
        let timestamp: Instant = packet.get_timestamp();
        let update: bool = match self.start_update {
            None => {
                self.start_update = Some(timestamp);
                false
            },
            Some(start) => {
                if duration_since(timestamp, start) >= self.config.t_update {
                    self.start_update = Some(after(start, self.config.t_update));
                    true
                } else {
                    false
                }
            },
        };
        (update, PiePending { packet })
    }

    /// Whether the limits leave room for `packet`.
    fn has_room(&self, packet: &P) -> (room: bool)
        requires
            self@.bytes + size_of(*packet, self@.extra()) <= usize::MAX,
        ensures
            room == self@.admits(*packet),
    {
        let packets_fit: bool = match self.config.packet_limit {
            Some(limit) => self.queue.len() < limit,
            None => true,
        };
        let bytes_fit: bool = match self.config.byte_limit {
            Some(limit) => self.now_bytes + (packet.l3_length()
                + self.config.bw_type.extra_length()) <= limit,
            None => true,
        };
        packets_fit && bytes_fit
    }

    /// Whether a draw decides on the packet that has come. `bursting` tells that a burst is let
    /// through, and `calm` that the delay is below half of its target while the probability is
    /// low.
    pub fn needs_draw(&self, pending: &PiePending<P>, bursting: bool, calm: bool) -> (draw: bool)
        requires
            self@.bytes + size_of(pending.packet(), self@.extra()) <= usize::MAX,
        ensures
            draw == self@.needs_draw(pending.packet(), bursting, calm),
    {
        self.has_room(&pending.packet) && !bursting && !calm && self.now_bytes > 2 * (MEAN_PKTSIZE
            + self.config.bw_type.extra_length())
    }

    /// Takes in the packet that has come, where the draw came out as `rolled`.
    pub fn enqueue(&mut self, pending: PiePending<P>, bursting: bool, calm: bool, rolled: bool)
        requires
            old(self)@.valid(),
            old(self)@.bytes + size_of(pending.packet(), old(self)@.extra()) <= usize::MAX,
        ensures
            final(self)@.valid(),
            final(self)@ == old(self)@.enqueued(pending.packet(), bursting, calm, rolled),
    {
        if !self.has_room(&pending.packet) {
            return;
        }
        if self.needs_draw(&pending, bursting, calm) && rolled {
            return;
        }
        let packet = pending.packet;
        proof {
            lemma_total_size_push(self@.packets, packet, self@.extra());
        }
        self.now_bytes = self.now_bytes + (packet.l3_length() + self.config.bw_type.extra_length());
        self.queue.push_back(packet);
    }

    /// Counts `pkt_size` bytes that leave at `now`. Returns the measurement that ends with
    /// them, if one does.
    fn update_avg_drate(&mut self, pkt_size: usize, now: Instant) -> (m: Option<Measurement>)
        requires
            old(self)@.dq_count + pkt_size <= usize::MAX,
        ensures
            m == old(self)@.finished(pkt_size as int, now),
            final(self)@ == old(self)@.departed(pkt_size as int, now),
    {
        if self.now_bytes > DQ_THRESHOLD && self.start_measurement.is_none() {
            self.start_measurement = Some(now);
            self.dq_count = 0;
        }
        let mut finished: Option<Measurement> = None;
        if let Some(start) = self.start_measurement {
            self.dq_count = self.dq_count + pkt_size;
            if self.dq_count >= DQ_THRESHOLD {
                let interval: Duration = duration_since(now, start);
                if interval > 0 {
                    finished = Some(Measurement { bytes: self.dq_count, interval });
                    self.start_measurement = None;
                    self.dq_count = 0;
                }
            }
            if self.now_bytes < DQ_THRESHOLD {
                self.start_measurement = None;
                self.dq_count = 0;
            }
        }
        finished
    }

    /// Takes the oldest packet out, and tells what the measurement has counted if it ends
    /// with this packet. If the queue is empty, there is neither.
    pub fn dequeue_at(&mut self, timestamp: Instant) -> (r: (Option<P>, Option<Measurement>))
        requires
            old(self)@.valid(),
            old(self)@.countable(),
        ensures
            final(self)@.valid(),
            old(self)@.packets.len() == 0 ==> r.0 is None && r.1 is None && final(self)@ == old(
                self
            )@,
            old(self)@.packets.len() > 0 ==> {
                let size = size_of(old(self)@.packets[0], old(self)@.extra());
                &&& r.0 == Some(old(self)@.packets[0])
                &&& r.1 == old(self)@.popped().finished(size, timestamp)
                &&& final(self)@ == old(self)@.popped().departed(size, timestamp)
            },
    {
        let ghost before = self@;
        match self.queue.pop_front() {
            Some(packet) => {
                proof {
                    lemma_total_size_nonnegative(before.packets.drop_first(), before.extra());
                    assert(before.packets.drop_first() =~= before.packets.subrange(
                        1,
                        before.packets.len() as int,
                    ));
                }
                let pkt_size: usize = packet.l3_length() + self.config.bw_type.extra_length();
                self.now_bytes = self.now_bytes - pkt_size;
                let finished = self.update_avg_drate(pkt_size, timestamp);
                (Some(packet), finished)
            },
            None => (None, None),
        }
    }

    pub fn is_empty(&self) -> (empty: bool)
        ensures
            empty == (self@.packets.len() == 0),
    {
        self.queue.len() == 0
    }

    pub fn get_extra_length(&self) -> (n: usize)
        ensures
            n == self@.extra(),
    {
        self.config.bw_type.extra_length()
    }

    /// The size of the packet that is next to leave; `None` if the queue is empty.
    pub fn get_front_size(&self) -> (n: Option<usize>)
        requires
            self@.valid(),
        ensures
            n is None <==> self@.packets.len() == 0,
            n is Some ==> n->0 == size_of(self@.packets[0], self@.extra()),
    {
        if self.queue.len() == 0 {
            None
        } else {
            proof {
                lemma_total_size_nonnegative(self@.packets.drop_first(), self@.extra());
            }
            Some(self.queue[0].l3_length() + self.config.bw_type.extra_length())
        }
    }

    pub fn length(&self) -> (n: usize)
        ensures
            n == self@.packets.len(),
    {
        self.queue.len()
    }

    /// The bytes that are queued.
    pub fn backlog(&self) -> (n: usize)
        ensures
            n == self@.bytes,
    {
        self.now_bytes
    }

    /// Whether a measurement is going on.
    pub fn is_measuring(&self) -> (r: bool)
        ensures
            r == self@.start_measurement is Some,
    {
        self.start_measurement.is_some()
    }
}

/// One arrival accounts for at most one period of the grid: periods that were missed are
/// caught up with over the arrivals that follow, each by exactly one period.
pub proof fn law_updates_stay_on_the_grid<P: Packet>(m: PieModel<P>, t: Instant)
    requires
        m.start_update is Some,
        m.valid(),
    ensures
        m.arrived(t).start_update is Some,
        m.update_due(t) ==> m.arrived(t).start_update->0 == m.start_update->0
            + m.config.t_update && m.arrived(t).start_update->0 <= t,
        !m.update_due(t) ==> m.arrived(t).start_update == m.start_update,
{
}

/// A queue that holds no more than two packets takes every packet that the limits allow, as
/// does one that lets a burst through.
pub proof fn law_short_queue_conserves_work<P: Packet>(
    m: PieModel<P>,
    packet: P,
    bursting: bool,
    calm: bool,
    rolled: bool,
)
    requires
        m.admits(packet),
        bursting || m.bytes <= 2 * (MEAN_PKTSIZE + m.extra()),
    ensures
        m.enqueued(packet, bursting, calm, rolled).packets == m.packets.push(packet),
{
}

/// A packet is taken in, at the end of the queue, exactly if both limits still hold with it
/// and the draw does not hit it. Where a burst is let through, the queue is calm, or no more
/// is queued than two packets take up, the draw does not count. So a queue within its limits
/// stays within them.
pub proof fn law_pie_takes_what_fits_and_is_not_dropped<P: Packet>(
    m: PieModel<P>,
    packet: P,
    bursting: bool,
    calm: bool,
    rolled: bool,
)
    requires
        m.bytes + size_of(packet, m.extra()) <= usize::MAX,
    ensures
        ({
            let after = m.enqueued(packet, bursting, calm, rolled);
            let fits = (m.config.packet_limit is Some ==> m.packets.len() + 1
                <= m.config.packet_limit->0) && (m.config.byte_limit is Some ==> m.bytes
                + packet.l3() + m.config.bw_type.extra() <= m.config.byte_limit->0);
            let judged = !bursting && !calm && m.bytes > 3000 + 2 * m.config.bw_type.extra();
            &&& fits && !(judged && rolled) ==> after.packets == m.packets + seq![packet]
                && after.bytes == m.bytes + packet.l3() + m.config.bw_type.extra()
            &&& !fits || judged && rolled ==> after == m
            &&& m.needs_draw(packet, bursting, calm) <==> fits && judged
            &&& m.config.byte_limit is Some && m.bytes <= m.config.byte_limit->0 ==> after.bytes
                <= m.config.byte_limit->0
            &&& m.config.packet_limit is Some && m.packets.len() <= m.config.packet_limit->0
                ==> after.packets.len() <= m.config.packet_limit->0
            &&& after.dq_count == m.dq_count && after.start_measurement == m.start_measurement
        }),
{
}

/// First in, first out: without the oldest packet, the rest stays in its order, and the bytes
/// of that packet leave with it.
pub proof fn law_pie_is_first_in_first_out<P: Packet>(m: PieModel<P>)
    requires
        m.valid(),
        m.packets.len() > 0,
    ensures
        m.packets == seq![m.packets[0]] + m.popped().packets,
        m.bytes == m.popped().bytes + m.packets[0].l3() + m.config.bw_type.extra(),
{
    lemma_total_size_nonnegative(m.packets.drop_first(), m.extra());
}

/// The rate at which packets leave is measured while more than 16 KiB wait: a measurement
/// begins with the packet that leaves then, counts every byte that leaves from then on, and
/// ends once 16 KiB have left in some time. What it tells is the bytes that have left and the
/// time since it began. Packets stay as they are.
pub proof fn law_measurement_counts_what_leaves<P: Packet>(m: PieModel<P>, size: int, t: Instant)
    requires
        0 <= size,
        m.dq_count + size <= usize::MAX,
    ensures
        ({
            let begins = m.start_measurement is None && m.bytes > 16384;
            let going = begins || m.start_measurement is Some;
            let start = if begins {
                t
            } else {
                m.start_measurement->0
            };
            let counted = if begins {
                size
            } else {
                m.dq_count + size
            };
            let after = m.departed(size, t);
            let done = m.finished(size, t);
            &&& !going ==> done is None && after == m
            &&& done is Some <==> going && counted >= 16384 && t > start
            &&& done is Some ==> done->0.bytes == counted && done->0.interval == t - start
                && after.start_measurement is None && after.dq_count == 0
            &&& going && done is None && m.bytes >= 16384 ==> after.start_measurement == Some(
                start,
            ) && after.dq_count == counted
            &&& m.bytes < 16384 ==> after.start_measurement is None
            &&& after.packets == m.packets && after.bytes == m.bytes
            &&& after.start_update == m.start_update
        }),
{
}

/// The probability is brought up to date once a period has passed since the last point of the
/// grid, which begins with the first arrival.
pub proof fn law_pie_updates_in_each_period<P: Packet>(m: PieModel<P>, t: Instant)
    requires
        m.config.t_update > 0,
    ensures
        m.update_due(t) <==> m.start_update is Some && t - m.start_update->0
            >= m.config.t_update,
        m.start_update is None ==> m.arrived(t).start_update == Some(t),
        m.arrived(t).packets == m.packets && m.arrived(t).bytes == m.bytes
            && m.arrived(t).start_measurement == m.start_measurement && m.arrived(t).dq_count
            == m.dq_count,
{
}

/// A configuration is in order exactly if its target delay is above zero, its burst allowance
/// at least zero and its period above zero.
pub proof fn law_pie_configuration_in_order(c: PieQueueConfig)
    ensures
        c.fault() is None <==> (c.ref_del == Real::UpToOne || c.ref_del == Real::AboveOne) && (
        c.max_burst == Real::Zero || c.max_burst == Real::UpToOne || c.max_burst
            == Real::AboveOne) && c.t_update > 0,
{
}

/// A queue is zero-sized exactly if one of its limits is zero; then nothing gets in.
pub proof fn law_pie_without_a_buffer_takes_nothing<P: Packet>(m: PieModel<P>, packet: P)
    ensures
        m.zero_buffer() <==> m.config.packet_limit == Some(0usize) || m.config.byte_limit == Some(
            0usize,
        ),
        m.zero_buffer() && packet.l3() > 0 ==> !m.admits(packet),
{
}

} // verus!
