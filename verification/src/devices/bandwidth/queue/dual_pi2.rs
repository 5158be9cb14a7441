//! DualPI2: a queue for scalable (L4S) traffic beside one for classic traffic. A controller
//! computes one probability from the queueing delay; both queues drop and mark by it.
use super::ecn::{
    ce_marked, classify, code_point, is_ip, law_marking_keeps_the_checksum,
    law_marking_twice_is_marking_once, marked_as, set_ce, NOT_ECT,
};
use super::random::{
    later, next_u32, seeded, seeded_words, words_of, Words, QUEUE_SEED,
};
use crate::packet::{Packet, RawPacket};
use crate::sums::{lemma_sum_nonnegative, lemma_sum_push, sum_by};
use crate::time::{after, duration_since, elapsed, Duration, Instant, MILLISECOND};
use std::collections::VecDeque;
use vstd::prelude::*;

verus! {

/// When packets of the L4S queue are marked on top of what the controller does.
#[derive(Debug, Clone, Copy)]
pub enum ECNThreshHold {
    /// More than this many packets are queued.
    Packets(u32),
    /// The packet was queued for longer than this.
    Delay(Duration),
}

/// Mask used to determine whether a packet with a specific ECN mark goes into the L4S queue
/// or the classic queue.
#[derive(Debug, Clone, Copy, PartialEq, Eq, Structural)]
pub enum EcnCodePointMask {
    /// All code points are treated as classic.
    NoECN,
    /// Only ECT(1) and CE are treated as L4S.
    L4SECT,
    /// ECT(0), ECT(1) and CE are all treated as L4S, for compatibility with DCTCP.
    AnyECT,
}

impl EcnCodePointMask {
    /// The mask as bits.
    pub open spec fn bits(self) -> u8 {
        match self {
            EcnCodePointMask::NoECN => 0,
            EcnCodePointMask::L4SECT => 1,
            EcnCodePointMask::AnyECT => 3,
        }
    }

    pub fn value(&self) -> (bits: u8)
        ensures
            bits == self.bits(),
    {
        match self {
            EcnCodePointMask::NoECN => 0,
            EcnCodePointMask::L4SECT => 1,
            EcnCodePointMask::AnyECT => 3,
        }
    }

    /// The code points that the mask stands for: none; ECT(1) and CE; all but not-ECT.
    pub open spec fn selects(self, ect: u8) -> bool {
        match self {
            EcnCodePointMask::NoECN => false,
            EcnCodePointMask::L4SECT => ect == 1 || ect == 3,
            EcnCodePointMask::AnyECT => ect != 0,
        }
    }
}

/// The largest probability: certainty, for 32-bit draws.
pub const MAX_PROB: u32 = 0xffff_ffff;

/// The weights of the two queues are in percent.
pub const MAX_WC: u8 = 100;

/// A gain factor, given in 1/256 Hz, in the units that the controller works in: per 64 ns,
/// with certainty as `MAX_PROB`. Only the lower 32 bits are kept.
pub open spec fn scaled_gain(param: u32) -> u32 {
    (((param * 0x3fff_ffff) / 1_000_000_000) % 0x1_0000_0000) as u32
}

#[derive(Debug, Clone, Copy)]
pub struct DualPI2QueueConfig {
    /// Packets that can be queued in both queues together, `None` for unlimited.
    pub packet_limit: Option<usize>,
    /// Bytes that can be queued in both queues together, `None` for unlimited.
    pub byte_limit: Option<usize>,
    pub mtu: u32,
    /// Target delay.
    pub target: Duration,
    /// Time between two updates of the probability.
    pub tupdate: Duration,
    /// Gain factor for the integral rate response, scaled.
    pub alpha: u32,
    /// Gain factor for the proportional response, scaled.
    pub beta: u32,
    /// When the step AQM marks packets of the L4S queue.
    pub ecn_thresh: ECNThreshHold,
    /// Weight of the classic queue, in percent.
    pub c_protection_wc: u8,
    /// Coupling rate between classic and L4S.
    pub coupling_factor: u8,
    pub ecn_mask: EcnCodePointMask,
    /// Drop on enqueue in place of dequeue.
    pub drop_early: bool,
    /// Drop on overload (`true`) or overflow (`false`).
    pub drop_overload: bool,
}

impl DualPI2QueueConfig {
    pub fn new(
        packet_limit: Option<usize>,
        byte_limit: Option<usize>,
        mtu: u32,
        target: Duration,
        tupdate: Duration,
        alpha: u32,
        beta: u32,
        ecn_thresh: ECNThreshHold,
        c_protection_wc: u8,
        coupling_factor: u8,
        ecn_mask: EcnCodePointMask,
        drop_early: bool,
        drop_overload: bool,
    ) -> (c: Self)
        ensures
            c == (DualPI2QueueConfig {
                packet_limit,
                byte_limit,
                mtu,
                target,
                tupdate,
                alpha: scaled_gain(alpha),
                beta: scaled_gain(beta),
                ecn_thresh,
                c_protection_wc,
                coupling_factor,
                ecn_mask,
                drop_early,
                drop_overload,
            }),
    {
        DualPI2QueueConfig {
            packet_limit,
            byte_limit,
            mtu,
            target,
            tupdate,
            alpha: Self::scale_alpha_beta(alpha),
            beta: Self::scale_alpha_beta(beta),
            ecn_thresh,
            c_protection_wc,
            coupling_factor,
            ecn_mask,
            drop_early,
            drop_overload,
        }
    }

    /// A gain factor in the units of the controller.
    pub fn scale_alpha_beta(param: u32) -> (scaled: u32)
        ensures
            scaled == scaled_gain(param),
    {
        let product: u64 = (param as u64) * 0x3fff_ffff;
        ((product / 1_000_000_000) % 0x1_0000_0000) as u32
    }
}

impl Default for DualPI2QueueConfig {
    fn default() -> (c: Self)
        ensures
            c == (DualPI2QueueConfig {
                packet_limit: None,
                byte_limit: None,
                mtu: 1500,
                target: 15_000_000,
                tupdate: 16_000_000,
                alpha: 44,
                beta: 879,
                ecn_thresh: ECNThreshHold::Delay(1_000_000),
                c_protection_wc: 10,
                coupling_factor: 2,
                ecn_mask: EcnCodePointMask::L4SECT,
                drop_early: false,
                drop_overload: true,
            }),
    {
        DualPI2QueueConfig {
            packet_limit: None,
            byte_limit: None,
            mtu: 1500,
            target: 15 * MILLISECOND,
            tupdate: 16 * MILLISECOND,
            alpha: Self::scale_alpha_beta(41),
            beta: Self::scale_alpha_beta(819),
            ecn_thresh: ECNThreshHold::Delay(MILLISECOND),
            c_protection_wc: 10,
            coupling_factor: 2,
            ecn_mask: EcnCodePointMask::L4SECT,
            drop_early: false,
            drop_overload: true,
        }
    }
}

/// The queue that a packet belongs into.
#[derive(Debug, Clone, Copy, PartialEq, Eq, Structural)]
pub enum DualPI2ClassificationResult {
    /// The classic queue.
    Classic,
    /// The L4S queue: scalable marking, classic drops.
    L4S,
    /// The L4S queue: no drops and no marks.
    LNoDrop,
}

impl DualPI2ClassificationResult {
    /// The class that a number stands for.
    pub open spec fn numbered(value: u8) -> Self {
        if value == 1 {
            DualPI2ClassificationResult::L4S
        } else if value == 2 {
            DualPI2ClassificationResult::LNoDrop
        } else {
            DualPI2ClassificationResult::Classic
        }
    }

    pub fn from_number(value: u8) -> (class: Self)
        ensures
            class == Self::numbered(value),
    {
        match value {
            1 => DualPI2ClassificationResult::L4S,
            2 => DualPI2ClassificationResult::LNoDrop,
            _ => DualPI2ClassificationResult::Classic,
        }
    }
}

/// A packet and what was found out about it.
#[derive(Debug)]
pub struct DualPI2PacketControlBuffer<P> {
    /// The step AQM applies to the packet.
    pub apply_step: bool,
    /// The ECN code point that the packet came with.
    pub ect: u8,
    pub classified_result: DualPI2ClassificationResult,
    pub packet: P,
}

/// The class of a packet with ECN code point `ect`.
pub open spec fn class_of(ect: u8, mask: EcnCodePointMask) -> DualPI2ClassificationResult {
    if mask.selects(ect) {
        DualPI2ClassificationResult::L4S
    } else {
        DualPI2ClassificationResult::Classic
    }
}

impl<P: RawPacket> DualPI2PacketControlBuffer<P> {
    /// What is found out about `packet` when it comes.
    pub open spec fn classified(packet: P, mask: EcnCodePointMask) -> Self {
        DualPI2PacketControlBuffer {
            apply_step: false,
            ect: code_point(packet.bytes()),
            classified_result: class_of(code_point(packet.bytes()), mask),
            packet,
        }
    }

    pub fn new(packet: P) -> (b: Self)
        ensures
            b == (DualPI2PacketControlBuffer {
                apply_step: false,
                ect: NOT_ECT,
                classified_result: DualPI2ClassificationResult::Classic,
                packet,
            }),
    {
        DualPI2PacketControlBuffer {
            apply_step: false,
            ect: NOT_ECT,
            classified_result: DualPI2ClassificationResult::Classic,
            packet,
        }
    }

    /// Finds out the ECN code point and the class of the packet.
    pub fn classify(&mut self, mask: &EcnCodePointMask)
        ensures
            *final(self) == (DualPI2PacketControlBuffer {
                ect: code_point(old(self).packet.bytes()),
                classified_result: class_of(code_point(old(self).packet.bytes()), *mask),
                ..*old(self)
            }),
    {
        let ect: u8 = classify(&self.packet);
        let bits: u8 = mask.value();
        assert(ect < 4);
        assert((ect & bits != 0) == mask.selects(ect)) by {
            assert(ect & 0 == 0) by (bit_vector);
            assert(ect < 4 ==> ((ect & 1 != 0) == (ect == 1 || ect == 3))) by (bit_vector);
            assert(ect < 4 ==> ((ect & 3 != 0) == (ect != 0))) by (bit_vector);
        }
        self.ect = ect;
        self.classified_result = if ect & bits != 0 {
            DualPI2ClassificationResult::L4S
        } else {
            DualPI2ClassificationResult::Classic
        };
    }

    pub open spec fn in_l(self) -> bool {
        self.classified_result != DualPI2ClassificationResult::Classic
    }

    pub fn in_l_queue(&self) -> (r: bool)
        ensures
            r == self.in_l(),
    {
        self.classified_result != DualPI2ClassificationResult::Classic
    }

    pub fn is_l4s(&self) -> (r: bool)
        ensures
            r == (self.classified_result == DualPI2ClassificationResult::L4S),
    {
        self.classified_result == DualPI2ClassificationResult::L4S
    }

    /// `after` is this, with the packet marked.
    pub open spec fn marked_to(self, after: Self) -> bool {
        &&& marked_as(self.packet, after.packet)
        &&& after.apply_step == self.apply_step
        &&& after.ect == self.ect
        &&& after.classified_result == self.classified_result
    }

    /// Marks the packet with congestion experienced, if it is capable of ECN. Tells whether
    /// the packet carries the mark now.
    pub fn set_ce(&mut self) -> (marked: bool)
        ensures
            old(self).marked_to(*final(self)),
            marked == (code_point(old(self).packet.bytes()) != NOT_ECT),
    {
        set_ce(&mut self.packet)
    }
}

/// What has to be drawn before a packet is judged.
#[derive(Debug, Clone, Copy, PartialEq, Eq, Structural)]
pub enum Chance {
    /// Nothing.
    Never,
    /// A number that is at most the probability.
    Once(u32),
    /// Two numbers in a row that are at most the probability.
    Twice(u32),
}

impl Chance {
    /// How the draws come out, where `words` are drawn.
    pub open spec fn outcome(self, words: Words) -> bool {
        match self {
            Chance::Never => false,
            Chance::Once(p) => words(0) <= p,
            Chance::Twice(p) => words(0) <= p && words(1) <= p,
        }
    }

    /// How many words are drawn: after one that fails there is no other.
    pub open spec fn drawn(self, words: Words) -> nat {
        match self {
            Chance::Never => 0,
            Chance::Once(p) => 1,
            Chance::Twice(p) => if words(0) <= p {
                2
            } else {
                1
            },
        }
    }
}

/// The bytes that a queued packet counts for.
pub open spec fn frame_size<P: RawPacket>() -> spec_fn(DualPI2PacketControlBuffer<P>) -> int {
    |b: DualPI2PacketControlBuffer<P>| b.packet.l3() as int
}

/// The largest packet whose weighted length fits the credit.
pub const MAX_PACKET: usize = 8_421_504;

/// `delta / 64`, rounded towards zero.
pub open spec fn scaled_down(delta: int) -> int {
    if delta >= 0 {
        delta / 64
    } else {
        -((-delta) / 64)
    }
}

/// A probability within its bounds.
pub open spec fn clamped(prob: int) -> u32 {
    if prob > MAX_PROB {
        MAX_PROB
    } else if prob < 0 {
        0
    } else {
        prob as u32
    }
}

/// What a DualPI2 queue holds and remembers.
#[verifier::ext_equal]
pub struct DualPI2Model<P> {
    pub c_queue: Seq<DualPI2PacketControlBuffer<P>>,
    pub l_queue: Seq<DualPI2PacketControlBuffer<P>>,
    pub config: DualPI2QueueConfig,
    /// The probability that the controller has arrived at.
    pub pi2_prob: u32,
    pub last_prob_update: Instant,
    /// The classic queue is served before the L4S queue while this is positive.
    pub c_protection_credit: i32,
    /// The credit of an idle queue.
    pub c_protection_init: i32,
    /// Weight of the L4S queue, in percent.
    pub c_protection_wl: u8,
    /// When the head of the classic queue came.
    pub c_head_timestamp: Option<Instant>,
    /// When the head of the L4S queue came.
    pub l_head_timestamp: Option<Instant>,
    /// Queue delay at the last update of the probability.
    pub last_qdelay: Duration,
    pub packets_in_c: usize,
    pub bytes_in_c: usize,
    pub packets_in_l: usize,
    pub bytes_in_l: usize,
    /// Packets marked.
    pub ecn_mark: u32,
    /// Packets marked by the step AQM.
    pub step_marks: u32,
    /// Packets dropped on the way out.
    pub dropped_cnt: u32,
    /// Bytes dropped on the way out.
    pub dropped_len: u32,
}

/// When the head of `queue` came.
pub open spec fn head_time<P: RawPacket>(queue: Seq<DualPI2PacketControlBuffer<P>>) -> Option<
    Instant,
> {
    if queue.len() == 0 {
        None
    } else {
        Some(queue[0].packet.timestamp())
    }
}

/// How long the head of a queue has been there at `t`.
pub open spec fn head_delay(head: Option<Instant>, t: Instant) -> Duration {
    match head {
        Some(timestamp) => elapsed(t, timestamp),
        None => 0,
    }
}

impl<P: RawPacket> DualPI2Model<P> {
    /// The counters are those of the queued packets, and each packet is in the queue that it
    /// belongs into.
    pub open spec fn valid(self) -> bool {
        &&& self.c_protection_wl <= MAX_WC
        &&& self.packets_in_c == self.c_queue.len()
        &&& self.packets_in_l == self.l_queue.len()
        &&& self.bytes_in_c == sum_by(self.c_queue, frame_size())
        &&& self.bytes_in_l == sum_by(self.l_queue, frame_size())
        &&& self.c_head_timestamp == head_time(self.c_queue)
        &&& self.l_head_timestamp == head_time(self.l_queue)
        &&& forall|i: int|
            0 <= i < self.c_queue.len() ==> !(#[trigger] self.c_queue[i]).in_l()
                && self.c_queue[i].packet.l3() <= MAX_PACKET
        &&& forall|i: int|
            0 <= i < self.l_queue.len() ==> (#[trigger] self.l_queue[i]).in_l()
                && self.l_queue[i].packet.l3() <= MAX_PACKET
    }

    /// Packets in both queues.
    pub open spec fn packets(self) -> int {
        self.packets_in_c + self.packets_in_l
    }

    /// Bytes in both queues.
    pub open spec fn bytes(self) -> int {
        self.bytes_in_c + self.bytes_in_l
    }

    /// The delay of the queue whose head has waited longer, at `t`.
    pub open spec fn qdelay(self, t: Instant) -> Duration {
        let c = head_delay(self.c_head_timestamp, t);
        let l = head_delay(self.l_head_timestamp, t);
        if c > l {
            c
        } else {
            l
        }
    }

    /// By how much the probability is to move: with the distance of the delay from the
    /// target, and with the change of the delay.
    pub open spec fn delta(self, qdelay: Duration) -> int {
        (qdelay - self.config.target) * self.config.alpha + (qdelay - self.last_qdelay)
            * self.config.beta
    }

    /// The probability at `time_ref`.
    pub open spec fn next_prob(self, time_ref: Instant) -> u32 {
        let p = clamped(self.pi2_prob + scaled_down(self.delta(self.qdelay(time_ref))));
        if !self.config.drop_overload && p > MAX_PROB / self.config.coupling_factor as u32 {
            MAX_PROB / self.config.coupling_factor as u32
        } else {
            p
        }
    }

    /// One update of the probability.
    pub open spec fn ticked(self) -> Self {
        let t = (self.last_prob_update + self.config.tupdate) as i128;
        DualPI2Model {
            last_prob_update: t,
            last_qdelay: self.qdelay(t),
            pi2_prob: self.next_prob(t),
            ..self
        }
    }

    /// The probability is brought up to date: one update for each period that has passed.
    pub open spec fn updated(self, now: Instant) -> Self
        decreases elapsed(now, self.last_prob_update),
        when self.config.tupdate > 0
    {
        if elapsed(now, self.last_prob_update) >= self.config.tupdate {
            self.ticked().updated(now)
        } else {
            self
        }
    }

    /// An update at `t` stays within 64 bits.
    pub open spec fn delta_fits(self, t: Instant) -> bool {
        let q = self.qdelay(t);
        &&& q <= i64::MAX
        &&& self.config.target <= i64::MAX
        &&& self.last_qdelay <= i64::MAX
        &&& i64::MIN <= (q - self.config.target) * self.config.alpha <= i64::MAX
        &&& i64::MIN <= (q - self.last_qdelay) * self.config.beta <= i64::MAX
        &&& i64::MIN <= self.delta(q) <= i64::MAX
        &&& self.config.drop_overload || self.config.coupling_factor > 0
    }

    /// Every update up to `now` stays within 64 bits.
    pub open spec fn updatable(self, now: Instant) -> bool
        decreases elapsed(now, self.last_prob_update),
        when self.config.tupdate > 0
    {
        if elapsed(now, self.last_prob_update) >= self.config.tupdate {
            &&& self.delta_fits((self.last_prob_update + self.config.tupdate) as i128)
            &&& self.ticked().updatable(now)
        } else {
            true
        }
    }

    /// The probability can be brought up to date at `now`.
    pub open spec fn in_time(self, now: Instant) -> bool {
        self.config.tupdate > 0 && self.updatable(now)
    }

    /// The probability that an L4S packet is marked with, which may exceed certainty.
    pub open spec fn l_prob(self) -> int {
        self.pi2_prob * self.config.coupling_factor
    }

    pub open spec fn overload(self) -> bool {
        self.l_prob() > MAX_PROB
    }

    /// Hardly anything is queued: nothing is dropped.
    pub open spec fn is_short(self) -> bool {
        self.bytes() < 2 * self.config.mtu
    }

    /// What has to be drawn to judge a packet of `class`.
    pub open spec fn chance(self, class: DualPI2ClassificationResult) -> Chance {
        if self.is_short() {
            Chance::Never
        } else {
            match class {
                DualPI2ClassificationResult::Classic => Chance::Twice(self.pi2_prob),
                DualPI2ClassificationResult::L4S => if !self.overload() {
                    Chance::Once(self.l_prob() as u32)
                } else if self.config.drop_overload {
                    Chance::Twice(self.pi2_prob)
                } else {
                    Chance::Never
                },
                DualPI2ClassificationResult::LNoDrop => Chance::Never,
            }
        }
    }

    /// `b` is dropped, where the draws came out as `rolled`.
    pub open spec fn drops(self, b: DualPI2PacketControlBuffer<P>, rolled: bool) -> bool {
        &&& !self.is_short()
        &&& rolled
        &&& match b.classified_result {
            DualPI2ClassificationResult::Classic => self.overload() || b.ect == NOT_ECT,
            DualPI2ClassificationResult::L4S => if self.overload() {
                self.config.drop_overload
            } else {
                b.ect == NOT_ECT
            },
            DualPI2ClassificationResult::LNoDrop => false,
        }
    }

    /// `b` is marked, where the draws came out as `rolled`.
    pub open spec fn marks(self, b: DualPI2PacketControlBuffer<P>, rolled: bool) -> bool {
        &&& !self.is_short()
        &&& !self.drops(b, rolled)
        &&& match b.classified_result {
            DualPI2ClassificationResult::Classic => rolled,
            DualPI2ClassificationResult::L4S => rolled || self.overload(),
            DualPI2ClassificationResult::LNoDrop => false,
        }
    }

    /// A mark on `b` is counted, if `b` takes it.
    pub open spec fn mark_counted(self, b: DualPI2PacketControlBuffer<P>) -> Self {
        if code_point(b.packet.bytes()) != NOT_ECT {
            DualPI2Model { ecn_mark: (self.ecn_mark + 1) as u32, ..self }
        } else {
            self
        }
    }

    /// `b` has been judged.
    pub open spec fn judged(self, b: DualPI2PacketControlBuffer<P>, rolled: bool) -> Self {
        if self.marks(b, rolled) {
            self.mark_counted(b)
        } else {
            self
        }
    }

    /// A limit leaves no room for another packet.
    pub open spec fn is_full(self) -> bool {
        ||| self.config.packet_limit is Some && self.packets() >= self.config.packet_limit->0
        ||| self.config.byte_limit is Some && self.bytes() >= self.config.byte_limit->0
    }

    /// `b` joins its queue at `now`, carrying `packet`.
    pub open spec fn joined(
        self,
        b: DualPI2PacketControlBuffer<P>,
        packet: P,
        now: Instant,
    ) -> Self {
        let joining = DualPI2PacketControlBuffer {
            apply_step: b.in_l() && b.classified_result == DualPI2ClassificationResult::L4S
                && self.l_queue.len() > 1,
            packet: packet.stamped(now),
            ..b
        };
        if b.in_l() {
            DualPI2Model {
                l_queue: self.l_queue.push(joining),
                packets_in_l: (self.packets_in_l + 1) as usize,
                bytes_in_l: (self.bytes_in_l + packet.l3()) as usize,
                l_head_timestamp: if self.l_head_timestamp is None {
                    Some(now)
                } else {
                    self.l_head_timestamp
                },
                ..self
            }
        } else {
            DualPI2Model {
                c_queue: self.c_queue.push(joining),
                packets_in_c: (self.packets_in_c + 1) as usize,
                bytes_in_c: (self.bytes_in_c + packet.l3()) as usize,
                c_head_timestamp: if self.c_head_timestamp is None {
                    Some(now)
                } else {
                    self.c_head_timestamp
                },
                ..self
            }
        }
    }

    /// What has to be drawn when `packet` comes at `now`.
    pub open spec fn arrival_chance(self, packet: P, now: Instant) -> Chance {
        let m = self.updated(now);
        if m.is_full() || !m.config.drop_early {
            Chance::Never
        } else {
            m.chance(class_of(code_point(packet.bytes()), m.config.ecn_mask))
        }
    }

    /// `after` is the queue once `packet` has come at `now`, where the draws came out as
    /// `rolled`.
    pub open spec fn enqueued_to(
        self,
        packet: P,
        rolled: bool,
        now: Instant,
        after: Self,
    ) -> bool {
        let m = self.updated(now);
        let b = DualPI2PacketControlBuffer::classified(packet, m.config.ecn_mask);
        if m.is_full() || (m.config.drop_early && m.drops(b, rolled)) {
            after == m
        } else if m.config.drop_early && m.marks(b, rolled) {
            exists|marked: P| #[trigger]
                marked_as(packet, marked) && after == m.judged(b, rolled).joined(b, marked, now)
        } else {
            after == m.joined(b, packet, now)
        }
    }

    /// The counters fit the machine when the packet comes in.
    pub open spec fn room(self, packet: P) -> bool {
        &&& self.packets_in_c < usize::MAX
        &&& self.packets_in_l < usize::MAX
        &&& self.bytes_in_c + packet.l3() <= usize::MAX
        &&& self.bytes_in_l + packet.l3() <= usize::MAX
        &&& packet.l3() <= MAX_PACKET
        &&& self.ecn_mark < u32::MAX
    }

    /// The L4S queue is served next: it holds a packet, and the classic queue holds none or
    /// has no credit.
    pub open spec fn serves_l(self) -> bool {
        (self.c_queue.len() == 0 || self.c_protection_credit <= 0) && self.l_queue.len() > 0
    }

    /// The packet that leaves next.
    pub open spec fn next_packet(self) -> Option<DualPI2PacketControlBuffer<P>> {
        if self.serves_l() {
            Some(self.l_queue[0])
        } else if self.c_queue.len() > 0 {
            Some(self.c_queue[0])
        } else {
            None
        }
    }

    /// What the packet that leaves next does to the credit: an L4S packet that is sent before
    /// a classic one earns the classic queue credit, and a classic packet that is sent before
    /// an L4S one uses it up, by its length times the weight of the other queue. An idle
    /// queue starts over.
    pub open spec fn next_credit(self) -> int {
        if self.serves_l() {
            self.c_protection_credit + if self.c_queue.len() > 0 {
                self.config.c_protection_wc * self.l_queue[0].packet.l3()
            } else {
                0
            }
        } else if self.c_queue.len() > 0 {
            self.c_protection_credit - if self.l_queue.len() > 0 {
                self.c_protection_wl * self.c_queue[0].packet.l3()
            } else {
                0
            }
        } else {
            self.c_protection_init as int
        }
    }

    /// The packet that leaves next is taken out.
    pub open spec fn popped(self) -> Self {
        if self.serves_l() {
            DualPI2Model {
                l_queue: self.l_queue.drop_first(),
                packets_in_l: (self.packets_in_l - 1) as usize,
                bytes_in_l: (self.bytes_in_l - self.l_queue[0].packet.l3()) as usize,
                l_head_timestamp: head_time(self.l_queue.drop_first()),
                c_protection_credit: self.next_credit() as i32,
                ..self
            }
        } else if self.c_queue.len() > 0 {
            DualPI2Model {
                c_queue: self.c_queue.drop_first(),
                packets_in_c: (self.packets_in_c - 1) as usize,
                bytes_in_c: (self.bytes_in_c - self.c_queue[0].packet.l3()) as usize,
                c_head_timestamp: head_time(self.c_queue.drop_first()),
                c_protection_credit: self.next_credit() as i32,
                ..self
            }
        } else {
            DualPI2Model { c_protection_credit: self.c_protection_init, ..self }
        }
    }

    /// The L4S queue is longer, or `b` was in it for longer, than the step allows.
    pub open spec fn over_thresh(self, b: DualPI2PacketControlBuffer<P>, now: Instant) -> bool {
        match self.config.ecn_thresh {
            ECNThreshHold::Packets(thresh) => self.packets_in_l > thresh,
            ECNThreshHold::Delay(thresh) => elapsed(now, b.packet.timestamp()) > thresh,
        }
    }

    /// The step AQM acts on `b`.
    pub open spec fn steps(self, b: DualPI2PacketControlBuffer<P>, now: Instant) -> bool {
        b.in_l() && b.apply_step && self.over_thresh(b, now)
    }

    /// What has to be drawn before `b` leaves.
    pub open spec fn departure_chance(self, b: DualPI2PacketControlBuffer<P>) -> Chance {
        if self.config.drop_early {
            Chance::Never
        } else {
            self.chance(b.classified_result)
        }
    }

    /// `b`, which has been taken out, is dropped, and the drop is counted.
    pub open spec fn dropped(self, b: DualPI2PacketControlBuffer<P>) -> Self {
        DualPI2Model {
            dropped_cnt: (self.dropped_cnt + 1) as u32,
            dropped_len: (self.dropped_len + b.packet.l3()) as u32,
            ..self
        }
    }

    /// `b`, which has been taken out, is dropped, or sent with or without a mark: `None`, or
    /// whether it is marked.
    pub open spec fn settled(
        self,
        b: DualPI2PacketControlBuffer<P>,
        rolled: bool,
        now: Instant,
    ) -> (Self, Option<bool>) {
        let late = !self.config.drop_early;
        let m = if late {
            self.judged(b, rolled)
        } else {
            self
        };
        let marked = late && self.marks(b, rolled);
        if late && self.drops(b, rolled) {
            (self.dropped(b), None)
        } else if m.steps(b, now) {
            if b.ect == NOT_ECT {
                (m.dropped(b), None)
            } else if code_point(b.packet.bytes()) != NOT_ECT {
                (
                    DualPI2Model {
                        step_marks: (m.step_marks + 1) as u32,
                        ..m.mark_counted(b)
                    },
                    Some(true),
                )
            } else {
                (m, Some(true))
            }
        } else {
            (m, Some(marked))
        }
    }

    /// What asking for a packet does, once the probability is up to date and where `words`
    /// are drawn: the packet to send and whether it is to be marked, and how many words are
    /// drawn for it and for the packets that are dropped before it.
    pub open spec fn drained(self, words: Words, now: Instant) -> (Self, Option<(P, bool)>, nat)
        decreases self.c_queue.len() + self.l_queue.len(),
    {
        match self.next_packet() {
            None => (self.popped(), None, 0),
            Some(b) => {
                let m = self.popped();
                let chance = m.departure_chance(b);
                let n = chance.drawn(words);
                match m.settled(b, chance.outcome(words), now) {
                    (after, Some(marked)) => (after, Some((b.packet, marked)), n),
                    (after, None) => {
                        let (last, out, more) = after.drained(later(words, n), now);
                        (last, out, n + more)
                    },
                }
            },
        }
    }

    /// The counters of drops and marks fit the machine, whatever becomes of the queued
    /// packets.
    pub open spec fn countable(self) -> bool {
        self.countable_with(0, 0)
    }

    /// The counters fit the machine with `packets` more packets that hold `bytes` bytes.
    pub open spec fn countable_with(self, packets: int, bytes: int) -> bool {
        &&& self.dropped_cnt + self.packets() + packets <= u32::MAX
        &&& self.dropped_len + self.bytes() + bytes <= u32::MAX
        &&& self.ecn_mark + 2 * (self.packets() + packets) <= u32::MAX
        &&& self.step_marks + self.packets() + packets <= u32::MAX
    }
}

/// What is sent is the packet itself, or the packet with a mark.
pub open spec fn sent_as<P: RawPacket>(out: Option<(P, bool)>, packet: Option<P>) -> bool {
    match out {
        None => packet is None,
        Some((p, marked)) => {
            &&& packet is Some
            &&& if marked {
                marked_as(p, packet->0)
            } else {
                packet->0 == p
            }
        },
    }
}

/// Both queues, the controller and its draws.
pub struct DualPI2Queue<P> {
    c_queue: VecDeque<DualPI2PacketControlBuffer<P>>,
    l_queue: VecDeque<DualPI2PacketControlBuffer<P>>,
    config: DualPI2QueueConfig,
    pi2_prob: u32,
    last_prob_update: Instant,
    c_protection_credit: i32,
    c_protection_init: i32,
    c_protection_wl: u8,
    c_head_timestamp: Option<Instant>,
    l_head_timestamp: Option<Instant>,
    last_qdelay: Duration,
    packets_in_c: usize,
    bytes_in_c: usize,
    packets_in_l: usize,
    bytes_in_l: usize,
    ecn_mark: u32,
    step_marks: u32,
    dropped_cnt: u32,
    dropped_len: u32,
    rng: rand::rngs::StdRng,
}

impl<P> View for DualPI2Queue<P> {
    type V = DualPI2Model<P>;

    closed spec fn view(&self) -> DualPI2Model<P> {
        DualPI2Model {
            c_queue: self.c_queue@,
            l_queue: self.l_queue@,
            config: self.config,
            pi2_prob: self.pi2_prob,
            last_prob_update: self.last_prob_update,
            c_protection_credit: self.c_protection_credit,
            c_protection_init: self.c_protection_init,
            c_protection_wl: self.c_protection_wl,
            c_head_timestamp: self.c_head_timestamp,
            l_head_timestamp: self.l_head_timestamp,
            last_qdelay: self.last_qdelay,
            packets_in_c: self.packets_in_c,
            bytes_in_c: self.bytes_in_c,
            packets_in_l: self.packets_in_l,
            bytes_in_l: self.bytes_in_l,
            ecn_mark: self.ecn_mark,
            step_marks: self.step_marks,
            dropped_cnt: self.dropped_cnt,
            dropped_len: self.dropped_len,
        }
    }
}

impl<P: RawPacket> DualPI2Queue<P> {
    /// What will be drawn.
    pub closed spec fn words(self) -> Words {
        words_of(self.rng)
    }

    /// Two empty queues, made at `now`.
    pub fn new(config: DualPI2QueueConfig, now: Instant) -> (q: Self)
        requires
            config.c_protection_wc <= MAX_WC,
            config.mtu * MAX_WC <= i32::MAX,
        ensures
            q@ == (DualPI2Model {
                c_queue: Seq::<DualPI2PacketControlBuffer<P>>::empty(),
                l_queue: Seq::<DualPI2PacketControlBuffer<P>>::empty(),
                config,
                pi2_prob: 0,
                last_prob_update: now,
                c_protection_credit: (config.mtu * (2 * config.c_protection_wc - MAX_WC)) as i32,
                c_protection_init: (config.mtu * (2 * config.c_protection_wc - MAX_WC)) as i32,
                c_protection_wl: (MAX_WC - config.c_protection_wc) as u8,
                c_head_timestamp: None,
                l_head_timestamp: None,
                last_qdelay: 0,
                packets_in_c: 0,
                bytes_in_c: 0,
                packets_in_l: 0,
                bytes_in_l: 0,
                ecn_mark: 0,
                step_marks: 0,
                dropped_cnt: 0,
                dropped_len: 0,
            }),
            q@.valid(),
            q@.countable(),
            q.words() == seeded_words(QUEUE_SEED),
    {
        let wl: u8 = MAX_WC - config.c_protection_wc;
        let weight: i32 = (config.c_protection_wc as i32) - (wl as i32);
        assert(-i32::MAX <= config.mtu * weight <= i32::MAX) by (nonlinear_arith)
            requires
                config.mtu * 100 <= i32::MAX,
                -100 <= weight <= 100,
                config.mtu >= 0,
        ;
        let init: i32 = (config.mtu as i32) * weight;
        DualPI2Queue {
            c_queue: VecDeque::new(),
            l_queue: VecDeque::new(),
            config,
            pi2_prob: 0,
            last_prob_update: now,
            c_protection_credit: init,
            c_protection_init: init,
            c_protection_wl: wl,
            c_head_timestamp: None,
            l_head_timestamp: None,
            last_qdelay: 0,
            packets_in_c: 0,
            bytes_in_c: 0,
            packets_in_l: 0,
            bytes_in_l: 0,
            ecn_mark: 0,
            step_marks: 0,
            dropped_cnt: 0,
            dropped_len: 0,
            rng: seeded(QUEUE_SEED),
        }
    }

    pub fn configure(&mut self, config: DualPI2QueueConfig)
        ensures
            final(self).words() == old(self).words(),
            final(self)@ == (DualPI2Model { config, ..old(self)@ }),
    {
        self.config = config;
    }

    /// How long the head of the queue that waits longer has been there at `t`.
    fn queue_delay(&self, t: Instant) -> (d: Duration)
        ensures
            d == self@.qdelay(t),
    {
        let c: Duration = match self.c_head_timestamp {
            Some(timestamp) => duration_since(t, timestamp),
            None => 0,
        };
        let l: Duration = match self.l_head_timestamp {
            Some(timestamp) => duration_since(t, timestamp),
            None => 0,
        };
        if c > l {
            c
        } else {
            l
        }
    }

    /// `delta / 64`, rounded towards zero.
    fn scale_delta(delta: i64) -> (scaled: i64)
        ensures
            scaled == scaled_down(delta as int),
    {
        if delta >= 0 {
            delta / 64
        } else if delta == i64::MIN {
            -0x0200_0000_0000_0000
        } else {
            -((-delta) / 64)
        }
    }

    /// The probability at `time_ref`.
    fn calculate_prob(&mut self, time_ref: Instant) -> (prob: u32)
        requires
            old(self)@.delta_fits(time_ref),
        ensures
            final(self).words() == old(self).words(),
            prob == old(self)@.next_prob(time_ref),
            final(self)@ == (DualPI2Model {
                last_qdelay: old(self)@.qdelay(time_ref),
                ..old(self)@
            }),
    {
        let qdelay: Duration = self.queue_delay(time_ref);
        let off_target: i64 = (qdelay as i64) - (self.config.target as i64);
        let change: i64 = (qdelay as i64) - (self.last_qdelay as i64);
        let delta: i64 = off_target * (self.config.alpha as i64) + change * (
        self.config.beta as i64);
        let moved: i64 = (self.pi2_prob as i64) + Self::scale_delta(delta);
        let prob: u32 = if moved > MAX_PROB as i64 {
            MAX_PROB
        } else if moved < 0 {
            0
        } else {
            moved as u32
        };
        self.last_qdelay = qdelay;
        if !self.config.drop_overload {
            let cap: u32 = MAX_PROB / (self.config.coupling_factor as u32);
            if prob > cap {
                return cap;
            }
        }
        prob
    }

    /// Brings the probability up to date.
    fn update_prob(&mut self, now: Instant)
        requires
            old(self)@.in_time(now),
        ensures
            final(self).words() == old(self).words(),
            final(self)@ == old(self)@.updated(now),
            final(self)@.in_time(now),
            final(self)@.updated(now) == final(self)@,
            final(self)@.config == old(self)@.config,
            final(self)@ == (DualPI2Model {
                pi2_prob: final(self)@.pi2_prob,
                last_prob_update: final(self)@.last_prob_update,
                last_qdelay: final(self)@.last_qdelay,
                ..old(self)@
            }),
    {
        while duration_since(now, self.last_prob_update) >= self.config.tupdate
            invariant
                self.words() == old(self).words(),
                self@.in_time(now),
                self@.updated(now) == old(self)@.updated(now),
                self@ == (DualPI2Model {
                    pi2_prob: self@.pi2_prob,
                    last_prob_update: self@.last_prob_update,
                    last_qdelay: self@.last_qdelay,
                    ..old(self)@
                }),
            decreases elapsed(now, self@.last_prob_update),
        {
            let ghost before = self@;
            self.last_prob_update = after(self.last_prob_update, self.config.tupdate);
            self.pi2_prob = self.calculate_prob(self.last_prob_update);
            assert(self@ =~= before.ticked());
        }
    }

    /// What has to be drawn to judge a packet of `class`.
    fn chance(&self, class: DualPI2ClassificationResult) -> (chance: Chance)
        ensures
            chance == self@.chance(class),
    {
        let bytes: u128 = (self.bytes_in_c as u128) + (self.bytes_in_l as u128);
        if bytes < 2 * (self.config.mtu as u128) {
            return Chance::Never;
        }
        assert(self.pi2_prob * self.config.coupling_factor <= 0xffff_ffff * 0xff) by (
        nonlinear_arith)
            requires
                self.pi2_prob <= 0xffff_ffff,
                self.config.coupling_factor <= 0xff,
        ;
        let l_prob: u64 = (self.pi2_prob as u64) * (self.config.coupling_factor as u64);
        match class {
            DualPI2ClassificationResult::Classic => Chance::Twice(self.pi2_prob),
            DualPI2ClassificationResult::L4S => if l_prob <= MAX_PROB as u64 {
                Chance::Once(l_prob as u32)
            } else if self.config.drop_overload {
                Chance::Twice(self.pi2_prob)
            } else {
                Chance::Never
            },
            DualPI2ClassificationResult::LNoDrop => Chance::Never,
        }
    }

    /// Whether a number that is drawn is at most `prob`.
    fn roll(&mut self, prob: u32) -> (rolled: bool)
        ensures
            final(self)@ == old(self)@,
            final(self).words() == later(old(self).words(), 1),
            rolled == (old(self).words()(0) <= prob),
    {
        next_u32(&mut self.rng) <= prob
    }

    /// Draws what `chance` asks for.
    fn draw(&mut self, chance: Chance) -> (rolled: bool)
        ensures
            final(self)@ == old(self)@,
            final(self).words() == later(old(self).words(), chance.drawn(old(self).words())),
            rolled == chance.outcome(old(self).words()),
    {
        match chance {
            Chance::Never => false,
            Chance::Once(prob) => self.roll(prob),
            Chance::Twice(prob) => self.roll(prob) && self.roll(prob),
        }
    }

    /// Marks `b`, and counts it if `b` takes the mark. Tells whether it does.
    fn mark(&mut self, b: &mut DualPI2PacketControlBuffer<P>) -> (marked: bool)
        requires
            old(self)@.ecn_mark < u32::MAX,
        ensures
            final(self).words() == old(self).words(),
            old(b).marked_to(*final(b)),
            final(self)@ == old(self)@.mark_counted(*old(b)),
            marked == (code_point(old(b).packet.bytes()) != NOT_ECT),
    {
        let marked: bool = b.set_ce();
        if marked {
            self.ecn_mark = self.ecn_mark + 1;
        }
        marked
    }

    /// Judges `b` by draws that came out as `rolled`: marks it, or tells that it is to be
    /// dropped.
    pub fn must_drop(&mut self, b: &mut DualPI2PacketControlBuffer<P>, rolled: bool) -> (drop: bool)
        requires
            old(self)@.ecn_mark < u32::MAX,
        ensures
            final(self).words() == old(self).words(),
            drop == old(self)@.drops(*old(b), rolled),
            final(self)@ == old(self)@.judged(*old(b), rolled),
            old(self)@.marks(*old(b), rolled) ==> old(b).marked_to(*final(b)),
            !old(self)@.marks(*old(b), rolled) ==> *final(b) == *old(b),
    {
        let bytes: u128 = (self.bytes_in_c as u128) + (self.bytes_in_l as u128);
        if bytes < 2 * (self.config.mtu as u128) {
            return false;
        }
        assert(self.pi2_prob * self.config.coupling_factor <= 0xffff_ffff * 0xff) by (
        nonlinear_arith)
            requires
                self.pi2_prob <= 0xffff_ffff,
                self.config.coupling_factor <= 0xff,
        ;
        let l_prob: u64 = (self.pi2_prob as u64) * (self.config.coupling_factor as u64);
        let overload: bool = l_prob > MAX_PROB as u64;
        match b.classified_result {
            DualPI2ClassificationResult::Classic => {
                if rolled {
                    if overload || b.ect == NOT_ECT {
                        return true;
                    }
                    let _ = self.mark(b);
                }
                false
            },
            DualPI2ClassificationResult::L4S => {
                if overload {
                    if !(self.config.drop_overload && rolled) {
                        let _ = self.mark(b);
                        return false;
                    }
                    return true;
                }
                if rolled {
                    if b.ect == NOT_ECT {
                        return true;
                    }
                    let _ = self.mark(b);
                }
                false
            },
            DualPI2ClassificationResult::LNoDrop => false,
        }
    }

    /// Whether a limit leaves no room for another packet.
    fn is_full(&self) -> (full: bool)
        ensures
            full == self@.is_full(),
    {
        let too_many: bool = match self.config.packet_limit {
            Some(limit) => (self.packets_in_c as u128) + (self.packets_in_l as u128)
                >= limit as u128,
            None => false,
        };
        let too_much: bool = match self.config.byte_limit {
            Some(limit) => (self.bytes_in_c as u128) + (self.bytes_in_l as u128) >= limit as u128,
            None => false,
        };
        too_many || too_much
    }

    /// Puts `b` into its queue at `now`.
    fn join(&mut self, b: DualPI2PacketControlBuffer<P>, now: Instant)
        requires
            old(self)@.valid(),
            old(self)@.packets_in_c < usize::MAX,
            old(self)@.packets_in_l < usize::MAX,
            old(self)@.bytes_in_c + b.packet.l3() <= usize::MAX,
            old(self)@.bytes_in_l + b.packet.l3() <= usize::MAX,
            b.packet.l3() <= MAX_PACKET,
        ensures
            final(self).words() == old(self).words(),
            final(self)@.valid(),
            final(self)@ == old(self)@.joined(b, b.packet, now),
    {
        let ghost before = self@;
        let mut b = b;
        b.packet.delay_until(now);
        if b.in_l_queue() {
            b.apply_step = b.is_l4s() && self.l_queue.len() > 1;
            proof {
                lemma_sum_push(before.l_queue, b, frame_size());
            }
            self.packets_in_l = self.packets_in_l + 1;
            self.bytes_in_l = self.bytes_in_l + b.packet.l3_length();
            if self.l_head_timestamp.is_none() {
                self.l_head_timestamp = Some(b.packet.get_timestamp());
            }
            self.l_queue.push_back(b);
        } else {
            b.apply_step = false;
            proof {
                lemma_sum_push(before.c_queue, b, frame_size());
            }
            self.packets_in_c = self.packets_in_c + 1;
            self.bytes_in_c = self.bytes_in_c + b.packet.l3_length();
            if self.c_head_timestamp.is_none() {
                self.c_head_timestamp = Some(b.packet.get_timestamp());
            }
            self.c_queue.push_back(b);
        }
    }

    /// Brings the probability up to date and tells what has to be drawn for `packet`.
    pub fn arrival_chance(&mut self, packet: &P, now: Instant) -> (chance: Chance)
        requires
            old(self)@.in_time(now),
        ensures
            final(self).words() == old(self).words(),
            chance == old(self)@.arrival_chance(*packet, now),
            final(self)@ == old(self)@.updated(now),
            final(self)@.updated(now) == final(self)@,
            final(self)@.in_time(now),
            final(self)@ == (DualPI2Model {
                pi2_prob: final(self)@.pi2_prob,
                last_prob_update: final(self)@.last_prob_update,
                last_qdelay: final(self)@.last_qdelay,
                ..old(self)@
            }),
    {
        self.update_prob(now);
        if self.is_full() || !self.config.drop_early {
            return Chance::Never;
        }
        let ect: u8 = classify(packet);
        let selected: bool = match self.config.ecn_mask {
            EcnCodePointMask::NoECN => false,
            EcnCodePointMask::L4SECT => ect == 1 || ect == 3,
            EcnCodePointMask::AnyECT => ect != 0,
        };
        self.chance(
            if selected {
                DualPI2ClassificationResult::L4S
            } else {
                DualPI2ClassificationResult::Classic
            },
        )
    }

    /// Takes a packet in at `now`, where the draws came out as `rolled`.
    pub fn enqueue_rolled(&mut self, packet: P, rolled: bool, now: Instant)
        requires
            old(self)@.valid(),
            old(self)@.in_time(now),
            old(self)@.room(packet),
        ensures
            final(self).words() == old(self).words(),
            final(self)@.valid(),
            old(self)@.enqueued_to(packet, rolled, now, final(self)@),
    {
        self.update_prob(now);
        let ghost m = self@;
        let mut b = DualPI2PacketControlBuffer::new(packet);
        b.classify(&self.config.ecn_mask);
        let ghost classified = b;
        assert(classified == DualPI2PacketControlBuffer::classified(packet, m.config.ecn_mask));
        if self.is_full() {
            return;
        }
        if self.config.drop_early {
            if self.must_drop(&mut b, rolled) {
                return;
            }
        }
        let ghost judged = self@;
        let ghost marked = b.packet;
        self.join(b, now);
        assert(self@ == judged.joined(classified, marked, now));
    }

    /// Takes a packet in at `now`. Where packets are dropped early, a draw decides on it.
    pub fn enqueue(&mut self, packet: P, now: Instant)
        requires
            old(self)@.valid(),
            old(self)@.in_time(now),
            old(self)@.room(packet),
        ensures
            final(self)@.valid(),
            ({
                let chance = old(self)@.arrival_chance(packet, now);
                &&& old(self)@.enqueued_to(
                    packet,
                    chance.outcome(old(self).words()),
                    now,
                    final(self)@,
                )
                &&& final(self).words() == later(
                    old(self).words(),
                    chance.drawn(old(self).words()),
                )
            }),
    {
        let chance: Chance = self.arrival_chance(&packet, now);
        let ghost m = self@;
        let rolled: bool = self.draw(chance);
        self.enqueue_rolled(packet, rolled, now);
        assert(m.enqueued_to(packet, rolled, now, self@));
        assert(old(self)@.enqueued_to(packet, rolled, now, self@));
    }

    /// Takes out the packet that leaves next. It comes from the L4S queue, unless the classic
    /// queue has credit; a queue that holds nothing gives way to the other.
    pub fn dequeue_packet(&mut self) -> (b: Option<DualPI2PacketControlBuffer<P>>)
        requires
            old(self)@.valid(),
        ensures
            final(self).words() == old(self).words(),
            final(self)@.valid(),
            final(self)@ == old(self)@.popped(),
            b == old(self)@.next_packet(),
            b is Some ==> {
                &&& i32::MIN <= old(self)@.next_credit() <= i32::MAX
                &&& b->0.packet.l3() <= MAX_PACKET
                &&& final(self)@.packets() == old(self)@.packets() - 1
                &&& final(self)@.bytes() == old(self)@.bytes() - b->0.packet.l3()
            },
    {
        let ghost before = self@;
        if (self.c_queue.len() == 0 || self.c_protection_credit <= 0) && self.l_queue.len() > 0 {
            proof {
                lemma_head_is_counted(before.l_queue);
                lemma_weighted(before.config.c_protection_wc, before.l_queue[0].packet.l3());
            }
            match self.l_queue.pop_front() {
                Some(b) => {
                    assert(before.l_queue.drop_first() =~= before.l_queue.subrange(
                        1,
                        before.l_queue.len() as int,
                    ));
                    let size: usize = b.packet.l3_length();
                    self.l_head_timestamp = if self.l_queue.len() > 0 {
                        Some(self.l_queue[0].packet.get_timestamp())
                    } else {
                        None
                    };
                    if self.c_queue.len() > 0 {
                        self.c_protection_credit = self.c_protection_credit + (
                        self.config.c_protection_wc as i32) * (size as i32);
                    }
                    self.packets_in_l = self.packets_in_l - 1;
                    self.bytes_in_l = self.bytes_in_l - size;
                    proof {
                        lemma_rest_is_valid(before.l_queue);
                    }
                    Some(b)
                },
                None => None,
            }
        } else if self.c_queue.len() > 0 {
            proof {
                lemma_head_is_counted(before.c_queue);
                lemma_weighted(before.c_protection_wl, before.c_queue[0].packet.l3());
            }
            match self.c_queue.pop_front() {
                Some(b) => {
                    assert(before.c_queue.drop_first() =~= before.c_queue.subrange(
                        1,
                        before.c_queue.len() as int,
                    ));
                    let size: usize = b.packet.l3_length();
                    self.c_head_timestamp = if self.c_queue.len() > 0 {
                        Some(self.c_queue[0].packet.get_timestamp())
                    } else {
                        None
                    };
                    if self.l_queue.len() > 0 {
                        self.c_protection_credit = self.c_protection_credit - (
                        self.c_protection_wl as i32) * (size as i32);
                    }
                    self.packets_in_c = self.packets_in_c - 1;
                    self.bytes_in_c = self.bytes_in_c - size;
                    proof {
                        lemma_rest_is_valid(before.c_queue);
                    }
                    Some(b)
                },
                None => None,
            }
        } else {
            self.c_protection_credit = self.c_protection_init;
            None
        }
    }

    /// The step AQM: marks a packet of the L4S queue, or tells that it is to be dropped.
    fn do_step_aqm(&mut self, b: &mut DualPI2PacketControlBuffer<P>, now: Instant) -> (drop: bool)
        requires
            old(b).in_l(),
            old(self)@.ecn_mark < u32::MAX,
            old(self)@.step_marks < u32::MAX,
        ensures
            final(self).words() == old(self).words(),
            drop == (old(self)@.steps(*old(b), now) && old(b).ect == NOT_ECT),
            old(self)@.steps(*old(b), now) && old(b).ect != NOT_ECT ==> old(b).marked_to(
                *final(b),
            ) && final(self)@ == if code_point(old(b).packet.bytes()) != NOT_ECT {
                DualPI2Model {
                    step_marks: (old(self)@.step_marks + 1) as u32,
                    ..old(self)@.mark_counted(*old(b))
                }
            } else {
                old(self)@
            },
            !old(self)@.steps(*old(b), now) || old(b).ect == NOT_ECT ==> *final(b) == *old(b)
                && final(self)@ == old(self)@,
    {
        let over_thresh: bool = match self.config.ecn_thresh {
            ECNThreshHold::Packets(thresh) => self.packets_in_l as u64 > thresh as u64,
            ECNThreshHold::Delay(thresh) => duration_since(now, b.packet.get_timestamp()) > thresh,
        };
        if b.apply_step && over_thresh {
            if b.ect == NOT_ECT {
                return true;
            }
            if self.mark(b) {
                self.step_marks = self.step_marks + 1;
            }
        }
        false
    }

    /// Decides on `b`, which has been taken out, where the draws came out as `rolled`: drops
    /// it, or returns it with or without a mark.
    pub fn settle(
        &mut self,
        b: DualPI2PacketControlBuffer<P>,
        rolled: bool,
        now: Instant,
    ) -> (packet: Option<P>)
        requires
            old(self)@.valid(),
            old(self)@.countable_with(1, b.packet.l3() as int),
        ensures
            final(self).words() == old(self).words(),
            final(self)@.valid(),
            final(self)@ == old(self)@.settled(b, rolled, now).0,
            sent_as(
                match old(self)@.settled(b, rolled, now).1 {
                    Some(marked) => Some((b.packet, marked)),
                    None => None,
                },
                packet,
            ),
            final(self)@.countable(),
    {
        let ghost before = self@;
        let mut current = b;
        let late: bool = !self.config.drop_early;
        proof {
            law_marking_twice_is_marking_once(b.packet.bytes());
            lemma_marking_keeps_capability(b.packet.bytes());
        }
        let mut drop: bool = late && self.must_drop(&mut current, rolled);
        if !drop && current.in_l_queue() {
            drop = self.do_step_aqm(&mut current, now);
        }
        if drop {
            self.dropped_cnt = self.dropped_cnt + 1;
            self.dropped_len = self.dropped_len + (current.packet.l3_length() as u32);
            return None;
        }
        Some(current.packet)
    }

    /// Takes a packet out at `now`. If both queues are empty, or everything in them is
    /// dropped on the way out, returns `None`.
    pub fn dequeue(&mut self, now: Instant) -> (packet: Option<P>)
        requires
            old(self)@.valid(),
            old(self)@.countable(),
            old(self)@.in_time(now),
        ensures
            final(self)@.valid(),
            final(self)@.countable(),
            packet is None ==> final(self)@.packets() == 0,
            ({
                let drained = old(self)@.updated(now).drained(old(self).words(), now);
                &&& final(self)@ == drained.0
                &&& sent_as(drained.1, packet)
                &&& final(self).words() == later(old(self).words(), drained.2)
            }),
    {
        self.update_prob(now);
        let ghost start = self@;
        let ghost words = self.words();
        let ghost mut used: nat = 0;
        assert(later(words, 0) =~= words);
        loop
            invariant
                start == old(self)@.updated(now),
                words == old(self).words(),
                self@.valid(),
                self@.countable(),
                self.words() == later(words, used),
                ({
                    let rest = self@.drained(later(words, used), now);
                    start.drained(words, now) == (rest.0, rest.1, used + rest.2)
                }),
            decreases self@.packets(),
        {
            match self.dequeue_packet() {
                Some(b) => {
                    let ghost popped = self@;
                    let chance: Chance = if self.config.drop_early {
                        Chance::Never
                    } else {
                        self.chance(b.classified_result)
                    };
                    let ghost n = chance.drawn(self.words());
                    let rolled: bool = self.draw(chance);
                    proof {
                        assert(later(later(words, used), n) =~= later(words, used + n));
                        used = used + n;
                    }
                    match self.settle(b, rolled, now) {
                        Some(packet) => {
                            return Some(packet);
                        },
                        None => {},
                    }
                },
                None => {
                    return None;
                },
            }
        }
    }
}

/// Certainty cannot fail, whatever is drawn, and where nothing is drawn nothing comes of it.
pub proof fn law_certainty_cannot_fail(words: Words)
    ensures
        Chance::Once(MAX_PROB).outcome(words),
        Chance::Twice(MAX_PROB).outcome(words),
        !Chance::Never.outcome(words),
        Chance::Never.drawn(words) == 0,
{
}

/// While hardly anything is queued, no packet is dropped or marked, whatever is drawn.
pub proof fn law_short_queue_keeps_its_packets<P: RawPacket>(
    m: DualPI2Model<P>,
    b: DualPI2PacketControlBuffer<P>,
    rolled: bool,
)
    requires
        m.bytes() < 2 * m.config.mtu,
    ensures
        !m.drops(b, rolled),
        !m.marks(b, rolled),
        m.chance(b.classified_result) == Chance::Never,
{
}

/// No packet is both dropped and marked, and none is marked by a draw that failed unless the
/// queue is overloaded.
pub proof fn law_drop_or_mark<P: RawPacket>(
    m: DualPI2Model<P>,
    b: DualPI2PacketControlBuffer<P>,
    rolled: bool,
)
    ensures
        !(m.drops(b, rolled) && m.marks(b, rolled)),
        m.marks(b, rolled) ==> rolled || m.overload(),
        m.drops(b, rolled) ==> rolled,
{
}

/// Under `NoECN` every packet is classic. Under `L4SECT` only ECT(1) and CE are L4S, under
/// `AnyECT` every packet that is capable of ECN.
pub proof fn law_mask_selects_by_code_point(ect: u8)
    requires
        ect < 4,
    ensures
        class_of(ect, EcnCodePointMask::NoECN) == DualPI2ClassificationResult::Classic,
        class_of(ect, EcnCodePointMask::L4SECT) == DualPI2ClassificationResult::L4S <==> ect == 1
            || ect == 3,
        class_of(ect, EcnCodePointMask::AnyECT) == DualPI2ClassificationResult::L4S <==> ect != 0,
{
}

/// The probability stays what the coupled probability of the L4S queue can follow, if
/// overload is not to drop.
pub proof fn law_probability_is_capped<P: RawPacket>(m: DualPI2Model<P>, t: Instant)
    requires
        !m.config.drop_overload,
        m.config.coupling_factor > 0,
    ensures
        m.next_prob(t) * m.config.coupling_factor <= MAX_PROB,
{
    let k = m.config.coupling_factor as int;
    let p = m.next_prob(t) as int;
    let cap = MAX_PROB as int / k;
    assert(p <= cap);
    assert(p * k <= 4294967295) by (nonlinear_arith)
        requires
            0 <= p <= 4294967295int / k,
            k > 0,
    ;
}

/// The head of a queue is counted with the rest.
proof fn lemma_head_is_counted<P: RawPacket>(queue: Seq<DualPI2PacketControlBuffer<P>>)
    requires
        queue.len() > 0,
    ensures
        queue[0].packet.l3() <= sum_by(queue, frame_size()),
        sum_by(queue.drop_first(), frame_size()) == sum_by(queue, frame_size())
            - queue[0].packet.l3(),
{
    lemma_sum_nonnegative(queue.drop_first(), frame_size());
}

/// What remains of a queue is in the same order.
proof fn lemma_rest_is_valid<P: RawPacket>(queue: Seq<DualPI2PacketControlBuffer<P>>)
    requires
        queue.len() > 0,
    ensures
        forall|i: int|
            0 <= i < queue.len() - 1 ==> #[trigger] queue.drop_first()[i] == queue[i + 1],
{
}

/// A packet that is not too large can be weighted.
proof fn lemma_weighted(weight: u8, size: usize)
    requires
        size <= MAX_PACKET,
    ensures
        0 <= weight * size <= i32::MAX,
{
    assert(0 <= weight * size <= 255 * 8_421_504) by (nonlinear_arith)
        requires
            0 <= weight <= 255,
            0 <= size <= 8_421_504,
    ;
}

/// A mark does not change whether a frame is capable of ECN.
proof fn lemma_marking_keeps_capability(frame: Seq<u8>)
    ensures
        (code_point(ce_marked(frame)) == NOT_ECT) == (code_point(frame) == NOT_ECT),
{
    if is_ip(frame) {
        law_marking_keeps_the_checksum(frame);
    }
}

/// Bringing the probability up to date touches neither the packets nor the counters.
proof fn lemma_update_keeps_packets<P: RawPacket>(m: DualPI2Model<P>, now: Instant)
    requires
        m.config.tupdate > 0,
    ensures
        m.updated(now) == (DualPI2Model {
            pi2_prob: m.updated(now).pi2_prob,
            last_prob_update: m.updated(now).last_prob_update,
            last_qdelay: m.updated(now).last_qdelay,
            ..m
        }),
    decreases elapsed(now, m.last_prob_update),
{
    if elapsed(now, m.last_prob_update) >= m.config.tupdate {
        lemma_update_keeps_packets(m.ticked(), now);
    }
}

/// Congestion is signalled by a mark wherever the packet can carry one. As long as the coupled
/// probability does not exceed certainty, a packet that came with a code point other than
/// not-ECT is never dropped, in whichever queue it is: a draw that hits marks it. A packet
/// that came with not-ECT cannot be marked: a draw that hits drops it. A draw that fails does
/// nothing to either.
pub proof fn law_capable_packets_are_marked_not_dropped<P: RawPacket>(
    m: DualPI2Model<P>,
    b: DualPI2PacketControlBuffer<P>,
    rolled: bool,
)
    requires
        m.pi2_prob * m.config.coupling_factor <= u32::MAX,
    ensures
        b.ect != 0 ==> !m.drops(b, rolled),
        b.classified_result != DualPI2ClassificationResult::LNoDrop && m.bytes_in_c + m.bytes_in_l
            >= 2 * m.config.mtu && rolled ==> if b.ect == 0 {
            m.drops(b, rolled)
        } else {
            m.marks(b, rolled)
        },
        !rolled ==> !m.drops(b, rolled) && !m.marks(b, rolled),
{
}

/// Once the coupled probability exceeds certainty, a mark says nothing any more: a classic
/// packet that a draw hits is dropped, whatever it came with. An L4S packet is dropped by a
/// draw that hits only if overload is to drop, and is marked otherwise, without a draw.
pub proof fn law_overload_drops<P: RawPacket>(
    m: DualPI2Model<P>,
    b: DualPI2PacketControlBuffer<P>,
    rolled: bool,
)
    requires
        m.pi2_prob * m.config.coupling_factor > u32::MAX,
        m.bytes_in_c + m.bytes_in_l >= 2 * m.config.mtu,
    ensures
        b.classified_result == DualPI2ClassificationResult::Classic ==> m.drops(b, rolled)
            == rolled && !m.marks(b, rolled),
        b.classified_result == DualPI2ClassificationResult::L4S ==> m.drops(b, rolled) != m.marks(
            b,
            rolled,
        ) && (m.drops(b, rolled) <==> rolled && m.config.drop_overload),
{
}

/// The two classes are coupled. A classic packet is hit if two words in a row are at most the
/// probability, so with the square of it. An L4S packet is hit if one word is at most the
/// probability times the coupling factor. So with the same words an L4S packet is hit
/// wherever a classic one is.
pub proof fn law_classes_are_coupled<P: RawPacket>(m: DualPI2Model<P>, words: Words)
    requires
        m.bytes_in_c + m.bytes_in_l >= 2 * m.config.mtu,
        m.pi2_prob * m.config.coupling_factor <= u32::MAX,
    ensures
        ({
            let classic = m.chance(DualPI2ClassificationResult::Classic);
            let scalable = m.chance(DualPI2ClassificationResult::L4S);
            &&& classic.outcome(words) <==> words(0) <= m.pi2_prob && words(1) <= m.pi2_prob
            &&& scalable.outcome(words) <==> words(0) <= m.pi2_prob * m.config.coupling_factor
            &&& m.config.coupling_factor > 0 && classic.outcome(words) ==> scalable.outcome(words)
            &&& scalable.drawn(words) == 1
            &&& classic.drawn(words) == if words(0) <= m.pi2_prob {
                2nat
            } else {
                1
            }
        }),
{
    let p = m.pi2_prob as int;
    let k = m.config.coupling_factor as int;
    assert(k >= 1 && p >= 0 ==> p <= p * k) by (nonlinear_arith);
}

/// A packet that is capable of ECN, or that no draw hits on arrival, and that comes while
/// neither limit is reached and the coupled probability does not exceed certainty is taken
/// in, at the end of one of the queues. It carries congestion experienced if packets are
/// judged on arrival and the draws hit, and is as it came otherwise. Whatever comes, nothing
/// that waits is touched.
pub proof fn law_arrival_is_taken_in<P: RawPacket>(
    m: DualPI2Model<P>,
    packet: P,
    rolled: bool,
    now: Instant,
    after: DualPI2Model<P>,
)
    requires
        m.valid(),
        m.config.tupdate > 0,
        m.enqueued_to(packet, rolled, now, after),
    ensures
        m.c_queue.is_prefix_of(after.c_queue),
        m.l_queue.is_prefix_of(after.l_queue),
        after.c_queue.len() + after.l_queue.len() <= m.c_queue.len() + m.l_queue.len() + 1,
        (code_point(packet.bytes()) != 0 || !rolled || !m.config.drop_early) && m.updated(
            now,
        ).pi2_prob * m.config.coupling_factor <= u32::MAX && (m.config.packet_limit is Some ==> m.c_queue.len() + m.l_queue.len()
            < m.config.packet_limit->0) && (m.config.byte_limit is Some ==> m.bytes_in_c
            + m.bytes_in_l < m.config.byte_limit->0) ==> exists|arrived: P|
            {
                &&& code_point(arrived.bytes()) == if m.config.drop_early && rolled
                    && m.bytes_in_c + m.bytes_in_l >= 2 * m.config.mtu {
                    3
                } else {
                    code_point(packet.bytes())
                }
                &&& arrived.l3() == packet.l3()
                &&& after.c_queue.len() == m.c_queue.len() + 1 && after.l_queue == m.l_queue
                    && after.c_queue.last().packet == #[trigger] arrived.stamped(now)
                    || after.l_queue.len() == m.l_queue.len() + 1 && after.c_queue == m.c_queue
                    && after.l_queue.last().packet == arrived.stamped(now)
            },
{
    lemma_update_keeps_packets(m, now);
    let u = m.updated(now);
    let b = DualPI2PacketControlBuffer::classified(packet, u.config.ecn_mask);
    assert(m.c_queue.is_prefix_of(after.c_queue));
    assert(m.l_queue.is_prefix_of(after.l_queue));
    if is_ip(packet.bytes()) {
        law_marking_keeps_the_checksum(packet.bytes());
    }
    if u.is_full() || (u.config.drop_early && u.drops(b, rolled)) {
    } else if u.config.drop_early && u.marks(b, rolled) {
        let marked = choose|marked: P| #[trigger]
            marked_as(packet, marked) && after == u.judged(b, rolled).joined(b, marked, now);
        assert(after.c_queue.len() + after.l_queue.len() == m.c_queue.len() + m.l_queue.len() + 1);
        let arrived = marked.stamped(now);
        assert(after.c_queue.last().packet == arrived || after.l_queue.last().packet == arrived);
    } else {
        let arrived = packet.stamped(now);
        assert(after.c_queue.last().packet == arrived || after.l_queue.last().packet == arrived);
    }
}

/// A packet goes to the queue of its class: with the default mask, ECT(1) and congestion
/// experienced to the L4S queue, and the rest to the classic one.
pub proof fn law_arrival_joins_the_queue_of_its_class<P: RawPacket>(
    m: DualPI2Model<P>,
    packet: P,
    rolled: bool,
    now: Instant,
    after: DualPI2Model<P>,
)
    requires
        m.valid(),
        m.config.tupdate > 0,
        m.enqueued_to(packet, rolled, now, after),
    ensures
        m.config.ecn_mask == EcnCodePointMask::NoECN ==> after.l_queue == m.l_queue,
        m.config.ecn_mask == EcnCodePointMask::L4SECT ==> if code_point(packet.bytes()) == 1
            || code_point(packet.bytes()) == 3 {
            after.c_queue == m.c_queue
        } else {
            after.l_queue == m.l_queue
        },
        m.config.ecn_mask == EcnCodePointMask::AnyECT ==> if code_point(packet.bytes()) != 0 {
            after.c_queue == m.c_queue
        } else {
            after.l_queue == m.l_queue
        },
{
    lemma_update_keeps_packets(m, now);
}

/// A queue that starts within its limit of packets stays within it, and its bytes exceed
/// their limit by less than the packet that came last. At a limit nothing is taken in.
pub proof fn law_dual_queue_stays_within_its_limits<P: RawPacket>(
    m: DualPI2Model<P>,
    packet: P,
    rolled: bool,
    now: Instant,
    after: DualPI2Model<P>,
)
    requires
        m.valid(),
        m.config.tupdate > 0,
        m.room(packet),
        m.enqueued_to(packet, rolled, now, after),
    ensures
        m.config.packet_limit is Some && m.c_queue.len() + m.l_queue.len()
            <= m.config.packet_limit->0 ==> after.c_queue.len() + after.l_queue.len()
            <= m.config.packet_limit->0,
        m.config.byte_limit is Some && after.c_queue.len() + after.l_queue.len() > m.c_queue.len()
            + m.l_queue.len() ==> after.bytes_in_c + after.bytes_in_l < m.config.byte_limit->0
            + packet.l3(),
        m.config.packet_limit is Some && m.c_queue.len() + m.l_queue.len()
            >= m.config.packet_limit->0 || m.config.byte_limit is Some && m.bytes_in_c
            + m.bytes_in_l >= m.config.byte_limit->0 ==> after.c_queue == m.c_queue
            && after.l_queue == m.l_queue,
{
    lemma_update_keeps_packets(m, now);
}

/// A packet that is capable of ECN and is taken out while the coupled probability does not
/// exceed certainty is sent. It is sent with congestion experienced if packets are judged on
/// their way out and the draws hit; the drops do not go up, and the marks do.
pub proof fn law_capable_packet_is_sent<P: RawPacket>(
    m: DualPI2Model<P>,
    b: DualPI2PacketControlBuffer<P>,
    rolled: bool,
    now: Instant,
)
    requires
        b.ect == code_point(b.packet.bytes()),
        b.ect != 0,
        b.classified_result != DualPI2ClassificationResult::LNoDrop,
        m.pi2_prob * m.config.coupling_factor <= u32::MAX,
        m.ecn_mark + 2 <= u32::MAX,
    ensures
        m.settled(b, rolled, now).1 is Some,
        m.settled(b, rolled, now).0.dropped_cnt == m.dropped_cnt,
        m.settled(b, rolled, now).0.dropped_len == m.dropped_len,
        !m.config.drop_early && rolled && m.bytes_in_c + m.bytes_in_l >= 2 * m.config.mtu
            ==> m.settled(b, rolled, now).1 == Some(true) && m.settled(b, rolled, now).0.ecn_mark
            > m.ecn_mark,
        m.settled(b, rolled, now).1 == Some(false) ==> m.settled(b, rolled, now).0 == m,
{
}

/// A packet of the L4S queue that came behind others is marked without a draw once it has
/// waited for longer than the step allows, and dropped if it came with not-ECT. Within the
/// step, and in the classic queue, that does not happen.
pub proof fn law_step_marks_what_waited_too_long<P: RawPacket>(
    m: DualPI2Model<P>,
    b: DualPI2PacketControlBuffer<P>,
    thresh: Duration,
    now: Instant,
)
    requires
        m.config.ecn_thresh == ECNThreshHold::Delay(thresh),
        m.config.drop_early,
    ensures
        ({
            let out = m.settled(b, false, now).1;
            if b.apply_step && b.in_l() && now - b.packet.timestamp() > thresh {
                out == if b.ect == 0 {
                    None::<bool>
                } else {
                    Some(true)
                }
            } else {
                out == Some(false)
            }
        }),
{
}

/// The other way to give the step: by the packets that wait in the L4S queue.
pub proof fn law_step_marks_behind_a_long_queue<P: RawPacket>(
    m: DualPI2Model<P>,
    b: DualPI2PacketControlBuffer<P>,
    thresh: u32,
    now: Instant,
)
    requires
        m.valid(),
        m.config.ecn_thresh == ECNThreshHold::Packets(thresh),
        m.config.drop_early,
    ensures
        ({
            let out = m.settled(b, false, now).1;
            if b.apply_step && b.in_l() && m.l_queue.len() > thresh {
                out == if b.ect == 0 {
                    None::<bool>
                } else {
                    Some(true)
                }
            } else {
                out == Some(false)
            }
        }),
{
}

/// The packet that is taken out is the head of one of the queues, and the rest stays. While
/// both queues hold packets, the classic one is served exactly if it has credit, and what
/// the credit gains is the bytes of the L4S queue that are sent, by the weight of the classic
/// queue, less those of the classic queue, by the weight of the other. A queue that waits
/// alone is served at no cost.
pub proof fn law_credit_shares_the_link<P: RawPacket>(m: DualPI2Model<P>)
    requires
        m.valid(),
    ensures
        m.c_queue.len() > 0 && m.l_queue.len() > 0 ==> {
            &&& m.c_protection_credit > 0 ==> m.next_packet() == Some(m.c_queue[0])
                && m.popped().c_queue == m.c_queue.skip(1) && m.popped().l_queue == m.l_queue
            &&& m.c_protection_credit <= 0 ==> m.next_packet() == Some(m.l_queue[0])
                && m.popped().l_queue == m.l_queue.skip(1) && m.popped().c_queue == m.c_queue
            &&& m.popped().c_protection_credit - m.c_protection_credit
                == m.config.c_protection_wc * (m.bytes_in_l - m.popped().bytes_in_l)
                - m.c_protection_wl * (m.bytes_in_c - m.popped().bytes_in_c)
        },
        m.c_queue.len() > 0 && m.l_queue.len() == 0 ==> m.next_packet() == Some(m.c_queue[0])
            && m.popped().c_queue == m.c_queue.skip(1) && m.popped().c_protection_credit
            == m.c_protection_credit,
        m.c_queue.len() == 0 && m.l_queue.len() > 0 ==> m.next_packet() == Some(m.l_queue[0])
            && m.popped().l_queue == m.l_queue.skip(1) && m.popped().c_protection_credit
            == m.c_protection_credit,
        m.c_queue.len() == 0 && m.l_queue.len() == 0 ==> m.next_packet() is None
            && m.popped().c_protection_credit == m.c_protection_init,
{
    if m.c_queue.len() > 0 {
        lemma_head_is_counted(m.c_queue);
        lemma_weighted(m.c_protection_wl, m.c_queue[0].packet.l3());
        assert(m.c_queue.drop_first() =~= m.c_queue.skip(1));
    }
    if m.l_queue.len() > 0 {
        lemma_head_is_counted(m.l_queue);
        lemma_weighted(m.config.c_protection_wc, m.l_queue[0].packet.l3());
        assert(m.l_queue.drop_first() =~= m.l_queue.skip(1));
    }
    let wc = m.config.c_protection_wc as int;
    let wl = m.c_protection_wl as int;
    assert(wc * 0 == 0 && wl * 0 == 0) by (nonlinear_arith);
}

/// The queue once `n` packets have been taken out.
pub open spec fn popped_times<P: RawPacket>(m: DualPI2Model<P>, n: nat) -> DualPI2Model<P>
    decreases n,
{
    if n == 0 {
        m
    } else {
        popped_times(m, (n - 1) as nat).popped()
    }
}

/// Both queues held packets all the while that `n` packets were taken out.
pub open spec fn both_wait<P: RawPacket>(m: DualPI2Model<P>, n: nat) -> bool {
    forall|i: nat|
        i < n ==> (#[trigger] popped_times(m, i)).c_queue.len() > 0 && popped_times(
            m,
            i,
        ).l_queue.len() > 0
}

/// Over any run of packets during which both queues hold some, the bytes that they send,
/// each by the weight of the other queue, differ by no more than a largest packet and the
/// credit at the start.
pub proof fn law_both_queues_get_their_share<P: RawPacket>(m: DualPI2Model<P>, n: nat, size: int)
    requires
        m.valid(),
        both_wait(m, n),
        0 <= size <= MAX_PACKET,
        forall|i: int|
            0 <= i < m.c_queue.len() ==> (#[trigger] m.c_queue[i]).packet.l3() <= size,
        forall|i: int|
            0 <= i < m.l_queue.len() ==> (#[trigger] m.l_queue[i]).packet.l3() <= size,
        -m.c_protection_wl * size <= m.c_protection_credit <= m.config.c_protection_wc * size,
    ensures
        ({
            let after = popped_times(m, n);
            let sent_l = m.bytes_in_l - after.bytes_in_l;
            let sent_c = m.bytes_in_c - after.bytes_in_c;
            &&& m.config.c_protection_wc * sent_l - m.c_protection_wl * sent_c
                == after.c_protection_credit - m.c_protection_credit
            &&& -m.c_protection_wl * size <= after.c_protection_credit
                <= m.config.c_protection_wc * size
            &&& after.c_queue.len() <= m.c_queue.len() && after.l_queue.len() <= m.l_queue.len()
            &&& after.c_queue == m.c_queue.skip(m.c_queue.len() - after.c_queue.len())
            &&& after.l_queue == m.l_queue.skip(m.l_queue.len() - after.l_queue.len())
            &&& after.c_queue.len() + after.l_queue.len() + n == m.c_queue.len() + m.l_queue.len()
            &&& after.valid()
            &&& after.config == m.config
            &&& after.c_protection_wl == m.c_protection_wl
        }),
    decreases n,
{
    let wc = m.config.c_protection_wc as int;
    let wl = m.c_protection_wl as int;
    if n == 0 {
        assert(m.c_queue.skip(0) =~= m.c_queue);
        assert(m.l_queue.skip(0) =~= m.l_queue);
        assert(wc * 0 - wl * 0 == 0) by (nonlinear_arith);
    } else {
        let k = (n - 1) as nat;
        assert(both_wait(m, k));
        law_both_queues_get_their_share(m, k, size);
        let before = popped_times(m, k);
        let after = before.popped();
        assert(before.c_queue.len() > 0 && before.l_queue.len() > 0);
        law_credit_shares_the_link(before);
        lemma_head_is_counted(before.c_queue);
        lemma_head_is_counted(before.l_queue);
        lemma_rest_is_valid(before.c_queue);
        lemma_rest_is_valid(before.l_queue);
        let c = before.c_queue[0].packet.l3() as int;
        let l = before.l_queue[0].packet.l3() as int;
        let kc = m.c_queue.len() - before.c_queue.len();
        let kl = m.l_queue.len() - before.l_queue.len();
        assert(before.c_queue[0] == m.c_queue[kc]);
        assert(before.l_queue[0] == m.l_queue[kl]);
        assert(c <= size && l <= size);
        assert(0 <= wl * c <= wl * size && 0 <= wc * l <= wc * size) by (nonlinear_arith)
            requires
                0 <= c <= size,
                0 <= l <= size,
                wl >= 0,
                wc >= 0,
        ;
        assert(wc * l - wl * 0 == wc * l && wc * 0 - wl * c == -(wl * c)) by (nonlinear_arith);
        assert(-wl * size == -(wl * size)) by (nonlinear_arith);
        let l0 = m.bytes_in_l - before.bytes_in_l;
        let c0 = m.bytes_in_c - before.bytes_in_c;
        let l1 = before.bytes_in_l - after.bytes_in_l;
        let c1 = before.bytes_in_c - after.bytes_in_c;
        assert(wc * (l0 + l1) - wl * (c0 + c1) == (wc * l0 - wl * c0) + (wc * l1 - wl * c1))
            by (nonlinear_arith);
        assert(m.c_queue.skip(kc).skip(1) =~= m.c_queue.skip(kc + 1));
        assert(m.l_queue.skip(kl).skip(1) =~= m.l_queue.skip(kl + 1));
        lemma_popped_is_valid(before);
    }
}

/// The controller is proportional and integral. The probability moves by a 64th of `alpha`
/// times the distance of the delay from its target and `beta` times the change of the delay,
/// up to rounding, and stays at the bounds where that would pass them. So it never falls
/// while the delay is over its target and grows, nor rises while the delay is under it and
/// shrinks.
pub proof fn law_probability_follows_the_delay<P: RawPacket>(m: DualPI2Model<P>, t: Instant)
    requires
        m.config.drop_overload,
    ensures
        ({
            let q = m.qdelay(t);
            let d = (q - m.config.target) * m.config.alpha + (q - m.last_qdelay) * m.config.beta;
            let p = m.pi2_prob as int;
            let next = m.next_prob(t) as int;
            &&& next == 0 || next == u32::MAX || -64 < 64 * (next - p) - d < 64
            &&& next == 0 ==> 64 * p + d < 64
            &&& next == u32::MAX ==> 64 * (u32::MAX - p) < d + 64
            &&& d >= 0 ==> next >= p
            &&& d <= 0 ==> next <= p
            &&& q >= m.config.target && q >= m.last_qdelay ==> next >= p
            &&& q <= m.config.target && q <= m.last_qdelay ==> next <= p
        }),
{
    let q = m.qdelay(t);
    let x = q - m.config.target;
    let y = q - m.last_qdelay;
    let a = m.config.alpha as int;
    let b = m.config.beta as int;
    assert(x >= 0 && y >= 0 ==> x * a + y * b >= 0) by (nonlinear_arith)
        requires
            a >= 0,
            b >= 0,
    ;
    assert(x <= 0 && y <= 0 ==> x * a + y * b <= 0) by (nonlinear_arith)
        requires
            a >= 0,
            b >= 0,
    ;
}

/// Where overload is not to drop, the probability is the one it would be otherwise, up to
/// the largest one that the L4S queue can follow.
pub proof fn law_cap_changes_nothing_below_it<P: RawPacket>(m: DualPI2Model<P>, t: Instant)
    requires
        !m.config.drop_overload,
        m.config.coupling_factor > 0,
    ensures
        ({
            let free = DualPI2Model {
                config: DualPI2QueueConfig { drop_overload: true, ..m.config },
                ..m
            };
            &&& m.next_prob(t) <= free.next_prob(t)
            &&& m.next_prob(t) == free.next_prob(t) || (m.next_prob(t) + 1)
                * m.config.coupling_factor > u32::MAX
        }),
{
    let free = DualPI2Model {
        config: DualPI2QueueConfig { drop_overload: true, ..m.config },
        ..m
    };
    assert(free.qdelay(t) == m.qdelay(t));
    assert(free.delta(free.qdelay(t)) == m.delta(m.qdelay(t)));
    let k = m.config.coupling_factor as int;
    let cap = u32::MAX as int / k;
    assert((cap + 1) * k > 4294967295) by (nonlinear_arith)
        requires
            k > 0,
            cap == 4294967295int / k,
    ;
}

/// The delay that the controller looks at is that of the packet which waits longest: no head
/// of a queue has waited for longer, and one of them has waited for so long.
pub proof fn law_delay_is_that_of_the_longest_wait<P: RawPacket>(m: DualPI2Model<P>, t: Instant)
    requires
        m.valid(),
    ensures
        m.c_queue.len() > 0 ==> m.qdelay(t) >= t - m.c_queue[0].packet.timestamp(),
        m.l_queue.len() > 0 ==> m.qdelay(t) >= t - m.l_queue[0].packet.timestamp(),
        m.qdelay(t) > 0 ==> {
            ||| m.c_queue.len() > 0 && m.qdelay(t) == t - m.c_queue[0].packet.timestamp()
            ||| m.l_queue.len() > 0 && m.qdelay(t) == t - m.l_queue[0].packet.timestamp()
        },
{
}

/// The probability is updated once for each period: afterwards less than a period has passed
/// since the last update, and the updates are whole periods apart. Nothing but the
/// controller is touched.
pub proof fn law_probability_is_updated_in_each_period<P: RawPacket>(
    m: DualPI2Model<P>,
    now: Instant,
)
    requires
        m.config.tupdate > 0,
    ensures
        ({
            let u = m.updated(now);
            &&& now - u.last_prob_update < m.config.tupdate
            &&& u.last_prob_update >= m.last_prob_update
            &&& u.last_prob_update <= now || u == m
            &&& (u.last_prob_update - m.last_prob_update) % m.config.tupdate as int == 0
            &&& u.c_queue == m.c_queue && u.l_queue == m.l_queue
            &&& u.c_protection_credit == m.c_protection_credit
            &&& u.config == m.config
            &&& u.ecn_mark == m.ecn_mark && u.dropped_cnt == m.dropped_cnt
        }),
    decreases elapsed(now, m.last_prob_update),
{
    let p = m.config.tupdate as int;
    if elapsed(now, m.last_prob_update) >= m.config.tupdate {
        law_probability_is_updated_in_each_period(m.ticked(), now);
        let d = m.updated(now).last_prob_update - m.ticked().last_prob_update;
        vstd::arithmetic::div_mod::lemma_mod_add_multiples_vanish(d, p);
        assert(p + d == m.updated(now).last_prob_update - m.last_prob_update);
    } else {
        vstd::arithmetic::div_mod::lemma_small_mod(0, p as nat);
    }
}

/// Looking at the queue on the way does not change where the probability arrives.
pub proof fn law_probability_updates_add_up<P: RawPacket>(
    m: DualPI2Model<P>,
    t1: Instant,
    t2: Instant,
)
    requires
        m.config.tupdate > 0,
        t1 <= t2,
    ensures
        m.updated(t1).updated(t2) == m.updated(t2),
    decreases elapsed(t1, m.last_prob_update),
{
    if elapsed(t1, m.last_prob_update) >= m.config.tupdate {
        law_probability_updates_add_up(m.ticked(), t1, t2);
    }
}

/// Each queue is first in, first out. What asking for a packet leaves of a queue is its end;
/// the packet that is sent came last before what is left, the ones before it are dropped and
/// counted, and nothing is sent only if nothing is left.
pub proof fn law_dual_queue_hands_out_in_order<P: RawPacket>(
    m: DualPI2Model<P>,
    words: Words,
    now: Instant,
)
    requires
        m.valid(),
        m.dropped_cnt + m.c_queue.len() + m.l_queue.len() <= u32::MAX,
    ensures
        ({
            let (after, out, n) = m.drained(words, now);
            let from_c = m.c_queue.len() - after.c_queue.len();
            let from_l = m.l_queue.len() - after.l_queue.len();
            &&& from_c >= 0 && after.c_queue == m.c_queue.skip(from_c)
            &&& from_l >= 0 && after.l_queue == m.l_queue.skip(from_l)
            &&& out is Some ==> {
                ||| from_c > 0 && (out->0).0 == m.c_queue[from_c - 1].packet
                ||| from_l > 0 && (out->0).0 == m.l_queue[from_l - 1].packet
            }
            &&& out is None ==> after.c_queue.len() == 0 && after.l_queue.len() == 0
            &&& after.dropped_cnt - m.dropped_cnt == from_c + from_l - if out is Some {
                1int
            } else {
                0
            }
            &&& after.pi2_prob == m.pi2_prob
            &&& after.config == m.config
        }),
    decreases m.c_queue.len() + m.l_queue.len(),
{
    match m.next_packet() {
        None => {
            assert(m.c_queue.skip(0) =~= m.c_queue);
            assert(m.l_queue.skip(0) =~= m.l_queue);
        },
        Some(b) => {
            let p = m.popped();
            lemma_popped_is_valid(m);
            assert(p.c_queue =~= m.c_queue.skip(m.c_queue.len() - p.c_queue.len()));
            assert(p.l_queue =~= m.l_queue.skip(m.l_queue.len() - p.l_queue.len()));
            let chance = p.departure_chance(b);
            let k = chance.drawn(words);
            match p.settled(b, chance.outcome(words), now) {
                (after, Some(marked)) => {
                    assert(after.c_queue == p.c_queue && after.l_queue == p.l_queue);
                },
                (after, None) => {
                    assert(after.c_queue == p.c_queue && after.l_queue == p.l_queue);
                    law_dual_queue_hands_out_in_order(after, later(words, k), now);
                    let last = after.drained(later(words, k), now).0;
                    assert(last.c_queue =~= m.c_queue.skip(
                        m.c_queue.len() - last.c_queue.len(),
                    ));
                    assert(last.l_queue =~= m.l_queue.skip(
                        m.l_queue.len() - last.l_queue.len(),
                    ));
                },
            }
        },
    }
}

/// A queue is in order without the packet that leaves next.
proof fn lemma_popped_is_valid<P: RawPacket>(m: DualPI2Model<P>)
    requires
        m.valid(),
    ensures
        m.popped().valid(),
        m.next_packet() is Some ==> m.popped().c_queue.len() + m.popped().l_queue.len() + 1
            == m.c_queue.len() + m.l_queue.len(),
{
    if m.c_queue.len() > 0 {
        lemma_head_is_counted(m.c_queue);
        lemma_rest_is_valid(m.c_queue);
        lemma_sum_nonnegative(m.c_queue.drop_first(), frame_size());
    }
    if m.l_queue.len() > 0 {
        lemma_head_is_counted(m.l_queue);
        lemma_rest_is_valid(m.l_queue);
        lemma_sum_nonnegative(m.l_queue.drop_first(), frame_size());
    }
}

/// As long as the coupled probability does not exceed certainty, a packet that is capable of
/// ECN is the one that is sent when its turn comes, whatever is drawn, and nothing else
/// leaves with it.
pub proof fn law_capable_packet_leaves_in_its_turn<P: RawPacket>(
    m: DualPI2Model<P>,
    words: Words,
    now: Instant,
)
    requires
        m.valid(),
        m.next_packet() is Some,
        m.next_packet()->0.ect == code_point(m.next_packet()->0.packet.bytes()),
        m.next_packet()->0.ect != 0,
        m.next_packet()->0.classified_result != DualPI2ClassificationResult::LNoDrop,
        m.pi2_prob * m.config.coupling_factor <= u32::MAX,
        m.ecn_mark + 2 <= u32::MAX,
    ensures
        ({
            let (after, out, n) = m.drained(words, now);
            &&& out is Some
            &&& (out->0).0 == m.next_packet()->0.packet
            &&& after.c_queue.len() + after.l_queue.len() + 1 == m.c_queue.len()
                + m.l_queue.len()
            &&& after.dropped_cnt == m.dropped_cnt
        }),
{
    let b = m.next_packet()->0;
    let p = m.popped();
    law_capable_packet_is_sent(p, b, p.departure_chance(b).outcome(words), now);
}

/// A gain is scaled by a quarter of the largest probability for each second, rounded down, as
/// long as it fits.
pub proof fn law_gain_is_scaled(param: u32)
    requires
        param <= 4_000_000_000,
    ensures
        1_000_000_000 * scaled_gain(param) <= param * (u32::MAX / 4),
        param * (u32::MAX / 4) < 1_000_000_000 * (scaled_gain(param) + 1),
{
}

/// After one period the probability is the one that the controller computes for its end, and
/// the delay at that time is remembered for the next. Before the period has passed, both stay
/// as they are.
pub proof fn law_probability_changes_with_the_period<P: RawPacket>(
    m: DualPI2Model<P>,
    now: Instant,
)
    requires
        m.config.tupdate > 0,
        m.last_prob_update + m.config.tupdate <= i128::MAX,
        m.last_prob_update <= now,
        now - m.last_prob_update < 2 * m.config.tupdate,
    ensures
        ({
            let end = (m.last_prob_update + m.config.tupdate) as i128;
            let u = m.updated(now);
            &&& now >= end ==> u.pi2_prob == m.next_prob(end) && u.last_qdelay == m.qdelay(end)
            &&& now < end ==> u.pi2_prob == m.pi2_prob && u.last_qdelay == m.last_qdelay
        }),
{
    reveal_with_fuel(DualPI2Model::updated, 3);
}

/// A packet that is to be marked is sent with congestion experienced, of the same length and
/// at the same time; every other packet is sent as it is.
pub proof fn law_mark_is_on_what_is_sent<P: RawPacket>(
    p: P,
    marked: bool,
    packet: Option<P>,
)
    requires
        sent_as(Some((p, marked)), packet),
    ensures
        packet is Some,
        !marked ==> packet == Some(p),
        marked && code_point(p.bytes()) != 0 ==> code_point(packet->0.bytes()) == 3,
        packet->0.l3() == p.l3(),
        packet->0.timestamp() == p.timestamp(),
        packet->0.bytes().len() == p.bytes().len(),
        packet->0.label() == p.label(),
{
    if marked && is_ip(p.bytes()) {
        law_marking_keeps_the_checksum(p.bytes());
    }
}

/// The marks of the step are counted, each once among them and among all marks.
pub proof fn law_step_marks_are_counted<P: RawPacket>(
    m: DualPI2Model<P>,
    b: DualPI2PacketControlBuffer<P>,
    thresh: Duration,
    now: Instant,
)
    requires
        m.config.ecn_thresh == ECNThreshHold::Delay(thresh),
        m.config.drop_early,
        b.ect == code_point(b.packet.bytes()),
        b.ect != 0,
        m.step_marks < u32::MAX,
        m.ecn_mark < u32::MAX,
    ensures
        ({
            let after = m.settled(b, false, now).0;
            let steps = b.apply_step && b.in_l() && now - b.packet.timestamp() > thresh;
            &&& steps ==> after.step_marks == m.step_marks + 1 && after.ecn_mark == m.ecn_mark
                + 1
            &&& !steps ==> after.step_marks == m.step_marks && after.ecn_mark == m.ecn_mark
        }),
{
}

} // verus!
