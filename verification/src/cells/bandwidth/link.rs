//! The sending side of a link of limited rate: one packet is on the wire at a time, the
//! others wait in a queue.
use super::queue::aqm::{admissible, admitted, arrived, AQM};
use super::queue::{InfiniteQueue, PacketQueue};
use super::BwType;
use crate::cells::config_timestamp::CurrentConfig;
use crate::cells::{admission, admit_packet, Admission, CellState};
use crate::law::callable;
use crate::packet::Packet;
use crate::time::{after, later_of, latest, reachable, Duration, Instant, LARGE_DURATION};
use vstd::prelude::*;

verus! {

/// The rate of a link, in bits per second.
#[derive(Debug)]
pub enum Rate {
    /// The same at all times.
    Fixed(u64),
    /// As a trace gives it.
    Replayed(CurrentConfig<u64>),
}

impl Rate {
    /// The rate at `timestamp`; `None` where no rate has been set.
    pub open spec fn at(self, timestamp: Instant) -> Option<u64> {
        match self {
            Rate::Fixed(rate) => Some(rate),
            Rate::Replayed(config) => config.at(timestamp),
        }
    }

    pub fn get(&self, timestamp: Instant) -> (rate: Option<u64>)
        ensures
            rate == self.at(timestamp),
    {
        match self {
            Rate::Fixed(rate) => Some(*rate),
            Rate::Replayed(config) => match config.get_current(timestamp) {
                Some(rate) => Some(*rate),
                None => None,
            },
        }
    }
}

/// The bits that a packet of `length` bytes at the network layer takes on the link.
pub open spec fn bits_of(length: usize, bw_type: BwType) -> int {
    (length + bw_type.extra()) * 8
}

/// `d` is a time that `length` bytes at the network layer may take at `bandwidth` bits per
/// second: for ever, if there is no bandwidth; else what `transfer` returns for the bits.
pub open spec fn is_transfer_time<T: Fn(u64, u64) -> Duration>(
    transfer: T,
    length: usize,
    bandwidth: u64,
    bw_type: BwType,
    d: Duration,
) -> bool {
    if bandwidth == 0 {
        d == LARGE_DURATION
    } else {
        call_ensures(transfer, (bits_of(length, bw_type) as u64, bandwidth), d)
    }
}

/// The time that `length` bytes at the network layer take at `bandwidth` bits per second,
/// where `transfer` gives that of a number of bits.
pub fn transfer_time<T: Fn(u64, u64) -> Duration>(
    transfer: &T,
    length: usize,
    bandwidth: u64,
    bw_type: BwType,
) -> (d: Duration)
    requires
        callable(*transfer),
        bits_of(length, bw_type) <= usize::MAX,
    ensures
        is_transfer_time(*transfer, length, bandwidth, bw_type, d),
{
    let bits: usize = (length + bw_type.extra_length()) * 8;
    if bandwidth == 0 {
        LARGE_DURATION
    } else {
        transfer(bits as u64, bandwidth)
    }
}

/// `d` is a time that `packet` may take on the wire; none where no rate has been set.
pub open spec fn is_wire_time<P: Packet, T: Fn(u64, u64) -> Duration>(
    transfer: T,
    rate: Rate,
    bw_type: BwType,
    packet: P,
    d: Duration,
) -> bool {
    match rate.at(packet.timestamp()) {
        Some(rate) => is_transfer_time(transfer, packet.l3(), rate, bw_type, d),
        None => d == 0,
    }
}

/// What a link does next.
#[derive(Debug)]
pub enum LinkAction<P> {
    /// Wait for the next event.
    Wait,
    /// The call that asked for a packet ends with this one, or with none.
    Return(Option<P>),
}

/// A link: what is on the wire, what waits, and until when the wire is taken.
#[verifier::ext_equal]
pub struct LinkModel<P, M, T> {
    pub bw_type: BwType,
    pub rate: Rate,
    /// Packets that have not entered the queue yet.
    pub inbound: Seq<P>,
    pub queue: M,
    /// The timestamp of the packet that came last.
    pub latest: Option<Instant>,
    /// Until when the wire is taken.
    pub next_available: Instant,
    pub transmitting: Option<P>,
    pub state: CellState,
    /// The wire is free and no packet has been found to send.
    pub idle: bool,
    pub transfer: T,
}

impl<P: Packet, M, T: Fn(u64, u64) -> Duration> LinkModel<P, M, T> {
    /// `packet` is put on the wire, where it takes the time `d`.
    pub open spec fn with_on_wire(self, packet: P, d: Duration) -> Self {
        LinkModel {
            next_available: (later_of(self.next_available, packet.timestamp()) + d) as i128,
            transmitting: Some(packet),
            ..self
        }
    }

    /// `packet` goes on the wire if that is free. Otherwise it is lost.
    pub open spec fn sent(self, packet: P, after: Self) -> bool {
        if self.transmitting is None {
            exists|d: Duration| #[trigger]
                is_wire_time(self.transfer, self.rate, self.bw_type, packet, d) && after == self.with_on_wire(packet, d)
        } else {
            after == self
        }
    }

    /// Sending `packet` overflows nothing.
    pub open spec fn sendable(self, packet: P) -> bool {
        self.transmitting is None ==> {
            &&& bits_of(packet.l3(), self.bw_type) <= usize::MAX
            &&& forall|d: Duration| #[trigger]
                is_wire_time(self.transfer, self.rate, self.bw_type, packet, d) ==> reachable(
                    later_of(self.next_available, packet.timestamp()),
                    d,
                )
        }
    }

    /// Whether a packet has left the wire by `now`, and which: where none is on it, the link
    /// waits for one.
    pub open spec fn settled(self, now: Instant) -> (Self, LinkAction<P>) {
        match self.transmitting {
            None => (LinkModel { idle: true, ..self }, LinkAction::Wait),
            Some(p) => if self.next_available <= now {
                (
                    LinkModel { transmitting: None, idle: false, ..self },
                    LinkAction::Return(Some(p.stamped(self.next_available))),
                )
            } else {
                (LinkModel { idle: false, ..self }, LinkAction::Return(None))
            },
        }
    }

    /// When the link wants to be woken up: when the wire is free, or, if it is, when the next
    /// packet enters the queue; far in the future, if none is waiting to.
    pub open spec fn wake(self, now: Instant) -> int {
        if !self.idle {
            self.next_available as int
        } else if self.inbound.len() > 0 {
            self.inbound[0].timestamp() as int
        } else {
            now + LARGE_DURATION
        }
    }

    /// The packet on the wire has left it.
    pub open spec fn cleared(self) -> Self {
        LinkModel { transmitting: None, ..self }
    }

    pub open spec fn returned(self, packet: Option<P>) -> (Self, LinkAction<P>) {
        (LinkModel { idle: false, ..self }, LinkAction::Return(packet))
    }
}

/// `packet` has come to the link: into the buffer, or straight to the wire where the queue
/// is zero-sized.
pub open spec fn took<P: Packet, Q: PacketQueue<P>, T: Fn(u64, u64) -> Duration>(
    m: LinkModel<P, Q::Model, T>,
    packet: P,
    after: LinkModel<P, Q::Model, T>,
) -> bool {
    let seen = LinkModel { latest: Some(packet.timestamp()), ..m };
    if Q::zero_buffer(m.queue) {
        seen.sent(packet, after)
    } else {
        after == LinkModel { inbound: m.inbound.push(packet), ..seen }
    }
}

/// The queue as it is at `t`.
pub open spec fn queue_at<P: Packet, Q: PacketQueue<P>, T: Fn(u64, u64) -> Duration>(
    m: LinkModel<P, Q::Model, T>,
    t: Instant,
) -> Q::Model {
    admitted::<P, Q>(m.queue, m.inbound, t)
}

/// A packet has been taken from the queue at `t`, if it had one to give, and sent.
pub open spec fn pulled<P: Packet, Q: PacketQueue<P>, T: Fn(u64, u64) -> Duration>(
    before: LinkModel<P, Q::Model, T>,
    t: Instant,
    after: LinkModel<P, Q::Model, T>,
) -> bool {
    exists|packet: Option<P>|
        {
            &&& #[trigger] Q::dequeued(queue_at::<P, Q, T>(before, t), t, after.queue, packet)
            &&& {
                let rest = LinkModel {
                    inbound: before.inbound.skip(arrived(before.inbound, t) as int),
                    queue: after.queue,
                    ..before
                };
                match packet {
                    Some(p) => rest.sent(p, after),
                    None => after == rest,
                }
            }
        }
}

/// A packet can be taken from the queue at `t` and sent: nothing overflows on the way.
pub open spec fn pullable<P: Packet, Q: PacketQueue<P>, T: Fn(u64, u64) -> Duration>(
    m: LinkModel<P, Q::Model, T>,
    t: Instant,
) -> bool {
    &&& callable(m.transfer)
    &&& Q::valid(m.queue)
    &&& admissible::<P, Q>(m.queue, m.inbound, t)
    &&& Q::ready(queue_at::<P, Q, T>(m, t), t)
    &&& forall|q: Q::Model, p: P| #[trigger]
        Q::dequeued(queue_at::<P, Q, T>(m, t), t, q, Some(p)) ==> m.sendable(p)
}

/// What is on the wire has left it at `next_available`; the next packet of the queue takes
/// its place.
pub open spec fn advanced<P: Packet, Q: PacketQueue<P>, T: Fn(u64, u64) -> Duration>(
    before: LinkModel<P, Q::Model, T>,
    now: Instant,
    after: LinkModel<P, Q::Model, T>,
    action: LinkAction<P>,
) -> bool {
    exists|next: LinkModel<P, Q::Model, T>|
        {
            &&& #[trigger] pulled::<P, Q, T>(before.cleared(), before.next_available, next)
            &&& (after, action) == match before.transmitting {
                Some(p) => next.returned(Some(p.stamped(before.next_available))),
                None => next.settled(now),
            }
        }
}

/// What a packet does to the link. `None` means that no packet will come any more.
pub open spec fn on_packet_spec<P: Packet, Q: PacketQueue<P>, T: Fn(u64, u64) -> Duration>(
    before: LinkModel<P, Q::Model, T>,
    packet: Option<P>,
    now: Instant,
    after: LinkModel<P, Q::Model, T>,
    action: LinkAction<P>,
) -> bool {
    match packet {
        None => if before.idle {
            (after, action) == before.returned(None)
        } else {
            after == before && action == LinkAction::<P>::Wait
        },
        Some(p) => match admission(before.state, p) {
            Admission::Drop => (after, action) == before.returned(None),
            Admission::PassThrough(p) => (after, action) == before.returned(Some(p)),
            Admission::Normal(p) => exists|with: LinkModel<P, Q::Model, T>|
                {
                    &&& #[trigger] took::<P, Q, T>(before, p, with)
                    &&& if before.idle {
                        exists|next: LinkModel<P, Q::Model, T>|
                            {
                                &&& #[trigger] pulled::<P, Q, T>(with, p.timestamp(), next)
                                &&& (after, action) == next.settled(now)
                            }
                    } else if p.timestamp() < before.next_available {
                        after == with && action == LinkAction::<P>::Wait
                    } else {
                        advanced::<P, Q, T>(with, now, after, action)
                    }
                },
        },
    }
}

/// The packet overflows nothing.
pub open spec fn takes_packet<P: Packet, Q: PacketQueue<P>, T: Fn(u64, u64) -> Duration>(
    m: LinkModel<P, Q::Model, T>,
    packet: P,
) -> bool {
    &&& callable(m.transfer)
    &&& Q::zero_buffer(m.queue) ==> m.sendable(packet)
    &&& forall|with: LinkModel<P, Q::Model, T>| #[trigger]
        took::<P, Q, T>(m, packet, with) ==> {
            &&& m.idle ==> pullable::<P, Q, T>(with, packet.timestamp())
            &&& !m.idle && packet.timestamp() >= m.next_available ==> pullable::<P, Q, T>(
                with.cleared(),
                with.next_available,
            )
        }
}

/// The sending side of a link.
pub struct LinkEgress<P, Q, T> {
    bw_type: BwType,
    rate: Rate,
    packet_queue: AQM<Q, P>,
    next_available: Instant,
    transmitting_packet: Option<P>,
    state: CellState,
    idle: bool,
    transfer: T,
}

impl<P: Packet, Q: PacketQueue<P>, T: Fn(u64, u64) -> Duration> LinkEgress<P, Q, T> {
    pub closed spec fn model(self) -> LinkModel<P, Q::Model, T> {
        LinkModel {
            bw_type: self.bw_type,
            rate: self.rate,
            inbound: self.packet_queue.inbound(),
            queue: self.packet_queue.queue(),
            latest: self.packet_queue.latest(),
            next_available: self.next_available,
            transmitting: self.transmitting_packet,
            state: self.state,
            idle: self.idle,
            transfer: self.transfer,
        }
    }

    /// A link on which nothing is sent, at `now`. It drops what comes until its state is
    /// changed.
    pub fn new(rate: Rate, packet_queue: Q, bw_type: BwType, now: Instant, transfer: T) -> (e: Self)
        ensures
            e.model() == (LinkModel {
                bw_type,
                rate,
                inbound: Seq::<P>::empty(),
                queue: packet_queue.model(),
                latest: None,
                next_available: now,
                transmitting: None,
                state: CellState::Drop,
                idle: false,
                transfer,
            }),
    {
        LinkEgress {
            bw_type,
            rate,
            packet_queue: AQM::new(packet_queue),
            next_available: now,
            transmitting_packet: None,
            state: CellState::Drop,
            idle: false,
            transfer,
        }
    }

    pub fn change_state(&mut self, state: CellState)
        ensures
            final(self).model() == (LinkModel { state, ..old(self).model() }),
    {
        self.state = state;
    }

    pub fn set_bw_type(&mut self, bw_type: BwType)
        ensures
            final(self).model() == (LinkModel { bw_type, ..old(self).model() }),
    {
        self.bw_type = bw_type;
    }

    pub fn configure_queue(&mut self, config: Q::Config)
        ensures
            final(self).model() == (LinkModel {
                queue: Q::configured(old(self).model().queue, config),
                ..old(self).model()
            }),
    {
        self.packet_queue.configure(config);
    }

    /// Sets the time until which the wire is taken.
    pub fn set_next_available(&mut self, t: Instant)
        ensures
            final(self).model() == (LinkModel { next_available: t, ..old(self).model() }),
    {
        self.next_available = t;
    }

    pub fn set_rate(&mut self, rate: Rate)
        ensures
            final(self).model() == (LinkModel { rate, ..old(self).model() }),
    {
        self.rate = rate;
    }

    /// The rate at `timestamp`.
    pub fn rate_at(&self, timestamp: Instant) -> (rate: Option<u64>)
        ensures
            rate == self.model().rate.at(timestamp),
    {
        self.rate.get(timestamp)
    }

    /// Adds a value to a rate that is replayed, and returns the one that it takes the place
    /// of.
    pub fn update_rate(&mut self, rate: u64, since: Instant) -> (last: Option<u64>)
        requires
            old(self).model().rate is Replayed,
        ensures
            final(self).model() == (LinkModel {
                rate: final(self).model().rate,
                ..old(self).model()
            }),
            match (old(self).model().rate, final(self).model().rate) {
                (Rate::Replayed(before), Rate::Replayed(after)) => {
                    &&& before.updated(rate, since, after)
                    &&& last == after.last()
                },
                _ => false,
            },
    {
        match &mut self.rate {
            Rate::Replayed(config) => match config.update_get_last(rate, since) {
                Some(last) => Some(*last),
                None => None,
            },
            Rate::Fixed(_) => None,
        }
    }

    pub fn next_available(&self) -> (t: Instant)
        ensures
            t == self.model().next_available,
    {
        self.next_available
    }

    pub fn is_idle(&self) -> (idle: bool)
        ensures
            idle == self.model().idle,
    {
        self.idle
    }

    /// When the link wants to be woken up: when the wire is free, or, if it is, when the next
    /// packet enters the queue.
    pub fn wake_time(&self, now: Instant) -> (t: Instant)
        requires
            reachable(now, LARGE_DURATION),
        ensures
            t == self.model().wake(now),
    {
        if self.idle {
            self.packet_queue.next_call_time(now)
        } else {
            self.next_available
        }
    }

    /// Puts `packet` on the wire if that is free. Otherwise the packet is lost.
    fn set_transmitting_packet(&mut self, packet: P)
        requires
            callable(old(self).model().transfer),
            old(self).model().sendable(packet),
        ensures
            old(self).model().sent(packet, final(self).model()),
    {
        if self.transmitting_packet.is_none() {
            let time: Duration = match self.rate.get(packet.get_timestamp()) {
                Some(rate) => transfer_time(
                    &self.transfer,
                    packet.l3_length(),
                    rate,
                    self.bw_type,
                ),
                None => 0,
            };
            assert(is_wire_time(self.transfer, self.rate, self.bw_type, packet, time));
            self.next_available = after(latest(self.next_available, packet.get_timestamp()), time);
            self.transmitting_packet = Some(packet);
        }
    }

    /// Takes `packet` in.
    fn enqueue_packet(&mut self, packet: P)
        requires
            callable(old(self).model().transfer),
            Q::zero_buffer(old(self).model().queue) ==> old(self).model().sendable(packet),
        ensures
            took::<P, Q, T>(old(self).model(), packet, final(self).model()),
    {
        match self.packet_queue.enqueue(packet) {
            Some(packet) => {
                self.set_transmitting_packet(packet);
            },
            None => {},
        }
    }

    /// Takes a packet from the queue as it is at `t`, and sends it.
    fn pull(&mut self, t: Instant)
        requires
            pullable::<P, Q, T>(old(self).model(), t),
        ensures
            pulled::<P, Q, T>(old(self).model(), t, final(self).model()),
            Q::valid(final(self).model().queue),
    {
        let ghost before = self.model();
        let packet = self.packet_queue.dequeue_at(t);
        assert(Q::dequeued(queue_at::<P, Q, T>(before, t), t, self.model().queue, packet));
        match packet {
            Some(packet) => {
                self.set_transmitting_packet(packet);
            },
            None => {},
        }
    }

    /// Hands out the packet that has left the wire by `now`, if any.
    fn settle(&mut self, now: Instant) -> (action: LinkAction<P>)
        ensures
            (final(self).model(), action) == old(self).model().settled(now),
    {
        if self.transmitting_packet.is_none() {
            self.idle = true;
            return LinkAction::Wait;
        }
        self.idle = false;
        if self.next_available <= now {
            match self.transmitting_packet.take() {
                Some(mut packet) => {
                    packet.delay_until(self.next_available);
                    LinkAction::Return(Some(packet))
                },
                None => LinkAction::Wait,
            }
        } else {
            LinkAction::Return(None)
        }
    }

    /// The wire is free: hands out what was on it and sends the next packet.
    fn advance(&mut self, now: Instant) -> (action: LinkAction<P>)
        requires
            pullable::<P, Q, T>(
                old(self).model().cleared(),
                old(self).model().next_available,
            ),
        ensures
            advanced::<P, Q, T>(old(self).model(), now, final(self).model(), action),
            Q::valid(final(self).model().queue),
    {
        let ghost before = self.model();
        let leaving: Instant = self.next_available;
        let packet = self.transmitting_packet.take();
        assert(self.model() == before.cleared());
        self.pull(leaving);
        let ghost next = self.model();
        assert(pulled::<P, Q, T>(before.cleared(), before.next_available, next));
        match packet {
            Some(mut packet) => {
                packet.delay_until(leaving);
                self.idle = false;
                LinkAction::Return(Some(packet))
            },
            None => self.settle(now),
        }
    }

    /// A packet has come, or none will come any more.
    pub fn on_packet(&mut self, packet: Option<P>, now: Instant) -> (action: LinkAction<P>)
        requires
            packet is Some && old(self).model().state == CellState::Normal ==> takes_packet::<P, Q, T>(
                old(self).model(),
                packet->0,
            ),
        ensures
            on_packet_spec::<P, Q, T>(old(self).model(), packet, now, final(self).model(), action),
    {
        let ghost before = self.model();
        let packet = match packet {
            Some(packet) => packet,
            None => {
                if self.idle {
                    self.idle = false;
                    return LinkAction::Return(None);
                }
                return LinkAction::Wait;
            },
        };
        match admit_packet(self.state, packet) {
            Admission::Drop => {
                self.idle = false;
                LinkAction::Return(None)
            },
            Admission::PassThrough(packet) => {
                self.idle = false;
                LinkAction::Return(Some(packet))
            },
            Admission::Normal(packet) => {
                let timestamp: Instant = packet.get_timestamp();
                let due: bool = timestamp >= self.next_available;
                self.enqueue_packet(packet);
                let ghost with = self.model();
                assert(took::<P, Q, T>(before, packet, with));
                if self.idle {
                    self.pull(timestamp);
                    assert(pulled::<P, Q, T>(with, timestamp, self.model()));
                    self.settle(now)
                } else if due {
                    self.advance(now)
                } else {
                    LinkAction::Wait
                }
            },
        }
    }

    /// The time at which the link wanted to be woken up has come: `time` is that time.
    pub fn on_timer(&mut self, time: Instant, now: Instant) -> (action: LinkAction<P>)
        requires
            old(self).model().idle ==> pullable::<P, Q, T>(old(self).model(), time),
            !old(self).model().idle ==> pullable::<P, Q, T>(
                old(self).model().cleared(),
                old(self).model().next_available,
            ),
        ensures
            on_timer_spec::<P, Q, T>(old(self).model(), time, now, final(self).model(), action),
            Q::valid(final(self).model().queue),
    {
        if self.idle {
            let ghost before = self.model();
            self.pull(time);
            assert(pulled::<P, Q, T>(before, time, self.model()));
            self.settle(now)
        } else {
            self.advance(now)
        }
    }
}

/// What the timer does to the link.
pub open spec fn on_timer_spec<P: Packet, Q: PacketQueue<P>, T: Fn(u64, u64) -> Duration>(
    before: LinkModel<P, Q::Model, T>,
    time: Instant,
    now: Instant,
    after: LinkModel<P, Q::Model, T>,
    action: LinkAction<P>,
) -> bool {
    if before.idle {
        exists|next: LinkModel<P, Q::Model, T>|
            {
                &&& #[trigger] pulled::<P, Q, T>(before, time, next)
                &&& (after, action) == next.settled(now)
            }
    } else {
        advanced::<P, Q, T>(before, now, after, action)
    }
}

/// The wire is never given up before its time: whatever event comes, the time until which it is
/// taken does not go back, and what leaves the wire leaves it within that time.
pub open spec fn in_turn<P: Packet, M, T>(
    before: LinkModel<P, M, T>,
    after: LinkModel<P, M, T>,
    action: LinkAction<P>,
) -> bool {
    &&& after.next_available >= before.next_available
    &&& action matches LinkAction::Return(Some(out)) ==> exists|p: P, t: Instant|
        {
            &&& out == #[trigger] p.stamped(t)
            &&& before.next_available <= t <= after.next_available
        }
}

proof fn lemma_sent_in_turn<P: Packet, M, T: Fn(u64, u64) -> Duration>(
    before: LinkModel<P, M, T>,
    packet: P,
    after: LinkModel<P, M, T>,
)
    requires
        before.sendable(packet),
        before.sent(packet, after),
    ensures
        after.next_available >= before.next_available,
{
}

proof fn lemma_pulled_in_turn<P: Packet, Q: PacketQueue<P>, T: Fn(u64, u64) -> Duration>(
    before: LinkModel<P, Q::Model, T>,
    t: Instant,
    after: LinkModel<P, Q::Model, T>,
)
    requires
        pullable::<P, Q, T>(before, t),
        pulled::<P, Q, T>(before, t, after),
    ensures
        after.next_available >= before.next_available,
{
    let packet = choose|packet: Option<P>|
        {
            &&& #[trigger] Q::dequeued(queue_at::<P, Q, T>(before, t), t, after.queue, packet)
            &&& {
                let rest = LinkModel {
                    inbound: before.inbound.skip(arrived(before.inbound, t) as int),
                    queue: after.queue,
                    ..before
                };
                match packet {
                    Some(p) => rest.sent(p, after),
                    None => after == rest,
                }
            }
        };
    match packet {
        Some(p) => {
            let rest = LinkModel {
                inbound: before.inbound.skip(arrived(before.inbound, t) as int),
                queue: after.queue,
                ..before
            };
            assert(before.sendable(p));
            lemma_sent_in_turn(rest, p, after);
        },
        None => {},
    }
}

proof fn lemma_advanced_in_turn<P: Packet, Q: PacketQueue<P>, T: Fn(u64, u64) -> Duration>(
    before: LinkModel<P, Q::Model, T>,
    now: Instant,
    after: LinkModel<P, Q::Model, T>,
    action: LinkAction<P>,
)
    requires
        pullable::<P, Q, T>(before.cleared(), before.next_available),
        advanced::<P, Q, T>(before, now, after, action),
    ensures
        in_turn(before, after, action),
{
    let next = choose|next: LinkModel<P, Q::Model, T>|
        {
            &&& #[trigger] pulled::<P, Q, T>(before.cleared(), before.next_available, next)
            &&& (after, action) == match before.transmitting {
                Some(p) => next.returned(Some(p.stamped(before.next_available))),
                None => next.settled(now),
            }
        };
    lemma_pulled_in_turn::<P, Q, T>(before.cleared(), before.next_available, next);
}

/// In normal operation packets leave a link one after the other: what a packet makes leave it
/// is stamped with a time no earlier than the one until which the wire was taken, and no later
/// than the one until which it is taken then.
pub proof fn law_link_sends_in_turn<P: Packet, Q: PacketQueue<P>, T: Fn(u64, u64) -> Duration>(
    before: LinkModel<P, Q::Model, T>,
    packet: P,
    now: Instant,
    after: LinkModel<P, Q::Model, T>,
    action: LinkAction<P>,
)
    requires
        before.state == CellState::Normal,
        takes_packet::<P, Q, T>(before, packet),
        on_packet_spec::<P, Q, T>(before, Some(packet), now, after, action),
    ensures
        in_turn(before, after, action),
{
    let with = choose|with: LinkModel<P, Q::Model, T>|
        {
            &&& #[trigger] took::<P, Q, T>(before, packet, with)
            &&& if before.idle {
                exists|next: LinkModel<P, Q::Model, T>|
                    {
                        &&& #[trigger] pulled::<P, Q, T>(with, packet.timestamp(), next)
                        &&& (after, action) == next.settled(now)
                    }
            } else if packet.timestamp() < before.next_available {
                after == with && action == LinkAction::<P>::Wait
            } else {
                advanced::<P, Q, T>(with, now, after, action)
            }
        };
    if Q::zero_buffer(before.queue) {
        let seen = LinkModel { latest: Some(packet.timestamp()), ..before };
        lemma_sent_in_turn(seen, packet, with);
    }
    if before.idle {
        let next = choose|next: LinkModel<P, Q::Model, T>|
            {
                &&& #[trigger] pulled::<P, Q, T>(with, packet.timestamp(), next)
                &&& (after, action) == next.settled(now)
            };
        lemma_pulled_in_turn::<P, Q, T>(with, packet.timestamp(), next);
    } else if packet.timestamp() >= before.next_available {
        lemma_advanced_in_turn::<P, Q, T>(with, now, after, action);
    }
}

/// The same holds of what the timer makes leave.
pub proof fn law_timer_sends_in_turn<P: Packet, Q: PacketQueue<P>, T: Fn(u64, u64) -> Duration>(
    before: LinkModel<P, Q::Model, T>,
    time: Instant,
    now: Instant,
    after: LinkModel<P, Q::Model, T>,
    action: LinkAction<P>,
)
    requires
        before.idle ==> pullable::<P, Q, T>(before, time),
        !before.idle ==> pullable::<P, Q, T>(before.cleared(), before.next_available),
        on_timer_spec::<P, Q, T>(before, time, now, after, action),
    ensures
        in_turn(before, after, action),
{
    if before.idle {
        let next = choose|next: LinkModel<P, Q::Model, T>|
            {
                &&& #[trigger] pulled::<P, Q, T>(before, time, next)
                &&& (after, action) == next.settled(now)
            };
        lemma_pulled_in_turn::<P, Q, T>(before, time, next);
    } else {
        lemma_advanced_in_turn::<P, Q, T>(before, now, after, action);
    }
}

/// Nothing leaves a link before the time until which the wire is taken, in real time either.
pub proof fn law_nothing_leaves_early<P: Packet, M, T: Fn(u64, u64) -> Duration>(
    m: LinkModel<P, M, T>,
    now: Instant,
)
    ensures
        m.settled(now).1 matches LinkAction::Return(Some(_)) ==> m.next_available <= now,
{
}

/// Where the queue is zero-sized, a packet that comes while another is on the wire is lost.
pub proof fn law_no_buffer_loses_what_comes_while_busy<
    P: Packet,
    Q: PacketQueue<P>,
    T: Fn(u64, u64) -> Duration,
>(before: LinkModel<P, Q::Model, T>, packet: P, after: LinkModel<P, Q::Model, T>)
    requires
        Q::zero_buffer(before.queue),
        before.transmitting is Some,
        took::<P, Q, T>(before, packet, after),
    ensures
        after == (LinkModel { latest: Some(packet.timestamp()), ..before }),
{
}

/// A packet that is put on a free wire takes it from the time at which it is there and the
/// wire is free, for the time that its bits take at the rate of that time: never less than
/// nothing, for ever where there is no bandwidth, and no time where no rate has been set.
pub proof fn law_packet_takes_its_time_on_the_wire<P: Packet, M, T: Fn(u64, u64) -> Duration>(
    m: LinkModel<P, M, T>,
    packet: P,
    after: LinkModel<P, M, T>,
)
    requires
        m.transmitting is None,
        m.sendable(packet),
        m.sent(packet, after),
    ensures
        after.transmitting == Some(packet),
        ({
            let start = if m.next_available >= packet.timestamp() {
                m.next_available
            } else {
                packet.timestamp()
            };
            match m.rate.at(packet.timestamp()) {
                None => after.next_available == start,
                Some(rate) => {
                    &&& rate == 0 ==> after.next_available == start + LARGE_DURATION
                    &&& rate > 0 ==> exists|d: Duration| #[trigger]
                        call_ensures(
                            m.transfer,
                            (((packet.l3() + m.bw_type.extra()) * 8) as u64, rate),
                            d,
                        ) && after.next_available == start + d
                },
            }
        }),
        after.queue == m.queue && after.inbound == m.inbound && after.rate == m.rate,
{
    let d = choose|d: Duration| #[trigger]
        is_wire_time(m.transfer, m.rate, m.bw_type, packet, d) && after == m.with_on_wire(
            packet,
            d,
        );
    assert(is_wire_time(m.transfer, m.rate, m.bw_type, packet, d));
}

/// What has been on the wire until its time leaves exactly then, and what is on it before its
/// time stays there.
pub proof fn law_what_is_due_leaves<P: Packet, M, T: Fn(u64, u64) -> Duration>(
    m: LinkModel<P, M, T>,
    now: Instant,
)
    ensures
        m.transmitting is Some && m.next_available <= now ==> {
            &&& m.settled(now).1 == LinkAction::Return(
                Some(m.transmitting->0.stamped(m.next_available)),
            )
            &&& m.settled(now).0.transmitting is None
        },
        m.transmitting is Some && m.next_available > now ==> m.settled(now).0.transmitting
            == m.transmitting && m.settled(now).1 == LinkAction::<P>::Return(None),
        m.transmitting is None ==> m.settled(now).0.idle && m.settled(now).1
            == LinkAction::<P>::Wait,
        m.settled(now).0.queue == m.queue && m.settled(now).0.inbound == m.inbound
            && m.settled(now).0.next_available == m.next_available,
{
}

/// A link that sends is woken up when its packet leaves, and one that waits when the next
/// packet enters its queue: what the timer makes leave is stamped with the time of waking.
pub proof fn law_link_is_woken_in_time<P: Packet, Q: PacketQueue<P>, T: Fn(u64, u64) -> Duration>(
    before: LinkModel<P, Q::Model, T>,
    time: Instant,
    now: Instant,
    after: LinkModel<P, Q::Model, T>,
    action: LinkAction<P>,
)
    requires
        on_timer_spec::<P, Q, T>(before, time, now, after, action),
    ensures
        !before.idle && before.transmitting is Some ==> action == LinkAction::Return(
            Some(before.transmitting->0.stamped(before.wake(now) as i128)),
        ),
        before.idle && before.inbound.len() > 0 ==> before.wake(now)
            == before.inbound[0].timestamp() && arrived(
            before.inbound,
            before.inbound[0].timestamp(),
        ) >= 1,
{
}

/// What enters the queue at `t` is what has come by then, up to the first packet that has not.
pub proof fn law_only_what_has_come_enters<P: Packet>(inbound: Seq<P>, t: Instant)
    ensures
        arrived(inbound, t) <= inbound.len(),
        forall|i: int|
            0 <= i < arrived(inbound, t) ==> (#[trigger] inbound[i]).timestamp() <= t,
        arrived(inbound, t) < inbound.len() ==> inbound[arrived(inbound, t) as int].timestamp()
            > t,
    decreases inbound.len(),
{
    if inbound.len() > 0 && inbound[0].timestamp() <= t {
        let rest = inbound.drop_first();
        law_only_what_has_come_enters(rest, t);
        assert forall|i: int| 0 <= i < arrived(inbound, t) implies (
        #[trigger] inbound[i]).timestamp() <= t by {
            if i > 0 {
                assert(rest[i - 1] == inbound[i]);
            }
        }
        if arrived(inbound, t) < inbound.len() {
            assert(rest[arrived(rest, t) as int] == inbound[arrived(inbound, t) as int]);
        }
    }
}

/// Packets enter a queue that keeps everything in the order of their coming, behind what is
/// there.
pub proof fn law_arrivals_enter_in_order<P: Packet>(queue: Seq<P>, inbound: Seq<P>, t: Instant)
    ensures
        admitted::<P, InfiniteQueue<P>>(queue, inbound, t) == queue + inbound.take(
            arrived(inbound, t) as int,
        ),
    decreases inbound.len(),
{
    law_only_what_has_come_enters(inbound, t);
    let n = arrived(inbound, t) as int;
    if inbound.len() > 0 && inbound[0].timestamp() <= t {
        let rest = inbound.drop_first();
        law_arrivals_enter_in_order(queue.push(inbound[0]), rest, t);
        law_only_what_has_come_enters(rest, t);
        assert(queue.push(inbound[0]) + rest.take(n - 1) =~= queue + inbound.take(n));
    } else {
        assert(queue + inbound.take(0) =~= queue);
    }
}

/// All the packets that a link with a queue of unlimited length holds, the one that leaves
/// first at the front.
pub open spec fn held<P: Packet, T>(m: LinkModel<P, Seq<P>, T>) -> Seq<P> {
    (match m.transmitting {
        Some(p) => seq![p],
        None => Seq::empty(),
    }) + m.queue + m.inbound
}

/// What leaves is the first of what is held, stamped with the time at which it leaves; the
/// rest stays, in its order.
pub open spec fn passes_on<P: Packet, T>(
    held_before: Seq<P>,
    after: LinkModel<P, Seq<P>, T>,
    action: LinkAction<P>,
) -> bool {
    match action {
        LinkAction::Return(Some(out)) => {
            &&& held_before.len() > 0
            &&& held(after) == held_before.skip(1)
            &&& exists|t: Instant| out == #[trigger] held_before[0].stamped(t)
        },
        _ => held(after) == held_before,
    }
}

/// Taking a packet from the queue to a free wire moves nothing past anything.
proof fn lemma_pulled_keeps_order<P: Packet, T: Fn(u64, u64) -> Duration>(
    before: LinkModel<P, Seq<P>, T>,
    t: Instant,
    after: LinkModel<P, Seq<P>, T>,
)
    requires
        before.transmitting is None,
        pulled::<P, InfiniteQueue<P>, T>(before, t, after),
    ensures
        held(after) == held(before),
        after.transmitting is None ==> after.queue.len() == 0,
{
    let n = arrived(before.inbound, t) as int;
    law_only_what_has_come_enters(before.inbound, t);
    law_arrivals_enter_in_order(before.queue, before.inbound, t);
    let queue = before.queue + before.inbound.take(n);
    assert(queue + before.inbound.skip(n) =~= before.queue + before.inbound);
    assert(queue_at::<P, InfiniteQueue<P>, T>(before, t) == queue);
    let packet = choose|packet: Option<P>|
        {
            &&& #[trigger] InfiniteQueue::<P>::dequeued(
                queue_at::<P, InfiniteQueue<P>, T>(before, t),
                t,
                after.queue,
                packet,
            )
            &&& {
                let rest = LinkModel {
                    inbound: before.inbound.skip(arrived(before.inbound, t) as int),
                    queue: after.queue,
                    ..before
                };
                match packet {
                    Some(p) => rest.sent(p, after),
                    None => after == rest,
                }
            }
        };
    match packet {
        Some(p) => {
            assert(queue =~= seq![p] + after.queue);
            assert(held(after) =~= held(before));
        },
        None => {
            assert(held(after) =~= held(before));
        },
    }
}

proof fn lemma_advanced_keeps_order<P: Packet, T: Fn(u64, u64) -> Duration>(
    before: LinkModel<P, Seq<P>, T>,
    now: Instant,
    after: LinkModel<P, Seq<P>, T>,
    action: LinkAction<P>,
)
    requires
        advanced::<P, InfiniteQueue<P>, T>(before, now, after, action),
    ensures
        passes_on(held(before), after, action),
        after.idle ==> after.transmitting is None,
{
    let next = choose|next: LinkModel<P, Seq<P>, T>|
        {
            &&& #[trigger] pulled::<P, InfiniteQueue<P>, T>(
                before.cleared(),
                before.next_available,
                next,
            )
            &&& (after, action) == match before.transmitting {
                Some(p) => next.returned(Some(p.stamped(before.next_available))),
                None => next.settled(now),
            }
        };
    lemma_pulled_keeps_order(before.cleared(), before.next_available, next);
    match before.transmitting {
        Some(p) => {
            assert(held(before).skip(1) =~= held(before.cleared()));
            assert(held(before)[0].stamped(before.next_available) == p.stamped(
                before.next_available,
            ));
            assert(held(after) =~= held(next));
        },
        None => {
            assert(held(before) =~= held(before.cleared()));
            lemma_settled_keeps_order(next, now);
        },
    }
}

proof fn lemma_settled_keeps_order<P: Packet, T: Fn(u64, u64) -> Duration>(
    m: LinkModel<P, Seq<P>, T>,
    now: Instant,
)
    ensures
        passes_on(held(m), m.settled(now).0, m.settled(now).1),
        m.settled(now).0.idle ==> m.settled(now).0.transmitting is None,
{
    let (after, action) = m.settled(now);
    if m.transmitting is Some && m.next_available <= now {
        assert(held(m).skip(1) =~= held(after));
        assert(held(m)[0].stamped(m.next_available) == m.transmitting->0.stamped(
            m.next_available,
        ));
    } else {
        assert(held(after) =~= held(m));
    }
}

/// A link with a queue of unlimited length loses nothing and keeps the order: whatever packet
/// comes, what leaves is the first of all that it holds, and the rest stays, with the packet
/// that came at the end.
pub proof fn law_unlimited_link_keeps_every_packet<P: Packet, T: Fn(u64, u64) -> Duration>(
    before: LinkModel<P, Seq<P>, T>,
    packet: P,
    now: Instant,
    after: LinkModel<P, Seq<P>, T>,
    action: LinkAction<P>,
)
    requires
        before.state == CellState::Normal,
        before.idle ==> before.transmitting is None,
        on_packet_spec::<P, InfiniteQueue<P>, T>(before, Some(packet), now, after, action),
    ensures
        passes_on(held(before).push(packet), after, action),
        after.idle ==> after.transmitting is None,
{
    let with = choose|with: LinkModel<P, Seq<P>, T>|
        {
            &&& #[trigger] took::<P, InfiniteQueue<P>, T>(before, packet, with)
            &&& if before.idle {
                exists|next: LinkModel<P, Seq<P>, T>|
                    {
                        &&& #[trigger] pulled::<P, InfiniteQueue<P>, T>(
                            with,
                            packet.timestamp(),
                            next,
                        )
                        &&& (after, action) == next.settled(now)
                    }
            } else if packet.timestamp() < before.next_available {
                after == with && action == LinkAction::<P>::Wait
            } else {
                advanced::<P, InfiniteQueue<P>, T>(with, now, after, action)
            }
        };
    assert(held(with) =~= held(before).push(packet));
    if before.idle {
        let next = choose|next: LinkModel<P, Seq<P>, T>|
            {
                &&& #[trigger] pulled::<P, InfiniteQueue<P>, T>(with, packet.timestamp(), next)
                &&& (after, action) == next.settled(now)
            };
        lemma_pulled_keeps_order(with, packet.timestamp(), next);
        lemma_settled_keeps_order(next, now);
    } else if packet.timestamp() >= before.next_available {
        lemma_advanced_keeps_order(with, now, after, action);
    }
}

/// The same holds of the timer: what leaves is the first of all that the link holds.
pub proof fn law_unlimited_link_sends_every_packet<P: Packet, T: Fn(u64, u64) -> Duration>(
    before: LinkModel<P, Seq<P>, T>,
    time: Instant,
    now: Instant,
    after: LinkModel<P, Seq<P>, T>,
    action: LinkAction<P>,
)
    requires
        before.idle ==> before.transmitting is None,
        on_timer_spec::<P, InfiniteQueue<P>, T>(before, time, now, after, action),
    ensures
        passes_on(held(before), after, action),
        after.idle ==> after.transmitting is None,
{
    if before.idle {
        let next = choose|next: LinkModel<P, Seq<P>, T>|
            {
                &&& #[trigger] pulled::<P, InfiniteQueue<P>, T>(before, time, next)
                &&& (after, action) == next.settled(now)
            };
        lemma_pulled_keeps_order(before, time, next);
        lemma_settled_keeps_order(next, now);
    } else {
        lemma_advanced_keeps_order(before, now, after, action);
    }
}

/// A link does not rest while packets wait: once the wire is free at the time of an event, a
/// packet that has come by then is on it.
pub proof fn law_link_conserves_work<P: Packet, T: Fn(u64, u64) -> Duration>(
    before: LinkModel<P, Seq<P>, T>,
    t: Instant,
    after: LinkModel<P, Seq<P>, T>,
)
    requires
        before.transmitting is None,
        pulled::<P, InfiniteQueue<P>, T>(before, t, after),
        before.queue.len() > 0 || before.inbound.len() > 0 && before.inbound[0].timestamp() <= t,
    ensures
        after.transmitting == Some(held(before)[0]),
{
    lemma_pulled_keeps_order(before, t, after);
    law_only_what_has_come_enters(before.inbound, t);
    if after.transmitting is None {
        assert(held(after) =~= after.inbound);
        assert(arrived(before.inbound, t) > 0 || before.queue.len() > 0);
        assert(after.inbound.len() <= before.inbound.len());
        assert(held(after).len() == held(before).len());
    }
}

/// Before it is started a link drops what comes, and while it passes through it hands on what
/// comes as it is; either way it keeps what it holds.
pub proof fn law_link_passes_through<P: Packet, Q: PacketQueue<P>, T: Fn(u64, u64) -> Duration>(
    before: LinkModel<P, Q::Model, T>,
    packet: P,
    now: Instant,
    after: LinkModel<P, Q::Model, T>,
    action: LinkAction<P>,
)
    requires
        on_packet_spec::<P, Q, T>(before, Some(packet), now, after, action),
    ensures
        before.state == CellState::Drop ==> action == LinkAction::<P>::Return(None),
        before.state == CellState::PassThrough ==> action == LinkAction::Return(Some(packet)),
        before.state != CellState::Normal ==> after.queue == before.queue && after.inbound
            == before.inbound && after.transmitting == before.transmitting
            && after.next_available == before.next_available,
{
}

/// When no packet will come any more, a link that waits for one ends; one that is busy goes on
/// as if nothing had happened, and none loses a packet by it.
pub proof fn law_link_finishes_its_work<P: Packet, Q: PacketQueue<P>, T: Fn(u64, u64) -> Duration>(
    before: LinkModel<P, Q::Model, T>,
    now: Instant,
    after: LinkModel<P, Q::Model, T>,
    action: LinkAction<P>,
)
    requires
        on_packet_spec::<P, Q, T>(before, None, now, after, action),
    ensures
        before.idle <==> action == LinkAction::<P>::Return(None),
        !before.idle ==> action == LinkAction::<P>::Wait && after == before,
        after.inbound == before.inbound && after.queue == before.queue && after.transmitting
            == before.transmitting && after.next_available == before.next_available,
{
}

} // verus!
