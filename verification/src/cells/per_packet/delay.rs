//! A cell that gives each packet a delay of its own, from a trace.
use super::{in_order, is_place, law_placing_keeps_packets, placed, DelayedQueue};
use crate::cells::{admission, admit_packet, Admission, CellState};
use crate::packet::Packet;
use crate::time::{
    duration_since, later_of, longest, reachable, Duration, Instant, LARGE_DURATION,
};
use vstd::prelude::*;

verus! {

/// What a cell with delays for each packet does next.
#[derive(Debug)]
pub enum PerPacketAction<P> {
    /// Wait for the next event.
    Wait,
    /// The call that asked for a packet ends with this one, or with none.
    Return(Option<P>),
}

/// What the cell holds.
#[verifier::ext_equal]
pub struct PerPacketModel<P> {
    /// The packets by the instant at which each of them is due.
    pub queue: Seq<(Instant, P)>,
    pub state: CellState,
    /// A packet was due and there was none: the next one leaves at once.
    pub empty: bool,
}

impl<P: Packet> PerPacketModel<P> {
    /// The packet that is due first leaves, with that instant for its timestamp; without one,
    /// the cell waits for the next packet.
    pub open spec fn released(self) -> (Self, PerPacketAction<P>) {
        if self.queue.len() == 0 {
            (PerPacketModel { empty: true, ..self }, PerPacketAction::Wait)
        } else {
            (
                PerPacketModel { queue: self.queue.drop_first(), empty: false, ..self },
                PerPacketAction::Return(Some(self.queue[0].1.stamped(self.queue[0].0))),
            )
        }
    }

    /// What a packet does that is taken at `now`; `None` means that no packet will come any
    /// more. `delay` is what the trace gives for it, counted from its timestamp: a packet for
    /// which it gives none is lost. One that is due already when it is taken leaves at the
    /// instant at which it is taken.
    pub open spec fn on_packet(
        self,
        packet: Option<P>,
        delay: Option<Duration>,
        now: Instant,
        after: Self,
        action: PerPacketAction<P>,
    ) -> bool {
        match packet {
            None => (after, action) == self.returned(None),
            Some(p) => match admission(self.state, p) {
                Admission::Drop => (after, action) == self.returned(None),
                Admission::PassThrough(p) => (after, action) == self.returned(Some(p)),
                Admission::Normal(p) => match delay {
                    None => after == self && action == PerPacketAction::<P>::Wait,
                    Some(d) => exists|queue: Seq<(Instant, P)>|
                        {
                            &&& #[trigger] placed(
                                self.queue,
                                later_of((p.timestamp() + d) as i128, now),
                                p,
                                queue,
                            )
                            &&& (after, action) == if self.empty {
                                PerPacketModel { queue, ..self }.released()
                            } else {
                                (PerPacketModel { queue, ..self }, PerPacketAction::Wait)
                            }
                        },
                },
            },
        }
    }

    pub open spec fn returned(self, packet: Option<P>) -> (Self, PerPacketAction<P>) {
        (PerPacketModel { empty: false, ..self }, PerPacketAction::Return(packet))
    }
}

/// The sending side of the cell.
#[derive(Debug)]
pub struct DelayPerPacketCellEgress<P> {
    packet_queue: DelayedQueue<P>,
    state: CellState,
    empty: bool,
}

impl<P: Packet> DelayPerPacketCellEgress<P> {
    pub closed spec fn model(self) -> PerPacketModel<P> {
        PerPacketModel { queue: self.packet_queue@, state: self.state, empty: self.empty }
    }

    pub open spec fn wf(self) -> bool {
        in_order(self.model().queue)
    }

    /// An empty cell, which drops what comes until its state is changed.
    pub fn new() -> (e: Self)
        ensures
            e.wf(),
            e.model() == (PerPacketModel {
                queue: Seq::<(Instant, P)>::empty(),
                state: CellState::Drop,
                empty: false,
            }),
    {
        DelayPerPacketCellEgress {
            packet_queue: DelayedQueue::new(),
            state: CellState::Drop,
            empty: false,
        }
    }

    pub fn change_state(&mut self, state: CellState)
        requires
            old(self).wf(),
        ensures
            final(self).wf(),
            final(self).model() == (PerPacketModel { state, ..old(self).model() }),
    {
        self.state = state;
    }

    /// When the cell wants to be woken up; `None` while it waits for the next packet only.
    pub fn wake_time(&self, now: Instant) -> (t: Option<Instant>)
        requires
            reachable(now, LARGE_DURATION),
        ensures
            t == if self.model().empty {
                None
            } else if self.model().queue.len() > 0 {
                Some(self.model().queue[0].0)
            } else {
                Some((now + LARGE_DURATION) as i128)
            },
    {
        if self.empty {
            None
        } else {
            Some(self.packet_queue.next_instant(now))
        }
    }

    /// Lets the packet go that is due first.
    fn release(&mut self, now: Instant) -> (action: PerPacketAction<P>)
        requires
            old(self).wf(),
            old(self).model().queue.len() > 0 ==> old(self).model().queue[0].0 <= now,
        ensures
            final(self).wf(),
            (final(self).model(), action) == old(self).model().released(),
    {
        match self.packet_queue.dequeue() {
            Some((instant, mut packet)) => {
                packet.delay_until(instant);
                self.empty = false;
                PerPacketAction::Return(Some(packet))
            },
            None => {
                self.empty = true;
                PerPacketAction::Wait
            },
        }
    }

    /// A packet has come at `now`, with the delay that the trace gives for it, or none will
    /// come any more. In a cell that has run empty, a packet has to be due when it comes.
    pub fn on_packet(&mut self, packet: Option<P>, delay: Option<Duration>, now: Instant) -> (action:
        PerPacketAction<P>)
        requires
            old(self).wf(),
            packet is Some && delay is Some ==> reachable(packet->0.timestamp(), delay->0),
            old(self).model().empty ==> old(self).model().queue.len() == 0 && (packet is Some
                && delay is Some ==> packet->0.timestamp() + delay->0 <= now),
        ensures
            final(self).wf(),
            old(self).model().on_packet(packet, delay, now, final(self).model(), action),
    {
        let ghost before = self.model();
        let packet = match packet {
            Some(packet) => packet,
            None => {
                self.empty = false;
                return PerPacketAction::Return(None);
            },
        };
        match admit_packet(self.state, packet) {
            Admission::Drop => {
                self.empty = false;
                PerPacketAction::Return(None)
            },
            Admission::PassThrough(packet) => {
                self.empty = false;
                PerPacketAction::Return(Some(packet))
            },
            Admission::Normal(packet) => {
                let delay: Duration = match delay {
                    Some(delay) => delay,
                    None => {
                        return PerPacketAction::Wait;
                    },
                };
                let waited: Duration = duration_since(now, packet.get_timestamp());
                self.packet_queue.enqueue(packet, longest(delay, waited));
                assert(placed(
                    before.queue,
                    later_of((packet.timestamp() + delay) as i128, now),
                    packet,
                    self.model().queue,
                ));
                if self.empty {
                    self.release(now)
                } else {
                    PerPacketAction::Wait
                }
            },
        }
    }

    /// The time at which the cell wanted to be woken up has come: the first packet is due.
    pub fn on_timer(&mut self, now: Instant) -> (action: PerPacketAction<P>)
        requires
            old(self).wf(),
            old(self).model().queue.len() > 0 ==> old(self).model().queue[0].0 <= now,
        ensures
            final(self).wf(),
            (final(self).model(), action) == old(self).model().released(),
    {
        self.release(now)
    }
}

/// A packet that passes an empty cell carries the later of two instants: the one at which its
/// delay, counted from its timestamp, is over, and the one at which it is taken.
pub proof fn law_late_packet_leaves_when_it_is_taken<P: Packet>(
    m: PerPacketModel<P>,
    packet: P,
    delay: Duration,
    now: Instant,
    after: PerPacketModel<P>,
    action: PerPacketAction<P>,
)
    requires
        m.state == CellState::Normal,
        m.queue.len() == 0,
        !m.empty,
        m.on_packet(Some(packet), Some(delay), now, after, action),
    ensures
        action == PerPacketAction::<P>::Wait,
        after.released().1 == PerPacketAction::Return(
            Some(packet.stamped(later_of((packet.timestamp() + delay) as i128, now))),
        ),
        after.released().0 == m,
{
    let t = later_of((packet.timestamp() + delay) as i128, now);
    let queue = choose|queue: Seq<(Instant, P)>|
        {
            &&& #[trigger] placed(m.queue, t, packet, queue)
            &&& (after, action) == (PerPacketModel { queue, ..m }, PerPacketAction::<P>::Wait)
        };
    assert(queue =~= seq![(t, packet)]);
    assert(after.released().0.queue =~= m.queue);
}

/// What a packet that comes does to those that wait: none of them is lost or moved, and the
/// packet waits among them until its delay, counted from its timestamp, is over, or until it
/// is taken, if that is later. A packet without a delay is lost.
pub proof fn law_each_packet_waits_for_its_own_delay<P: Packet>(
    m: PerPacketModel<P>,
    packet: P,
    delay: Option<Duration>,
    now: Instant,
    after: PerPacketModel<P>,
    action: PerPacketAction<P>,
)
    requires
        m.state == CellState::Normal,
        !m.empty,
        delay is Some ==> reachable(packet.timestamp(), delay->0),
        m.on_packet(Some(packet), delay, now, after, action),
    ensures
        action == PerPacketAction::<P>::Wait,
        delay is None ==> after == m,
        delay is Some ==> {
            let over = packet.timestamp() + delay->0;
            let t = if over >= now {
                over
            } else {
                now as int
            };
            &&& after.queue.to_multiset() == m.queue.to_multiset().insert((t as i128, packet))
            &&& in_order(m.queue) ==> in_order(after.queue)
            &&& !after.empty
        },
{
    if delay is Some {
        let t = later_of((packet.timestamp() + delay->0) as i128, now);
        let queue = choose|queue: Seq<(Instant, P)>|
            {
                &&& #[trigger] placed(m.queue, t, packet, queue)
                &&& (after, action) == (PerPacketModel { queue, ..m }, PerPacketAction::<P>::Wait)
            };
        law_placing_keeps_packets(m.queue, t, packet, queue);
        if in_order(m.queue) {
            let i = choose|i: int| #[trigger]
                is_place(m.queue, t, i) && queue == m.queue.insert(i, (t, packet));
            assert(in_order(queue));
        }
    }
}

/// What leaves is the packet that is due first, stamped with the time at which it is due, and
/// the others stay. Without a packet the cell waits for the next one.
pub proof fn law_what_is_due_first_leaves<P: Packet>(m: PerPacketModel<P>, i: int)
    requires
        in_order(m.queue),
        0 <= i < m.queue.len(),
    ensures
        m.released().1 == PerPacketAction::Return(Some(m.queue[0].1.stamped(m.queue[0].0))),
        m.released().0.queue == m.queue.skip(1),
        m.queue[0].0 <= m.queue[i].0,
        m.released().0.state == m.state,
{
}

/// Before it is started the cell drops what comes, and while it passes through it hands on
/// what comes as it is; either way those that wait are not touched.
pub proof fn law_per_packet_cell_passes_through<P: Packet>(
    m: PerPacketModel<P>,
    packet: P,
    delay: Option<Duration>,
    now: Instant,
    after: PerPacketModel<P>,
    action: PerPacketAction<P>,
)
    requires
        m.on_packet(Some(packet), delay, now, after, action),
        m.state != CellState::Normal,
    ensures
        m.state == CellState::Drop ==> action == PerPacketAction::<P>::Return(None),
        m.state == CellState::PassThrough ==> action == PerPacketAction::Return(Some(packet)),
        after.queue == m.queue,
{
}

} // verus!
