//! A cell that draws a delay for each packet.
use crate::cells::per_packet::delay::{PerPacketAction, PerPacketModel};
use crate::cells::per_packet::{
    in_order, is_place, law_placing_keeps_packets, placed, DelayedQueue,
};
use crate::cells::{admission, admit_packet, Admission, CellState};
use crate::error::{control_channel, Error};
use crate::packet::Packet;
use crate::time::{reachable, Duration, Instant, LARGE_DURATION};
use vstd::prelude::*;

verus! {

/// How delays are drawn.
#[derive(Debug)]
pub struct ReorderDelayCellConfig<D> {
    pub delay: D,
}

impl<D> ReorderDelayCellConfig<D> {
    pub fn new(delay: D) -> (c: Self)
        ensures
            c == (ReorderDelayCellConfig { delay }),
    {
        ReorderDelayCellConfig { delay }
    }
}

/// Where the cell is configured. `send` hands a configuration to the cell and tells whether
/// it was taken.
pub struct ReorderDelayCellControlInterface<S> {
    pub send: S,
}

impl<S> ReorderDelayCellControlInterface<S> {
    pub fn set_config<D>(&self, config: ReorderDelayCellConfig<D>) -> (r: Result<(), Error>) where
        S: Fn(ReorderDelayCellConfig<D>) -> bool,

        requires
            call_requires(self.send, (config,)),
        ensures
            exists|sent: bool|
                {
                    &&& #[trigger] call_ensures(self.send, (config,), sent)
                    &&& r is Ok <==> sent
                    &&& !sent ==> r->Err_0 is ConfigError && r->Err_0.text()
                        == "Control channel is closed."@
                },
    {
        let sent: bool = (self.send)(config);
        control_channel(sent)
    }
}

impl<P: Packet> PerPacketModel<P> {
    /// The packet that is due first leaves as it is, if it is due by `now`; without one, the
    /// cell waits for the next packet.
    pub open spec fn released_by(self, now: Instant) -> (Self, PerPacketAction<P>) {
        if self.queue.len() == 0 {
            (PerPacketModel { empty: true, ..self }, PerPacketAction::Wait)
        } else if self.queue[0].0 <= now {
            (
                PerPacketModel { queue: self.queue.drop_first(), empty: false, ..self },
                PerPacketAction::Return(Some(self.queue[0].1)),
            )
        } else {
            self.returned(None)
        }
    }

    /// What a packet does at `now`, with the delay that was drawn for it; `None` means that no
    /// packet will come any more.
    pub open spec fn on_packet_by(
        self,
        packet: Option<P>,
        delay: Duration,
        now: Instant,
        after: Self,
        action: PerPacketAction<P>,
    ) -> bool {
        match packet {
            None => (after, action) == self.returned(None),
            Some(p) => match admission(self.state, p) {
                Admission::Drop => (after, action) == self.returned(None),
                Admission::PassThrough(p) => (after, action) == self.returned(Some(p)),
                Admission::Normal(p) => exists|queue: Seq<(Instant, P)>|
                    {
                        &&& #[trigger] placed(
                            self.queue,
                            (p.timestamp() + delay) as i128,
                            p,
                            queue,
                        )
                        &&& (after, action) == if self.empty {
                            PerPacketModel { queue, ..self }.released_by(now)
                        } else {
                            (PerPacketModel { queue, ..self }, PerPacketAction::Wait)
                        }
                    },
            },
        }
    }
}

/// The sending side of the cell.
#[derive(Debug)]
pub struct ReorderDelayCellEgress<P> {
    packet_queue: DelayedQueue<P>,
    state: CellState,
    empty: bool,
}

impl<P: Packet> ReorderDelayCellEgress<P> {
    pub closed spec fn model(self) -> PerPacketModel<P> {
        PerPacketModel { queue: self.packet_queue@, state: self.state, empty: self.empty }
    }

    pub open spec fn wf(self) -> bool {
        in_order(self.model().queue)
    }

    /// An empty cell, which drops what comes until its state is changed.
    pub fn new() -> (e: Self)
        ensures
            e.wf(),
            e.model() == (PerPacketModel {
                queue: Seq::<(Instant, P)>::empty(),
                state: CellState::Drop,
                empty: false,
            }),
    {
        ReorderDelayCellEgress {
            packet_queue: DelayedQueue::new(),
            state: CellState::Drop,
            empty: false,
        }
    }

    pub fn change_state(&mut self, state: CellState)
        requires
            old(self).wf(),
        ensures
            final(self).wf(),
            final(self).model() == (PerPacketModel { state, ..old(self).model() }),
    {
        self.state = state;
    }

    /// When the cell wants to be woken up; `None` while it waits for the next packet only.
    pub fn wake_time(&self, now: Instant) -> (t: Option<Instant>)
        requires
            reachable(now, LARGE_DURATION),
        ensures
            t == if self.model().empty {
                None
            } else if self.model().queue.len() > 0 {
                Some(self.model().queue[0].0)
            } else {
                Some((now + LARGE_DURATION) as i128)
            },
    {
        if self.empty {
            None
        } else {
            Some(self.packet_queue.next_instant(now))
        }
    }

    /// Lets the packet go that is due first, if it is due by `now`.
    fn release(&mut self, now: Instant) -> (action: PerPacketAction<P>)
        requires
            old(self).wf(),
            reachable(now, LARGE_DURATION),
        ensures
            final(self).wf(),
            (final(self).model(), action) == old(self).model().released_by(now),
    {
        if self.packet_queue.len() == 0 {
            self.empty = true;
            return PerPacketAction::Wait;
        }
        self.empty = false;
        if self.packet_queue.next_instant(now) > now {
            return PerPacketAction::Return(None);
        }
        match self.packet_queue.dequeue() {
            Some((_, packet)) => PerPacketAction::Return(Some(packet)),
            None => PerPacketAction::Wait,
        }
    }

    /// A packet has come at `now`, with the delay that was drawn for it, or none will come any
    /// more.
    pub fn on_packet(&mut self, packet: Option<P>, delay: Duration, now: Instant) -> (action:
        PerPacketAction<P>)
        requires
            old(self).wf(),
            packet is Some ==> reachable(packet->0.timestamp(), delay),
            reachable(now, LARGE_DURATION),
        ensures
            final(self).wf(),
            old(self).model().on_packet_by(packet, delay, now, final(self).model(), action),
    {
        let ghost before = self.model();
        let packet = match packet {
            Some(packet) => packet,
            None => {
                self.empty = false;
                return PerPacketAction::Return(None);
            },
        };
        match admit_packet(self.state, packet) {
            Admission::Drop => {
                self.empty = false;
                PerPacketAction::Return(None)
            },
            Admission::PassThrough(packet) => {
                self.empty = false;
                PerPacketAction::Return(Some(packet))
            },
            Admission::Normal(packet) => {
                self.packet_queue.enqueue(packet, delay);
                assert(placed(
                    before.queue,
                    (packet.timestamp() + delay) as i128,
                    packet,
                    self.model().queue,
                ));
                if self.empty {
                    self.release(now)
                } else {
                    PerPacketAction::Wait
                }
            },
        }
    }

    /// The time at which the cell wanted to be woken up has come.
    pub fn on_timer(&mut self, now: Instant) -> (action: PerPacketAction<P>)
        requires
            old(self).wf(),
            reachable(now, LARGE_DURATION),
        ensures
            final(self).wf(),
            (final(self).model(), action) == old(self).model().released_by(now),
    {
        self.release(now)
    }
}

/// What a packet that comes does to those that wait: none of them is lost or moved, and the
/// packet waits among them until the delay that was drawn for it is over, counted from its
/// timestamp. So packets leave in the order in which they are due, not in that of their
/// coming.
pub proof fn law_each_packet_waits_for_what_was_drawn<P: Packet>(
    m: PerPacketModel<P>,
    packet: P,
    delay: Duration,
    now: Instant,
    after: PerPacketModel<P>,
    action: PerPacketAction<P>,
)
    requires
        m.state == CellState::Normal,
        !m.empty,
        reachable(packet.timestamp(), delay),
        m.on_packet_by(Some(packet), delay, now, after, action),
    ensures
        action == PerPacketAction::<P>::Wait,
        after.queue.to_multiset() == m.queue.to_multiset().insert(
            ((packet.timestamp() + delay) as i128, packet),
        ),
        in_order(m.queue) ==> in_order(after.queue),
        !after.empty,
{
    let t = (packet.timestamp() + delay) as i128;
    let queue = choose|queue: Seq<(Instant, P)>|
        {
            &&& #[trigger] placed(m.queue, t, packet, queue)
            &&& (after, action) == (PerPacketModel { queue, ..m }, PerPacketAction::<P>::Wait)
        };
    law_placing_keeps_packets(m.queue, t, packet, queue);
    if in_order(m.queue) {
        let i = choose|i: int| #[trigger]
            is_place(m.queue, t, i) && queue == m.queue.insert(i, (t, packet));
        assert(in_order(queue));
    }
}

/// What leaves at `now` is the packet that is due first, if it is due by then, as it came, and
/// the others stay; before that none leaves.
pub proof fn law_nothing_leaves_before_it_is_due<P: Packet>(
    m: PerPacketModel<P>,
    now: Instant,
    i: int,
)
    requires
        in_order(m.queue),
        0 <= i < m.queue.len(),
    ensures
        m.queue[0].0 <= m.queue[i].0,
        m.queue[0].0 <= now ==> m.released_by(now).1 == PerPacketAction::Return(
            Some(m.queue[0].1),
        ) && m.released_by(now).0.queue == m.queue.skip(1),
        m.queue[0].0 > now ==> m.released_by(now).1 == PerPacketAction::<P>::Return(None)
            && m.released_by(now).0.queue == m.queue,
{
}

/// Before it is started the cell drops what comes, and while it passes through it hands on
/// what comes as it is; either way those that wait are not touched.
pub proof fn law_reorder_cell_passes_through<P: Packet>(
    m: PerPacketModel<P>,
    packet: P,
    delay: Duration,
    now: Instant,
    after: PerPacketModel<P>,
    action: PerPacketAction<P>,
)
    requires
        m.on_packet_by(Some(packet), delay, now, after, action),
        m.state != CellState::Normal,
    ensures
        m.state == CellState::Drop ==> action == PerPacketAction::<P>::Return(None),
        m.state == CellState::PassThrough ==> action == PerPacketAction::Return(Some(packet)),
        after.queue == m.queue,
{
}

} // verus!
