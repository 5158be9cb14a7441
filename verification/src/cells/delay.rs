//! Cells that hold every packet for a time, in order.
use crate::cells::config_timestamp::CurrentConfig;
use crate::cells::{admission, admit_packet, Admission, CellState};
use crate::error::{control_channel, Error};
use crate::packet::Packet;
use crate::time::{after, latest, reachable, Duration, Instant, LARGE_DURATION};
use vstd::prelude::*;

verus! {

#[derive(Debug, Clone, Copy)]
pub struct DelayCellConfig {
    pub delay: Duration,
}

impl DelayCellConfig {
    pub fn new(delay: Duration) -> (c: Self)
        ensures
            c == (DelayCellConfig { delay }),
    {
        DelayCellConfig { delay }
    }
}

impl Default for DelayCellConfig {
    fn default() -> (c: Self)
        ensures
            c == (DelayCellConfig { delay: 0 }),
    {
        DelayCellConfig { delay: 0 }
    }
}

/// Where the cell is configured. `send` hands a configuration to the cell and tells whether
/// it was taken.
pub struct DelayCellControlInterface<S> {
    pub send: S,
}

impl<S: Fn(DelayCellConfig) -> bool> DelayCellControlInterface<S> {
    pub fn set_config(&self, config: DelayCellConfig) -> (r: Result<(), Error>)
        requires
            call_requires(self.send, (config,)),
        ensures
            exists|sent: bool|
                {
                    &&& #[trigger] call_ensures(self.send, (config,), sent)
                    &&& r is Ok <==> sent
                    &&& !sent ==> r->Err_0 is ConfigError && r->Err_0.text()
                        == "Control channel is closed."@
                },
    {
        let sent: bool = (self.send)(config);
        control_channel(sent)
    }
}

/// What a delay cell does next.
#[derive(Debug)]
pub enum DelayAction<P> {
    /// Wait for the next packet.
    Wait,
    /// Wait until that time, at which the packet in hand is sent.
    SendAt(Instant),
    /// Wait until that time, at which the trace takes its next step.
    ChangeAt(Instant),
    /// The trace takes its next step now.
    Change,
    /// The call that asked for a packet ends with this one, or with none.
    Return(Option<P>),
}

/// What a delay cell holds.
pub struct DelayModel<P> {
    pub delay: Duration,
    pub state: CellState,
    /// When the last packet was sent.
    pub latest: Instant,
    /// The packet that is being delayed.
    pub holding: Option<P>,
}

impl<P: Packet> DelayModel<P> {
    /// When `packet` is sent: once it was held for the delay, and not before the packet that
    /// came before it.
    pub open spec fn send_time(self, packet: P) -> int {
        let due = packet.timestamp() + self.delay;
        if due >= self.latest {
            due
        } else {
            self.latest as int
        }
    }

    /// The packet in hand is sent.
    pub open spec fn sent(self) -> (Self, DelayAction<P>) {
        let t = self.send_time(self.holding->0) as i128;
        (
            DelayModel { latest: t, holding: None, ..self },
            DelayAction::Return(Some(self.holding->0.stamped(t))),
        )
    }

    /// The packet in hand is sent if it is time.
    pub open spec fn proceeded(self, now: Instant) -> (Self, DelayAction<P>) {
        match self.holding {
            None => (self, DelayAction::Wait),
            Some(p) => if self.send_time(p) <= now {
                self.sent()
            } else {
                (self, DelayAction::SendAt(self.send_time(p) as i128))
            },
        }
    }

    /// What a packet does; `None` means that no packet will come any more.
    pub open spec fn on_packet(self, packet: Option<P>, now: Instant) -> (Self, DelayAction<P>) {
        match packet {
            None => (self, DelayAction::Return(None)),
            Some(p) => match admission(self.state, p) {
                Admission::Drop => (self, DelayAction::Return(None)),
                Admission::PassThrough(p) => (self, DelayAction::Return(Some(p))),
                Admission::Normal(p) => DelayModel { holding: Some(p), ..self }.proceeded(now),
            },
        }
    }

    /// The clock can hold the send time of the packet.
    pub open spec fn in_time(self, packet: P) -> bool {
        reachable(packet.timestamp(), self.delay)
    }
}

/// The sending side of a cell of fixed delay.
#[derive(Debug)]
pub struct DelayCellEgress<P> {
    delay: Duration,
    state: CellState,
    latest_egress_timestamp: Instant,
    holding: Option<P>,
}

impl<P: Packet> DelayCellEgress<P> {
    pub closed spec fn model(self) -> DelayModel<P> {
        DelayModel {
            delay: self.delay,
            state: self.state,
            latest: self.latest_egress_timestamp,
            holding: self.holding,
        }
    }

    /// A cell that has sent nothing since `start`. It drops what comes until its state is
    /// changed. Without a delay, it has none.
    pub fn new(delay: Option<Duration>, start: Instant) -> (e: Self)
        ensures
            e.model() == (DelayModel::<P> {
                delay: match delay {
                    Some(d) => d,
                    None => 0,
                },
                state: CellState::Drop,
                latest: start,
                holding: None,
            }),
    {
        DelayCellEgress {
            delay: match delay {
                Some(d) => d,
                None => 0,
            },
            state: CellState::Drop,
            latest_egress_timestamp: start,
            holding: None,
        }
    }

    pub fn change_state(&mut self, state: CellState)
        ensures
            final(self).model() == (DelayModel { state, ..old(self).model() }),
    {
        self.state = state;
    }

    fn logical_send_time(&self, packet: &P) -> (t: Instant)
        requires
            self.model().in_time(*packet),
        ensures
            t == self.model().send_time(*packet),
    {
        latest(after(packet.get_timestamp(), self.delay), self.latest_egress_timestamp)
    }

    /// Sends the packet in hand.
    fn send(&mut self) -> (action: DelayAction<P>)
        requires
            old(self).model().holding is Some,
            old(self).model().in_time(old(self).model().holding->0),
        ensures
            (final(self).model(), action) == old(self).model().sent(),
    {
        let mut packet = self.holding.take().unwrap();
        let t: Instant = self.logical_send_time(&packet);
        self.latest_egress_timestamp = t;
        packet.delay_until(t);
        DelayAction::Return(Some(packet))
    }

    /// Sends the packet in hand if it is time.
    fn proceed(&mut self, now: Instant) -> (action: DelayAction<P>)
        requires
            old(self).model().holding is Some ==> old(self).model().in_time(
                old(self).model().holding->0,
            ),
        ensures
            (final(self).model(), action) == old(self).model().proceeded(now),
    {
        let t: Instant = match &self.holding {
            Some(packet) => self.logical_send_time(packet),
            None => {
                return DelayAction::Wait;
            },
        };
        if t <= now {
            self.send()
        } else {
            DelayAction::SendAt(t)
        }
    }

    /// `config` comes into force, for the packet in hand too.
    pub fn set_config(&mut self, config: DelayCellConfig, now: Instant) -> (action: DelayAction<P>)
        requires
            old(self).model().holding is Some ==> reachable(
                old(self).model().holding->0.timestamp(),
                config.delay,
            ),
        ensures
            (final(self).model(), action) == (DelayModel {
                delay: config.delay,
                ..old(self).model()
            }).proceeded(now),
    {
        self.delay = config.delay;
        self.proceed(now)
    }

    /// A packet has come, or none will come any more.
    pub fn on_packet(&mut self, packet: Option<P>, now: Instant) -> (action: DelayAction<P>)
        requires
            packet is Some ==> old(self).model().in_time(packet->0),
        ensures
            (final(self).model(), action) == old(self).model().on_packet(packet, now),
    {
        let packet = match packet {
            Some(packet) => packet,
            None => {
                return DelayAction::Return(None);
            },
        };
        match admit_packet(self.state, packet) {
            Admission::Drop => DelayAction::Return(None),
            Admission::PassThrough(packet) => DelayAction::Return(Some(packet)),
            Admission::Normal(packet) => {
                self.holding = Some(packet);
                self.proceed(now)
            },
        }
    }

    /// The time to send the packet in hand has come.
    pub fn on_timer(&mut self) -> (action: DelayAction<P>)
        requires
            old(self).model().holding is Some,
            old(self).model().in_time(old(self).model().holding->0),
        ensures
            (final(self).model(), action) == old(self).model().sent(),
    {
        self.send()
    }
}

/// What a cell holds that replays a trace of delays.
pub struct DelayReplayModel<P> {
    pub delays: CurrentConfig<Duration>,
    /// When the trace takes its next step.
    pub next_change: Instant,
    pub state: CellState,
    /// When the last packet was sent.
    pub latest: Instant,
    /// The packet that is being delayed.
    pub holding: Option<P>,
}

impl<P: Packet> DelayReplayModel<P> {
    /// The delay for `packet`; none where no delay has been set.
    pub open spec fn delay_of(self, packet: P) -> Duration {
        match self.delays.at(packet.timestamp()) {
            Some(d) => d,
            None => 0,
        }
    }

    /// When `packet` is sent: once it was held for the delay, and not before the packet that
    /// came before it.
    pub open spec fn send_time(self, packet: P) -> int {
        let due = packet.timestamp() + self.delay_of(packet);
        if due >= self.latest {
            due
        } else {
            self.latest as int
        }
    }

    /// The packet in hand is sent.
    pub open spec fn sent(self) -> (Self, DelayAction<P>) {
        let t = self.send_time(self.holding->0) as i128;
        (
            DelayReplayModel { latest: t, holding: None, ..self },
            DelayAction::Return(Some(self.holding->0.stamped(t))),
        )
    }

    /// The packet in hand is sent if it is time; as long as the trace has steps to take before
    /// that, those come first.
    pub open spec fn proceeded(self, now: Instant) -> (Self, DelayAction<P>) {
        match self.holding {
            None => (self, DelayAction::Wait),
            Some(p) => if self.next_change <= p.timestamp() {
                (self, DelayAction::Change)
            } else if self.send_time(p) <= now {
                self.sent()
            } else if self.next_change <= self.send_time(p) {
                (self, DelayAction::ChangeAt(self.next_change))
            } else {
                (self, DelayAction::SendAt(self.send_time(p) as i128))
            },
        }
    }

    /// What a packet does; `None` means that no packet will come any more.
    pub open spec fn on_packet(self, packet: Option<P>, now: Instant) -> (Self, DelayAction<P>) {
        match packet {
            None => (self, DelayAction::Return(None)),
            Some(p) => match admission(self.state, p) {
                Admission::Drop => (self, DelayAction::Return(None)),
                Admission::PassThrough(p) => (self, DelayAction::Return(Some(p))),
                Admission::Normal(p) => DelayReplayModel { holding: Some(p), ..self }.proceeded(
                    now,
                ),
            },
        }
    }

    /// The clock can hold the send time of the packet.
    pub open spec fn in_time(self, packet: P) -> bool {
        reachable(packet.timestamp(), self.delay_of(packet))
    }

    /// The trace has taken a step at `timestamp`: a delay and how long it lasts, or, at its
    /// end, nothing, after which the delay stays for good.
    pub open spec fn stepped(
        self,
        step: Option<(Duration, Duration)>,
        timestamp: Instant,
        after: Self,
    ) -> bool {
        &&& match step {
            Some((delay, duration)) => {
                &&& self.delays.updated(delay, timestamp, after.delays)
                &&& after.next_change == timestamp + duration
            },
            None => {
                &&& after.delays == self.delays
                &&& after.next_change == timestamp + LARGE_DURATION
            },
        }
        &&& after == DelayReplayModel {
            delays: after.delays,
            next_change: after.next_change,
            ..self
        }
    }
}

/// How long a step of the trace lasts.
pub open spec fn step_duration(step: Option<(Duration, Duration)>) -> Duration {
    match step {
        Some((_, duration)) => duration,
        None => LARGE_DURATION,
    }
}

/// The sending side of a cell that replays a trace of delays.
#[derive(Debug)]
pub struct DelayReplayCellEgress<P> {
    delays: CurrentConfig<Duration>,
    next_change: Instant,
    state: CellState,
    latest_egress_timestamp: Instant,
    holding: Option<P>,
}

impl<P: Packet> DelayReplayCellEgress<P> {
    pub closed spec fn model(self) -> DelayReplayModel<P> {
        DelayReplayModel {
            delays: self.delays,
            next_change: self.next_change,
            state: self.state,
            latest: self.latest_egress_timestamp,
            holding: self.holding,
        }
    }

    /// A cell that has sent nothing since `start` and has no delay yet.
    pub fn new(now: Instant, start: Instant) -> (e: Self)
        ensures
            forall|t: Instant| (#[trigger] e.model().delays.at(t)) is None,
            e.model().next_change == now,
            e.model().state == CellState::Drop,
            e.model().latest == start,
            e.model().holding is None,
    {
        DelayReplayCellEgress {
            delays: CurrentConfig::new(),
            next_change: now,
            state: CellState::Drop,
            latest_egress_timestamp: start,
            holding: None,
        }
    }

    pub fn change_state(&mut self, state: CellState)
        ensures
            final(self).model() == (DelayReplayModel { state, ..old(self).model() }),
    {
        self.state = state;
    }

    /// Takes the next step of the trace at `timestamp`. If there is one, it comes into force,
    /// and `true` is returned. If there is none, the delay stays as it is for good, and
    /// `false` is returned.
    fn update_delay(&mut self, step: Option<(Duration, Duration)>, timestamp: Instant) -> (more: bool)
        requires
            reachable(timestamp, step_duration(step)),
        ensures
            more == (step is Some),
            old(self).model().stepped(step, timestamp, final(self).model()),
    {
        match step {
            Some((delay, duration)) => {
                self.delays.update(delay, timestamp);
                self.next_change = after(timestamp, duration);
                true
            },
            None => {
                self.next_change = after(timestamp, LARGE_DURATION);
                false
            },
        }
    }

    /// The trace begins at `trace_start` with its first step; nothing was sent since `start`.
    /// To be called before any packet is asked for.
    pub fn reset(
        &mut self,
        trace_start: Instant,
        start: Instant,
        step: Option<(Duration, Duration)>,
    )
        requires
            reachable(trace_start, step_duration(step)),
        ensures
            final(self).model().next_change == trace_start + step_duration(step),
            final(self).model().latest == start,
            final(self).model().state == old(self).model().state,
            final(self).model().holding == old(self).model().holding,
            forall|t: Instant|
                (#[trigger] final(self).model().delays.at(t)) == match step {
                    Some((delay, _)) => Some(delay),
                    None => None::<Duration>,
                },
    {
        self.next_change = trace_start;
        self.delays.reset();
        let _ = self.update_delay(step, trace_start);
        self.latest_egress_timestamp = start;
    }

    fn logical_send_time(&self, packet: &P) -> (t: Instant)
        requires
            self.model().in_time(*packet),
        ensures
            t == self.model().send_time(*packet),
    {
        let timestamp: Instant = packet.get_timestamp();
        match self.delays.get_current(timestamp) {
            Some(delay) => latest(after(timestamp, *delay), self.latest_egress_timestamp),
            None => latest(timestamp, self.latest_egress_timestamp),
        }
    }

    /// Sends the packet in hand.
    fn send(&mut self) -> (action: DelayAction<P>)
        requires
            old(self).model().holding is Some,
            old(self).model().in_time(old(self).model().holding->0),
        ensures
            (final(self).model(), action) == old(self).model().sent(),
    {
        let mut packet = self.holding.take().unwrap();
        let t: Instant = self.logical_send_time(&packet);
        self.latest_egress_timestamp = t;
        packet.delay_until(t);
        DelayAction::Return(Some(packet))
    }

    /// Sends the packet in hand if it is time and the trace has no step to take before that.
    fn proceed(&mut self, now: Instant) -> (action: DelayAction<P>)
        requires
            old(self).model().holding is Some ==> old(self).model().in_time(
                old(self).model().holding->0,
            ),
        ensures
            (final(self).model(), action) == old(self).model().proceeded(now),
    {
        let t: Instant = match &self.holding {
            Some(packet) => {
                if self.next_change <= packet.get_timestamp() {
                    return DelayAction::Change;
                }
                self.logical_send_time(packet)
            },
            None => {
                return DelayAction::Wait;
            },
        };
        if t <= now {
            self.send()
        } else if self.next_change <= t {
            DelayAction::ChangeAt(self.next_change)
        } else {
            DelayAction::SendAt(t)
        }
    }

    /// A packet has come, or none will come any more.
    pub fn on_packet(&mut self, packet: Option<P>, now: Instant) -> (action: DelayAction<P>)
        requires
            packet is Some ==> old(self).model().in_time(packet->0),
        ensures
            (final(self).model(), action) == old(self).model().on_packet(packet, now),
    {
        let packet = match packet {
            Some(packet) => packet,
            None => {
                return DelayAction::Return(None);
            },
        };
        match admit_packet(self.state, packet) {
            Admission::Drop => DelayAction::Return(None),
            Admission::PassThrough(packet) => DelayAction::Return(Some(packet)),
            Admission::Normal(packet) => {
                self.holding = Some(packet);
                self.proceed(now)
            },
        }
    }

    /// The trace takes its next step, for the packet in hand too.
    pub fn on_step(&mut self, step: Option<(Duration, Duration)>, now: Instant) -> (action:
        DelayAction<P>)
        requires
            reachable(old(self).model().next_change, step_duration(step)),
            forall|after: DelayReplayModel<P>| #[trigger]
                old(self).model().stepped(step, old(self).model().next_change, after)
                    && after.holding is Some ==> after.in_time(after.holding->0),
        ensures
            exists|next: DelayReplayModel<P>|
                {
                    &&& #[trigger] old(self).model().stepped(
                        step,
                        old(self).model().next_change,
                        next,
                    )
                    &&& (final(self).model(), action) == next.proceeded(now)
                },
    {
        let _ = self.update_delay(step, self.next_change);
        assert(old(self).model().stepped(step, old(self).model().next_change, self.model()));
        self.proceed(now)
    }

    /// The time to send the packet in hand has come.
    pub fn on_timer(&mut self) -> (action: DelayAction<P>)
        requires
            old(self).model().holding is Some,
            old(self).model().in_time(old(self).model().holding->0),
        ensures
            (final(self).model(), action) == old(self).model().sent(),
    {
        self.send()
    }
}

/// Packets leave a delay cell in the order in which they came: none is sent before the one
/// that was sent last, nor before its delay is over.
pub proof fn law_delay_cell_keeps_order<P: Packet>(m: DelayModel<P>, packet: P)
    requires
        m.holding == Some(packet),
        m.in_time(packet),
    ensures
        m.sent().0.latest >= m.latest,
        m.sent().0.latest >= packet.timestamp() + m.delay,
        m.sent().0.latest == m.latest || m.sent().0.latest == packet.timestamp() + m.delay,
        m.sent().1 == DelayAction::Return(Some(packet.stamped(m.sent().0.latest))),
{
}

impl<P: Packet> DelayModel<P> {
    /// One packet, which comes at `now`, on its whole way through a cell in normal operation:
    /// it is sent at once, or when the timer rings that was asked for.
    pub open spec fn through(self, packet: P, now: Instant) -> (Self, P) {
        match self.on_packet(Some(packet), now) {
            (after, DelayAction::Return(Some(p))) => (after, p),
            (waiting, _) => {
                let (after, action) = waiting.sent();
                (after, action->Return_0->0)
            },
        }
    }

    /// What comes out of the cell for packets that come one after the other, each with the
    /// instant at which it is taken.
    pub open spec fn run(self, arrivals: Seq<(P, Instant)>) -> (Self, Seq<P>)
        decreases arrivals.len(),
    {
        if arrivals.len() == 0 {
            (self, Seq::empty())
        } else {
            let (before, out) = self.run(arrivals.drop_last());
            let (after, p) = before.through(arrivals.last().0, arrivals.last().1);
            (after, out.push(p))
        }
    }

    /// The timestamp with which the last of `arrivals` leaves; that of what was sent before
    /// them, if there are none. It is the later of the instant at which the delay of the packet
    /// is over and the timestamp of the packet before it.
    pub open spec fn stamp(self, arrivals: Seq<(P, Instant)>) -> int
        decreases arrivals.len(),
    {
        if arrivals.len() == 0 {
            self.latest as int
        } else {
            let due = arrivals.last().0.timestamp() + self.delay;
            let before = self.stamp(arrivals.drop_last());
            if due >= before {
                due
            } else {
                before
            }
        }
    }
}

/// Over a whole run no packet is lost and none is overtaken: the packets that come out are
/// those that went in, one by one. Each carries the later of the instant at which its delay is
/// over and the timestamp of the packet before it, so the timestamps never go down and no
/// packet leaves before its delay is over.
pub proof fn law_delay_cell_sends_all_in_turn<P: Packet>(
    m: DelayModel<P>,
    arrivals: Seq<(P, Instant)>,
)
    requires
        m.state == CellState::Normal,
        m.holding is None,
        forall|i: int| 0 <= i < arrivals.len() ==> m.in_time((#[trigger] arrivals[i]).0),
    ensures
        m.run(arrivals).1.len() == arrivals.len(),
        m.run(arrivals).0 == (DelayModel { latest: m.stamp(arrivals) as i128, ..m }),
        forall|k: int|
            0 <= k < arrivals.len() ==> {
                &&& #[trigger] m.run(arrivals).1[k] == arrivals[k].0.stamped(
                    m.stamp(arrivals.take(k + 1)) as i128,
                )
                &&& m.run(arrivals).1[k].timestamp() == m.stamp(arrivals.take(k + 1))
                &&& m.stamp(arrivals.take(k + 1)) >= arrivals[k].0.timestamp() + m.delay
                &&& m.stamp(arrivals.take(k + 1)) >= m.stamp(arrivals.take(k))
            },
        m.latest <= m.stamp(arrivals) <= i128::MAX,
    decreases arrivals.len(),
{
    if arrivals.len() > 0 {
        let n = arrivals.len() - 1;
        let front = arrivals.drop_last();
        let (packet, now) = arrivals.last();
        assert forall|i: int| 0 <= i < front.len() implies m.in_time(
            (#[trigger] front[i]).0,
        ) by {
            assert(front[i] == arrivals[i]);
        }
        assert(m.in_time(arrivals[n].0));
        law_delay_cell_sends_all_in_turn(m, front);
        let before = m.run(front).0;
        assert(before.send_time(packet) == m.stamp(arrivals));
        packet.stamping_keeps_length(m.stamp(arrivals) as i128);
        assert(arrivals.take(n + 1) =~= arrivals);
        assert(arrivals.take(n) =~= front);
        assert forall|k: int| 0 <= k < arrivals.len() implies {
            &&& #[trigger] m.run(arrivals).1[k] == arrivals[k].0.stamped(
                m.stamp(arrivals.take(k + 1)) as i128,
            )
            &&& m.run(arrivals).1[k].timestamp() == m.stamp(arrivals.take(k + 1))
            &&& m.stamp(arrivals.take(k + 1)) >= arrivals[k].0.timestamp() + m.delay
            &&& m.stamp(arrivals.take(k + 1)) >= m.stamp(arrivals.take(k))
        } by {
            if k < n {
                assert(arrivals.take(k + 1) =~= front.take(k + 1));
                assert(arrivals.take(k) =~= front.take(k));
                assert(m.run(arrivals).1[k] == m.run(front).1[k]);
            }
        }
    }
}

/// Packets leave a cell that replays a trace in the order in which they came, too.
pub proof fn law_delay_replay_cell_keeps_order<P: Packet>(m: DelayReplayModel<P>, packet: P)
    requires
        m.holding == Some(packet),
        m.in_time(packet),
    ensures
        m.sent().0.latest >= m.latest,
        m.sent().0.latest >= packet.timestamp() + m.delay_of(packet),
        m.sent().1 == DelayAction::Return(Some(packet.stamped(m.sent().0.latest))),
{
}

/// A packet is sent only when the trace has no step left that begins by its timestamp.
pub proof fn law_delay_replay_cell_is_up_to_date<P: Packet>(
    m: DelayReplayModel<P>,
    packet: P,
    now: Instant,
)
    requires
        m.holding == Some(packet),
        m.proceeded(now).1 is Return,
    ensures
        m.next_change > packet.timestamp(),
{
}

/// A packet leaves once its delay is over and the packet before it has left, neither earlier
/// nor later: if that is by `now`, at once and stamped with that time, and otherwise the cell
/// asks to be woken up then, with the packet in hand. The packet in hand leaves so under a
/// delay that is set meanwhile, too.
pub proof fn law_delay_cell_sends_in_time<P: Packet>(m: DelayModel<P>, packet: P, now: Instant)
    requires
        m.in_time(packet),
    ensures
        ({
            let holding = DelayModel { holding: Some(packet), ..m };
            let due = packet.timestamp() + m.delay;
            let t = if due >= m.latest {
                due
            } else {
                m.latest as int
            };
            let (after, action) = holding.proceeded(now);
            &&& t <= now ==> action == DelayAction::Return(Some(packet.stamped(t as i128)))
                && after.latest == t && after.holding is None
            &&& t > now ==> action == DelayAction::<P>::SendAt(t as i128) && after == holding
            &&& after.delay == m.delay && after.state == m.state
            &&& m.state == CellState::Normal ==> m.on_packet(Some(packet), now) == (after, action)
            &&& m.state == CellState::Drop ==> m.on_packet(Some(packet), now) == (
                m,
                DelayAction::<P>::Return(None),
            )
            &&& m.state == CellState::PassThrough ==> m.on_packet(Some(packet), now) == (
                m,
                DelayAction::Return(Some(packet)),
            )
        }),
{
}

/// A cell that replays a trace delays each packet by the delay in force at its timestamp. It
/// is sent once that is over and the packet before it has left, stamped with that time. Steps
/// of the trace that begin by its timestamp are taken before anything is decided; one that
/// begins while the packet waits is taken then.
pub proof fn law_delay_replay_cell_sends_in_time<P: Packet>(
    m: DelayReplayModel<P>,
    packet: P,
    now: Instant,
)
    requires
        m.in_time(packet),
    ensures
        ({
            let holding = DelayReplayModel { holding: Some(packet), ..m };
            let delay = match m.delays.at(packet.timestamp()) {
                Some(d) => d as int,
                None => 0,
            };
            let due = packet.timestamp() + delay;
            let t = if due >= m.latest {
                due
            } else {
                m.latest as int
            };
            let (after, action) = holding.proceeded(now);
            &&& m.next_change <= packet.timestamp() ==> action == DelayAction::<P>::Change
                && after == holding
            &&& m.next_change > packet.timestamp() && t <= now ==> action == DelayAction::Return(
                Some(packet.stamped(t as i128)),
            ) && after.latest == t && after.holding is None
            &&& m.next_change > packet.timestamp() && t > now && m.next_change <= t ==> action
                == DelayAction::<P>::ChangeAt(m.next_change) && after == holding
            &&& m.next_change > packet.timestamp() && t > now && m.next_change > t ==> action
                == DelayAction::<P>::SendAt(t as i128) && after == holding
            &&& m.state == CellState::Normal ==> m.on_packet(Some(packet), now) == (after, action)
            &&& m.state == CellState::Drop ==> m.on_packet(Some(packet), now) == (
                m,
                DelayAction::<P>::Return(None),
            )
            &&& m.state == CellState::PassThrough ==> m.on_packet(Some(packet), now) == (
                m,
                DelayAction::Return(Some(packet)),
            )
        }),
{
}

/// A step of a trace is in force for the packets from its begin on, and the one before it for
/// those before; the next step begins when its time is over. At the end of a trace the last
/// delay stays.
pub proof fn law_delay_trace_is_followed<P: Packet>(
    m: DelayReplayModel<P>,
    since: Instant,
    d1: Duration,
    step: Option<(Duration, Duration)>,
    timestamp: Instant,
    after: DelayReplayModel<P>,
    packet: P,
)
    requires
        m.stepped(step, timestamp, after),
        m.delays.current() == Some((since, d1)),
        since <= packet.timestamp(),
    ensures
        after.delay_of(packet) == match step {
            Some((d2, _)) => if packet.timestamp() >= timestamp {
                d2
            } else {
                d1
            },
            None => d1,
        },
        after.next_change == timestamp + match step {
            Some((_, duration)) => duration,
            None => LARGE_DURATION,
        },
        after.holding == m.holding && after.latest == m.latest && after.state == m.state,
{
}

/// Packets are delayed in normal operation only: before the start all are dropped, a cell that
/// passes through sends each as it is, and nothing is sent once no packet comes any more.
pub proof fn law_delay_is_for_normal_operation<P: Packet>(
    m: DelayModel<P>,
    r: DelayReplayModel<P>,
    packet: Option<P>,
    now: Instant,
)
    requires
        r.state == m.state,
        packet is None || m.state != CellState::Normal,
    ensures
        m.on_packet(packet, now).0 == m,
        r.on_packet(packet, now).0 == r,
        packet is None || m.state == CellState::Drop ==> m.on_packet(packet, now).1
            == DelayAction::<P>::Return(None) && r.on_packet(packet, now).1 == DelayAction::<
            P,
        >::Return(None),
        m.state == CellState::PassThrough ==> m.on_packet(packet, now).1 == DelayAction::Return(
            packet,
        ) && r.on_packet(packet, now).1 == DelayAction::Return(packet),
{
}

} // verus!
