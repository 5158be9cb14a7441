//! Devices that send packets twice.
use crate::cells::{admission, admit_packet, Admission, CellState};
use crate::error::{control_channel, Error};
use crate::packet::{Packet, RawPacket};
use crate::pattern::{can_draw, happens, may_come_out, next_streak, rate_at, rate_of};
use crate::time::{after, reachable, Duration, Instant};
use vstd::prelude::*;

verus! {

/// The pattern of rates repeats its last value until a packet is not duplicated:
/// `[0.1, 0.2, 0.3]` means `[0.1, 0.2, 0.3, 0.3, 0.3, ..]`. A last value of 0 limits the
/// number of packets that are duplicated in a row; a single value duplicates packets
/// independently.
#[derive(Debug)]
pub struct DuplicateDeviceConfig<R> {
    pub pattern: Vec<R>,
}

impl<R> DuplicateDeviceConfig<R> {
    pub fn new(pattern: Vec<R>) -> (c: Self)
        ensures
            c.pattern == pattern,
    {
        DuplicateDeviceConfig { pattern }
    }
}

/// Where a device that duplicates packets is configured. `store` hands a pattern to the
/// device.
pub struct DuplicateDeviceControlInterface<S> {
    pub store: S,
}

impl<S> DuplicateDeviceControlInterface<S> {
    /// Hands the pattern to the device.
    pub fn set_config<R>(&self, config: DuplicateDeviceConfig<R>) -> (r: Result<(), Error>) where
        S: Fn(Vec<R>),

        requires
            call_requires(self.store, (config.pattern,)),
        ensures
            r is Ok,
            call_ensures(self.store, (config.pattern,), ()),
    {
        (self.store)(config.pattern);
        Ok(())
    }
}

/// `copy` holds what `packet` holds, and is at the same point in time.
pub open spec fn copy_of<P: RawPacket>(packet: P, copy: P) -> bool {
    copy.bytes() == packet.bytes() && copy.timestamp() == packet.timestamp()
}

/// What a device that duplicates packets remembers.
#[verifier::ext_equal]
pub struct DuplicateModel<R, P> {
    pub pattern: Seq<R>,
    /// How many different packets have been duplicated in a row.
    pub prev_duplicated: nat,
    /// The copy that is sent next.
    pub buffer: Option<P>,
    pub state: CellState,
}

impl<R, P: RawPacket> DuplicateModel<R, P> {
    /// The rate at which the next packet is duplicated.
    pub open spec fn rate(self) -> Option<R> {
        rate_at(self.pattern, self.prev_duplicated)
    }

    /// What may become of a packet; `None` means that no packet will come any more.
    pub open spec fn passed<F: Fn(R) -> bool>(
        self,
        packet: Option<P>,
        draw: F,
        after: Self,
        out: Option<P>,
    ) -> bool {
        match packet {
            None => after == self && out is None,
            Some(p) => match admission(self.state, p) {
                Admission::Drop => after == self && out is None,
                Admission::PassThrough(p) => after == self && out == Some(p),
                Admission::Normal(p) => {
                    &&& out == Some(p)
                    &&& after == (DuplicateModel {
                        prev_duplicated: after.prev_duplicated,
                        buffer: after.buffer,
                        ..self
                    })
                    &&& {
                        ||| {
                            &&& may_come_out(draw, self.rate(), true)
                            &&& after.prev_duplicated == next_streak(self.prev_duplicated, true)
                            &&& after.buffer is Some
                            &&& copy_of(p, after.buffer->0)
                        }
                        ||| {
                            &&& may_come_out(draw, self.rate(), false)
                            &&& after.prev_duplicated == next_streak(self.prev_duplicated, false)
                            &&& after.buffer == self.buffer
                        }
                    }
                },
            },
        }
    }
}

/// The sending side of a device that duplicates packets.
#[derive(Debug)]
pub struct DuplicateDeviceEgress<R, P> {
    pattern: Vec<R>,
    prev_duplicated: usize,
    duplicated_buffer: Option<P>,
    state: CellState,
}

impl<R: Copy, P: RawPacket> DuplicateDeviceEgress<R, P> {
    pub closed spec fn model(self) -> DuplicateModel<R, P> {
        DuplicateModel {
            pattern: self.pattern@,
            prev_duplicated: self.prev_duplicated as nat,
            buffer: self.duplicated_buffer,
            state: self.state,
        }
    }

    /// A device that has duplicated nothing yet, and drops everything until it is started.
    pub fn new(pattern: Vec<R>) -> (e: Self)
        ensures
            e.model() == (DuplicateModel::<R, P> {
                pattern: pattern@,
                prev_duplicated: 0,
                buffer: None,
                state: CellState::Drop,
            }),
    {
        DuplicateDeviceEgress {
            pattern,
            prev_duplicated: 0,
            duplicated_buffer: None,
            state: CellState::Drop,
        }
    }

    pub fn change_state(&mut self, state: CellState)
        ensures
            final(self).model() == (DuplicateModel { state, ..old(self).model() }),
    {
        self.state = state;
    }

    /// Another pattern comes into force. How many packets have been duplicated in a row
    /// stays.
    pub fn set_pattern(&mut self, pattern: Vec<R>)
        ensures
            final(self).model() == (DuplicateModel { pattern: pattern@, ..old(self).model() }),
    {
        self.pattern = pattern;
    }

    /// The copy of the packet that was sent last, if there is one. It is sent before another
    /// packet is taken in.
    pub fn take_duplicate(&mut self) -> (copy: Option<P>)
        ensures
            copy == old(self).model().buffer,
            final(self).model() == (DuplicateModel { buffer: None, ..old(self).model() }),
    {
        self.duplicated_buffer.take()
    }

    /// A packet has come, or none will come any more. Returns what is sent. `draw` tells
    /// whether something happens at a rate.
    pub fn on_packet<F: Fn(R) -> bool>(&mut self, packet: Option<P>, draw: &F) -> (out: Option<P>)
        requires
            packet is Some && old(self).model().state == CellState::Normal ==> can_draw(
                *draw,
                old(self).model().rate(),
            ),
            old(self).model().prev_duplicated < usize::MAX,
        ensures
            old(self).model().passed(packet, *draw, final(self).model(), out),
    {
        let packet = match packet {
            Some(packet) => packet,
            None => {
                return None;
            },
        };
        match admit_packet(self.state, packet) {
            Admission::Drop => None,
            Admission::PassThrough(packet) => Some(packet),
            Admission::Normal(packet) => {
                if happens(draw, rate_of(&self.pattern, self.prev_duplicated)) {
                    self.prev_duplicated = self.prev_duplicated + 1;
                    self.duplicated_buffer = Some(packet.copied());
                } else {
                    self.prev_duplicated = 0;
                }
                Some(packet)
            },
        }
    }
}

/// A step of a trace: a pattern and how long it is in force.
pub type DuplicateStep<R> = Option<(Vec<R>, Duration)>;

/// What a device that replays a trace of patterns remembers.
#[verifier::ext_equal]
pub struct DuplicateReplayModel<R, P> {
    pub duplicate: DuplicateModel<R, P>,
    /// When the trace takes its next step.
    pub next_change: Instant,
}

impl<R, P> DuplicateReplayModel<R, P> {
    /// The trace has taken a step at `timestamp`.
    pub open spec fn stepped(self, pattern: Seq<R>, duration: Duration, timestamp: Instant) -> Self {
        DuplicateReplayModel {
            duplicate: DuplicateModel { pattern, ..self.duplicate },
            next_change: (timestamp + duration) as i128,
        }
    }
}

/// The sending side of a device that replays a trace of patterns.
#[derive(Debug)]
pub struct DuplicateReplayDeviceEgress<R, P> {
    duplicate: DuplicateDeviceEgress<R, P>,
    next_change: Instant,
}

impl<R: Copy, P: RawPacket> DuplicateReplayDeviceEgress<R, P> {
    pub closed spec fn model(self) -> DuplicateReplayModel<R, P> {
        DuplicateReplayModel {
            duplicate: self.duplicate.model(),
            next_change: self.next_change,
        }
    }

    /// A device whose trace takes its first step at `now`. Until then `pattern` is in force.
    pub fn new(pattern: Vec<R>, now: Instant) -> (e: Self)
        ensures
            e.model() == (DuplicateReplayModel {
                duplicate: DuplicateModel::<R, P> {
                    pattern: pattern@,
                    prev_duplicated: 0,
                    buffer: None,
                    state: CellState::Drop,
                },
                next_change: now,
            }),
    {
        DuplicateReplayDeviceEgress {
            duplicate: DuplicateDeviceEgress::new(pattern),
            next_change: now,
        }
    }

    pub fn change_state(&mut self, state: CellState)
        ensures
            final(self).model() == (DuplicateReplayModel {
                duplicate: DuplicateModel { state, ..old(self).model().duplicate },
                ..old(self).model()
            }),
    {
        self.duplicate.change_state(state);
    }

    /// The trace begins at `start`.
    pub fn reset(&mut self, start: Instant)
        ensures
            final(self).model() == (DuplicateReplayModel {
                duplicate: DuplicateModel { prev_duplicated: 0, ..old(self).model().duplicate },
                next_change: start,
            }),
    {
        self.duplicate.prev_duplicated = 0;
        self.next_change = start;
    }

    /// Takes a step of the trace at `change_time`. Tells whether there was one.
    fn next_change(&mut self, step: DuplicateStep<R>, change_time: Instant) -> (more: bool)
        requires
            step is Some ==> reachable(change_time, (step->0).1),
        ensures
            more == (step is Some),
            match step {
                Some((pattern, duration)) => final(self).model() == old(self).model().stepped(
                    pattern@,
                    duration,
                    change_time,
                ),
                None => final(self).model() == old(self).model(),
            },
    {
        match step {
            Some((pattern, duration)) => {
                self.duplicate.set_pattern(pattern);
                self.next_change = after(change_time, duration);
                true
            },
            None => false,
        }
    }

    /// Another trace begins at `now` with its first step. A trace without any step has come
    /// to its end: the device drops all packets.
    pub fn set_config(&mut self, step: DuplicateStep<R>, now: Instant)
        requires
            step is Some ==> reachable(now, (step->0).1),
        ensures
            match step {
                Some((pattern, duration)) => final(self).model() == old(self).model().stepped(
                    pattern@,
                    duration,
                    now,
                ),
                None => final(self).model() == (DuplicateReplayModel {
                    duplicate: DuplicateModel {
                        state: CellState::Drop,
                        ..old(self).model().duplicate
                    },
                    next_change: now,
                }),
            },
    {
        if !self.next_change(step, now) {
            self.next_change = now;
            self.change_state(CellState::Drop);
        }
    }

    /// The time of the next step has come. Tells whether the device goes on: at the end of
    /// the trace no packet is sent any more.
    pub fn on_step(&mut self, step: DuplicateStep<R>) -> (more: bool)
        requires
            step is Some ==> reachable(old(self).model().next_change, (step->0).1),
        ensures
            more == (step is Some),
            match step {
                Some((pattern, duration)) => final(self).model() == old(self).model().stepped(
                    pattern@,
                    duration,
                    old(self).model().next_change,
                ),
                None => final(self).model() == old(self).model(),
            },
    {
        let at: Instant = self.next_change;
        self.next_change(step, at)
    }

    /// When the trace takes its next step.
    pub fn change_time(&self) -> (t: Instant)
        ensures
            t == self.model().next_change,
    {
        self.next_change
    }

    /// The copy of the packet that was sent last, if there is one.
    pub fn take_duplicate(&mut self) -> (copy: Option<P>)
        ensures
            copy == old(self).model().duplicate.buffer,
            final(self).model() == (DuplicateReplayModel {
                duplicate: DuplicateModel { buffer: None, ..old(self).model().duplicate },
                ..old(self).model()
            }),
    {
        self.duplicate.take_duplicate()
    }

    /// A packet has come. Returns what is sent.
    pub fn on_packet<F: Fn(R) -> bool>(&mut self, packet: P, draw: &F) -> (out: Option<P>)
        requires
            old(self).model().duplicate.state == CellState::Normal ==> can_draw(
                *draw,
                old(self).model().duplicate.rate(),
            ),
            old(self).model().duplicate.prev_duplicated < usize::MAX,
        ensures
            final(self).model().next_change == old(self).model().next_change,
            old(self).model().duplicate.passed(
                Some(packet),
                *draw,
                final(self).model().duplicate,
                out,
            ),
    {
        self.duplicate.on_packet(Some(packet), draw)
    }
}

/// Where a device that replays a trace of patterns is configured. `send` hands a trace to the
/// device and tells whether it was taken.
pub struct DuplicateReplayDeviceControlInterface<S> {
    pub send: S,
}

impl<S> DuplicateReplayDeviceControlInterface<S> {
    pub fn set_config<C>(&self, config: C) -> (r: Result<(), Error>) where S: Fn(C) -> bool
        requires
            call_requires(self.send, (config,)),
        ensures
            exists|sent: bool| #[trigger]
                call_ensures(self.send, (config,), sent) && (r is Ok <==> sent),
            r is Err ==> r->Err_0 is ConfigError && r->Err_0.text()
                == "Control channel is closed."@,
    {
        let sent: bool = (self.send)(config);
        control_channel(sent)
    }
}

/// In normal operation no packet is lost, and each is sent as it came. A copy, if there is
/// one, holds the same bytes at the same point in time.
pub proof fn law_duplicate_device_loses_nothing<R, P: RawPacket, F: Fn(R) -> bool>(
    m: DuplicateModel<R, P>,
    packet: P,
    draw: F,
    after: DuplicateModel<R, P>,
    out: Option<P>,
)
    requires
        m.passed(Some(packet), draw, after, out),
        m.state == CellState::Normal,
        m.buffer is None,
    ensures
        out == Some(packet),
        after.buffer is Some ==> copy_of(packet, after.buffer->0),
        after.buffer is Some <==> after.prev_duplicated > 0,
{
}

/// In normal operation a packet is sent as it came and a copy follows it exactly if the draw
/// hits, at the rate that the pattern has for the packets duplicated in a row before it: the
/// value at their number, and the last one past its end. A copy adds to them, and a packet
/// without one starts them over. An empty pattern duplicates nothing.
pub proof fn law_packet_is_duplicated_by_the_rate_of_its_streak<
    R,
    P: RawPacket,
    F: Fn(R) -> bool,
>(
    m: DuplicateModel<R, P>,
    packet: P,
    draw: F,
    after: DuplicateModel<R, P>,
    out: Option<P>,
)
    requires
        m.state == CellState::Normal,
        m.buffer is None,
        m.passed(Some(packet), draw, after, out),
    ensures
        out == Some(packet),
        after.buffer is Some ==> after.buffer->0.bytes() == packet.bytes()
            && after.buffer->0.timestamp() == packet.timestamp() && after.prev_duplicated
            == m.prev_duplicated + 1,
        after.buffer is None ==> after.prev_duplicated == 0,
        m.pattern.len() == 0 ==> after.buffer is None,
        m.pattern.len() > 0 ==> {
            let i = if m.prev_duplicated < m.pattern.len() {
                m.prev_duplicated as int
            } else {
                m.pattern.len() - 1
            };
            call_ensures(draw, (m.pattern[i],), after.buffer is Some)
        },
        after.pattern == m.pattern && after.state == m.state,
{
}

/// Before it is started a device loses everything, and while it passes through it hands on
/// what comes as it is; either way nothing is duplicated.
pub proof fn law_duplicate_device_passes_through<R, P: RawPacket, F: Fn(R) -> bool>(
    m: DuplicateModel<R, P>,
    packet: P,
    draw: F,
    after: DuplicateModel<R, P>,
    out: Option<P>,
)
    requires
        m.passed(Some(packet), draw, after, out),
    ensures
        m.state == CellState::Drop ==> out is None && after == m,
        m.state == CellState::PassThrough ==> out == Some(packet) && after == m,
{
}

/// A step of a trace sets the pattern and the time of the next step, and keeps the packets
/// duplicated in a row and the copy that is yet to be sent.
pub proof fn law_duplicate_trace_keeps_the_streak<R, P>(
    m: DuplicateReplayModel<R, P>,
    pattern: Seq<R>,
    duration: Duration,
    timestamp: Instant,
)
    requires
        reachable(timestamp, duration),
    ensures
        m.stepped(pattern, duration, timestamp).duplicate.pattern == pattern,
        m.stepped(pattern, duration, timestamp).duplicate.prev_duplicated
            == m.duplicate.prev_duplicated,
        m.stepped(pattern, duration, timestamp).duplicate.buffer == m.duplicate.buffer,
        m.stepped(pattern, duration, timestamp).duplicate.state == m.duplicate.state,
        m.stepped(pattern, duration, timestamp).next_change == timestamp + duration,
{
}

/// Packets are duplicated in normal operation only: before the start all are dropped, a device
/// that passes through sends each as it is, and nothing is sent once no packet comes any more.
pub proof fn law_duplicates_are_for_normal_operation<R, P: RawPacket, F: Fn(R) -> bool>(
    m: DuplicateModel<R, P>,
    packet: Option<P>,
    draw: F,
    after: DuplicateModel<R, P>,
    out: Option<P>,
)
    requires
        m.passed(packet, draw, after, out),
        packet is None || m.state != CellState::Normal,
    ensures
        after == m,
        packet is None || m.state == CellState::Drop ==> out is None,
        m.state == CellState::PassThrough ==> out == packet,
{
}

} // verus!
