//! Cells that limit the rate at which packets leave.
use crate::cells::config_timestamp::CurrentConfig;
use crate::cells::CellState;
use crate::error::{control_channel, Error};
use crate::law::callable;
use crate::packet::Packet;
use crate::time::{
    after, duration_since, elapsed, reachable, Duration, Instant, LARGE_DURATION,
};
use link::{
    bits_of, on_packet_spec, on_timer_spec, pullable, takes_packet, LinkAction, LinkEgress,
    LinkModel, Rate,
};
use queue::PacketQueue;
use vstd::prelude::*;

pub mod link;
pub mod queue;

verus! {

/// How the length of a packet on the link is counted.
#[derive(Debug, Clone, Copy, PartialEq, Eq, Structural)]
pub enum BwType {
    /// With preamble, Ethernet header, checksum and interframe gap.
    LinkLayer,
    /// From the network header on.
    NetworkLayer,
}

impl BwType {
    /// Bytes that this type counts on top of the network layer length:
    /// 8 (preamble) + 14 (Ethernet header) + 4 (checksum) + 12 (interframe gap), or none.
    pub open spec fn extra(self) -> usize {
        match self {
            BwType::LinkLayer => 38,
            BwType::NetworkLayer => 0,
        }
    }

    pub fn extra_length(&self) -> (n: usize)
        ensures
            n == self.extra(),
    {
        match self {
            BwType::LinkLayer => 38,
            BwType::NetworkLayer => 0,
        }
    }
}

impl Default for BwType {
    fn default() -> (t: Self)
        ensures
            t == BwType::NetworkLayer,
    {
        BwType::NetworkLayer
    }
}

/// The highest rate of a link, in bits per second.
pub const MAX_BANDWIDTH: u128 = 0xffff_ffff_ffff_ffff;

/// A change to a rate limited cell. What is `None` stays as it is.
#[derive(Debug)]
pub struct BwCellConfig<C> {
    /// In bits per second.
    pub bandwidth: Option<u128>,
    pub queue_config: Option<C>,
    pub bw_type: Option<BwType>,
}

impl<C> BwCellConfig<C> {
    pub fn new(bandwidth: Option<u128>, queue_config: Option<C>, bw_type: Option<BwType>) -> (c: Self)
        ensures
            c == (BwCellConfig { bandwidth, queue_config, bw_type }),
    {
        BwCellConfig { bandwidth, queue_config, bw_type }
    }

    /// There is something to set, and the bandwidth is one that a link can have.
    pub open spec fn valid(self) -> bool {
        &&& self.bandwidth is Some || self.queue_config is Some || self.bw_type is Some
        &&& self.bandwidth is Some ==> self.bandwidth->0 <= MAX_BANDWIDTH
    }

    pub open spec fn is_empty(self) -> bool {
        self.bandwidth is None && self.queue_config is None && self.bw_type is None
    }

    /// Whether the cell can be given this configuration.
    pub fn validate(&self) -> (r: Result<(), Error>)
        ensures
            r is Ok <==> self.valid(),
            r is Err ==> r->Err_0 is ConfigError,
            self.is_empty() ==> r is Err && r->Err_0.text()
                == "At least one of bandwidth, queue_config and bw_type should be set"@,
            !self.is_empty() && r is Err ==> r->Err_0.text()
                == "Bandwidth should be less than 2^64 bps"@,
    {
        if self.bandwidth.is_none() && self.queue_config.is_none() && self.bw_type.is_none() {
            return Err(
                Error::ConfigError(
                    "At least one of bandwidth, queue_config and bw_type should be set".to_owned(),
                ),
            );
        }
        match self.bandwidth {
            Some(bandwidth) => if bandwidth > MAX_BANDWIDTH {
                return Err(
                    Error::ConfigError("Bandwidth should be less than 2^64 bps".to_owned()),
                );
            },
            None => {},
        }
        Ok(())
    }
}

/// Where a rate limited cell is configured. `send` hands a configuration to the cell and
/// tells whether it was taken.
pub struct BwCellControlInterface<S> {
    pub send: S,
}

impl<S> BwCellControlInterface<S> {
    /// Hands `config` to the cell, if the cell can be given it.
    pub fn set_config<C>(&self, config: BwCellConfig<C>) -> (r: Result<(), Error>) where
        S: Fn(BwCellConfig<C>) -> bool,

        requires
            config.valid() ==> call_requires(self.send, (config,)),
        ensures
            r is Err ==> r->Err_0 is ConfigError,
            config.is_empty() ==> r is Err && r->Err_0.text()
                == "At least one of bandwidth, queue_config and bw_type should be set"@,
            !config.is_empty() && !config.valid() ==> r is Err && r->Err_0.text()
                == "Bandwidth should be less than 2^64 bps"@,
            config.valid() ==> exists|sent: bool|
                {
                    &&& #[trigger] call_ensures(self.send, (config,), sent)
                    &&& r is Ok <==> sent
                    &&& !sent ==> r->Err_0.text() == "Control channel is closed."@
                },
    {
        match config.validate() {
            Ok(()) => {
                let sent: bool = (self.send)(config);
                control_channel(sent)
            },
            Err(e) => Err(e),
        }
    }
}

/// The time left until `next_available` when the bandwidth changes from `before` to `after`
/// at `change_time`: it is scaled by what `rescale` makes of the two, and without bandwidth
/// there is no end to it.
pub open spec fn is_rescaled<S: Fn(Duration, (u64, u64)) -> Duration>(
    rescale: S,
    next_available: Instant,
    change_time: Instant,
    now: Instant,
    before: u64,
    after: u64,
    t: int,
) -> bool {
    if after == 0 {
        t == now + LARGE_DURATION
    } else {
        exists|d: Duration| #[trigger]
            call_ensures(rescale, (elapsed(next_available, change_time), (before, after)), d) && t
                == change_time + d
    }
}

/// Every time that `is_rescaled` allows is one that the clock can hold.
pub open spec fn rescalable<S: Fn(Duration, (u64, u64)) -> Duration>(
    rescale: S,
    next_available: Instant,
    change_time: Instant,
    now: Instant,
    before: u64,
    after: u64,
) -> bool {
    if after == 0 {
        reachable(now, LARGE_DURATION)
    } else {
        &&& callable(rescale)
        &&& forall|d: Duration| #[trigger]
            call_ensures(rescale, (elapsed(next_available, change_time), (before, after)), d)
                ==> reachable(change_time, d)
    }
}

/// When the wire is free, after the bandwidth has changed.
fn rescale_available<S: Fn(Duration, (u64, u64)) -> Duration>(
    rescale: &S,
    next_available: Instant,
    change_time: Instant,
    now: Instant,
    before: u64,
    after_change: u64,
) -> (t: Instant)
    requires
        rescalable(*rescale, next_available, change_time, now, before, after_change),
    ensures
        is_rescaled(*rescale, next_available, change_time, now, before, after_change, t as int),
{
    if after_change == 0 {
        after(now, LARGE_DURATION)
    } else {
        let left: Duration = rescale(
            duration_since(next_available, change_time),
            (before, after_change),
        );
        after(change_time, left)
    }
}

/// A cell of fixed rate.
pub struct BwCellEgress<P, Q, T, S> {
    link: LinkEgress<P, Q, T>,
    rescale: S,
}

impl<
    P: Packet,
    Q: PacketQueue<P>,
    T: Fn(u64, u64) -> Duration,
    S: Fn(Duration, (u64, u64)) -> Duration,
> BwCellEgress<P, Q, T, S> {
    pub closed spec fn model(self) -> LinkModel<P, Q::Model, T> {
        self.link.model()
    }

    pub closed spec fn rescale(self) -> S {
        self.rescale
    }

    /// The rate is the same at all times.
    pub open spec fn wf(self) -> bool {
        self.model().rate is Fixed
    }

    /// A cell on which nothing is sent, at `now`; without a bandwidth, it has the highest
    /// one.
    ///
    /// `transfer(bits, bandwidth)` is the time that a number of bits takes, and
    /// `rescale(d, (before, after))` is `d` times `before` divided by `after`.
    pub fn new(
        bandwidth: Option<u64>,
        packet_queue: Q,
        bw_type: Option<BwType>,
        now: Instant,
        transfer: T,
        rescale: S,
    ) -> (e: Self)
        ensures
            e.wf(),
            e.rescale() == rescale,
            e.model() == (LinkModel {
                bw_type: match bw_type {
                    Some(t) => t,
                    None => BwType::NetworkLayer,
                },
                rate: Rate::Fixed(
                    match bandwidth {
                        Some(b) => b,
                        None => u64::MAX,
                    },
                ),
                inbound: Seq::<P>::empty(),
                queue: packet_queue.model(),
                latest: None,
                next_available: now,
                transmitting: None,
                state: CellState::Drop,
                idle: false,
                transfer,
            }),
    {
        let bw_type = match bw_type {
            Some(t) => t,
            None => BwType::default(),
        };
        let bandwidth: u64 = match bandwidth {
            Some(b) => b,
            None => u64::MAX,
        };
        BwCellEgress {
            link: LinkEgress::new(Rate::Fixed(bandwidth), packet_queue, bw_type, now, transfer),
            rescale,
        }
    }

    pub fn change_state(&mut self, state: CellState)
        requires
            old(self).wf(),
        ensures
            final(self).wf(),
            final(self).rescale() == old(self).rescale(),
            final(self).model() == (LinkModel { state, ..old(self).model() }),
    {
        self.link.change_state(state);
    }

    /// `config` comes into force at `now`.
    pub fn set_config(&mut self, config: BwCellConfig<Q::Config>, now: Instant)
        requires
            old(self).wf(),
            config.bandwidth is Some ==> config.bandwidth->0 <= MAX_BANDWIDTH && rescalable(
                old(self).rescale(),
                old(self).model().next_available,
                now,
                now,
                old(self).model().rate->Fixed_0,
                config.bandwidth->0 as u64,
            ),
        ensures
            final(self).wf(),
            final(self).rescale() == old(self).rescale(),
            config.bandwidth is Some ==> is_rescaled(
                old(self).rescale(),
                old(self).model().next_available,
                now,
                now,
                old(self).model().rate->Fixed_0,
                config.bandwidth->0 as u64,
                final(self).model().next_available as int,
            ),
            config.bandwidth is None ==> final(self).model().next_available
                == old(self).model().next_available,
            final(self).model() == (LinkModel {
                next_available: final(self).model().next_available,
                rate: match config.bandwidth {
                    Some(b) => Rate::Fixed(b as u64),
                    None => old(self).model().rate,
                },
                queue: match config.queue_config {
                    Some(c) => Q::configured(old(self).model().queue, c),
                    None => old(self).model().queue,
                },
                bw_type: match config.bw_type {
                    Some(t) => t,
                    None => old(self).model().bw_type,
                },
                ..old(self).model()
            }),
    {
        match config.bandwidth {
            Some(bandwidth) => {
                let bandwidth: u64 = bandwidth as u64;
                let before: u64 = match self.link.rate_at(now) {
                    Some(rate) => rate,
                    None => 0,
                };
                let t: Instant = rescale_available(
                    &self.rescale,
                    self.link.next_available(),
                    now,
                    now,
                    before,
                    bandwidth,
                );
                self.link.set_next_available(t);
                self.link.set_rate(Rate::Fixed(bandwidth));
            },
            None => {},
        }
        match config.queue_config {
            Some(queue_config) => {
                self.link.configure_queue(queue_config);
            },
            None => {},
        }
        match config.bw_type {
            Some(bw_type) => {
                self.link.set_bw_type(bw_type);
            },
            None => {},
        }
    }

    /// A packet has come, or none will come any more.
    pub fn on_packet(&mut self, packet: Option<P>, now: Instant) -> (action: LinkAction<P>)
        requires
            old(self).wf(),
            packet is Some && old(self).model().state == CellState::Normal ==> takes_packet::<
                P,
                Q,
                T,
            >(old(self).model(), packet->0),
        ensures
            on_packet_spec::<P, Q, T>(old(self).model(), packet, now, final(self).model(), action),
            final(self).rescale() == old(self).rescale(),
            final(self).model().rate == old(self).model().rate,
    {
        self.link.on_packet(packet, now)
    }

    /// The time at which the cell wanted to be woken up has come.
    pub fn on_timer(&mut self, time: Instant, now: Instant) -> (action: LinkAction<P>)
        requires
            old(self).wf(),
            old(self).model().idle ==> pullable::<P, Q, T>(old(self).model(), time),
            !old(self).model().idle ==> pullable::<P, Q, T>(
                old(self).model().cleared(),
                old(self).model().next_available,
            ),
        ensures
            on_timer_spec::<P, Q, T>(old(self).model(), time, now, final(self).model(), action),
            final(self).rescale() == old(self).rescale(),
            final(self).model().rate == old(self).model().rate,
    {
        self.link.on_timer(time, now)
    }

    /// When the cell wants to be woken up.
    pub fn wake_time(&self, now: Instant) -> (t: Instant)
        requires
            reachable(now, LARGE_DURATION),
        ensures
            t == self.model().wake(now),
    {
        self.link.wake_time(now)
    }
}

/// A change to a cell that replays a trace. What is `None` stays as it is.
#[derive(Debug)]
pub struct BwReplayCellConfig<C> {
    /// A trace that takes the place of the present one, by its first step: a bandwidth and
    /// how long it lasts, or nothing if the trace has no steps.
    pub trace: Option<Option<(u64, Duration)>>,
    pub queue_config: Option<C>,
    pub bw_type: Option<BwType>,
}

impl<C> BwReplayCellConfig<C> {
    pub fn new(
        trace: Option<Option<(u64, Duration)>>,
        queue_config: Option<C>,
        bw_type: Option<BwType>,
    ) -> (c: Self)
        ensures
            c == (BwReplayCellConfig { trace, queue_config, bw_type }),
    {
        BwReplayCellConfig { trace, queue_config, bw_type }
    }

    pub open spec fn is_empty(self) -> bool {
        self.trace is None && self.queue_config is None && self.bw_type is None
    }
}

/// Where a cell that replays a trace is configured.
pub struct BwReplayCellControlInterface<S> {
    pub send: S,
}

impl<S> BwReplayCellControlInterface<S> {
    /// Hands `config` to the cell, if there is something to set.
    pub fn set_config<C>(&self, config: BwReplayCellConfig<C>) -> (r: Result<(), Error>) where
        S: Fn(BwReplayCellConfig<C>) -> bool,

        requires
            !config.is_empty() ==> call_requires(self.send, (config,)),
        ensures
            r is Err ==> r->Err_0 is ConfigError,
            config.is_empty() ==> r is Err && r->Err_0.text()
                == "At least one of bandwidth, queue_config and bw_type should be set"@,
            !config.is_empty() ==> exists|sent: bool|
                {
                    &&& #[trigger] call_ensures(self.send, (config,), sent)
                    &&& r is Ok <==> sent
                    &&& !sent ==> r->Err_0.text() == "Control channel is closed."@
                },
    {
        if config.trace.is_none() && config.queue_config.is_none() && config.bw_type.is_none() {
            return Err(
                Error::ConfigError(
                    "At least one of bandwidth, queue_config and bw_type should be set".to_owned(),
                ),
            );
        }
        let sent: bool = (self.send)(config);
        control_channel(sent)
    }
}

/// The bandwidth before a change: that of the step before, or, if there was none, the new
/// one.
pub open spec fn bandwidth_before(rate: Rate, bandwidth: u64) -> u64 {
    match rate {
        Rate::Replayed(config) => match config.current() {
            Some((_, b)) => b,
            None => bandwidth,
        },
        Rate::Fixed(b) => b,
    }
}

/// A cell whose rate follows a trace.
pub struct BwReplayCellEgress<P, Q, T, S> {
    link: LinkEgress<P, Q, T>,
    next_change: Instant,
    rescale: S,
}

impl<
    P: Packet,
    Q: PacketQueue<P>,
    T: Fn(u64, u64) -> Duration,
    S: Fn(Duration, (u64, u64)) -> Duration,
> BwReplayCellEgress<P, Q, T, S> {
    pub closed spec fn model(self) -> LinkModel<P, Q::Model, T> {
        self.link.model()
    }

    pub closed spec fn rescale(self) -> S {
        self.rescale
    }

    /// When the next step of the trace begins.
    pub closed spec fn next_change_at(self) -> Instant {
        self.next_change
    }

    /// The rate follows a trace.
    pub open spec fn wf(self) -> bool {
        self.model().rate is Replayed
    }

    /// A cell on which nothing is sent, at `now`, and which has no bandwidth yet.
    pub fn new(packet_queue: Q, bw_type: Option<BwType>, now: Instant, transfer: T, rescale: S) -> (e:
        Self)
        ensures
            e.wf(),
            e.rescale() == rescale,
            e.next_change_at() == now,
            e.model().bw_type == match bw_type {
                Some(t) => t,
                None => BwType::NetworkLayer,
            },
            forall|t: Instant| (#[trigger] e.model().rate.at(t)) is None,
            e.model() == (LinkModel {
                bw_type: e.model().bw_type,
                rate: e.model().rate,
                inbound: Seq::<P>::empty(),
                queue: packet_queue.model(),
                latest: None,
                next_available: now,
                transmitting: None,
                state: CellState::Drop,
                idle: false,
                transfer,
            }),
    {
        let bw_type = match bw_type {
            Some(t) => t,
            None => BwType::default(),
        };
        BwReplayCellEgress {
            link: LinkEgress::new(
                Rate::Replayed(CurrentConfig::new()),
                packet_queue,
                bw_type,
                now,
                transfer,
            ),
            next_change: now,
            rescale,
        }
    }

    pub fn change_state(&mut self, state: CellState)
        requires
            old(self).wf(),
        ensures
            final(self).wf(),
            final(self).rescale() == old(self).rescale(),
            final(self).next_change_at() == old(self).next_change_at(),
            final(self).model() == (LinkModel { state, ..old(self).model() }),
    {
        self.link.change_state(state);
    }

    /// The trace begins at `start`. To be called before any packet is asked for.
    pub fn reset(&mut self, start: Instant)
        requires
            old(self).wf(),
        ensures
            final(self).wf(),
            final(self).rescale() == old(self).rescale(),
            final(self).next_change_at() == start,
            final(self).model() == (LinkModel { next_available: start, ..old(self).model() }),
    {
        self.link.set_next_available(start);
        self.next_change = start;
    }

    /// The bandwidth changes at `change_time`.
    fn change_bandwidth(&mut self, bandwidth: u64, change_time: Instant, now: Instant)
        requires
            old(self).wf(),
            rescalable(
                old(self).rescale(),
                old(self).model().next_available,
                change_time,
                now,
                bandwidth_before(old(self).model().rate, bandwidth),
                bandwidth,
            ),
        ensures
            final(self).wf(),
            final(self).rescale() == old(self).rescale(),
            final(self).next_change_at() == old(self).next_change_at(),
            changed_bandwidth::<P, Q, T, S>(
                old(self).model(),
                old(self).rescale(),
                bandwidth,
                change_time,
                now,
                final(self).model(),
            ),
    {
        let last: u64 = match self.link.update_rate(bandwidth, change_time) {
            Some(last) => last,
            None => bandwidth,
        };
        let t: Instant = rescale_available(
            &self.rescale,
            self.link.next_available(),
            change_time,
            now,
            last,
            bandwidth,
        );
        self.link.set_next_available(t);
    }

    /// Takes the next step of the trace at `change_time`. If there is one, it comes into
    /// force, and `true` is returned. If there is none, the bandwidth stays as it is for good,
    /// and `false` is returned.
    pub fn update_bw(&mut self, step: Option<(u64, Duration)>, change_time: Instant, now: Instant) -> (
    more: bool)
        requires
            old(self).wf(),
            step_fits::<P, Q, T, S>(
                old(self).model(),
                old(self).rescale(),
                step,
                change_time,
                now,
            ),
        ensures
            final(self).wf(),
            final(self).rescale() == old(self).rescale(),
            more == (step is Some),
            final(self).next_change_at() == change_time + match step {
                Some((_, duration)) => duration,
                None => LARGE_DURATION,
            },
            step is None ==> final(self).model() == old(self).model(),
            step is Some ==> changed_bandwidth::<P, Q, T, S>(
                old(self).model(),
                old(self).rescale(),
                (step->0).0,
                change_time,
                now,
                final(self).model(),
            ),
    {
        match step {
            Some((bandwidth, duration)) => {
                self.change_bandwidth(bandwidth, change_time, now);
                self.next_change = after(change_time, duration);
                true
            },
            None => {
                self.next_change = after(change_time, LARGE_DURATION);
                false
            },
        }
    }

    /// `config` comes into force at `now`. A trace without steps makes the cell drop all
    /// packets.
    pub fn set_config(&mut self, config: BwReplayCellConfig<Q::Config>, now: Instant)
        requires
            old(self).wf(),
            config.trace is Some ==> step_fits::<P, Q, T, S>(
                old(self).model(),
                old(self).rescale(),
                config.trace->0,
                now,
                now,
            ),
        ensures
            final(self).wf(),
            final(self).rescale() == old(self).rescale(),
            ({
                let queue = match config.queue_config {
                    Some(c) => Q::configured(old(self).model().queue, c),
                    None => old(self).model().queue,
                };
                let bw_type = match config.bw_type {
                    Some(t) => t,
                    None => old(self).model().bw_type,
                };
                match config.trace {
                    None => {
                        &&& final(self).next_change_at() == old(self).next_change_at()
                        &&& final(self).model() == (LinkModel { queue, bw_type, ..old(self).model() })
                    },
                    Some(None) => {
                        &&& final(self).next_change_at() == now
                        &&& final(self).model() == (LinkModel {
                            state: CellState::Drop,
                            queue,
                            bw_type,
                            ..old(self).model()
                        })
                    },
                    Some(Some((bandwidth, duration))) => {
                        &&& final(self).next_change_at() == now + duration
                        &&& exists|m: LinkModel<P, Q::Model, T>|
                            {
                                &&& #[trigger] changed_bandwidth::<P, Q, T, S>(
                                    old(self).model(),
                                    old(self).rescale(),
                                    bandwidth,
                                    now,
                                    now,
                                    m,
                                )
                                &&& final(self).model() == (LinkModel { queue, bw_type, ..m })
                            }
                    },
                }
            }),
    {
        let ghost before = self.model();
        match config.trace {
            Some(step) => {
                let more: bool = self.update_bw(step, now, now);
                if !more {
                    self.next_change = now;
                    self.change_state(CellState::Drop);
                }
            },
            None => {},
        }
        match config.queue_config {
            Some(queue_config) => {
                self.link.configure_queue(queue_config);
            },
            None => {},
        }
        match config.bw_type {
            Some(bw_type) => {
                self.link.set_bw_type(bw_type);
            },
            None => {},
        }
    }

    /// When the trace wants to take its next step; `None` as long as a packet leaves the wire
    /// before that.
    pub fn change_time(&self) -> (t: Option<Instant>)
        ensures
            t == if self.model().idle || self.next_change_at() <= self.model().next_available {
                Some(self.next_change_at())
            } else {
                None
            },
    {
        if self.link.is_idle() || self.next_change <= self.link.next_available() {
            Some(self.next_change)
        } else {
            None
        }
    }

    /// When the cell wants to be woken up to send; `None` as long as the bandwidth changes
    /// before that.
    pub fn wake_time(&self, now: Instant) -> (t: Option<Instant>)
        requires
            reachable(now, LARGE_DURATION),
        ensures
            t == if self.model().idle || self.next_change_at() > self.model().next_available {
                Some(self.model().wake(now) as i128)
            } else {
                None
            },
    {
        if self.link.is_idle() || self.next_change > self.link.next_available() {
            Some(self.link.wake_time(now))
        } else {
            None
        }
    }

    /// A packet has come, or none will come any more.
    pub fn on_packet(&mut self, packet: Option<P>, now: Instant) -> (action: LinkAction<P>)
        requires
            old(self).wf(),
            packet is Some && old(self).model().state == CellState::Normal ==> takes_packet::<
                P,
                Q,
                T,
            >(old(self).model(), packet->0),
        ensures
            on_packet_spec::<P, Q, T>(old(self).model(), packet, now, final(self).model(), action),
            final(self).rescale() == old(self).rescale(),
            final(self).next_change_at() == old(self).next_change_at(),
            final(self).model().rate == old(self).model().rate,
    {
        self.link.on_packet(packet, now)
    }

    /// The time at which the cell wanted to be woken up to send has come.
    pub fn on_timer(&mut self, time: Instant, now: Instant) -> (action: LinkAction<P>)
        requires
            old(self).wf(),
            old(self).model().idle ==> pullable::<P, Q, T>(old(self).model(), time),
            !old(self).model().idle ==> pullable::<P, Q, T>(
                old(self).model().cleared(),
                old(self).model().next_available,
            ),
        ensures
            on_timer_spec::<P, Q, T>(old(self).model(), time, now, final(self).model(), action),
            final(self).rescale() == old(self).rescale(),
            final(self).next_change_at() == old(self).next_change_at(),
            final(self).model().rate == old(self).model().rate,
    {
        self.link.on_timer(time, now)
    }
}

/// The bandwidth has changed at `change_time`.
pub open spec fn changed_bandwidth<
    P: Packet,
    Q: PacketQueue<P>,
    T: Fn(u64, u64) -> Duration,
    S: Fn(Duration, (u64, u64)) -> Duration,
>(
    before: LinkModel<P, Q::Model, T>,
    rescale: S,
    bandwidth: u64,
    change_time: Instant,
    now: Instant,
    after: LinkModel<P, Q::Model, T>,
) -> bool {
    &&& match (before.rate, after.rate) {
        (Rate::Replayed(b), Rate::Replayed(a)) => b.updated(bandwidth, change_time, a),
        _ => false,
    }
    &&& is_rescaled(
        rescale,
        before.next_available,
        change_time,
        now,
        bandwidth_before(before.rate, bandwidth),
        bandwidth,
        after.next_available as int,
    )
    &&& after == LinkModel {
        rate: after.rate,
        next_available: after.next_available,
        ..before
    }
}

/// The step of the trace overflows nothing.
pub open spec fn step_fits<
    P: Packet,
    Q: PacketQueue<P>,
    T: Fn(u64, u64) -> Duration,
    S: Fn(Duration, (u64, u64)) -> Duration,
>(
    m: LinkModel<P, Q::Model, T>,
    rescale: S,
    step: Option<(u64, Duration)>,
    change_time: Instant,
    now: Instant,
) -> bool {
    match step {
        Some((bandwidth, duration)) => {
            &&& reachable(change_time, duration)
            &&& rescalable(
                rescale,
                m.next_available,
                change_time,
                now,
                bandwidth_before(m.rate, bandwidth),
                bandwidth,
            )
        },
        None => reachable(change_time, LARGE_DURATION),
    }
}

/// `rescale` keeps what is left to send: the time that it gives for what takes `d` at `before`
/// takes as many bits at `after`, up to rounding.
pub open spec fn keeps_bits<S: Fn(Duration, (u64, u64)) -> Duration>(rescale: S) -> bool {
    forall|d: Duration, before: u64, after: u64, r: Duration| #[trigger]
        call_ensures(rescale, (d, (before, after)), r) && after > 0 ==> r * after <= d * before
            < (r + 1) * after
}

/// When the rate goes from `before` to `after`, the bits that are left of the packet on the
/// wire are sent at the new rate: the time left is what `rescale` gives for the time left and
/// the two rates. So it takes as many bits as before; in particular, where there was no
/// bandwidth, the wire is free as soon as there is some. Without bandwidth it stays taken.
pub proof fn law_change_of_rate_keeps_the_bits_left<S: Fn(Duration, (u64, u64)) -> Duration>(
    rescale: S,
    next_available: Instant,
    change_time: Instant,
    now: Instant,
    before: u64,
    after: u64,
    t: int,
)
    requires
        is_rescaled(rescale, next_available, change_time, now, before, after, t),
    ensures
        after > 0 ==> exists|d: Duration| #[trigger]
            call_ensures(rescale, (elapsed(next_available, change_time), (before, after)), d) && t
                == change_time + d,
        after > 0 && keeps_bits(rescale) ==> {
            let left = if next_available > change_time {
                next_available - change_time
            } else {
                0
            };
            &&& t >= change_time
            &&& (t - change_time) * after <= left * before < (t - change_time + 1) * after
            &&& before == 0 ==> t == change_time
        },
        after == 0 ==> t == now + LARGE_DURATION,
{
    if after > 0 {
        let left = elapsed(next_available, change_time);
        let d = choose|d: Duration| #[trigger]
            call_ensures(rescale, (left, (before, after)), d) && t == change_time + d;
        if keeps_bits(rescale) {
            assert(d * after <= left * before < (d + 1) * after);
            if before == 0 {
                assert(left * before == 0) by (nonlinear_arith)
                    requires
                        before == 0,
                ;
                assert(d == 0) by (nonlinear_arith)
                    requires
                        d * after <= 0,
                        d >= 0,
                        after > 0,
                ;
            }
        }
    }
}

/// A step of a trace changes the rate for the packet on the wire too. Where the step before
/// it had the rate `b1` and the new one has `b2`, the time until which the wire is taken
/// becomes the time of the change and what `rescale` gives for the time left and the pair of
/// rates; after a step without bandwidth, it is the time of the change. Nothing else of the
/// link is touched, and from the change on the new rate is in force.
pub proof fn law_step_of_a_trace_rescales_the_wire<
    P: Packet,
    Q: PacketQueue<P>,
    T: Fn(u64, u64) -> Duration,
    S: Fn(Duration, (u64, u64)) -> Duration,
>(
    before: LinkModel<P, Q::Model, T>,
    rescale: S,
    since: Instant,
    b1: u64,
    b2: u64,
    change_time: Instant,
    now: Instant,
    after: LinkModel<P, Q::Model, T>,
)
    requires
        changed_bandwidth::<P, Q, T, S>(before, rescale, b2, change_time, now, after),
        before.rate->Replayed_0.current() == Some((since, b1)),
        since <= change_time,
    ensures
        before.rate.at(change_time) == Some(b1),
        forall|t: Instant|
            t >= change_time ==> #[trigger] after.rate.at(t) == Some(b2),
        forall|t: Instant|
            t < change_time ==> #[trigger] after.rate.at(t) == Some(b1),
        b2 > 0 ==> exists|d: Duration| #[trigger]
            call_ensures(rescale, (elapsed(before.next_available, change_time), (b1, b2)), d)
                && after.next_available == change_time + d,
        b2 > 0 && keeps_bits(rescale) ==> {
            let left = if before.next_available > change_time {
                before.next_available - change_time
            } else {
                0
            };
            &&& (after.next_available - change_time) * b2 <= left * b1 < (after.next_available
                - change_time + 1) * b2
            &&& b1 == 0 ==> after.next_available == change_time
        },
        b2 == 0 ==> after.next_available == now + LARGE_DURATION,
        after.transmitting == before.transmitting,
        after.queue == before.queue && after.inbound == before.inbound,
        after.state == before.state && after.idle == before.idle && after.bw_type
            == before.bw_type,
{
    law_change_of_rate_keeps_the_bits_left(
        rescale,
        before.next_available,
        change_time,
        now,
        b1,
        b2,
        after.next_available as int,
    );
}

/// A gap in a trace costs the packet on the wire its own length and no more: where the rate
/// goes to nothing at `t1` and comes back at `t2`, the wire is free at `t2`.
pub proof fn law_gap_in_a_trace_ends<
    P: Packet,
    Q: PacketQueue<P>,
    T: Fn(u64, u64) -> Duration,
    S: Fn(Duration, (u64, u64)) -> Duration,
>(
    before: LinkModel<P, Q::Model, T>,
    rescale: S,
    t1: Instant,
    gap: LinkModel<P, Q::Model, T>,
    bandwidth: u64,
    t2: Instant,
    now: Instant,
    after: LinkModel<P, Q::Model, T>,
)
    requires
        keeps_bits(rescale),
        bandwidth > 0,
        t1 <= t2,
        changed_bandwidth::<P, Q, T, S>(before, rescale, 0, t1, now, gap),
        changed_bandwidth::<P, Q, T, S>(gap, rescale, bandwidth, t2, now, after),
    ensures
        gap.next_available == now + LARGE_DURATION,
        after.next_available == t2,
        after.transmitting == before.transmitting,
{
    law_step_of_a_trace_rescales_the_wire::<P, Q, T, S>(
        gap,
        rescale,
        t1,
        0,
        bandwidth,
        t2,
        now,
        after,
    );
}

/// On the link layer a packet counts for the preamble, the Ethernet header, the checksum and
/// the gap between frames besides; on the network layer for its own length only. Every byte
/// is eight bits.
pub proof fn law_bits_on_the_link(length: usize)
    ensures
        bits_of(length, BwType::NetworkLayer) == 8 * length,
        bits_of(length, BwType::LinkLayer) == 8 * (length + 8 + 14 + 4 + 12),
{
}

/// A configuration can be given to a cell exactly if it sets something, and no bandwidth of
/// 2^64 bits per second or more. One for a cell that replays a trace is empty exactly if it
/// sets nothing.
pub proof fn law_configuration_sets_something<C>(c: BwCellConfig<C>, r: BwReplayCellConfig<C>)
    ensures
        c.valid() <==> (c.bandwidth is Some || c.queue_config is Some || c.bw_type is Some) && (
        c.bandwidth is Some ==> c.bandwidth->0 < 0x1_0000_0000_0000_0000),
        c.is_empty() <==> !(c.bandwidth is Some || c.queue_config is Some || c.bw_type is Some),
        r.is_empty() <==> !(r.trace is Some || r.queue_config is Some || r.bw_type is Some),
{
}

} // verus!
