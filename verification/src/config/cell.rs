//! What each cell of a channel is built from.
use super::trace::{extension_view, format_of, trace_format, TraceFormat};
use crate::cells::bandwidth::link::{LinkModel, Rate};
use crate::cells::bandwidth::queue::codel::CoDelModel;
use crate::cells::bandwidth::queue::{
    CoDelQueue, CoDelQueueConfig, DropHeadQueue, DropHeadQueueConfig, DropTailQueue,
    DropTailQueueConfig, InfiniteQueue, InfiniteQueueConfig, LimitedModel, PacketQueue,
};
use crate::cells::bandwidth::{
    BwCellConfig, BwCellEgress, BwReplayCellEgress, BwType, MAX_BANDWIDTH,
};
use crate::cells::delay::{
    DelayCellConfig, DelayCellEgress, DelayModel, DelayReplayCellEgress,
};
use crate::cells::loss::{
    LossCellConfig, LossCellEgress, LossModel, LossReplayCellEgress, LossReplayModel,
};
use crate::cells::per_packet::delay::PerPacketModel;
use crate::cells::reorder_delay::{ReorderDelayCellConfig, ReorderDelayCellEgress};
use crate::cells::router::RouterCellConfig;
use crate::cells::shadow::ShadowCellConfig;
use crate::cells::token_bucket::bucket::Timing;
use crate::cells::token_bucket::{TokenBucketCellConfig, TokenBucketCellEgress, TokenModel};
use crate::cells::CellState;
use crate::devices::duplicate::{
    DuplicateDeviceEgress, DuplicateModel, DuplicateReplayDeviceEgress, DuplicateReplayModel,
};
use crate::error::Error;
use crate::law::{computes, is_timing};
use crate::packet::{Packet, RawPacket};
use crate::time::{on_clock, Duration, Instant, LARGE_DURATION};
use vstd::prelude::*;

verus! {

/// The seed of draws where nothing else is said.
pub const DEFAULT_SEED: u64 = 42;

/// The seed, or the one that is taken where nothing else is said.
pub fn seed_or_default(seed: Option<u64>) -> (s: u64)
    ensures
        s == match seed {
            Some(s) => s,
            None => DEFAULT_SEED,
        },
{
    match seed {
        Some(s) => s,
        None => DEFAULT_SEED,
    }
}

/// A rate limited cell, by the kind of its queue.
#[derive(Debug)]
pub enum BwCellBuildConfig {
    Infinite(BwCellConfig<InfiniteQueueConfig>),
    DropTail(BwCellConfig<DropTailQueueConfig>),
    DropHead(BwCellConfig<DropHeadQueueConfig>),
    CoDel(BwCellConfig<CoDelQueueConfig>),
}

/// A cell that replays a trace of bandwidths: the file of the trace, and its queue.
#[derive(Debug)]
pub struct BwReplayQueueConfig<C> {
    pub trace: String,
    pub queue_config: Option<C>,
    pub bw_type: Option<BwType>,
}

impl<C> BwReplayQueueConfig<C> {
    pub fn new(trace: String, queue_config: Option<C>, bw_type: Option<BwType>) -> (c: Self)
        ensures
            c == (BwReplayQueueConfig { trace, queue_config, bw_type }),
    {
        BwReplayQueueConfig { trace, queue_config, bw_type }
    }
}

/// A cell that replays a trace of bandwidths, by the kind of its queue.
#[derive(Debug)]
pub enum BwReplayCellBuildConfig {
    Infinite(BwReplayQueueConfig<InfiniteQueueConfig>),
    DropTail(BwReplayQueueConfig<DropTailQueueConfig>),
    DropHead(BwReplayQueueConfig<DropHeadQueueConfig>),
    CoDel(BwReplayQueueConfig<CoDelQueueConfig>),
}

/// A link on which nothing has been sent yet, at `now`.
pub open spec fn new_link<P, M, T>(
    rate: Rate,
    bw_type: Option<BwType>,
    queue: M,
    now: Instant,
    transfer: T,
) -> LinkModel<P, M, T> {
    LinkModel {
        bw_type: match bw_type {
            Some(t) => t,
            None => BwType::NetworkLayer,
        },
        rate,
        inbound: Seq::<P>::empty(),
        queue,
        latest: None,
        next_available: now,
        transmitting: None,
        state: CellState::Drop,
        idle: false,
        transfer,
    }
}

/// The rate of a cell with the given bandwidth; the highest one, if none is given.
pub open spec fn fixed_rate(bandwidth: Option<u128>) -> Rate {
    Rate::Fixed(
        match bandwidth {
            Some(b) => b as u64,
            None => u64::MAX,
        },
    )
}

/// A bandwidth below 2^64 bits per second as a plain number.
fn narrow_bandwidth(bandwidth: Option<u128>) -> (b: Option<u64>)
    requires
        bandwidth is Some ==> bandwidth->0 <= MAX_BANDWIDTH,
    ensures
        b is Some <==> bandwidth is Some,
        b is Some ==> b->0 == bandwidth->0,
{
    match bandwidth {
        Some(b) => Some(b as u64),
        None => None,
    }
}

/// An empty queue with limits.
pub open spec fn empty_limited<P>(
    packet_limit: Option<usize>,
    byte_limit: Option<usize>,
    bw_type: BwType,
) -> LimitedModel<P> {
    LimitedModel { packets: Seq::<P>::empty(), packet_limit, byte_limit, bw_type, bytes: 0 }
}

/// An empty CoDel queue, made at `now`.
pub open spec fn empty_codel<P, L>(
    config: Option<CoDelQueueConfig>,
    now: Instant,
    law: L,
) -> CoDelModel<P, L> {
    CoDelModel {
        packets: Seq::<P>::empty(),
        config: match config {
            Some(c) => c,
            None => CoDelQueueConfig {
                packet_limit: None,
                byte_limit: None,
                interval: 100_000_000,
                target: 5_000_000,
                mtu: 1500,
                bw_type: BwType::NetworkLayer,
            },
        },
        bytes: 0,
        count: 0,
        lastcount: 0,
        dropping: false,
        first_above_time: None,
        drop_next: now,
        ldelay: 0,
        law,
    }
}

impl BwCellConfig<InfiniteQueueConfig> {
    /// The sending side of a cell with this configuration, made at `now`.
    pub fn into_factory<
        P: Packet,
        T: Fn(u64, u64) -> Duration,
        S: Fn(Duration, (u64, u64)) -> Duration,
    >(self, now: Instant, transfer: T, rescale: S) -> (e: BwCellEgress<
        P,
        InfiniteQueue<P>,
        T,
        S,
    >)
        requires
            self.bandwidth is Some ==> self.bandwidth->0 <= MAX_BANDWIDTH,
        ensures
            e.wf(),
            e.rescale() == rescale,
            e.model() == new_link::<P, _, T>(
                fixed_rate(self.bandwidth),
                self.bw_type,
                Seq::<P>::empty(),
                now,
                transfer,
            ),
    {
        let queue: InfiniteQueue<P> = InfiniteQueue::new(match self.queue_config {
            Some(c) => c,
            None => InfiniteQueueConfig::default(),
        });
        BwCellEgress::new(
            narrow_bandwidth(self.bandwidth),
            queue,
            self.bw_type,
            now,
            transfer,
            rescale,
        )
    }
}

impl BwReplayQueueConfig<InfiniteQueueConfig> {
    /// The sending side of a cell with this configuration, made at `now`.
    pub fn into_factory<
        P: Packet,
        T: Fn(u64, u64) -> Duration,
        S: Fn(Duration, (u64, u64)) -> Duration,
    >(self, now: Instant, transfer: T, rescale: S) -> (e: BwReplayCellEgress<
        P,
        InfiniteQueue<P>,
        T,
        S,
    >)
        ensures
            e.wf(),
            e.rescale() == rescale,
            e.next_change_at() == now,
            forall|t: Instant| (#[trigger] e.model().rate.at(t)) is None,
            e.model() == new_link::<P, _, T>(
                e.model().rate,
                self.bw_type,
                Seq::<P>::empty(),
                now,
                transfer,
            ),
    {
        let queue: InfiniteQueue<P> = InfiniteQueue::new(match self.queue_config {
            Some(c) => c,
            None => InfiniteQueueConfig::default(),
        });
        BwReplayCellEgress::new(queue, self.bw_type, now, transfer, rescale)
    }
}

impl BwCellConfig<DropTailQueueConfig> {
    /// The sending side of a cell with this configuration, made at `now`.
    pub fn into_factory<
        P: Packet,
        T: Fn(u64, u64) -> Duration,
        S: Fn(Duration, (u64, u64)) -> Duration,
    >(self, now: Instant, transfer: T, rescale: S) -> (e: BwCellEgress<
        P,
        DropTailQueue<P>,
        T,
        S,
    >)
        requires
            self.bandwidth is Some ==> self.bandwidth->0 <= MAX_BANDWIDTH,
        ensures
            e.wf(),
            e.rescale() == rescale,
            e.model() == new_link::<P, _, T>(
                fixed_rate(self.bandwidth),
                self.bw_type,
                match self.queue_config {
                    Some(c) => empty_limited::<P>(c.packet_limit, c.byte_limit, c.bw_type),
                    None => empty_limited::<P>(None, None, BwType::NetworkLayer),
                },
                now,
                transfer,
            ),
    {
        let queue: DropTailQueue<P> = DropTailQueue::new(match self.queue_config {
            Some(c) => c,
            None => DropTailQueueConfig::default(),
        });
        BwCellEgress::new(
            narrow_bandwidth(self.bandwidth),
            queue,
            self.bw_type,
            now,
            transfer,
            rescale,
        )
    }
}

impl BwReplayQueueConfig<DropTailQueueConfig> {
    /// The sending side of a cell with this configuration, made at `now`.
    pub fn into_factory<
        P: Packet,
        T: Fn(u64, u64) -> Duration,
        S: Fn(Duration, (u64, u64)) -> Duration,
    >(self, now: Instant, transfer: T, rescale: S) -> (e: BwReplayCellEgress<
        P,
        DropTailQueue<P>,
        T,
        S,
    >)
        ensures
            e.wf(),
            e.rescale() == rescale,
            e.next_change_at() == now,
            forall|t: Instant| (#[trigger] e.model().rate.at(t)) is None,
            e.model() == new_link::<P, _, T>(
                e.model().rate,
                self.bw_type,
                match self.queue_config {
                    Some(c) => empty_limited::<P>(c.packet_limit, c.byte_limit, c.bw_type),
                    None => empty_limited::<P>(None, None, BwType::NetworkLayer),
                },
                now,
                transfer,
            ),
    {
        let queue: DropTailQueue<P> = DropTailQueue::new(match self.queue_config {
            Some(c) => c,
            None => DropTailQueueConfig::default(),
        });
        BwReplayCellEgress::new(queue, self.bw_type, now, transfer, rescale)
    }
}

impl BwCellConfig<DropHeadQueueConfig> {
    /// The sending side of a cell with this configuration, made at `now`.
    pub fn into_factory<
        P: Packet,
        T: Fn(u64, u64) -> Duration,
        S: Fn(Duration, (u64, u64)) -> Duration,
    >(self, now: Instant, transfer: T, rescale: S) -> (e: BwCellEgress<
        P,
        DropHeadQueue<P>,
        T,
        S,
    >)
        requires
            self.bandwidth is Some ==> self.bandwidth->0 <= MAX_BANDWIDTH,
        ensures
            e.wf(),
            e.rescale() == rescale,
            e.model() == new_link::<P, _, T>(
                fixed_rate(self.bandwidth),
                self.bw_type,
                match self.queue_config {
                    Some(c) => empty_limited::<P>(c.packet_limit, c.byte_limit, c.bw_type),
                    None => empty_limited::<P>(None, None, BwType::NetworkLayer),
                },
                now,
                transfer,
            ),
    {
        let queue: DropHeadQueue<P> = DropHeadQueue::new(match self.queue_config {
            Some(c) => c,
            None => DropHeadQueueConfig::default(),
        });
        BwCellEgress::new(
            narrow_bandwidth(self.bandwidth),
            queue,
            self.bw_type,
            now,
            transfer,
            rescale,
        )
    }
}

impl BwReplayQueueConfig<DropHeadQueueConfig> {
    /// The sending side of a cell with this configuration, made at `now`.
    pub fn into_factory<
        P: Packet,
        T: Fn(u64, u64) -> Duration,
        S: Fn(Duration, (u64, u64)) -> Duration,
    >(self, now: Instant, transfer: T, rescale: S) -> (e: BwReplayCellEgress<
        P,
        DropHeadQueue<P>,
        T,
        S,
    >)
        ensures
            e.wf(),
            e.rescale() == rescale,
            e.next_change_at() == now,
            forall|t: Instant| (#[trigger] e.model().rate.at(t)) is None,
            e.model() == new_link::<P, _, T>(
                e.model().rate,
                self.bw_type,
                match self.queue_config {
                    Some(c) => empty_limited::<P>(c.packet_limit, c.byte_limit, c.bw_type),
                    None => empty_limited::<P>(None, None, BwType::NetworkLayer),
                },
                now,
                transfer,
            ),
    {
        let queue: DropHeadQueue<P> = DropHeadQueue::new(match self.queue_config {
            Some(c) => c,
            None => DropHeadQueueConfig::default(),
        });
        BwReplayCellEgress::new(queue, self.bw_type, now, transfer, rescale)
    }
}

impl BwCellConfig<CoDelQueueConfig> {
    /// The sending side of a cell with this configuration, made at `now`.
    pub fn into_factory<
        P: Packet,
        T: Fn(u64, u64) -> Duration,
        S: Fn(Duration, (u64, u64)) -> Duration, L: Fn(Duration, u32) -> Duration,
    >(self, now: Instant, transfer: T, rescale: S, law: L) -> (e: BwCellEgress<
        P,
        CoDelQueue<P, L>,
        T,
        S,
    >)
        requires
            self.bandwidth is Some ==> self.bandwidth->0 <= MAX_BANDWIDTH,
        ensures
            e.wf(),
            e.rescale() == rescale,
            e.model() == new_link::<P, _, T>(
                fixed_rate(self.bandwidth),
                self.bw_type,
                empty_codel::<P, L>(self.queue_config, now, law),
                now,
                transfer,
            ),
    {
        let queue: CoDelQueue<P, L> = CoDelQueue::new(
            match self.queue_config {
                Some(c) => c,
                None => CoDelQueueConfig::default(),
            },
            now,
            law,
        );
        BwCellEgress::new(
            narrow_bandwidth(self.bandwidth),
            queue,
            self.bw_type,
            now,
            transfer,
            rescale,
        )
    }
}

impl BwReplayQueueConfig<CoDelQueueConfig> {
    /// The sending side of a cell with this configuration, made at `now`.
    pub fn into_factory<
        P: Packet,
        T: Fn(u64, u64) -> Duration,
        S: Fn(Duration, (u64, u64)) -> Duration, L: Fn(Duration, u32) -> Duration,
    >(self, now: Instant, transfer: T, rescale: S, law: L) -> (e: BwReplayCellEgress<
        P,
        CoDelQueue<P, L>,
        T,
        S,
    >)
        ensures
            e.wf(),
            e.rescale() == rescale,
            e.next_change_at() == now,
            forall|t: Instant| (#[trigger] e.model().rate.at(t)) is None,
            e.model() == new_link::<P, _, T>(
                e.model().rate,
                self.bw_type,
                empty_codel::<P, L>(self.queue_config, now, law),
                now,
                transfer,
            ),
    {
        let queue: CoDelQueue<P, L> = CoDelQueue::new(
            match self.queue_config {
                Some(c) => c,
                None => CoDelQueueConfig::default(),
            },
            now,
            law,
        );
        BwReplayCellEgress::new(queue, self.bw_type, now, transfer, rescale)
    }
}

pub type DelayCellBuildConfig = DelayCellConfig;

impl DelayCellConfig {
    /// The sending side of a cell with this configuration, which has sent nothing since
    /// `start`.
    pub fn into_factory<P: Packet>(self, start: Instant) -> (e: DelayCellEgress<P>)
        ensures
            e.model() == (DelayModel::<P> {
                delay: self.delay,
                state: CellState::Drop,
                latest: start,
                holding: None,
            }),
    {
        DelayCellEgress::new(Some(self.delay), start)
    }
}

/// A cell that replays a trace of delays: the file of the trace.
#[derive(Debug)]
pub struct DelayReplayCellBuildConfig {
    pub trace: String,
}

impl DelayReplayCellBuildConfig {
    /// How the trace is written down, in a file with the given extension.
    pub fn get_trace_format(&self, extension: &Option<String>) -> (r: Result<TraceFormat, Error>)
        ensures
            match format_of(extension_view(*extension)) {
                Some(format) => r == Ok::<TraceFormat, Error>(format),
                None => r is Err && r->Err_0 is ConfigError && r->Err_0.text()
                    == "Unknown trace file format: "@ + self.trace@,
            },
    {
        trace_format(self.trace.as_str(), extension)
    }

    /// How the trace is written down, in a file with the given extension, and the sending side
    /// of a cell that has sent nothing since `start` and whose trace takes its first step at
    /// `now`.
    pub fn into_factory<P: Packet>(
        self,
        extension: &Option<String>,
        now: Instant,
        start: Instant,
    ) -> (r: Result<(TraceFormat, DelayReplayCellEgress<P>), Error>)
        ensures
            match format_of(extension_view(*extension)) {
                Some(format) => {
                    &&& r is Ok
                    &&& (r->Ok_0).0 == format
                    &&& forall|t: Instant| (#[trigger] (r->Ok_0).1.model().delays.at(t)) is None
                    &&& (r->Ok_0).1.model().next_change == now
                    &&& (r->Ok_0).1.model().state == CellState::Drop
                    &&& (r->Ok_0).1.model().latest == start
                    &&& (r->Ok_0).1.model().holding is None
                },
                None => r is Err && r->Err_0 is ConfigError && r->Err_0.text()
                    == "Unknown trace file format: "@ + self.trace@,
            },
    {
        match self.get_trace_format(extension) {
            Ok(format) => Ok((format, DelayReplayCellEgress::new(now, start))),
            Err(e) => Err(e),
        }
    }
}

pub type LossCellBuildConfig<R> = LossCellConfig<R>;

impl<R: Copy> LossCellConfig<R> {
    /// The sending side of a cell with this configuration.
    pub fn into_factory(self) -> (e: LossCellEgress<R>)
        ensures
            e.model() == (LossModel {
                pattern: self.pattern@,
                prev_loss: 0,
                state: CellState::Drop,
            }),
    {
        LossCellEgress::new(self.pattern)
    }
}

/// A cell that replays a trace of loss patterns: the file of the trace, and the seed of its
/// draws.
#[derive(Debug)]
pub struct LossReplayCellBuildConfig {
    pub trace: String,
    pub seed: Option<u64>,
}

impl LossReplayCellBuildConfig {
    /// How the trace is written down, in a file with the given extension.
    pub fn get_trace_format(&self, extension: &Option<String>) -> (r: Result<TraceFormat, Error>)
        ensures
            match format_of(extension_view(*extension)) {
                Some(format) => r == Ok::<TraceFormat, Error>(format),
                None => r is Err && r->Err_0 is ConfigError && r->Err_0.text()
                    == "Unknown trace file format: "@ + self.trace@,
            },
    {
        trace_format(self.trace.as_str(), extension)
    }

    /// How the trace is written down, in a file with the given extension, the sending side of a
    /// cell whose trace takes its first step at `now`, and the seed of its draws. `certain` is
    /// the rate at which every packet is lost.
    pub fn into_factory<R: Copy>(
        self,
        extension: &Option<String>,
        certain: R,
        now: Instant,
    ) -> (r: Result<(TraceFormat, LossReplayCellEgress<R>, u64), Error>)
        ensures
            match format_of(extension_view(*extension)) {
                Some(format) => {
                    &&& r is Ok
                    &&& (r->Ok_0).0 == format
                    &&& (r->Ok_0).1.model() == (LossReplayModel {
                        loss: LossModel {
                            pattern: seq![certain],
                            prev_loss: 0,
                            state: CellState::Drop,
                        },
                        next_change: now,
                    })
                    &&& (r->Ok_0).2 == match self.seed {
                        Some(s) => s,
                        None => DEFAULT_SEED,
                    }
                },
                None => r is Err && r->Err_0 is ConfigError && r->Err_0.text()
                    == "Unknown trace file format: "@ + self.trace@,
            },
    {
        match self.get_trace_format(extension) {
            Ok(format) => Ok(
                (format, LossReplayCellEgress::new(certain, now), seed_or_default(self.seed)),
            ),
            Err(e) => Err(e),
        }
    }
}

/// A device that duplicates packets: its pattern, and the seed of its draws.
#[derive(Debug)]
pub struct DuplicateDeviceBuildConfig<R> {
    pub pattern: Vec<R>,
    pub seed: Option<u64>,
}

impl<R: Copy> DuplicateDeviceBuildConfig<R> {
    /// The sending side of a device with this configuration, and the seed of its draws.
    pub fn into_factory<P: RawPacket>(self) -> (r: (DuplicateDeviceEgress<R, P>, u64))
        ensures
            r.0.model() == (DuplicateModel::<R, P> {
                pattern: self.pattern@,
                prev_duplicated: 0,
                buffer: None,
                state: CellState::Drop,
            }),
            r.1 == match self.seed {
                Some(s) => s,
                None => DEFAULT_SEED,
            },
    {
        let seed: u64 = seed_or_default(self.seed);
        (DuplicateDeviceEgress::new(self.pattern), seed)
    }
}

/// A device that replays a trace of patterns: the file of the trace, and the seed of its
/// draws.
#[derive(Debug)]
pub struct DuplicateReplayDeviceBuildConfig {
    pub trace: String,
    pub seed: Option<u64>,
}

impl DuplicateReplayDeviceBuildConfig {
    /// How the trace is written down, in a file with the given extension. `shown` is the file
    /// as it is shown in the error.
    pub fn get_trace_format(&self, shown: &str, extension: &Option<String>) -> (r: Result<
        TraceFormat,
        Error,
    >)
        ensures
            match format_of(extension_view(*extension)) {
                Some(format) => r == Ok::<TraceFormat, Error>(format),
                None => r is Err && r->Err_0 is ConfigError && r->Err_0.text()
                    == "Unknown trace file format: "@ + shown@,
            },
    {
        trace_format(shown, extension)
    }

    /// How the trace is written down, in a file with the given extension, the sending side of a
    /// device whose trace takes its first step at `now`, and the seed of its draws. Until that
    /// step `pattern` is in force. `shown` is the file as it is shown in the error.
    pub fn into_factory<R: Copy, P: RawPacket>(
        self,
        shown: &str,
        extension: &Option<String>,
        pattern: Vec<R>,
        now: Instant,
    ) -> (r: Result<(TraceFormat, DuplicateReplayDeviceEgress<R, P>, u64), Error>)
        ensures
            match format_of(extension_view(*extension)) {
                Some(format) => {
                    &&& r is Ok
                    &&& (r->Ok_0).0 == format
                    &&& (r->Ok_0).1.model() == (DuplicateReplayModel {
                        duplicate: DuplicateModel::<R, P> {
                            pattern: pattern@,
                            prev_duplicated: 0,
                            buffer: None,
                            state: CellState::Drop,
                        },
                        next_change: now,
                    })
                    &&& (r->Ok_0).2 == match self.seed {
                        Some(s) => s,
                        None => DEFAULT_SEED,
                    }
                },
                None => r is Err && r->Err_0 is ConfigError && r->Err_0.text()
                    == "Unknown trace file format: "@ + shown@,
            },
    {
        match self.get_trace_format(shown, extension) {
            Ok(format) => {
                let egress = DuplicateReplayDeviceEgress::new(pattern, now);
                Ok((format, egress, seed_or_default(self.seed)))
            },
            Err(e) => Err(e),
        }
    }
}

/// A cell that delays each packet by itself: by a trace in a file, or by a trace that is
/// given.
#[derive(Debug)]
pub enum DelayPerPacketCellBuildConfig<C> {
    FromFile(String),
    FromConfig(C),
}

/// What is to be done to get at a trace.
#[derive(Debug)]
pub enum LoadStep<C> {
    /// Nothing: here it is.
    Ready(C),
    /// The file is to be read.
    Read(TraceFormat),
}

impl<C> DelayPerPacketCellBuildConfig<C> {
    /// What is to be done to get at the trace. `shown` is the file as it is shown in the
    /// error, and `extension` is its extension, if it has one.
    pub fn load(self, shown: &str, extension: &Option<String>) -> (r: Result<LoadStep<C>, Error>)
        ensures
            match self {
                DelayPerPacketCellBuildConfig::FromConfig(config) => r == Ok::<
                    LoadStep<C>,
                    Error,
                >(LoadStep::Ready(config)),
                DelayPerPacketCellBuildConfig::FromFile(_) => match format_of(
                    extension_view(*extension),
                ) {
                    Some(format) => r == Ok::<LoadStep<C>, Error>(LoadStep::Read(format)),
                    None => r is Err && r->Err_0 is ConfigError && r->Err_0.text()
                        == "Unknown trace file format: "@ + shown@,
                },
            },
    {
        match self {
            DelayPerPacketCellBuildConfig::FromConfig(config) => Ok(LoadStep::Ready(config)),
            DelayPerPacketCellBuildConfig::FromFile(_) => match trace_format(shown, extension) {
                Ok(format) => Ok(LoadStep::Read(format)),
                Err(e) => Err(e),
            },
        }
    }
}

/// A cell that draws a delay for each packet, by the law of the draws.
#[derive(Debug)]
pub enum ReorderDelayCellBuildConfig<N, L> {
    Constant(ReorderDelayCellConfig<Duration>),
    NormalLaw(ReorderDelayCellConfig<N>),
    LogNormalLaw(ReorderDelayCellConfig<L>),
}

impl<D> ReorderDelayCellConfig<D> {
    /// The sending side of a cell with this configuration, and how its delays are drawn.
    pub fn into_factory<P: Packet>(self) -> (r: (ReorderDelayCellEgress<P>, D))
        ensures
            r.0.wf(),
            r.0.model() == (PerPacketModel {
                queue: Seq::<(Instant, P)>::empty(),
                state: CellState::Drop,
                empty: false,
            }),
            r.1 == self.delay,
    {
        (ReorderDelayCellEgress::new(), self.delay)
    }
}

/// A cell that records packets: the file that they are recorded in, or where else they go.
#[derive(Debug)]
pub enum SpyCellBuildConfig<W> {
    Path(String),
    Config(W),
}

/// How the file of a record is opened.
#[derive(Debug, Clone, Copy, PartialEq, Eq, Structural)]
pub enum RecordFile {
    /// It is there, and what it holds is lost.
    Truncate,
    /// It is not there yet.
    Create,
}

impl<W> SpyCellBuildConfig<W> {
    /// How the file of the record is opened, if there is one: `exists` tells whether it is
    /// there.
    pub fn record_file(&self, exists: bool) -> (file: Option<RecordFile>)
        ensures
            file == match self {
                SpyCellBuildConfig::Path(_) => if exists {
                    Some(RecordFile::Truncate)
                } else {
                    Some(RecordFile::Create)
                },
                SpyCellBuildConfig::Config(_) => None,
            },
    {
        match self {
            SpyCellBuildConfig::Path(_) => if exists {
                Some(RecordFile::Truncate)
            } else {
                Some(RecordFile::Create)
            },
            SpyCellBuildConfig::Config(_) => None,
        }
    }
}

pub type ShadowCellBuildConfig = ShadowCellConfig;

pub type RouterCellBuildConfig = RouterCellConfig;

pub type TokenBucketCellBuildConfig = TokenBucketCellConfig;

impl TokenBucketCellConfig {
    /// The sending side of a cell with this configuration, made at `now`.
    pub fn into_factory<P: Packet, T: Fn(u64, u128) -> Duration>(self, now: Instant, timing: T) -> (e:
        TokenBucketCellEgress<P, T>)
        requires
            is_timing(timing),
            on_clock(now),
            on_clock((now - LARGE_DURATION) as i128),
        ensures
            e.wf(),
            e.timing() == timing,
            e.model().queue_fits(),
            forall|g: Timing|
                #![trigger computes(timing, g)]
                computes(timing, g) ==> e.model() == TokenModel::<P>::fresh(self, now, g),
    {
        TokenBucketCellEgress::new(self, now, timing)
    }
}

/// One cell of a channel. `R` is a loss rate, `D` a trace of delays per packet and `W` a
/// place for records.
#[derive(Debug)]
pub enum CellBuildConfig<R, D, W> {
    Bw(BwCellBuildConfig),
    BwReplay(BwReplayCellBuildConfig),
    Delay(DelayCellBuildConfig),
    DelayReplay(DelayReplayCellBuildConfig),
    Loss(LossCellBuildConfig<R>),
    LossReplay(LossReplayCellBuildConfig),
    Shadow(ShadowCellBuildConfig),
    Spy(SpyCellBuildConfig<W>),
    DelayPerPacket(DelayPerPacketCellBuildConfig<D>),
    Router(RouterCellBuildConfig),
    TokenBucket(TokenBucketCellBuildConfig),
    Custom,
}

/// A new link is free from its beginning: nothing waits, nothing is on the wire, and it can
/// send at once, at the rate that it was made with.
pub proof fn law_new_link_is_free<P, M, T>(
    rate: Rate,
    bw_type: Option<BwType>,
    queue: M,
    now: Instant,
    transfer: T,
)
    ensures
        ({
            let link = new_link::<P, M, T>(rate, bw_type, queue, now, transfer);
            &&& link.inbound.len() == 0
            &&& link.queue == queue
            &&& link.transmitting is None
            &&& link.latest is None
            &&& link.next_available == now
            &&& link.rate == rate
            &&& link.state == CellState::Drop
            &&& !link.idle
            &&& bw_type is None ==> link.bw_type == BwType::NetworkLayer
            &&& bw_type is Some ==> link.bw_type == bw_type->0
        }),
{
}

/// The rate of a cell is the bandwidth that it is given; without one it is the highest there
/// is.
pub proof fn law_rate_is_the_bandwidth(bandwidth: u64)
    ensures
        fixed_rate(Some(bandwidth as u128)) == Rate::Fixed(bandwidth),
        fixed_rate(None) == Rate::Fixed(0xffff_ffff_ffff_ffff),
{
}

/// A new queue is empty and has the limits that it was made with. A CoDel queue is not
/// dropping, and keeps a delay of 5 ms over 100 ms where nothing else is asked for.
pub proof fn law_new_queues_are_empty<P, L>(
    packet_limit: Option<usize>,
    byte_limit: Option<usize>,
    bw_type: BwType,
    config: Option<CoDelQueueConfig>,
    now: Instant,
    law: L,
)
    ensures
        ({
            let queue = empty_limited::<P>(packet_limit, byte_limit, bw_type);
            &&& queue.packets.len() == 0
            &&& queue.bytes == 0
            &&& queue.packet_limit == packet_limit
            &&& queue.byte_limit == byte_limit
            &&& queue.bw_type == bw_type
        }),
        ({
            let queue = empty_codel::<P, L>(config, now, law);
            &&& queue.packets.len() == 0
            &&& queue.bytes == 0
            &&& queue.count == 0
            &&& queue.lastcount == 0
            &&& !queue.dropping
            &&& queue.first_above_time is None
            &&& queue.drop_next == now
            &&& queue.law == law
            &&& config is Some ==> queue.config == config->0
            &&& config is None ==> queue.config.packet_limit is None
                && queue.config.byte_limit is None && queue.config.target * 20
                == queue.config.interval && queue.config.interval == 100_000_000
                && queue.config.mtu == 1500
        }),
{
}

} // verus!
