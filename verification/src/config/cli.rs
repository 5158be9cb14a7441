//! A channel described on the command line.
use super::cell::{
    BwCellBuildConfig, BwReplayCellBuildConfig, BwReplayQueueConfig, CellBuildConfig,
};
use crate::cells::bandwidth::queue::{
    CoDelQueueConfig, DropHeadQueueConfig, DropTailQueueConfig, InfiniteQueueConfig,
};
use crate::cells::bandwidth::BwCellConfig;
use crate::cells::delay::DelayCellConfig;
use crate::cells::loss::LossCellConfig;
use crate::time::Duration;
use vstd::prelude::*;

verus! {

/// The queue of a rate limited cell. A queue without arguments is made as its kind is by
/// default.
#[derive(Debug, Clone, Copy)]
pub enum QueueChoice {
    Infinite,
    DropTail(Option<DropTailQueueConfig>),
    DropHead(Option<DropHeadQueueConfig>),
    CoDel(Option<CoDelQueueConfig>),
}

/// What is asked of one direction.
#[derive(Debug)]
pub struct DirectionOptions<R> {
    /// In bits per second.
    pub bandwidth: Option<u64>,
    /// The file of a bandwidth trace.
    pub trace: Option<String>,
    pub queue: QueueChoice,
    pub delay: Option<Duration>,
    pub loss: Option<R>,
}

/// A cell with a fixed bandwidth and the chosen queue.
pub open spec fn fixed_cell(bandwidth: u64, queue: QueueChoice) -> BwCellBuildConfig {
    let bandwidth = Some(bandwidth as u128);
    match queue {
        QueueChoice::Infinite => BwCellBuildConfig::Infinite(
            BwCellConfig {
                bandwidth,
                queue_config: Some(InfiniteQueueConfig {  }),
                bw_type: None,
            },
        ),
        QueueChoice::DropTail(c) => BwCellBuildConfig::DropTail(
            BwCellConfig { bandwidth, queue_config: c, bw_type: None },
        ),
        QueueChoice::DropHead(c) => BwCellBuildConfig::DropHead(
            BwCellConfig { bandwidth, queue_config: c, bw_type: None },
        ),
        QueueChoice::CoDel(c) => BwCellBuildConfig::CoDel(
            BwCellConfig { bandwidth, queue_config: c, bw_type: None },
        ),
    }
}

/// A cell with a fixed bandwidth and the chosen queue.
fn make_fixed_cell(bandwidth: u64, queue: QueueChoice) -> (c: BwCellBuildConfig)
    ensures
        c == fixed_cell(bandwidth, queue),
{
    let bandwidth: Option<u128> = Some(bandwidth as u128);
    match queue {
        QueueChoice::Infinite => BwCellBuildConfig::Infinite(
            BwCellConfig::new(bandwidth, Some(InfiniteQueueConfig::new()), None),
        ),
        QueueChoice::DropTail(c) => BwCellBuildConfig::DropTail(
            BwCellConfig::new(bandwidth, c, None),
        ),
        QueueChoice::DropHead(c) => BwCellBuildConfig::DropHead(
            BwCellConfig::new(bandwidth, c, None),
        ),
        QueueChoice::CoDel(c) => BwCellBuildConfig::CoDel(BwCellConfig::new(bandwidth, c, None)),
    }
}

/// A cell that replays the trace in a file, with the chosen queue.
pub open spec fn replay_cell(trace: String, queue: QueueChoice) -> BwReplayCellBuildConfig {
    match queue {
        QueueChoice::Infinite => BwReplayCellBuildConfig::Infinite(
            BwReplayQueueConfig {
                trace,
                queue_config: Some(InfiniteQueueConfig {  }),
                bw_type: None,
            },
        ),
        QueueChoice::DropTail(c) => BwReplayCellBuildConfig::DropTail(
            BwReplayQueueConfig { trace, queue_config: c, bw_type: None },
        ),
        QueueChoice::DropHead(c) => BwReplayCellBuildConfig::DropHead(
            BwReplayQueueConfig { trace, queue_config: c, bw_type: None },
        ),
        QueueChoice::CoDel(c) => BwReplayCellBuildConfig::CoDel(
            BwReplayQueueConfig { trace, queue_config: c, bw_type: None },
        ),
    }
}

/// A cell that replays the trace in a file, with the chosen queue.
fn make_replay_cell(trace: String, queue: QueueChoice) -> (c: BwReplayCellBuildConfig)
    ensures
        c == replay_cell(trace, queue),
{
    match queue {
        QueueChoice::Infinite => BwReplayCellBuildConfig::Infinite(
            BwReplayQueueConfig::new(trace, Some(InfiniteQueueConfig::new()), None),
        ),
        QueueChoice::DropTail(c) => BwReplayCellBuildConfig::DropTail(
            BwReplayQueueConfig::new(trace, c, None),
        ),
        QueueChoice::DropHead(c) => BwReplayCellBuildConfig::DropHead(
            BwReplayQueueConfig::new(trace, c, None),
        ),
        QueueChoice::CoDel(c) => BwReplayCellBuildConfig::CoDel(
            BwReplayQueueConfig::new(trace, c, None),
        ),
    }
}

impl<R> DirectionOptions<R> {
    /// The direction has a cell that limits its rate.
    pub open spec fn limits(self) -> bool {
        self.bandwidth is Some || self.trace is Some
    }

    /// Where the delay is among the cells.
    pub open spec fn delay_place(self) -> int {
        if self.limits() {
            1
        } else {
            0
        }
    }

    /// Where the loss is among the cells.
    pub open spec fn loss_place(self) -> int {
        self.delay_place() + if self.delay is Some {
            1int
        } else {
            0
        }
    }

    /// How many cells the direction has.
    pub open spec fn count(self) -> int {
        self.loss_place() + if self.loss is Some {
            1int
        } else {
            0
        }
    }

    /// The cells of the direction, in the order in which packets pass them: first the one that
    /// limits the rate, by a bandwidth or else by a trace, then the delay, then the loss; each
    /// if it is asked for.
    pub fn into_cells<D, W>(self) -> (cells: Vec<CellBuildConfig<R, D, W>>)
        ensures
            cells@.len() == self.count(),
            self.bandwidth is Some ==> cells@[0] == CellBuildConfig::<R, D, W>::Bw(
                fixed_cell(self.bandwidth->0, self.queue),
            ),
            self.bandwidth is None && self.trace is Some ==> cells@[0] == CellBuildConfig::<
                R,
                D,
                W,
            >::BwReplay(replay_cell(self.trace->0, self.queue)),
            self.delay is Some ==> cells@[self.delay_place()] == CellBuildConfig::<R, D, W>::Delay(
                DelayCellConfig { delay: self.delay->0 },
            ),
            self.loss is Some ==> {
                let cell = cells@[self.loss_place()];
                cell is Loss && cell->Loss_0.pattern@ == seq![self.loss->0]
            },
    {
        let mut cells: Vec<CellBuildConfig<R, D, W>> = Vec::new();
        match self.bandwidth {
            Some(bandwidth) => {
                cells.push(CellBuildConfig::Bw(make_fixed_cell(bandwidth, self.queue)));
            },
            None => match self.trace {
                Some(trace) => {
                    cells.push(CellBuildConfig::BwReplay(make_replay_cell(trace, self.queue)));
                },
                None => {},
            },
        }
        match self.delay {
            Some(delay) => {
                cells.push(CellBuildConfig::Delay(DelayCellConfig::new(delay)));
            },
            None => {},
        }
        match self.loss {
            Some(loss) => {
                let mut pattern: Vec<R> = Vec::new();
                pattern.push(loss);
                assert(pattern@ =~= seq![loss]);
                cells.push(CellBuildConfig::Loss(LossCellConfig::new(pattern)));
            },
            None => {},
        }
        cells
    }
}

/// A cell made from a choice of queue has the bandwidth that was asked for, a queue of the
/// chosen kind and its arguments as they were given.
pub proof fn law_cell_is_as_chosen(bandwidth: u64, trace: String, queue: QueueChoice)
    ensures
        match (queue, fixed_cell(bandwidth, queue), replay_cell(trace, queue)) {
            (
                QueueChoice::Infinite,
                BwCellBuildConfig::Infinite(a),
                BwReplayCellBuildConfig::Infinite(b),
            ) => a.bandwidth is Some && a.bandwidth->0 == bandwidth && b.trace == trace
                && a.bw_type is None && b.bw_type is None,
            (
                QueueChoice::DropTail(c),
                BwCellBuildConfig::DropTail(a),
                BwReplayCellBuildConfig::DropTail(b),
            ) => a.bandwidth is Some && a.bandwidth->0 == bandwidth && b.trace == trace
                && a.bw_type is None && b.bw_type is None && a.queue_config == c
                && b.queue_config == c,
            (
                QueueChoice::DropHead(c),
                BwCellBuildConfig::DropHead(a),
                BwReplayCellBuildConfig::DropHead(b),
            ) => a.bandwidth is Some && a.bandwidth->0 == bandwidth && b.trace == trace
                && a.bw_type is None && b.bw_type is None && a.queue_config == c
                && b.queue_config == c,
            (
                QueueChoice::CoDel(c),
                BwCellBuildConfig::CoDel(a),
                BwReplayCellBuildConfig::CoDel(b),
            ) => a.bandwidth is Some && a.bandwidth->0 == bandwidth && b.trace == trace
                && a.bw_type is None && b.bw_type is None && a.queue_config == c
                && b.queue_config == c,
            _ => false,
        },
{
}

/// The cells of a direction follow each other without a gap: rate, delay, loss, as far as
/// they are asked for. A direction of which nothing is asked has no cells.
pub proof fn law_cells_stand_in_order<R>(o: DirectionOptions<R>)
    ensures
        o.bandwidth is None && o.trace is None && o.delay is None && o.loss is None ==> o.count()
            == 0,
        o.bandwidth is Some || o.trace is Some ==> o.delay_place() == 1,
        o.bandwidth is None && o.trace is None ==> o.delay_place() == 0,
        o.delay is Some ==> o.loss_place() == o.delay_place() + 1,
        o.delay is None ==> o.loss_place() == o.delay_place(),
        o.loss is Some ==> o.count() == o.loss_place() + 1,
        o.loss is None ==> o.count() == o.loss_place(),
{
}

} // verus!
