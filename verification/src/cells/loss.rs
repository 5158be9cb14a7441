//! Cells that lose packets.
use super::{admission, admit_packet, Admission, CellState};
use crate::error::{control_channel, Error};
use crate::pattern::{can_draw, happens, may_come_out, next_streak, rate_at, rate_of};
use crate::time::{after, reachable, Duration, Instant};
use vstd::prelude::*;

verus! {

/// The pattern of loss rates repeats its last value until a packet gets through:
/// `[0.1, 0.2, 0.3]` means `[0.1, 0.2, 0.3, 0.3, 0.3, ..]`. A last value of 0 limits the
/// number of packets that are lost in a row; a single value loses packets independently.
#[derive(Debug)]
pub struct LossCellConfig<R> {
    pub pattern: Vec<R>,
}

impl<R> LossCellConfig<R> {
    pub fn new(pattern: Vec<R>) -> (c: Self)
        ensures
            c.pattern == pattern,
    {
        LossCellConfig { pattern }
    }
}

/// Where a cell that loses packets is configured. `store` hands a pattern to the cell.
pub struct LossCellControlInterface<S> {
    pub store: S,
}

impl<S> LossCellControlInterface<S> {
    /// Hands the pattern to the cell.
    pub fn set_config<R>(&self, config: LossCellConfig<R>) -> (r: Result<(), Error>) where
        S: Fn(Vec<R>),

        requires
            call_requires(self.store, (config.pattern,)),
        ensures
            r is Ok,
            call_ensures(self.store, (config.pattern,), ()),
    {
        (self.store)(config.pattern);
        Ok(())
    }
}

/// What a cell that loses packets remembers.
#[verifier::ext_equal]
pub struct LossModel<R> {
    pub pattern: Seq<R>,
    /// How many packets have been lost in a row.
    pub prev_loss: nat,
    pub state: CellState,
}

impl<R> LossModel<R> {
    /// The rate at which the next packet is lost.
    pub open spec fn rate(self) -> Option<R> {
        rate_at(self.pattern, self.prev_loss)
    }

    /// A packet has come, and it was `lost` or not.
    pub open spec fn judged(self, lost: bool) -> Self {
        LossModel { prev_loss: next_streak(self.prev_loss, lost), ..self }
    }

    /// What may become of a packet; `None` means that no packet will come any more.
    pub open spec fn passed<P, F: Fn(R) -> bool>(
        self,
        packet: Option<P>,
        draw: F,
        after: Self,
        out: Option<P>,
    ) -> bool {
        match packet {
            None => after == self && out is None,
            Some(p) => match admission(self.state, p) {
                Admission::Drop => after == self && out is None,
                Admission::PassThrough(p) => after == self && out == Some(p),
                Admission::Normal(p) => {
                    ||| may_come_out(draw, self.rate(), true) && after == self.judged(true)
                        && out is None
                    ||| may_come_out(draw, self.rate(), false) && after == self.judged(false)
                        && out == Some(p)
                },
            },
        }
    }
}

/// The sending side of a cell that loses packets.
#[derive(Debug)]
pub struct LossCellEgress<R> {
    pattern: Vec<R>,
    prev_loss: usize,
    state: CellState,
}

impl<R: Copy> LossCellEgress<R> {
    pub closed spec fn model(self) -> LossModel<R> {
        LossModel {
            pattern: self.pattern@,
            prev_loss: self.prev_loss as nat,
            state: self.state,
        }
    }

    /// A cell that has lost nothing yet, and drops everything until it is started.
    pub fn new(pattern: Vec<R>) -> (e: Self)
        ensures
            e.model() == (LossModel {
                pattern: pattern@,
                prev_loss: 0,
                state: CellState::Drop,
            }),
    {
        LossCellEgress { pattern, prev_loss: 0, state: CellState::Drop }
    }

    pub fn change_state(&mut self, state: CellState)
        ensures
            final(self).model() == (LossModel { state, ..old(self).model() }),
    {
        self.state = state;
    }

    /// Another pattern comes into force. How many packets have been lost in a row stays.
    pub fn set_pattern(&mut self, pattern: Vec<R>)
        ensures
            final(self).model() == (LossModel { pattern: pattern@, ..old(self).model() }),
    {
        self.pattern = pattern;
    }

    /// A packet has come, or none will come any more. Returns what is sent. `draw` tells
    /// whether something happens at a rate.
    pub fn on_packet<P, F: Fn(R) -> bool>(&mut self, packet: Option<P>, draw: &F) -> (out: Option<
        P,
    >)
        requires
            packet is Some && old(self).model().state == CellState::Normal ==> can_draw(
                *draw,
                old(self).model().rate(),
            ),
            old(self).model().prev_loss < usize::MAX,
        ensures
            old(self).model().passed(packet, *draw, final(self).model(), out),
    {
        let packet = match packet {
            Some(packet) => packet,
            None => {
                return None;
            },
        };
        match admit_packet(self.state, packet) {
            Admission::Drop => None,
            Admission::PassThrough(packet) => Some(packet),
            Admission::Normal(packet) => {
                if happens(draw, rate_of(&self.pattern, self.prev_loss)) {
                    self.prev_loss = self.prev_loss + 1;
                    None
                } else {
                    self.prev_loss = 0;
                    Some(packet)
                }
            },
        }
    }
}

/// A step of a trace: a pattern and how long it is in force.
pub type LossStep<R> = Option<(Vec<R>, Duration)>;

/// What a cell that replays a trace of loss patterns remembers.
#[verifier::ext_equal]
pub struct LossReplayModel<R> {
    pub loss: LossModel<R>,
    /// When the trace takes its next step.
    pub next_change: Instant,
}

impl<R> LossReplayModel<R> {
    /// The trace has taken a step at `timestamp`.
    pub open spec fn stepped(self, pattern: Seq<R>, duration: Duration, timestamp: Instant) -> Self {
        LossReplayModel {
            loss: LossModel { pattern, ..self.loss },
            next_change: (timestamp + duration) as i128,
        }
    }
}

/// The sending side of a cell that replays a trace of loss patterns.
#[derive(Debug)]
pub struct LossReplayCellEgress<R> {
    loss: LossCellEgress<R>,
    next_change: Instant,
}

impl<R: Copy> LossReplayCellEgress<R> {
    pub closed spec fn model(self) -> LossReplayModel<R> {
        LossReplayModel { loss: self.loss.model(), next_change: self.next_change }
    }

    /// A cell whose trace takes its first step at `now`. Until then the pattern is `certain`,
    /// which loses every packet.
    pub fn new(certain: R, now: Instant) -> (e: Self)
        ensures
            e.model() == (LossReplayModel {
                loss: LossModel { pattern: seq![certain], prev_loss: 0, state: CellState::Drop },
                next_change: now,
            }),
    {
        let mut pattern: Vec<R> = Vec::new();
        pattern.push(certain);
        let e = LossReplayCellEgress { loss: LossCellEgress::new(pattern), next_change: now };
        assert(e.model().loss.pattern =~= seq![certain]);
        e
    }

    pub fn change_state(&mut self, state: CellState)
        ensures
            final(self).model() == (LossReplayModel {
                loss: LossModel { state, ..old(self).model().loss },
                ..old(self).model()
            }),
    {
        self.loss.change_state(state);
    }

    /// The trace begins at `start`.
    pub fn reset(&mut self, start: Instant)
        ensures
            final(self).model() == (LossReplayModel {
                loss: LossModel { prev_loss: 0, ..old(self).model().loss },
                next_change: start,
            }),
    {
        self.loss.prev_loss = 0;
        self.next_change = start;
    }

    /// Takes a step of the trace at `change_time`. Tells whether there was one.
    fn next_change(&mut self, step: LossStep<R>, change_time: Instant) -> (more: bool)
        requires
            step is Some ==> reachable(change_time, (step->0).1),
        ensures
            more == (step is Some),
            match step {
                Some((pattern, duration)) => final(self).model() == old(self).model().stepped(
                    pattern@,
                    duration,
                    change_time,
                ),
                None => final(self).model() == old(self).model(),
            },
    {
        match step {
            Some((pattern, duration)) => {
                self.loss.set_pattern(pattern);
                self.next_change = after(change_time, duration);
                true
            },
            None => false,
        }
    }

    /// Another trace begins at `now` with its first step. A trace without any step has come
    /// to its end: the cell drops all packets.
    pub fn set_config(&mut self, step: LossStep<R>, now: Instant)
        requires
            step is Some ==> reachable(now, (step->0).1),
        ensures
            match step {
                Some((pattern, duration)) => final(self).model() == old(self).model().stepped(
                    pattern@,
                    duration,
                    now,
                ),
                None => final(self).model() == (LossReplayModel {
                    loss: LossModel { state: CellState::Drop, ..old(self).model().loss },
                    next_change: now,
                }),
            },
    {
        if !self.next_change(step, now) {
            self.next_change = now;
            self.change_state(CellState::Drop);
        }
    }

    /// The time of the next step has come. Tells whether the cell goes on: at the end of the
    /// trace no packet is sent any more.
    pub fn on_step(&mut self, step: LossStep<R>) -> (more: bool)
        requires
            step is Some ==> reachable(old(self).model().next_change, (step->0).1),
        ensures
            more == (step is Some),
            match step {
                Some((pattern, duration)) => final(self).model() == old(self).model().stepped(
                    pattern@,
                    duration,
                    old(self).model().next_change,
                ),
                None => final(self).model() == old(self).model(),
            },
    {
        let at: Instant = self.next_change;
        self.next_change(step, at)
    }

    /// When the trace takes its next step.
    pub fn change_time(&self) -> (t: Instant)
        ensures
            t == self.model().next_change,
    {
        self.next_change
    }

    /// A packet has come. Returns what is sent.
    pub fn on_packet<P, F: Fn(R) -> bool>(&mut self, packet: P, draw: &F) -> (out: Option<P>)
        requires
            old(self).model().loss.state == CellState::Normal ==> can_draw(
                *draw,
                old(self).model().loss.rate(),
            ),
            old(self).model().loss.prev_loss < usize::MAX,
        ensures
            final(self).model().next_change == old(self).model().next_change,
            old(self).model().loss.passed(Some(packet), *draw, final(self).model().loss, out),
    {
        self.loss.on_packet(Some(packet), draw)
    }
}

/// Where a cell that replays a trace of loss patterns is configured. `send` hands a trace to
/// the cell and tells whether it was taken.
pub struct LossReplayCellControlInterface<S> {
    pub send: S,
}

impl<S> LossReplayCellControlInterface<S> {
    pub fn set_config<C>(&self, config: C) -> (r: Result<(), Error>) where S: Fn(C) -> bool
        requires
            call_requires(self.send, (config,)),
        ensures
            exists|sent: bool| #[trigger]
                call_ensures(self.send, (config,), sent) && (r is Ok <==> sent),
            r is Err ==> r->Err_0 is ConfigError && r->Err_0.text()
                == "Control channel is closed."@,
    {
        let sent: bool = (self.send)(config);
        control_channel(sent)
    }
}

/// Nothing changes a packet on its way: what is sent is the packet that came, or nothing.
pub proof fn law_loss_cell_sends_what_came<R, P, F: Fn(R) -> bool>(
    m: LossModel<R>,
    packet: P,
    draw: F,
    after: LossModel<R>,
    out: Option<P>,
)
    requires
        m.passed(Some(packet), draw, after, out),
    ensures
        out is Some ==> out->0 == packet,
        after.pattern == m.pattern,
        m.state == CellState::Normal ==> after.prev_loss == next_streak(
            m.prev_loss,
            out is None,
        ),
{
}

/// A last rate at which nothing happens limits how many packets are lost in a row: no more
/// than the pattern has values before it.
pub proof fn law_last_rate_limits_the_losses_in_a_row<R, P, F: Fn(R) -> bool>(
    m: LossModel<R>,
    packet: P,
    draw: F,
    after: LossModel<R>,
    out: Option<P>,
)
    requires
        m.passed(Some(packet), draw, after, out),
        m.pattern.len() > 0,
        forall|b: bool| #[trigger] call_ensures(draw, (m.pattern.last(),), b) ==> !b,
        m.prev_loss <= m.pattern.len() - 1,
    ensures
        after.prev_loss <= m.pattern.len() - 1,
{
    if m.prev_loss == m.pattern.len() - 1 {
        assert(m.rate() == Some(m.pattern.last()));
        assert(call_ensures(draw, (m.pattern.last(),), true) ==> !true);
        assert(!may_come_out(draw, m.rate(), true));
    }
}

/// `models` are what a cell remembers before and after each of `packets`, which come one after
/// the other, and `outs` is what is sent for each.
pub open spec fn passes<R, P, F: Fn(R) -> bool>(
    models: Seq<LossModel<R>>,
    packets: Seq<P>,
    draw: F,
    outs: Seq<Option<P>>,
) -> bool {
    &&& models.len() == packets.len() + 1
    &&& outs.len() == packets.len()
    &&& forall|i: int|
        0 <= i < packets.len() ==> (#[trigger] models[i]).passed(
            Some(packets[i]),
            draw,
            models[i + 1],
            outs[i],
        )
}

/// With a last rate at which nothing happens, of as many packets in a row as the pattern has
/// values at least one is sent. The rate for each packet is the value of the pattern for the
/// losses in a row before it, and a packet that is sent starts their count over.
pub proof fn law_losses_in_a_row_come_to_an_end<R, P, F: Fn(R) -> bool>(
    models: Seq<LossModel<R>>,
    packets: Seq<P>,
    draw: F,
    outs: Seq<Option<P>>,
)
    requires
        passes(models, packets, draw, outs),
        models[0].state == CellState::Normal,
        models[0].pattern.len() > 0,
        packets.len() >= models[0].pattern.len(),
        forall|b: bool| #[trigger]
            call_ensures(draw, (models[0].pattern.last(),), b) ==> !b,
    ensures
        exists|i: int| 0 <= i < models[0].pattern.len() && #[trigger] outs[i] is Some,
        forall|i: int|
            0 <= i < packets.len() ==> {
                &&& (#[trigger] models[i + 1]).prev_loss == next_streak(
                    models[i].prev_loss,
                    outs[i] is None,
                )
                &&& models[i].rate() == rate_at(models[0].pattern, models[i].prev_loss)
                &&& outs[i] is Some ==> outs[i]->0 == packets[i]
            },
{
    let pattern = models[0].pattern;
    let n = pattern.len();
    lemma_run_keeps_pattern(models, packets, draw, outs, packets.len());
    if forall|i: int| 0 <= i < n ==> #[trigger] outs[i] is None {
        lemma_run_counts_losses(models, packets, draw, outs, (n - 1) as nat);
        let last = models[n - 1];
        assert(last.prev_loss >= n - 1);
        assert(last.rate() == Some(pattern.last()));
        assert(last.passed(Some(packets[n - 1]), draw, models[n as int], outs[n - 1]));
        assert(outs[n - 1] is None);
        assert(call_ensures(draw, (pattern.last(),), true) ==> !true);
        assert(!may_come_out(draw, last.rate(), true));
        assert(false);
    }
    let i = choose|i: int| 0 <= i < n && !(#[trigger] outs[i] is None);
    assert(outs[i] is Some);
}

/// Over a run the pattern and the state stay, and the losses in a row are counted.
proof fn lemma_run_keeps_pattern<R, P, F: Fn(R) -> bool>(
    models: Seq<LossModel<R>>,
    packets: Seq<P>,
    draw: F,
    outs: Seq<Option<P>>,
    n: nat,
)
    requires
        passes(models, packets, draw, outs),
        models[0].state == CellState::Normal,
        n <= packets.len(),
    ensures
        forall|i: int|
            0 <= i <= n ==> (#[trigger] models[i]).pattern == models[0].pattern
                && models[i].state == CellState::Normal,
        forall|i: int|
            0 <= i < n ==> (#[trigger] models[i + 1]).prev_loss == next_streak(
                models[i].prev_loss,
                outs[i] is None,
            ) && (outs[i] is Some ==> outs[i]->0 == packets[i]),
    decreases n,
{
    if n > 0 {
        lemma_run_keeps_pattern(models, packets, draw, outs, (n - 1) as nat);
        let i = n - 1;
        assert(models[i].passed(Some(packets[i]), draw, models[i + 1], outs[i]));
        law_loss_cell_sends_what_came(models[i], packets[i], draw, models[i + 1], outs[i]);
    }
}

/// As long as every packet is lost, the losses in a row grow.
proof fn lemma_run_counts_losses<R, P, F: Fn(R) -> bool>(
    models: Seq<LossModel<R>>,
    packets: Seq<P>,
    draw: F,
    outs: Seq<Option<P>>,
    n: nat,
)
    requires
        passes(models, packets, draw, outs),
        models[0].state == CellState::Normal,
        n <= packets.len(),
        forall|i: int| 0 <= i < n ==> #[trigger] outs[i] is None,
    ensures
        models[n as int].prev_loss >= n,
    decreases n,
{
    if n > 0 {
        lemma_run_counts_losses(models, packets, draw, outs, (n - 1) as nat);
        lemma_run_keeps_pattern(models, packets, draw, outs, n);
        assert(models[(n - 1) + 1].prev_loss == next_streak(
            models[n - 1].prev_loss,
            outs[n - 1] is None,
        ));
    }
}

/// In normal operation a packet is lost exactly if the draw hits, at the rate that the pattern
/// has for the losses in a row before it: the value at their number, and the last one past its
/// end. A loss adds to them, and a packet that is sent starts them over. An empty pattern
/// loses nothing.
pub proof fn law_packet_is_lost_by_the_rate_of_its_streak<R, P, F: Fn(R) -> bool>(
    m: LossModel<R>,
    packet: P,
    draw: F,
    after: LossModel<R>,
    out: Option<P>,
)
    requires
        m.state == CellState::Normal,
        m.passed(Some(packet), draw, after, out),
    ensures
        out is Some ==> out->0 == packet && after.prev_loss == 0,
        out is None ==> after.prev_loss == m.prev_loss + 1,
        m.pattern.len() == 0 ==> out is Some,
        m.pattern.len() > 0 ==> {
            let i = if m.prev_loss < m.pattern.len() {
                m.prev_loss as int
            } else {
                m.pattern.len() - 1
            };
            call_ensures(draw, (m.pattern[i],), out is None)
        },
        after.pattern == m.pattern && after.state == m.state,
{
}

/// Before it is started a cell loses everything, and while it passes through nothing; either
/// way the losses in a row are not counted.
pub proof fn law_loss_cell_passes_through<R, P, F: Fn(R) -> bool>(
    m: LossModel<R>,
    packet: P,
    draw: F,
    after: LossModel<R>,
    out: Option<P>,
)
    requires
        m.passed(Some(packet), draw, after, out),
    ensures
        m.state == CellState::Drop ==> out is None && after == m,
        m.state == CellState::PassThrough ==> out == Some(packet) && after == m,
{
}

/// A step of a trace sets the pattern and the time of the next step, and keeps the losses in
/// a row.
pub proof fn law_loss_trace_keeps_the_streak<R>(
    m: LossReplayModel<R>,
    pattern: Seq<R>,
    duration: Duration,
    timestamp: Instant,
)
    requires
        reachable(timestamp, duration),
    ensures
        m.stepped(pattern, duration, timestamp).loss.pattern == pattern,
        m.stepped(pattern, duration, timestamp).loss.prev_loss == m.loss.prev_loss,
        m.stepped(pattern, duration, timestamp).loss.state == m.loss.state,
        m.stepped(pattern, duration, timestamp).next_change == timestamp + duration,
{
}

/// Packets are lost by the rates in normal operation only: before the start all are dropped,
/// a cell that passes through sends each as it is, and nothing is sent once no packet comes
/// any more. None of this changes how many were lost in a row.
pub proof fn law_loss_is_for_normal_operation<R, P, F: Fn(R) -> bool>(
    m: LossModel<R>,
    packet: Option<P>,
    draw: F,
    after: LossModel<R>,
    out: Option<P>,
)
    requires
        m.passed(packet, draw, after, out),
        packet is None || m.state != CellState::Normal,
    ensures
        after == m,
        packet is None || m.state == CellState::Drop ==> out is None,
        m.state == CellState::PassThrough ==> out == packet,
{
}

} // verus!
