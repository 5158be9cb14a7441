//! A cell that lets a packet pass as soon as there are tokens for it in both of its buckets.
use crate::cells::bandwidth::queue::{
    lemma_total_size_nonnegative, size_of, total_size, DropTailQueue, DropTailQueueConfig,
    LimitedModel, PacketQueue,
};
use crate::cells::bandwidth::BwType;
use crate::cells::{admission, admit_packet, Admission, CellState};
use crate::error::{control_channel, Error};
use crate::law::{computes, is_timing, tests_for};
use crate::packet::Packet;
use crate::time::{after, before, on_clock, reachable, Duration, Instant, LARGE_DURATION};
use bucket::{generation_time, BucketModel, Timing, Token, TokenBucket};
use vstd::prelude::*;

pub mod bucket;
pub mod polled;

verus! {

/// The shape of the buckets. `rate` and `burst`, `peakrate` and `minburst` must be provided
/// together.
#[derive(Debug, Clone, Copy)]
pub struct TokenBucketCellConfig {
    /// Limit of the queue in bytes; `None` leaves it as it is.
    pub limit: Option<usize>,
    /// Rate of the bucket in bits per second, or `None` for unlimited.
    pub rate: Option<u128>,
    /// Size of the bucket in bytes, or `None` for unlimited.
    pub burst: Option<u64>,
    /// Rate of the peak bucket in bits per second, or `None` for unlimited.
    pub peakrate: Option<u128>,
    /// Size of the peak bucket in bytes, or `None` for unlimited.
    pub minburst: Option<u64>,
}

impl TokenBucketCellConfig {
    pub fn new(
        limit: Option<usize>,
        rate: Option<u128>,
        burst: Option<u64>,
        peakrate: Option<u128>,
        minburst: Option<u64>,
    ) -> (c: Self)
        ensures
            c == (TokenBucketCellConfig { limit, rate, burst, peakrate, minburst }),
    {
        TokenBucketCellConfig { limit, rate, burst, peakrate, minburst }
    }

    /// What is wrong with the configuration, if anything is.
    pub open spec fn fault(self) -> Option<Seq<char>> {
        if (self.rate is None) != (self.burst is None) {
            Some("rate and burst should be provided together"@)
        } else if (self.peakrate is None) != (self.minburst is None) {
            Some("peakrate and minburst should be provided together"@)
        } else if self.rate == Some(0u128) {
            Some("rate must be greater than 0"@)
        } else if self.burst == Some(0u64) {
            Some("burst must be greater than 0"@)
        } else if self.peakrate == Some(0u128) {
            Some("peakrate must be greater than 0"@)
        } else if self.minburst == Some(0u64) {
            Some("minburst must be greater than 0"@)
        } else {
            None
        }
    }

    /// Whether the cell can be given this configuration.
    pub fn validate(&self) -> (r: Result<(), Error>)
        ensures
            match self.fault() {
                Some(text) => r is Err && r->Err_0 is ConfigError && r->Err_0.text() == text,
                None => r is Ok,
            },
    {
        if self.rate.is_none() != self.burst.is_none() {
            return Err(
                Error::ConfigError("rate and burst should be provided together".to_owned()),
            );
        }
        if self.peakrate.is_none() != self.minburst.is_none() {
            return Err(
                Error::ConfigError("peakrate and minburst should be provided together".to_owned()),
            );
        }
        match self.rate {
            Some(rate) => if rate == 0 {
                return Err(Error::ConfigError("rate must be greater than 0".to_owned()));
            },
            None => {},
        }
        match self.burst {
            Some(burst) => if burst == 0 {
                return Err(Error::ConfigError("burst must be greater than 0".to_owned()));
            },
            None => {},
        }
        match self.peakrate {
            Some(peakrate) => if peakrate == 0 {
                return Err(Error::ConfigError("peakrate must be greater than 0".to_owned()));
            },
            None => {},
        }
        match self.minburst {
            Some(minburst) => if minburst == 0 {
                return Err(Error::ConfigError("minburst must be greater than 0".to_owned()));
            },
            None => {},
        }
        Ok(())
    }
}

impl Default for TokenBucketCellConfig {
    fn default() -> (c: Self)
        ensures
            c == (TokenBucketCellConfig {
                limit: None,
                rate: None,
                burst: None,
                peakrate: None,
                minburst: None,
            }),
    {
        TokenBucketCellConfig { limit: None, rate: None, burst: None, peakrate: None, minburst: None }
    }
}

/// Where the cell is configured. `send` hands a configuration to the cell and tells whether
/// it was taken.
pub struct TokenBucketCellControlInterface<S> {
    pub send: S,
}

impl<S: Fn(TokenBucketCellConfig) -> bool> TokenBucketCellControlInterface<S> {
    /// Hands `config` to the cell, if the cell can be given it.
    pub fn set_config(&self, config: TokenBucketCellConfig) -> (r: Result<(), Error>)
        requires
            config.fault() is None ==> call_requires(self.send, (config,)),
        ensures
            r is Err ==> r->Err_0 is ConfigError,
            match config.fault() {
                Some(text) => r is Err && r->Err_0.text() == text,
                None => exists|sent: bool|
                    {
                        &&& #[trigger] call_ensures(self.send, (config,), sent)
                        &&& r is Ok <==> sent
                        &&& !sent ==> r->Err_0.text() == "Control channel is closed."@
                    },
            },
    {
        match config.validate() {
            Ok(()) => {
                let sent: bool = (self.send)(config);
                control_channel(sent)
            },
            Err(e) => Err(e),
        }
    }
}

/// What the cell does next.
#[derive(Debug)]
pub enum TokenAction<P> {
    /// Wait for the next event.
    Wait,
    /// The call that asked for a packet ends with this one, or with none.
    Return(Option<P>),
}

/// What the cell holds.
#[verifier::ext_equal]
pub struct TokenModel<P> {
    pub token: Option<BucketModel>,
    pub peak: Option<BucketModel>,
    /// When the cell wants to be woken up.
    pub next_available: Instant,
    /// The largest packet that may pass.
    pub max_size: u64,
    pub queue: LimitedModel<P>,
    pub state: CellState,
    pub logical_clock: Instant,
}

/// The later of two instants, of which there may be one or none.
pub open spec fn latest_ready(a: Option<int>, b: Option<int>) -> Option<int> {
    match (a, b) {
        (Some(x), Some(y)) => Some(
            if x >= y {
                x
            } else {
                y
            },
        ),
        (Some(_), None) => a,
        (None, _) => b,
    }
}

/// The bucket of a configuration: full, and long since.
pub open spec fn shaped(
    timing: Timing,
    burst: Option<u64>,
    rate: Option<u128>,
    timestamp: Instant,
) -> Option<BucketModel> {
    match (burst, rate) {
        (Some(burst), Some(rate)) => Some(
            BucketModel::full(timing, burst, rate, (timestamp - LARGE_DURATION) as i128),
        ),
        _ => None,
    }
}

/// The size of a bucket, where there is one.
pub open spec fn size_limit(burst: Option<u64>, rate: Option<u128>) -> u64 {
    match (burst, rate) {
        (Some(burst), Some(_)) => burst,
        _ => u64::MAX,
    }
}

/// The largest packet that passes the buckets of a configuration: it fits into both.
pub open spec fn max_size_of(config: TokenBucketCellConfig) -> u64 {
    let a = size_limit(config.burst, config.rate);
    let b = size_limit(config.minburst, config.peakrate);
    if a <= b {
        a
    } else {
        b
    }
}

impl<P: Packet> TokenModel<P> {
    pub open spec fn valid(self) -> bool {
        &&& self.token is Some ==> self.token->0.valid()
        &&& self.peak is Some ==> self.peak->0.valid()
        &&& self.queue.exact()
        &&& self.queue.bw_type == BwType::NetworkLayer
        &&& self.queue.packet_limit is None
        &&& on_clock(self.logical_clock)
    }

    /// A cell that was made at `now`: its queue is empty, and it drops what comes.
    pub open spec fn fresh(config: TokenBucketCellConfig, now: Instant, timing: Timing) -> Self {
        TokenModel {
            token: shaped(timing, config.burst, config.rate, now),
            peak: shaped(timing, config.minburst, config.peakrate, now),
            next_available: (now + LARGE_DURATION) as i128,
            max_size: max_size_of(config),
            queue: LimitedModel {
                packets: Seq::empty(),
                packet_limit: None,
                byte_limit: config.limit,
                bw_type: BwType::NetworkLayer,
                bytes: 0,
            },
            state: CellState::Drop,
            logical_clock: now,
        }
    }

    /// Every queued packet fits into both buckets.
    pub open spec fn queue_fits(self) -> bool {
        forall|i: int|
            0 <= i < self.queue.packets.len() ==> (#[trigger] self.queue.packets[i]).l3()
                <= self.max_size
    }

    /// The time that tokens for `size` bytes take in a bucket.
    pub open spec fn price(timing: Timing, bucket: BucketModel, size: int) -> Duration {
        generation_time(timing, size as u64, bucket.token_rate)
    }

    /// Both buckets hold tokens for `size` bytes.
    pub open spec fn affords(self, size: int, timing: Timing) -> bool {
        &&& self.token is Some ==> self.token->0.holds(Self::price(timing, self.token->0, size))
        &&& self.peak is Some ==> self.peak->0.holds(Self::price(timing, self.peak->0, size))
    }

    /// Tokens for `size` bytes are taken out of both buckets.
    pub open spec fn paid(self, size: int, timing: Timing) -> Self {
        TokenModel {
            token: match self.token {
                Some(b) => Some(b.consumed(Self::price(timing, b, size))),
                None => None,
            },
            peak: match self.peak {
                Some(b) => Some(b.consumed(Self::price(timing, b, size))),
                None => None,
            },
            ..self
        }
    }

    /// When both buckets will hold tokens for `size` bytes; `None` only if there is no
    /// bucket.
    pub open spec fn ready_at(self, size: int, timing: Timing) -> Option<int> {
        latest_ready(
            match self.token {
                Some(b) => Some(b.ready_at(Self::price(timing, b, size))),
                None => None,
            },
            match self.peak {
                Some(b) => Some(b.ready_at(Self::price(timing, b, size))),
                None => None,
            },
        )
    }

    /// The cell waits until it can send `size` bytes, or for long if it has nothing to send.
    pub open spec fn waiting_for(self, size: Option<int>, timing: Timing) -> Self {
        TokenModel {
            next_available: match size {
                Some(size) => self.ready_at(size, timing)->0 as i128,
                None => (self.next_available + LARGE_DURATION) as i128,
            },
            ..self
        }
    }

    /// `packet` goes to the end of the queue, if there is one and it fits.
    pub open spec fn queued(self, packet: Option<P>) -> Self {
        match packet {
            Some(p) => TokenModel { queue: DropTailQueue::enqueued(self.queue, p), ..self },
            None => self,
        }
    }

    /// The size of the packet that is next to leave.
    pub open spec fn front_size(self) -> Option<int> {
        if self.queue.packets.len() > 0 {
            Some(size_of(self.queue.packets[0], self.queue.extra()))
        } else {
            None
        }
    }

    /// The cell has looked at its queue and at `packet`, which has just come: the first of
    /// them leaves if there are tokens for it.
    pub open spec fn handled(self, packet: Option<P>, timing: Timing) -> (Self, Option<P>) {
        let size = match (self.front_size(), packet) {
            (Some(size), _) => Some(size),
            (None, Some(p)) => Some(size_of(p, self.queue.extra())),
            (None, None) => None,
        };
        match size {
            None => (self.waiting_for(None, timing), None),
            Some(size) => if !self.affords(size, timing) {
                (self.queued(packet).waiting_for(Some(size), timing), None)
            } else {
                let paid = self.paid(size, timing);
                if self.queue.packets.len() > 0 {
                    let rest = TokenModel { queue: paid.queue.popped(), ..paid }.queued(packet);
                    (
                        rest.waiting_for(rest.front_size(), timing),
                        Some(self.queue.packets[0].stamped(self.logical_clock)),
                    )
                } else {
                    (
                        paid.waiting_for(None, timing),
                        Some(packet->0.stamped(self.logical_clock)),
                    )
                }
            },
        }
    }

    /// The clock is moved to `timestamp`.
    pub open spec fn at(self, timestamp: Instant) -> Self {
        TokenModel {
            token: match self.token {
                Some(b) => Some(b.updated(timestamp)),
                None => None,
            },
            peak: match self.peak {
                Some(b) => Some(b.updated(timestamp)),
                None => None,
            },
            logical_clock: timestamp,
            ..self
        }
    }

    /// The queue without the packets that are larger than `max_size`.
    pub open spec fn trimmed(self, max_size: u64) -> LimitedModel<P> {
        let packets = self.queue.packets.filter(|p: P| p.l3() <= max_size);
        LimitedModel {
            packets,
            bytes: total_size(packets, self.queue.extra()) as usize,
            ..self.queue
        }
    }

    /// `config` comes into force at `timestamp`.
    pub open spec fn reconfigured(
        self,
        config: TokenBucketCellConfig,
        timestamp: Instant,
        timing: Timing,
    ) -> Self {
        let max_size = max_size_of(config);
        let limited = TokenModel {
            queue: LimitedModel {
                byte_limit: match config.limit {
                    Some(limit) => Some(limit),
                    None => self.queue.byte_limit,
                },
                ..self.queue
            },
            ..self
        };
        let queue = if max_size < self.max_size {
            limited.trimmed(max_size)
        } else {
            limited.queue
        };
        TokenModel {
            token: shaped(timing, config.burst, config.rate, timestamp),
            peak: shaped(timing, config.minburst, config.peakrate, timestamp),
            max_size,
            queue,
            next_available: if queue.packets.len() > 0 {
                timestamp
            } else {
                (timestamp + LARGE_DURATION) as i128
            },
            ..self
        }
    }

    /// What a packet does; `None` means that no packet will come any more. A packet that does
    /// not fit into both buckets is lost.
    pub open spec fn on_packet(self, packet: Option<P>, timing: Timing) -> (Self, TokenAction<P>) {
        match packet {
            None => (self, TokenAction::Return(None)),
            Some(p) => {
                let now = self.at(p.timestamp());
                match admission(self.state, p) {
                    Admission::Drop => (now, TokenAction::Return(None)),
                    Admission::PassThrough(p) => (now, TokenAction::Return(Some(p))),
                    Admission::Normal(p) => if size_of(p, self.queue.extra()) > self.max_size {
                        (now, TokenAction::Wait)
                    } else {
                        let (next, out) = now.handled(Some(p), timing);
                        (next, Self::action(out))
                    },
                }
            },
        }
    }

    /// The call goes on until a packet is found.
    pub open spec fn action(packet: Option<P>) -> TokenAction<P> {
        match packet {
            Some(p) => TokenAction::Return(Some(p)),
            None => TokenAction::Wait,
        }
    }

    /// There is room for `packet`, and the clock can hold what is computed.
    pub open spec fn takes(self, packet: Option<P>) -> bool {
        &&& packet is Some ==> self.queue.bytes + packet->0.l3() <= usize::MAX
        &&& reachable(self.next_available, LARGE_DURATION)
        &&& self.has_turn(packet)
    }

    /// No packet would stay in the queue without a bucket to wait for.
    pub open spec fn has_turn(self, packet: Option<P>) -> bool {
        self.token is None && self.peak is None ==> self.queue.packets.len() == 0 || TokenModel {
            queue: self.queue.popped(),
            ..self
        }.queued(packet).queue.packets.len() == 0
    }
}

/// The sending side of the cell. `timing(bytes, rate)` is the time that a number of bytes
/// takes at a number of bits per second.
pub struct TokenBucketCellEgress<P, T> {
    token_bucket: Option<TokenBucket>,
    peak_token_bucket: Option<TokenBucket>,
    next_available: Instant,
    max_size: u64,
    packet_queue: DropTailQueue<P>,
    state: CellState,
    logical_clock: Instant,
    timing: T,
}

/// What is in the bucket, where there is one.
pub open spec fn bucket_view(b: Option<TokenBucket>) -> Option<BucketModel> {
    match b {
        Some(b) => Some(b@),
        None => None,
    }
}

impl<P: Packet, T: Fn(u64, u128) -> Duration> TokenBucketCellEgress<P, T> {
    pub closed spec fn model(self) -> TokenModel<P> {
        TokenModel {
            token: bucket_view(self.token_bucket),
            peak: bucket_view(self.peak_token_bucket),
            next_available: self.next_available,
            max_size: self.max_size,
            queue: self.packet_queue@,
            state: self.state,
            logical_clock: self.logical_clock,
        }
    }

    pub closed spec fn timing(self) -> T {
        self.timing
    }

    /// The cell can be worked with.
    pub open spec fn wf(self) -> bool {
        self.model().valid() && is_timing(self.timing())
    }

    /// A cell with an empty queue, at `now`. It drops what comes until its state is changed.
    pub fn new(config: TokenBucketCellConfig, now: Instant, timing: T) -> (e: Self)
        requires
            is_timing(timing),
            on_clock(now),
            on_clock((now - LARGE_DURATION) as i128),
        ensures
            e.wf(),
            e.timing() == timing,
            e.model().queue_fits(),
            forall|g: Timing|
                #![trigger computes(timing, g)]
                computes(timing, g) ==> e.model() == TokenModel::<P>::fresh(config, now, g),
    {
        let mut egress = TokenBucketCellEgress {
            token_bucket: None,
            peak_token_bucket: None,
            next_available: after(now, LARGE_DURATION),
            max_size: 0,
            packet_queue: DropTailQueue::default(),
            state: CellState::Drop,
            logical_clock: now,
            timing,
        };
        egress.set_config(config, now);
        egress
    }

    /// A full bucket, where the configuration has one.
    fn shape(&self, burst: Option<u64>, rate: Option<u128>, timestamp: Instant) -> (b: Option<
        TokenBucket,
    >)
        requires
            is_timing(self.timing()),
            on_clock((timestamp - LARGE_DURATION) as i128),
            on_clock(timestamp),
        ensures
            b is Some ==> b->0@.valid(),
            forall|g: Timing|
                #![trigger computes(self.timing(), g)]
                computes(self.timing(), g) ==> bucket_view(b) == shaped(g, burst, rate, timestamp),
            b is Some <==> burst is Some && rate is Some,
    {
        match (burst, rate) {
            (Some(burst), Some(rate)) => Some(
                TokenBucket::new(burst, rate, before(timestamp, LARGE_DURATION), &self.timing),
            ),
            _ => None,
        }
    }

    /// `config` comes into force at `timestamp`. The buckets are full. Packets in the queue
    /// that do not fit into both of them any more are dropped.
    pub fn set_config(&mut self, config: TokenBucketCellConfig, timestamp: Instant)
        requires
            old(self).wf(),
            on_clock(timestamp),
            on_clock((timestamp - LARGE_DURATION) as i128),
        ensures
            final(self).wf(),
            final(self).timing() == old(self).timing(),
            forall|g: Timing|
                #![trigger computes(old(self).timing(), g)]
                computes(old(self).timing(), g) ==> final(self).model()
                    == old(self).model().reconfigured(config, timestamp, g),
            final(self).model().max_size == max_size_of(config),
            old(self).model().queue_fits() ==> final(self).model().queue_fits(),
    {
        let ghost before = self.model();
        let mut new_max_size: u64 = u64::MAX;
        match (config.burst, config.rate) {
            (Some(burst), Some(_)) => {
                new_max_size = burst;
            },
            _ => {},
        }
        match (config.minburst, config.peakrate) {
            (Some(minburst), Some(_)) => if minburst < new_max_size {
                new_max_size = minburst;
            },
            _ => {},
        }
        self.token_bucket = self.shape(config.burst, config.rate, timestamp);
        assert(self.timing() == old(self).timing());
        self.peak_token_bucket = self.shape(config.minburst, config.peakrate, timestamp);

        let old_max_size: u64 = self.max_size;
        self.max_size = new_max_size;

        match config.limit {
            Some(limit) => {
                self.packet_queue.configure(
                    DropTailQueueConfig::new(None, Some(limit), BwType::NetworkLayer),
                );
            },
            None => {},
        }

        if self.max_size < old_max_size {
            let max_length: u64 = self.max_size.saturating_sub(
                self.packet_queue.get_extra_length() as u64,
            );
            let small_enough = |packet: &P| -> (keep: bool)
                ensures
                    keep == (packet.l3() <= max_length),
                { packet.l3_length() as u64 <= max_length };
            proof {
                let g = |p: P| p.l3() <= max_length;
                assert(tests_for(small_enough, g));
                lemma_filter_keeps::<P>(self.packet_queue@.packets, g);
                assert(g =~= (|p: P| p.l3() <= new_max_size));
            }
            let ghost limited = self.model();
            self.packet_queue.retain(small_enough);
            assert(self.packet_queue@ == limited.trimmed(new_max_size));
        }
        if self.packet_queue.is_empty() {
            self.next_available = after(timestamp, LARGE_DURATION);
        } else {
            self.next_available = timestamp;
        }
        proof {
            assert forall|g: Timing|
                #![trigger computes(old(self).timing(), g)]
                computes(old(self).timing(), g) implies self.model() == before.reconfigured(
                config,
                timestamp,
                g,
            ) by {
                let want = before.reconfigured(config, timestamp, g);
                assert(self.model().token == want.token);
                assert(self.model().peak == want.peak);
                assert(self.model().max_size == want.max_size);
                assert(self.model().queue =~= want.queue);
                assert(self.model().next_available == want.next_available);
            }
        }
    }

    /// When there will be tokens for `size` bytes in both buckets; `None` only if there is no
    /// bucket.
    fn next_token_ready(&self, size: u64) -> (t: Option<Instant>)
        requires
            self.wf(),
        ensures
            forall|g: Timing|
                #![trigger computes(self.timing(), g)]
                computes(self.timing(), g) ==> match self.model().ready_at(size as int, g) {
                    Some(r) => t is Some && t->0 == r,
                    None => t is None,
                },
            t is Some <==> self.model().token is Some || self.model().peak is Some,
    {
        match (&self.token_bucket, &self.peak_token_bucket) {
            (Some(a), Some(b)) => {
                let x: Instant = a.next_available(size, &self.timing);
                let y: Instant = b.next_available(size, &self.timing);
                if x >= y {
                    Some(x)
                } else {
                    Some(y)
                }
            },
            (Some(a), None) => Some(a.next_available(size, &self.timing)),
            (None, Some(b)) => Some(b.next_available(size, &self.timing)),
            (None, None) => None,
        }
    }

    /// Waits until `current_size` bytes can be sent, or for long if there is nothing to send.
    fn update_available(&mut self, current_size: Option<usize>)
        requires
            old(self).wf(),
            current_size is Some ==> old(self).model().token is Some || old(self).model().peak is Some,
            reachable(old(self).model().next_available, LARGE_DURATION),
        ensures
            final(self).wf(),
            final(self).timing() == old(self).timing(),
            forall|g: Timing|
                #![trigger computes(old(self).timing(), g)]
                computes(old(self).timing(), g) ==> final(self).model()
                    == old(self).model().waiting_for(
                    match current_size {
                        Some(size) => Some(size as int),
                        None => None,
                    },
                    g,
                ),
            final(self).model() == (TokenModel {
                next_available: final(self).model().next_available,
                ..old(self).model()
            }),
    {
        match current_size {
            Some(size) => {
                match self.next_token_ready(size as u64) {
                    Some(t) => {
                        self.next_available = t;
                    },
                    None => {},
                }
            },
            None => {
                self.next_available = after(self.next_available, LARGE_DURATION);
            },
        }
    }

    /// Looks at the queue and at `new_packet`, which has just come, if there is one: the
    /// first of them leaves if there are tokens for it.
    fn handle_packet(&mut self, new_packet: Option<P>) -> (out: Option<P>)
        requires
            old(self).wf(),
            old(self).model().takes(new_packet),
        ensures
            final(self).wf(),
            final(self).timing() == old(self).timing(),
            forall|g: Timing|
                #![trigger computes(old(self).timing(), g)]
                computes(old(self).timing(), g) ==> (final(self).model(), out)
                    == old(self).model().handled(new_packet, g),
            old(self).model().queue_fits() && (new_packet is Some ==> new_packet->0.l3()
                <= old(self).model().max_size) ==> final(self).model().queue_fits(),
    {
        let ghost before = self.model();
        proof {
            if before.queue.packets.len() > 0 {
                lemma_total_size_nonnegative(
                    before.queue.packets.drop_first(),
                    before.queue.extra(),
                );
            }
        }
        let front_size: Option<usize> = self.packet_queue.get_front_size();
        let size: Option<usize> = match (front_size, &new_packet) {
            (Some(size), _) => Some(size),
            (None, Some(packet)) => Some(self.packet_queue.get_packet_size(packet)),
            (None, None) => None,
        };
        let current_size: usize = match size {
            Some(size) => size,
            None => {
                self.update_available(None);
                return None;
            },
        };
        let token: Option<Option<Token>> = match &self.token_bucket {
            Some(b) => Some(b.reserve(current_size as u64, &self.timing)),
            None => None,
        };
        let peak_token: Option<Option<Token>> = match &self.peak_token_bucket {
            Some(b) => Some(b.reserve(current_size as u64, &self.timing)),
            None => None,
        };
        if matches!(token, Some(None)) || matches!(peak_token, Some(None)) {
            match new_packet {
                Some(packet) => {
                    self.packet_queue.enqueue(packet);
                },
                None => {},
            }
            self.update_available(Some(current_size));
            return None;
        }
        match (&mut self.token_bucket, token) {
            (Some(b), Some(Some(token))) => {
                b.consume(token);
            },
            _ => {},
        }
        match (&mut self.peak_token_bucket, peak_token) {
            (Some(b), Some(Some(token))) => {
                b.consume(token);
            },
            _ => {},
        }
        let ghost paid = self.model();
        let now: Instant = self.logical_clock;
        let mut packet = match self.packet_queue.dequeue_at(now) {
            Some(head) => {
                match new_packet {
                    Some(packet) => {
                        self.packet_queue.enqueue(packet);
                    },
                    None => {},
                }
                head
            },
            None => new_packet.unwrap(),
        };
        packet.delay_until(now);
        proof {
            if self.packet_queue@.packets.len() > 0 {
                lemma_total_size_nonnegative(
                    self.packet_queue@.packets.drop_first(),
                    self.packet_queue@.extra(),
                );
            }
        }
        let next_size: Option<usize> = self.packet_queue.get_front_size();
        self.update_available(next_size);
        Some(packet)
    }

    /// Moves the clock to `timestamp` and adds the tokens that are generated by then.
    fn update_timestamp(&mut self, timestamp: Instant)
        requires
            old(self).wf(),
            on_clock(timestamp),
        ensures
            final(self).wf(),
            final(self).timing() == old(self).timing(),
            final(self).model() == old(self).model().at(timestamp),
    {
        self.logical_clock = timestamp;
        match &mut self.token_bucket {
            Some(b) => {
                b.update(timestamp);
            },
            None => {},
        }
        match &mut self.peak_token_bucket {
            Some(b) => {
                b.update(timestamp);
            },
            None => {},
        }
    }

    /// A packet has come, or none will come any more.
    pub fn on_packet(&mut self, packet: Option<P>) -> (action: TokenAction<P>)
        requires
            old(self).wf(),
            packet is Some ==> on_clock(packet->0.timestamp()),
            packet is Some && old(self).model().state == CellState::Normal && size_of(
                packet->0,
                old(self).model().queue.extra(),
            ) <= old(self).model().max_size ==> old(self).model().takes(packet),
        ensures
            final(self).wf(),
            final(self).timing() == old(self).timing(),
            forall|g: Timing|
                #![trigger computes(old(self).timing(), g)]
                computes(old(self).timing(), g) ==> (final(self).model(), action)
                    == old(self).model().on_packet(packet, g),
            old(self).model().queue_fits() ==> final(self).model().queue_fits(),
    {
        let packet = match packet {
            Some(packet) => packet,
            None => {
                return TokenAction::Return(None);
            },
        };
        self.update_timestamp(packet.get_timestamp());
        assert(self.timing() == old(self).timing());
        match admit_packet(self.state, packet) {
            Admission::Drop => TokenAction::Return(None),
            Admission::PassThrough(packet) => TokenAction::Return(Some(packet)),
            Admission::Normal(packet) => {
                let packet_size: usize = self.packet_queue.get_packet_size(&packet);
                if packet_size as u64 > self.max_size {
                    return TokenAction::Wait;
                }
                match self.handle_packet(Some(packet)) {
                    Some(packet) => TokenAction::Return(Some(packet)),
                    None => TokenAction::Wait,
                }
            },
        }
    }

    /// The time at which the cell wanted to be woken up has come.
    pub fn on_timer(&mut self, logical_now: Instant) -> (action: TokenAction<P>)
        requires
            old(self).wf(),
            on_clock(logical_now),
            old(self).model().takes(None),
        ensures
            final(self).wf(),
            final(self).timing() == old(self).timing(),
            forall|g: Timing|
                #![trigger computes(old(self).timing(), g)]
                computes(old(self).timing(), g) ==> {
                    (final(self).model(), action) == old(self).model().on_event(
                        TokenEvent::Timer(logical_now),
                        g,
                    )
                },
            old(self).model().queue_fits() ==> final(self).model().queue_fits(),
    {
        self.update_timestamp(logical_now);
        assert(self.timing() == old(self).timing());
        match self.handle_packet(None) {
            Some(packet) => TokenAction::Return(Some(packet)),
            None => TokenAction::Wait,
        }
    }

    /// Whether no packet would stay in the queue without a bucket to wait for, if `packet`
    /// comes next, or the timer.
    pub fn has_turn(&self, packet: &Option<P>) -> (b: bool)
        requires
            self.wf(),
        ensures
            b == self.model().has_turn(*packet),
    {
        if self.token_bucket.is_some() || self.peak_token_bucket.is_some() {
            return true;
        }
        let waiting: usize = self.packet_queue.length();
        if waiting != 1 {
            return waiting == 0;
        }
        match packet {
            Some(packet) => !self.packet_queue.admits_behind_front(packet),
            None => true,
        }
    }

    /// When the cell wants to be woken up.
    pub fn wake_time(&self) -> (t: Instant)
        ensures
            t == self.model().next_available,
    {
        self.next_available
    }

    pub fn reset(&mut self, start: Instant)
        requires
            old(self).wf(),
        ensures
            final(self).wf(),
            final(self).timing() == old(self).timing(),
            final(self).model() == (TokenModel { next_available: start, ..old(self).model() }),
    {
        self.next_available = start;
    }

    pub fn change_state(&mut self, state: CellState)
        requires
            old(self).wf(),
        ensures
            final(self).wf(),
            final(self).timing() == old(self).timing(),
            final(self).model() == (TokenModel { state, ..old(self).model() }),
    {
        self.state = state;
    }
}

/// What a test lets through passes the test.
pub proof fn lemma_filter_keeps<P>(s: Seq<P>, g: spec_fn(P) -> bool)
    ensures
        forall|i: int| 0 <= i < s.filter(g).len() ==> g(#[trigger] s.filter(g)[i]),
    decreases s.len(),
{
    reveal(Seq::filter);
    if s.len() > 0 {
        lemma_filter_keeps(s.drop_last(), g);
    }
}

/// A packet that is larger than the smaller one of the two buckets is dropped when it comes;
/// the queue stays as it is.
pub proof fn law_large_packet_is_dropped<P: Packet>(m: TokenModel<P>, packet: P, timing: Timing)
    requires
        m.valid(),
        m.state == CellState::Normal,
        packet.l3() > m.max_size,
    ensures
        m.on_packet(Some(packet), timing).1 == TokenAction::<P>::Wait,
        m.on_packet(Some(packet), timing).0.queue == m.queue,
{
}

/// What happens to a cell.
pub enum TokenEvent<P> {
    /// A packet comes.
    Packet(P),
    /// The timer rings at an instant.
    Timer(Instant),
}

impl<P: Packet> TokenModel<P> {
    /// What an event does.
    pub open spec fn on_event(self, event: TokenEvent<P>, timing: Timing) -> (Self, TokenAction<P>) {
        match event {
            TokenEvent::Packet(p) => self.on_packet(Some(p), timing),
            TokenEvent::Timer(t) => {
                let (next, out) = self.at(t).handled(None, timing);
                (next, Self::action(out))
            },
        }
    }

    /// What is left of the cell after events in turn, and the packets that it has returned.
    pub open spec fn run(self, events: Seq<TokenEvent<P>>, timing: Timing) -> (Self, Seq<P>)
        decreases events.len(),
    {
        if events.len() == 0 {
            (self, Seq::empty())
        } else {
            let (before, out) = self.run(events.drop_last(), timing);
            match before.on_event(events.last(), timing) {
                (after, TokenAction::Return(Some(p))) => (after, out.push(p)),
                (after, _) => (after, out),
            }
        }
    }
}

/// In normal operation no packet that is larger than the smaller one of the two buckets ever
/// comes out, whatever happens to the cell; and a packet that is too large does nothing but
/// move the clock: it takes no tokens, does not enter the queue and holds up no other.
pub proof fn law_no_large_packet_comes_out<P: Packet>(
    m: TokenModel<P>,
    events: Seq<TokenEvent<P>>,
    timing: Timing,
)
    requires
        m.state == CellState::Normal,
        m.queue.bw_type == BwType::NetworkLayer,
        m.queue_fits(),
    ensures
        m.run(events, timing).0.state == CellState::Normal,
        m.run(events, timing).0.queue.bw_type == BwType::NetworkLayer,
        m.run(events, timing).0.queue_fits(),
        m.run(events, timing).0.max_size == m.max_size,
        forall|k: int|
            0 <= k < m.run(events, timing).1.len() ==> (#[trigger] m.run(events, timing).1[k]).l3()
                <= m.max_size,
        forall|p: P|
            p.l3() > m.max_size ==> (#[trigger] m.run(events, timing).0.on_event(
                TokenEvent::Packet(p),
                timing,
            )) == (m.run(events, timing).0.at(p.timestamp()), TokenAction::<P>::Wait),
    decreases events.len(),
{
    if events.len() > 0 {
        law_no_large_packet_comes_out(m, events.drop_last(), timing);
        let before = m.run(events.drop_last(), timing).0;
        match events.last() {
            TokenEvent::Packet(p) => {
                if p.l3() <= before.max_size {
                    lemma_handled_fits(before.at(p.timestamp()), Some(p), timing);
                }
            },
            TokenEvent::Timer(t) => {
                lemma_handled_fits(before.at(t), None, timing);
            },
        }
    }
}

/// What leaves was in the queue or has just come, so it fits if they do.
proof fn lemma_handled_fits<P: Packet>(m: TokenModel<P>, packet: Option<P>, timing: Timing)
    requires
        m.queue.bw_type == BwType::NetworkLayer,
        m.queue_fits(),
        packet is Some ==> packet->0.l3() <= m.max_size,
    ensures
        m.handled(packet, timing).0.queue_fits(),
        m.handled(packet, timing).0.queue.bw_type == m.queue.bw_type,
        m.handled(packet, timing).0.max_size == m.max_size,
        m.handled(packet, timing).0.state == m.state,
        m.handled(packet, timing).1 is Some ==> m.handled(packet, timing).1->0.l3() <= m.max_size,
{
    if packet is Some {
        packet->0.stamping_keeps_length(m.logical_clock);
    }
    if m.queue.packets.len() > 0 {
        m.queue.packets[0].stamping_keeps_length(m.logical_clock);
    }
}

/// A new configuration drops the queued packets that are larger than the smaller one of its
/// buckets, at once, and no others; those that stay keep their order.
pub proof fn law_new_config_drops_large_packets<P: Packet>(
    m: TokenModel<P>,
    config: TokenBucketCellConfig,
    timestamp: Instant,
    timing: Timing,
)
    requires
        m.valid(),
        m.queue_fits(),
    ensures
        m.reconfigured(config, timestamp, timing).queue_fits(),
        m.reconfigured(config, timestamp, timing).queue.packets == m.queue.packets.filter(
            |p: P| p.l3() <= max_size_of(config),
        ),
{
    let g = |p: P| p.l3() <= max_size_of(config);
    lemma_filter_keeps(m.queue.packets, g);
    if max_size_of(config) >= m.max_size {
        lemma_filter_of_all(m.queue.packets, g);
    }
}

/// Packets leave in the order in which they came, and only one that has just come can be lost
/// to the limit of the queue.
pub proof fn law_token_bucket_keeps_order<P: Packet>(
    m: TokenModel<P>,
    packet: Option<P>,
    timing: Timing,
)
    ensures
        ({
            let all = match packet {
                Some(p) => m.queue.packets.push(p),
                None => m.queue.packets,
            };
            let (next, out) = m.handled(packet, timing);
            let rest = if out is Some {
                all.drop_first()
            } else {
                all
            };
            &&& out is Some ==> all.len() > 0 && out->0 == all[0].stamped(m.logical_clock)
            &&& next.queue.packets == rest || (packet is Some && rest.len() > 0
                && next.queue.packets == rest.drop_last())
        }),
{
    let packets = m.queue.packets;
    if packet is Some {
        let all = packets.push(packet->0);
        assert(all.drop_last() =~= packets);
        if packets.len() > 0 {
            assert(all.drop_first() =~= packets.drop_first().push(packet->0));
            assert(all.drop_first().drop_last() =~= packets.drop_first());
        } else {
            assert(all.drop_first() =~= packets);
        }
    }
}

/// A test that everything passes lets everything through.
proof fn lemma_filter_of_all<P>(s: Seq<P>, g: spec_fn(P) -> bool)
    requires
        forall|i: int| 0 <= i < s.len() ==> g(#[trigger] s[i]),
    ensures
        s.filter(g) == s,
    decreases s.len(),
{
    reveal(Seq::filter);
    if s.len() > 0 {
        assert forall|i: int| 0 <= i < s.drop_last().len() implies g(
            #[trigger] s.drop_last()[i],
        ) by {
            assert(s.drop_last()[i] == s[i]);
        }
        lemma_filter_of_all(s.drop_last(), g);
        assert(s.drop_last().push(s.last()) =~= s);
    } else {
        assert(s.filter(g) =~= s);
    }
}

/// A packet leaves only if each of the buckets holds tokens for its length, and then takes
/// them out of both; otherwise no tokens are taken. Without a bucket nothing has to be paid.
pub proof fn law_both_buckets_are_paid<P: Packet>(
    m: TokenModel<P>,
    packet: Option<P>,
    timing: Timing,
)
    requires
        m.valid(),
        m.token is Some ==> m.token->0.token_rate > 0,
        m.peak is Some ==> m.peak->0.token_rate > 0,
        m.queue.packets.len() > 0 || packet is Some,
    ensures
        ({
            let first = if m.queue.packets.len() > 0 {
                m.queue.packets[0]
            } else {
                packet->0
            };
            let (next, out) = m.handled(packet, timing);
            let enough = |b: BucketModel|
                timing(first.l3() as u64, b.token_rate) <= b.fill_up_time - b.time_to_fillup;
            &&& out is Some <==> (m.token is Some ==> enough(m.token->0)) && (m.peak is Some
                ==> enough(m.peak->0))
            &&& out is Some ==> out->0 == first.stamped(m.logical_clock)
            &&& out is None ==> next.token == m.token && next.peak == m.peak
            &&& out is Some && m.token is Some ==> next.token is Some
                && next.token->0.time_to_fillup == m.token->0.time_to_fillup + timing(
                first.l3() as u64,
                m.token->0.token_rate,
            ) && next.token->0.fill_up_time == m.token->0.fill_up_time
            &&& out is Some && m.peak is Some ==> next.peak is Some
                && next.peak->0.time_to_fillup == m.peak->0.time_to_fillup + timing(
                first.l3() as u64,
                m.peak->0.token_rate,
            ) && next.peak->0.fill_up_time == m.peak->0.fill_up_time
            &&& (m.token is None) == (next.token is None) && (m.peak is None) == (next.peak
                is None)
        }),
{
}

/// A cell that cannot send its first packet asks to be woken up at the first instant at which
/// it can: from then on the timer lets the packet go, and at no instant before.
pub proof fn law_cell_is_woken_when_it_can_send<P: Packet>(
    m: TokenModel<P>,
    timing: Timing,
    t: Instant,
)
    requires
        m.valid(),
        m.queue.packets.len() > 0,
        m.token is Some || m.peak is Some,
        m.token is Some ==> m.token->0.last_updated == m.logical_clock && m.token->0.token_rate
            > 0 && timing(m.queue.packets[0].l3() as u64, m.token->0.token_rate)
            <= m.token->0.fill_up_time,
        m.peak is Some ==> m.peak->0.last_updated == m.logical_clock && m.peak->0.token_rate > 0
            && timing(m.queue.packets[0].l3() as u64, m.peak->0.token_rate)
            <= m.peak->0.fill_up_time,
        m.handled(None, timing).1 is None,
        m.logical_clock <= t,
    ensures
        ({
            let waiting = m.handled(None, timing).0;
            &&& waiting.next_available > m.logical_clock
            &&& waiting.on_event(TokenEvent::Timer(t), timing).1 is Return <==> t
                >= waiting.next_available
        }),
{
}

/// Nothing that fits is lost: without a limit no packet is, and a packet that the limit of the
/// queue has room for stays in it until it leaves.
pub proof fn law_token_bucket_keeps_what_fits<P: Packet>(
    m: TokenModel<P>,
    packet: P,
    timing: Timing,
)
    requires
        m.valid(),
        m.queue.byte_limit is Some ==> m.queue.bytes + packet.l3() <= m.queue.byte_limit->0,
    ensures
        ({
            let all = m.queue.packets.push(packet);
            let (next, out) = m.handled(Some(packet), timing);
            next.queue.packets == if out is Some {
                all.skip(1)
            } else {
                all
            }
        }),
{
    let all = m.queue.packets.push(packet);
    if m.queue.packets.len() > 0 {
        lemma_total_size_nonnegative(m.queue.packets.drop_first(), m.queue.extra());
        assert(all.skip(1) =~= m.queue.packets.drop_first().push(packet));
    } else {
        assert(all.skip(1) =~= m.queue.packets);
    }
}

/// The buckets of a configuration hold its bursts, filled at its rates; a packet may be no
/// larger than either burst. Where one of a pair is missing there is no bucket.
pub proof fn law_buckets_have_their_shape<P: Packet>(
    m: TokenModel<P>,
    config: TokenBucketCellConfig,
    now: Instant,
    timing: Timing,
)
    requires
        on_clock(now),
        on_clock((now - LARGE_DURATION) as i128),
    ensures
        ({
            let made = TokenModel::<P>::fresh(config, now, timing);
            let set = m.reconfigured(config, now, timing);
            &&& made.token == set.token && made.peak == set.peak && made.max_size == set.max_size
            &&& made.token is Some <==> config.rate is Some && config.burst is Some
            &&& made.peak is Some <==> config.peakrate is Some && config.minburst is Some
            &&& made.token is Some && config.rate->0 > 0 ==> made.token->0.fill_up_time == timing(
                config.burst->0,
                config.rate->0,
            ) && made.token->0.token_rate == config.rate->0 && made.token->0.time_to_fillup == 0
            &&& made.peak is Some && config.peakrate->0 > 0 ==> made.peak->0.fill_up_time
                == timing(config.minburst->0, config.peakrate->0) && made.peak->0.token_rate
                == config.peakrate->0 && made.peak->0.time_to_fillup == 0
            &&& made.token is Some ==> made.max_size <= config.burst->0
            &&& made.peak is Some ==> made.max_size <= config.minburst->0
            &&& made.token is Some && made.max_size == config.burst->0 || made.peak is Some
                && made.max_size == config.minburst->0 || made.max_size == u64::MAX
            &&& made.queue.packets.len() == 0 && made.queue.byte_limit == config.limit
            &&& set.queue.byte_limit == if config.limit is Some {
                config.limit
            } else {
                m.queue.byte_limit
            }
            &&& set.queue.packets.len() > 0 ==> set.next_available == now
        }),
{
}

/// A configuration is taken exactly if each bucket is given with both its rate and its size
/// or not at all, and none of the numbers is zero.
pub proof fn law_configuration_is_complete(config: TokenBucketCellConfig)
    ensures
        config.fault() is None <==> {
            &&& config.rate is Some <==> config.burst is Some
            &&& config.peakrate is Some <==> config.minburst is Some
            &&& config.rate is Some ==> config.rate->0 > 0 && config.burst->0 > 0
            &&& config.peakrate is Some ==> config.peakrate->0 > 0 && config.minburst->0 > 0
        },
{
}

/// Before it is started a cell drops what comes, and while it passes through it hands on what
/// comes as it is; either way no tokens are taken and what waits is not touched.
pub proof fn law_token_bucket_passes_through<P: Packet>(
    m: TokenModel<P>,
    packet: P,
    timing: Timing,
)
    ensures
        m.state == CellState::Drop ==> m.on_packet(Some(packet), timing).1
            == TokenAction::<P>::Return(None),
        m.state == CellState::PassThrough ==> m.on_packet(Some(packet), timing).1
            == TokenAction::Return(Some(packet)),
        m.state != CellState::Normal ==> m.on_packet(Some(packet), timing).0.queue == m.queue,
        m.state == CellState::Normal && size_of(packet, m.queue.extra()) <= m.max_size ==> {
            let (next, out) = m.at(packet.timestamp()).handled(Some(packet), timing);
            &&& m.on_packet(Some(packet), timing).0 == next
            &&& out is Some ==> m.on_packet(Some(packet), timing).1 == TokenAction::Return(out)
            &&& out is None ==> m.on_packet(Some(packet), timing).1 == TokenAction::<P>::Wait
        },
{
}

/// Another configuration takes effect at once: what waits is looked at right away, and where
/// nothing waits the cell sleeps. The limit on the queue is the one that is given, or the one
/// before it where none is.
pub proof fn law_new_config_takes_effect_at_once<P: Packet>(
    m: TokenModel<P>,
    config: TokenBucketCellConfig,
    timestamp: Instant,
    timing: Timing,
)
    requires
        reachable(timestamp, LARGE_DURATION),
    ensures
        ({
            let after = m.reconfigured(config, timestamp, timing);
            &&& after.queue.packets.len() > 0 ==> after.next_available == timestamp
            &&& after.queue.packets.len() == 0 ==> after.next_available == timestamp
                + LARGE_DURATION
            &&& config.limit is Some ==> after.queue.byte_limit == config.limit
            &&& config.limit is None ==> after.queue.byte_limit == m.queue.byte_limit
            &&& after.queue.packet_limit == m.queue.packet_limit
            &&& after.state == m.state
        }),
{
}

} // verus!
