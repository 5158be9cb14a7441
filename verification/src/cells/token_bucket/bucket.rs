//! A token bucket driven by the logical clock. Tokens are counted in the time that it takes
//! to generate them.
use crate::law::{computes, is_timing};
use crate::time::{
    after, duration_since, elapsed, on_clock, Duration, Instant, LARGE_DURATION, MAX_DURATION,
};
use vstd::prelude::*;

verus! {

/// The time that a number of bytes takes at a number of bits per second.
pub type Timing = spec_fn(u64, u128) -> Duration;

/// The time in which tokens for `length` bytes are generated at `rate` bits per second;
/// without a rate there is no end to it.
pub open spec fn generation_time(timing: Timing, length: u64, rate: u128) -> Duration {
    if rate == 0 {
        LARGE_DURATION
    } else {
        timing(length, rate)
    }
}

/// The time in which tokens for `length` bytes are generated at `rate` bits per second.
pub fn length_to_time<T: Fn(u64, u128) -> Duration>(timing: &T, length: u64, rate: u128) -> (d:
    Duration)
    requires
        is_timing(*timing),
    ensures
        d <= MAX_DURATION,
        forall|g: Timing|
            #![trigger computes(*timing, g)]
            computes(*timing, g) ==> d == generation_time(g, length, rate),
{
    if rate == 0 {
        LARGE_DURATION
    } else {
        timing(length, rate)
    }
}

/// What a bucket holds.
pub struct BucketModel {
    /// The time in which the empty bucket fills up.
    pub fill_up_time: Duration,
    /// In bits per second.
    pub token_rate: u128,
    /// The time in which the bucket, as it was at `last_updated`, fills up.
    pub time_to_fillup: Duration,
    pub last_updated: Instant,
}

impl BucketModel {
    pub open spec fn valid(self) -> bool {
        &&& self.time_to_fillup <= self.fill_up_time <= MAX_DURATION
        &&& on_clock(self.last_updated)
    }

    /// The bucket holds tokens worth the time `d`.
    pub open spec fn holds(self, d: Duration) -> bool {
        self.time_to_fillup + d <= self.fill_up_time
    }

    /// When the bucket will hold tokens worth the time `d`: never, if it cannot hold so many.
    pub open spec fn ready_at(self, d: Duration) -> int {
        if d > self.fill_up_time {
            self.last_updated + LARGE_DURATION
        } else if self.holds(d) {
            self.last_updated as int
        } else {
            self.last_updated + (d + self.time_to_fillup - self.fill_up_time)
        }
    }

    /// Tokens for `size` bytes, if the bucket holds as many.
    pub open spec fn reserved(self, timing: Timing, size: u64) -> Option<Token> {
        let send_time = generation_time(timing, size, self.token_rate);
        if self.holds(send_time) {
            Some(Token { send_time })
        } else {
            None
        }
    }

    /// When there will be tokens for `size` bytes.
    pub open spec fn available_at(self, timing: Timing, size: u64) -> int {
        self.ready_at(generation_time(timing, size, self.token_rate))
    }

    /// Tokens worth the time `d` are taken out.
    pub open spec fn consumed(self, d: Duration) -> Self {
        BucketModel { time_to_fillup: (self.time_to_fillup + d) as u128, ..self }
    }

    /// The tokens that are generated by `timestamp` are added. The clock does not go back.
    pub open spec fn updated(self, timestamp: Instant) -> Self {
        let gained = elapsed(timestamp, self.last_updated);
        if timestamp <= self.last_updated {
            self
        } else {
            BucketModel {
                time_to_fillup: if self.time_to_fillup <= gained {
                    0
                } else {
                    (self.time_to_fillup - gained) as u128
                },
                last_updated: timestamp,
                ..self
            }
        }
    }

    /// A full bucket.
    pub open spec fn full(timing: Timing, burst_size: u64, token_rate: u128, timestamp: Instant) -> Self {
        BucketModel {
            fill_up_time: generation_time(timing, burst_size, token_rate),
            token_rate,
            time_to_fillup: 0,
            last_updated: timestamp,
        }
    }
}

/// A token bucket.
#[derive(Debug)]
pub struct TokenBucket {
    fill_up_time: Duration,
    token_rate: u128,
    time_to_fillup: Duration,
    last_updated: Instant,
}

/// Tokens that a bucket has been found to hold.
#[derive(Debug, Clone, Copy)]
pub struct Token {
    pub send_time: Duration,
}

impl View for TokenBucket {
    type V = BucketModel;

    closed spec fn view(&self) -> BucketModel {
        BucketModel {
            fill_up_time: self.fill_up_time,
            token_rate: self.token_rate,
            time_to_fillup: self.time_to_fillup,
            last_updated: self.last_updated,
        }
    }
}

impl TokenBucket {
    /// A full bucket for `burst_size` bytes, at `timestamp`.
    pub fn new<T: Fn(u64, u128) -> Duration>(
        burst_size: u64,
        token_rate: u128,
        timestamp: Instant,
        timing: &T,
    ) -> (b: Self)
        requires
            is_timing(*timing),
            on_clock(timestamp),
        ensures
            b@.valid(),
            b@.token_rate == token_rate,
            b@.last_updated == timestamp,
            b@.time_to_fillup == 0,
            forall|g: Timing|
                #![trigger computes(*timing, g)]
                computes(*timing, g) ==> b@ == BucketModel::full(
                    g,
                    burst_size,
                    token_rate,
                    timestamp,
                ),
    {
        TokenBucket {
            fill_up_time: length_to_time(timing, burst_size, token_rate),
            token_rate,
            time_to_fillup: 0,
            last_updated: timestamp,
        }
    }

    /// When there will be tokens for `size` bytes.
    pub fn next_available<T: Fn(u64, u128) -> Duration>(&self, size: u64, timing: &T) -> (t: Instant)
        requires
            is_timing(*timing),
            self@.valid(),
        ensures
            forall|g: Timing|
                #![trigger computes(*timing, g)]
                computes(*timing, g) ==> t == self@.available_at(g, size),
            -MAX_DURATION <= t <= 3 * MAX_DURATION,
    {
        let send_time: Duration = length_to_time(timing, size, self.token_rate);
        if send_time > self.fill_up_time {
            return after(self.last_updated, LARGE_DURATION);
        }
        if send_time + self.time_to_fillup <= self.fill_up_time {
            return self.last_updated;
        }
        after(self.last_updated, send_time + self.time_to_fillup - self.fill_up_time)
    }

    /// Adds the tokens that are generated by `timestamp`.
    pub fn update(&mut self, timestamp: Instant)
        requires
            old(self)@.valid(),
            on_clock(timestamp),
        ensures
            final(self)@.valid(),
            final(self)@ == old(self)@.updated(timestamp),
    {
        let duration: Duration = duration_since(timestamp, self.last_updated);
        if duration == 0 {
            return;
        }
        self.time_to_fillup = self.time_to_fillup.saturating_sub(duration);
        self.last_updated = timestamp;
    }

    /// Tokens for `size` bytes, if the bucket holds as many. They stay in it until they are
    /// consumed.
    pub fn reserve<T: Fn(u64, u128) -> Duration>(&self, size: u64, timing: &T) -> (token: Option<
        Token,
    >)
        requires
            is_timing(*timing),
            self@.valid(),
        ensures
            token is Some ==> self@.holds(token->0.send_time),
            forall|g: Timing|
                #![trigger computes(*timing, g)]
                computes(*timing, g) ==> token == self@.reserved(g, size),
    {
        let send_time: Duration = length_to_time(timing, size, self.token_rate);
        if self.time_to_fillup + send_time <= self.fill_up_time {
            Some(Token { send_time })
        } else {
            None
        }
    }

    /// Takes out tokens that the bucket holds.
    pub fn consume(&mut self, token: Token)
        requires
            old(self)@.valid(),
            old(self)@.holds(token.send_time),
        ensures
            final(self)@.valid(),
            final(self)@ == old(self)@.consumed(token.send_time),
    {
        self.time_to_fillup = self.time_to_fillup + token.send_time;
    }

    /// Gives the bucket another size and rate at `timestamp`. The tokens, counted in bytes,
    /// stay in it as far as the new size allows.
    ///
    /// `rescale(d, (before, after))` is `d` times `before` divided by `after`.
    pub fn change_config<T: Fn(u64, u128) -> Duration, S: Fn(Duration, (u128, u128)) -> Duration>(
        &mut self,
        burst_size: u64,
        token_rate: u128,
        timestamp: Instant,
        timing: &T,
        rescale: &S,
    )
        requires
            old(self)@.valid(),
            on_clock(timestamp),
            is_timing(*timing),
            is_timing(*rescale),
        ensures
            final(self)@.valid(),
            forall|g: Timing, h: spec_fn(Duration, (u128, u128)) -> Duration|
                #![trigger computes(*timing, g), computes(*rescale, h)]
                computes(*timing, g) && computes(*rescale, h) ==> final(self)@
                    == old(self)@.reconfigured(g, h, burst_size, token_rate, timestamp),
    {
        self.update(timestamp);
        let tokens: Duration = rescale(
            self.fill_up_time - self.time_to_fillup,
            (self.token_rate, token_rate),
        );
        self.fill_up_time = length_to_time(timing, burst_size, token_rate);
        self.time_to_fillup = self.fill_up_time.saturating_sub(tokens);
        self.token_rate = token_rate;
    }
}

impl BucketModel {
    /// The bucket with another size and rate, which keeps its tokens.
    pub open spec fn reconfigured(
        self,
        timing: Timing,
        rescale: spec_fn(Duration, (u128, u128)) -> Duration,
        burst_size: u64,
        token_rate: u128,
        timestamp: Instant,
    ) -> Self {
        let now = self.updated(timestamp);
        let fill_up_time = generation_time(timing, burst_size, token_rate);
        let tokens = rescale(
            (now.fill_up_time - now.time_to_fillup) as u128,
            (self.token_rate, token_rate),
        );
        BucketModel {
            fill_up_time,
            token_rate,
            time_to_fillup: if fill_up_time <= tokens {
                0
            } else {
                (fill_up_time - tokens) as u128
            },
            last_updated: now.last_updated,
        }
    }
}

/// `ready_at` is the first instant at which the bucket holds what is asked for, if it ever
/// can hold so much.
pub proof fn law_ready_at_is_the_first_instant(b: BucketModel, d: Duration, t: Instant)
    requires
        b.valid(),
        d <= b.fill_up_time,
        b.last_updated <= t,
    ensures
        b.updated(t).holds(d) <==> b.ready_at(d) <= t,
{
}

/// Tokens can be reserved exactly if they are available at the instant of the last update.
/// Consuming them raises the time to fill up by the time that they are worth, and no further
/// than an empty bucket.
pub proof fn law_reserved_is_available(b: BucketModel, timing: Timing, size: u64)
    requires
        b.valid(),
    ensures
        b.reserved(timing, size) is Some <==> b.available_at(timing, size) == b.last_updated,
        b.reserved(timing, size) is Some ==> {
            let send_time = b.reserved(timing, size)->0.send_time;
            &&& b.consumed(send_time).time_to_fillup == b.time_to_fillup + send_time
            &&& b.consumed(send_time).time_to_fillup <= b.fill_up_time
            &&& b.consumed(send_time) == (BucketModel {
                time_to_fillup: b.consumed(send_time).time_to_fillup,
                ..b
            })
        },
{
}

/// For what a full bucket holds, `available_at` is the earliest possible instant: it is not
/// before the last update, tokens can be reserved from then on, and at no instant before it.
/// A full bucket never holds more, however long it is waited for.
pub proof fn law_available_is_the_earliest_instant(
    b: BucketModel,
    timing: Timing,
    size: u64,
    t: Instant,
)
    requires
        b.valid(),
        b.last_updated <= t,
    ensures
        b.available_at(timing, size) >= b.last_updated,
        generation_time(timing, size, b.token_rate) <= b.fill_up_time ==> (b.updated(t).reserved(
            timing,
            size,
        ) is Some <==> b.available_at(timing, size) <= t),
        generation_time(timing, size, b.token_rate) > b.fill_up_time ==> b.updated(t).reserved(
            timing,
            size,
        ) is None,
{
    if generation_time(timing, size, b.token_rate) <= b.fill_up_time {
        law_ready_at_is_the_first_instant(b, generation_time(timing, size, b.token_rate), t);
    }
}

/// A bucket that was not touched for as long as it takes to fill up is full.
pub proof fn law_untouched_bucket_fills_up(b: BucketModel, t: Instant)
    requires
        b.valid(),
        b.last_updated + b.time_to_fillup <= t,
    ensures
        b.updated(t).time_to_fillup == 0,
{
}

/// Looking at the bucket on the way does not change what it holds in the end.
pub proof fn law_updates_add_up(b: BucketModel, t1: Instant, t2: Instant)
    requires
        b.valid(),
        b.last_updated <= t1 <= t2,
    ensures
        b.updated(t1).updated(t2) == b.updated(t2),
{
}

/// Over any time the bucket gives out no more than a full bucket and what is generated
/// meanwhile: what is taken out at `t` leaves it no fuller than that.
pub proof fn law_consumption_is_limited(b: BucketModel, t: Instant, d: Duration)
    requires
        b.valid(),
        b.last_updated <= t,
        b.updated(t).holds(d),
    ensures
        d <= b.fill_up_time,
        d <= (b.fill_up_time - b.time_to_fillup) + (t - b.last_updated),
        b.updated(t).consumed(d).time_to_fillup <= b.fill_up_time,
{
}

/// The tokens in a bucket, counted in the time that they took, are what is lacking to fill it
/// up. Time adds as much as has passed, up to a full bucket; consuming takes out what is
/// consumed; and a bucket holds what is no more than its tokens. A new bucket is full, with
/// what is generated for its size.
pub proof fn law_tokens_are_counted_in_time(
    b: BucketModel,
    timing: Timing,
    size: u64,
    rate: u128,
    d: Duration,
    t: Instant,
)
    requires
        b.valid(),
        b.last_updated <= t,
    ensures
        ({
            let tokens = b.fill_up_time - b.time_to_fillup;
            let later = b.updated(t);
            &&& later.fill_up_time - later.time_to_fillup == if tokens + (t - b.last_updated)
                <= b.fill_up_time {
                tokens + (t - b.last_updated)
            } else {
                b.fill_up_time as int
            }
            &&& later.last_updated == t && later.fill_up_time == b.fill_up_time
                && later.token_rate == b.token_rate
            &&& b.holds(d) <==> d <= tokens
            &&& b.holds(d) ==> b.consumed(d).fill_up_time - b.consumed(d).time_to_fillup == tokens
                - d && b.consumed(d).last_updated == b.last_updated
        }),
        rate > 0 ==> BucketModel::full(timing, size, rate, t).fill_up_time == timing(size, rate),
        BucketModel::full(timing, size, rate, t).time_to_fillup == 0,
        BucketModel::full(timing, size, rate, t).last_updated == t,
        BucketModel::full(timing, size, rate, t).token_rate == rate,
{
}

/// Tokens are reserved for a size by the time that it takes at the rate of the bucket, exactly
/// if the bucket holds as many.
pub proof fn law_reserved_is_what_the_size_takes(b: BucketModel, timing: Timing, size: u64)
    requires
        b.valid(),
        b.token_rate > 0,
    ensures
        b.reserved(timing, size) is Some <==> timing(size, b.token_rate) <= b.fill_up_time
            - b.time_to_fillup,
        b.reserved(timing, size) is Some ==> b.reserved(timing, size)->0.send_time == timing(
            size,
            b.token_rate,
        ),
{
}

/// What is taken out of a bucket, each time at an instant.
pub open spec fn withdrawn(b: BucketModel, takes: Seq<(Instant, Duration)>) -> BucketModel
    decreases takes.len(),
{
    if takes.len() == 0 {
        b
    } else {
        let (t, d) = takes.last();
        withdrawn(b, takes.drop_last()).updated(t).consumed(d)
    }
}

/// The bucket holds what is taken out each time, and the clock does not go back.
pub open spec fn affordable(b: BucketModel, takes: Seq<(Instant, Duration)>) -> bool
    decreases takes.len(),
{
    takes.len() == 0 || {
        let (t, d) = takes.last();
        let before = withdrawn(b, takes.drop_last());
        &&& affordable(b, takes.drop_last())
        &&& before.last_updated <= t
        &&& on_clock(t)
        &&& before.updated(t).holds(d)
    }
}

/// The tokens that are taken out, added up.
pub open spec fn taken_out(takes: Seq<(Instant, Duration)>) -> int
    decreases takes.len(),
{
    if takes.len() == 0 {
        0
    } else {
        taken_out(takes.drop_last()) + takes.last().1
    }
}

/// A bucket limits the rate: however often tokens are taken out of it, over any time no more
/// of them are than it held at first and are generated meanwhile.
pub proof fn law_bucket_limits_the_rate(b: BucketModel, takes: Seq<(Instant, Duration)>)
    requires
        b.valid(),
        affordable(b, takes),
    ensures
        withdrawn(b, takes).valid(),
        withdrawn(b, takes).fill_up_time == b.fill_up_time,
        takes.len() > 0 ==> withdrawn(b, takes).last_updated == takes.last().0,
        taken_out(takes) <= (b.fill_up_time - b.time_to_fillup) + (withdrawn(b, takes).last_updated
            - b.last_updated),
        taken_out(takes) + (withdrawn(b, takes).fill_up_time - withdrawn(b, takes).time_to_fillup)
            <= (b.fill_up_time - b.time_to_fillup) + (withdrawn(b, takes).last_updated
            - b.last_updated),
    decreases takes.len(),
{
    if takes.len() > 0 {
        law_bucket_limits_the_rate(b, takes.drop_last());
    }
}

/// A bucket that is given another size and rate keeps its tokens, as far as the new size
/// allows: what it held at that instant, rescaled from the old rate to the new one.
pub proof fn law_bucket_keeps_its_tokens(
    b: BucketModel,
    timing: Timing,
    rescale: spec_fn(Duration, (u128, u128)) -> Duration,
    burst_size: u64,
    token_rate: u128,
    t: Instant,
)
    requires
        b.valid(),
        b.last_updated <= t,
        token_rate > 0,
    ensures
        ({
            let now = b.updated(t);
            let kept = rescale(
                (now.fill_up_time - now.time_to_fillup) as u128,
                (b.token_rate, token_rate),
            );
            let after = b.reconfigured(timing, rescale, burst_size, token_rate, t);
            &&& after.fill_up_time == timing(burst_size, token_rate)
            &&& after.token_rate == token_rate
            &&& after.last_updated == t
            &&& kept <= after.fill_up_time ==> after.fill_up_time - after.time_to_fillup == kept
            &&& kept > after.fill_up_time ==> after.time_to_fillup == 0
        }),
{
}

} // verus!
