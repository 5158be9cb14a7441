//! Packets that wait for different times, and so may overtake one another.
use crate::packet::Packet;
use crate::time::{after, reachable, Duration, Instant, LARGE_DURATION};
use std::collections::VecDeque;
use vstd::prelude::*;

pub mod delay;

verus! {

/// The instants do not decrease.
pub open spec fn in_order<P>(s: Seq<(Instant, P)>) -> bool {
    forall|i: int, j: int| 0 <= i < j < s.len() ==> (#[trigger] s[i]).0 <= (#[trigger] s[j]).0
}

/// `i` is the place for what is due at `instant`: behind what is due by then, and before what
/// is due later.
pub open spec fn is_place<P>(s: Seq<(Instant, P)>, instant: Instant, i: int) -> bool {
    &&& 0 <= i <= s.len()
    &&& forall|j: int| 0 <= j < i ==> (#[trigger] s[j]).0 <= instant
    &&& forall|j: int| i <= j < s.len() ==> instant < (#[trigger] s[j]).0
}

/// `after` is `before` with `packet` in the place for what is due at `instant`.
pub open spec fn placed<P>(
    before: Seq<(Instant, P)>,
    instant: Instant,
    packet: P,
    after: Seq<(Instant, P)>,
) -> bool {
    exists|i: int| #[trigger]
        is_place(before, instant, i) && after == before.insert(i, (instant, packet))
}

/// When a packet is due that was taken in with a delay.
pub open spec fn due<P: Packet>(job: (P, Duration)) -> Instant {
    (job.0.timestamp() + job.1) as i128
}

/// What is left once the packet is out that is due first, and that packet, if there is one.
pub open spec fn dequeued<P>(s: Seq<(Instant, P)>) -> (Seq<(Instant, P)>, Option<(Instant, P)>) {
    if s.len() == 0 {
        (s, None)
    } else {
        (s.drop_first(), Some(s[0]))
    }
}

/// Packets by the instant at which each of them is due. What is due at the same instant
/// leaves in the order in which it came.
#[derive(Debug)]
pub struct DelayedQueue<P> {
    queue: VecDeque<(Instant, P)>,
}

impl<P> View for DelayedQueue<P> {
    type V = Seq<(Instant, P)>;

    closed spec fn view(&self) -> Seq<(Instant, P)> {
        self.queue@
    }
}

impl<P: Packet> DelayedQueue<P> {
    pub fn new() -> (q: Self)
        ensures
            q@ == Seq::<(Instant, P)>::empty(),
            in_order(q@),
    {
        DelayedQueue { queue: VecDeque::new() }
    }

    /// Takes in a packet that is due a delay after its timestamp.
    pub fn enqueue(&mut self, packet: P, delay: Duration)
        requires
            in_order(old(self)@),
            reachable(packet.timestamp(), delay),
        ensures
            in_order(final(self)@),
            placed(old(self)@, due((packet, delay)), packet, final(self)@),
    {
        let instant: Instant = after(packet.get_timestamp(), delay);
        let mut i: usize = self.queue.len();
        while i > 0 && self.queue[i - 1].0 > instant
            invariant
                i <= self.queue@.len(),
                self@ == self.queue@,
                forall|j: int| i <= j < self.queue@.len() ==> instant < (#[trigger] self.queue@[j]).0,
            decreases i,
        {
            i = i - 1;
        }
        proof {
            assert(is_place(self@, instant, i as int));
        }
        self.queue.insert(i, (instant, packet));
    }

    /// Takes out the packet that is due first, with the instant at which it is.
    pub fn dequeue(&mut self) -> (out: Option<(Instant, P)>)
        requires
            in_order(old(self)@),
        ensures
            in_order(final(self)@),
            (final(self)@, out) == dequeued(old(self)@),
    {
        self.queue.pop_front()
    }

    /// When the next packet is due; far in the future, if there is none.
    pub fn next_instant(&self, now: Instant) -> (t: Instant)
        requires
            reachable(now, LARGE_DURATION),
        ensures
            t == if self@.len() > 0 {
                self@[0].0 as int
            } else {
                now + LARGE_DURATION
            },
    {
        if self.queue.len() > 0 {
            self.queue[0].0
        } else {
            after(now, LARGE_DURATION)
        }
    }

    /// The packet that is due next.
    pub fn next_packet(&self) -> (p: Option<&P>)
        ensures
            p == if self@.len() > 0 {
                Some(&self@[0].1)
            } else {
                None
            },
    {
        if self.queue.len() > 0 {
            Some(&self.queue[0].1)
        } else {
            None
        }
    }

    /// How many packets are waiting.
    pub fn len(&self) -> (n: usize)
        ensures
            n == self@.len(),
    {
        self.queue.len()
    }
}

impl<P: Packet> Default for DelayedQueue<P> {
    fn default() -> (q: Self)
        ensures
            q@ == Seq::<(Instant, P)>::empty(),
    {
        DelayedQueue::new()
    }
}

/// There is one place for what is due at an instant, so what is taken in and taken out in the
/// end depends on nothing else.
pub proof fn law_place_is_unique<P>(s: Seq<(Instant, P)>, instant: Instant, i: int, j: int)
    requires
        is_place(s, instant, i),
        is_place(s, instant, j),
    ensures
        i == j,
{
    if i < j {
        assert(s[i].0 <= instant);
    }
    if j < i {
        assert(s[j].0 <= instant);
    }
}

/// Packets leave in the order in which they are due, and the first of them is due before all
/// that stay.
pub proof fn law_first_is_due_first<P>(s: Seq<(Instant, P)>, i: int)
    requires
        in_order(s),
        0 <= i < s.len(),
    ensures
        s[0].0 <= s[i].0,
        in_order(s.drop_first()),
{
}

/// No packet is lost or made up: what is in the queue afterwards is what was there before and
/// the packet.
pub proof fn law_placing_keeps_packets<P>(
    before: Seq<(Instant, P)>,
    instant: Instant,
    packet: P,
    after: Seq<(Instant, P)>,
)
    requires
        placed(before, instant, packet, after),
    ensures
        after.to_multiset() == before.to_multiset().insert((instant, packet)),
{
    let i = choose|i: int| #[trigger]
        is_place(before, instant, i) && after == before.insert(i, (instant, packet));
    before.to_multiset_ensures();
    after.to_multiset_ensures();
    assert(after.remove(i) =~= before);
    assert(after.to_multiset().remove((instant, packet)) == before.to_multiset());
    assert(after[i] == (instant, packet));
    assert(after.to_multiset() =~= before.to_multiset().insert((instant, packet)));
}

/// `queues` are what an empty queue becomes as `jobs` are taken in, one after the other.
pub open spec fn filled<P: Packet>(queues: Seq<Seq<(Instant, P)>>, jobs: Seq<(P, Duration)>) -> bool {
    &&& queues.len() == jobs.len() + 1
    &&& queues[0] == Seq::<(Instant, P)>::empty()
    &&& forall|i: int|
        0 <= i < jobs.len() ==> placed(
            #[trigger] queues[i],
            due(jobs[i]),
            jobs[i].0,
            queues[i + 1],
        )
}

/// What is left after asking for a packet `n` times, and what was returned each time.
pub open spec fn emptied<P>(s: Seq<(Instant, P)>, n: nat) -> (
    Seq<(Instant, P)>,
    Seq<Option<(Instant, P)>>,
)
    decreases n,
{
    if n == 0 {
        (s, Seq::empty())
    } else {
        let (before, outs) = emptied(s, (n - 1) as nat);
        let (after, out) = dequeued(before);
        (after, outs.push(out))
    }
}

/// `order` holds each of the first `n` numbers once.
pub open spec fn is_order(order: Seq<int>, n: nat) -> bool {
    &&& order.len() == n
    &&& forall|k: int| 0 <= k < n ==> 0 <= #[trigger] order[k] < n
    &&& forall|k: int, l: int|
        0 <= k < l < n ==> #[trigger] order[k] != #[trigger] order[l]
    &&& forall|j: int| 0 <= j < n ==> #[trigger] order.contains(j)
}

/// `order` puts `jobs` in the order in which they are due; of those that are due at the same
/// instant, the one that was taken in first comes first.
pub open spec fn is_stable_order<P: Packet>(order: Seq<int>, jobs: Seq<(P, Duration)>) -> bool {
    &&& is_order(order, jobs.len())
    &&& forall|k: int, l: int|
        0 <= k < l < jobs.len() ==> {
            let (a, b) = (#[trigger] order[k], #[trigger] order[l]);
            due(jobs[a]) < due(jobs[b]) || due(jobs[a]) == due(jobs[b]) && a < b
        }
}

/// `s` holds `jobs` in that order.
pub open spec fn holds_in_order<P: Packet>(
    s: Seq<(Instant, P)>,
    jobs: Seq<(P, Duration)>,
    order: Seq<int>,
) -> bool {
    &&& is_stable_order(order, jobs)
    &&& s.len() == jobs.len()
    &&& forall|k: int|
        0 <= k < s.len() ==> #[trigger] s[k] == (due(jobs[order[k]]), jobs[order[k]].0)
}

/// As many calls as there are packets return all of them, none twice, each with the instant at
/// which it is due, sorted by that instant; packets that are due at the same instant come in
/// the order in which they were taken in. Then the queue is empty.
pub proof fn law_delayed_queue_returns_all_in_order<P: Packet>(
    queues: Seq<Seq<(Instant, P)>>,
    jobs: Seq<(P, Duration)>,
)
    requires
        filled(queues, jobs),
    ensures
        emptied(queues.last(), jobs.len()).0.len() == 0,
        emptied(queues.last(), jobs.len()).1.len() == jobs.len(),
        exists|order: Seq<int>|
            {
                &&& #[trigger] is_stable_order(order, jobs)
                &&& forall|k: int|
                    0 <= k < jobs.len() ==> #[trigger] emptied(queues.last(), jobs.len()).1[k]
                        == Some((due(jobs[order[k]]), jobs[order[k]].0))
            },
{
    lemma_filled_in_order(queues, jobs, jobs.len());
    assert(jobs.take(jobs.len() as int) =~= jobs);
    let s = queues.last();
    let order = choose|order: Seq<int>| #[trigger] holds_in_order(s, jobs, order);
    lemma_emptied(s, jobs.len());
    assert forall|k: int| 0 <= k < jobs.len() implies #[trigger] emptied(s, jobs.len()).1[k]
        == Some((due(jobs[order[k]]), jobs[order[k]].0)) by {
        assert(s[k] == (due(jobs[order[k]]), jobs[order[k]].0));
    }
    assert(is_stable_order(order, jobs));
}

/// Calls return the packets from the front on.
proof fn lemma_emptied<P>(s: Seq<(Instant, P)>, n: nat)
    requires
        n <= s.len(),
    ensures
        emptied(s, n).0 == s.skip(n as int),
        emptied(s, n).1.len() == n,
        forall|k: int| 0 <= k < n ==> #[trigger] emptied(s, n).1[k] == Some(s[k]),
    decreases n,
{
    if n > 0 {
        lemma_emptied(s, (n - 1) as nat);
        assert(s.skip(n - 1).drop_first() =~= s.skip(n as int));
    } else {
        assert(s.skip(0) =~= s);
    }
}

/// The first `n` jobs are in order once they are taken in.
proof fn lemma_filled_in_order<P: Packet>(
    queues: Seq<Seq<(Instant, P)>>,
    jobs: Seq<(P, Duration)>,
    n: nat,
)
    requires
        filled(queues, jobs),
        n <= jobs.len(),
    ensures
        exists|order: Seq<int>| #[trigger]
            holds_in_order(queues[n as int], jobs.take(n as int), order),
    decreases n,
{
    if n == 0 {
        assert(holds_in_order(queues[0], jobs.take(0), Seq::<int>::empty()));
    } else {
        let m = n - 1;
        lemma_filled_in_order(queues, jobs, m as nat);
        let front = jobs.take(m);
        let s = queues[m];
        let order = choose|order: Seq<int>| #[trigger] holds_in_order(s, front, order);
        assert(placed(s, due(jobs[m]), jobs[m].0, queues[m + 1]));
        let i = choose|i: int| #[trigger]
            is_place(s, due(jobs[m]), i) && queues[m + 1] == s.insert(i, (due(jobs[m]), jobs[m].0));
        lemma_placed_in_order(s, front, order, jobs[m], i);
        assert(jobs.take(n as int) =~= front.push(jobs[m]));
        assert(holds_in_order(queues[n as int], jobs.take(n as int), order.insert(i, m)));
    }
}

/// Where the `k`-th of a sequence was before something was put in at `i`.
spec fn shifted(k: int, i: int) -> int {
    if k < i {
        k
    } else {
        k - 1
    }
}

/// A job that is put in its place keeps the order.
proof fn lemma_placed_in_order<P: Packet>(
    s: Seq<(Instant, P)>,
    front: Seq<(P, Duration)>,
    order: Seq<int>,
    job: (P, Duration),
    i: int,
)
    requires
        holds_in_order(s, front, order),
        is_place(s, due(job), i),
    ensures
        holds_in_order(
            s.insert(i, (due(job), job.0)),
            front.push(job),
            order.insert(i, front.len() as int),
        ),
{
    let m = front.len() as int;
    let all = front.push(job);
    let longer = order.insert(i, m);
    let t = s.insert(i, (due(job), job.0));
    lemma_order_grows(order, front.len(), i);
    assert forall|k: int| 0 <= k < t.len() implies #[trigger] t[k] == (
        due(all[longer[k]]),
        all[longer[k]].0,
    ) by {
        if k != i {
            let j = shifted(k, i);
            assert(t[k] == s[j] && longer[k] == order[j]);
            assert(s[j] == (due(front[order[j]]), front[order[j]].0));
            assert(0 <= order[j] < m);
        }
    }
    assert forall|k: int, l: int| 0 <= k < l < all.len() implies {
        let (a, b) = (#[trigger] longer[k], #[trigger] longer[l]);
        due(all[a]) < due(all[b]) || due(all[a]) == due(all[b]) && a < b
    } by {
        assert(t[k].0 == due(all[longer[k]]));
        assert(t[l].0 == due(all[longer[l]]));
        let (k0, l0) = (shifted(k, i), shifted(l, i));
        if k == i {
            assert(t[l] == s[l0]);
            assert(due(job) < s[l0].0);
        } else if l == i {
            assert(t[k] == s[k0]);
            assert(s[k0].0 <= due(job));
            assert(longer[k] == order[k0]);
            assert(0 <= order[k0] < m);
        } else {
            let (a, b) = (order[k0], order[l0]);
            assert(longer[k] == a && longer[l] == b);
            assert(0 <= a < m && 0 <= b < m);
            assert(due(front[a]) < due(front[b]) || due(front[a]) == due(front[b]) && a < b);
        }
    }
}

/// A list of the first numbers grows by the next one.
proof fn lemma_order_grows(order: Seq<int>, m: nat, i: int)
    requires
        is_order(order, m),
        0 <= i <= m,
    ensures
        is_order(order.insert(i, m as int), m + 1),
{
    let longer = order.insert(i, m as int);
    assert forall|k: int| 0 <= k < m + 1 implies 0 <= #[trigger] longer[k] < m + 1 by {
        if k != i {
            assert(longer[k] == order[shifted(k, i)]);
        }
    }
    assert forall|k: int, l: int| 0 <= k < l < m + 1 implies #[trigger] longer[k]
        != #[trigger] longer[l] by {
        let (k0, l0) = (shifted(k, i), shifted(l, i));
        if k != i {
            assert(longer[k] == order[k0]);
        }
        if l != i {
            assert(longer[l] == order[l0]);
        }
    }
    assert forall|j: int| 0 <= j < m + 1 implies #[trigger] longer.contains(j) by {
        if j == m {
            assert(longer[i] == m);
        } else {
            assert(order.contains(j));
            let k = choose|k: int| 0 <= k < order.len() && order[k] == j;
            let k1 = if k < i {
                k
            } else {
                k + 1
            };
            assert(longer[k1] == order[k]);
        }
    }
}

/// A packet is due its delay after its timestamp.
pub proof fn law_packet_is_due_after_its_delay<P: Packet>(packet: P, delay: Duration)
    requires
        reachable(packet.timestamp(), delay),
    ensures
        due((packet, delay)) == packet.timestamp() + delay,
{
}

} // verus!
