//! Figures on messages pushed over HTTP.
use vstd::prelude::*;

use crate::time::Duration;

verus! {

/// The number of buckets of the histogram of durations.
pub const DURATION_BUCKETS: usize = 12;

/// The longest duration in nanoseconds that falls in a bucket; the last bucket has no bound.
pub open spec fn bucket_bound(i: int) -> nat {
    if i == 0 {
        5_000_000
    } else if i == 1 {
        10_000_000
    } else if i == 2 {
        25_000_000
    } else if i == 3 {
        50_000_000
    } else if i == 4 {
        100_000_000
    } else if i == 5 {
        250_000_000
    } else if i == 6 {
        500_000_000
    } else if i == 7 {
        1_000_000_000
    } else if i == 8 {
        2_500_000_000
    } else if i == 9 {
        5_000_000_000
    } else {
        10_000_000_000
    }
}

/// Whether a duration falls in a bucket: the first one whose bound it does not exceed, or else the
/// last one.
pub open spec fn falls_in(nanos: nat, i: int) -> bool {
    &&& 0 <= i < DURATION_BUCKETS
    &&& i < DURATION_BUCKETS - 1 ==> nanos <= bucket_bound(i)
    &&& forall|j: int| 0 <= j < i ==> nanos > #[trigger] bucket_bound(j)
}

/// The bucket that a duration falls in.
fn bucket_of(duration: Duration) -> (i: usize)
    ensures
        falls_in(duration@, i as int),
{
    let nanos: u128 = duration.as_nanos();
    if nanos <= 5_000_000 {
        0
    } else if nanos <= 10_000_000 {
        1
    } else if nanos <= 25_000_000 {
        2
    } else if nanos <= 50_000_000 {
        3
    } else if nanos <= 100_000_000 {
        4
    } else if nanos <= 250_000_000 {
        5
    } else if nanos <= 500_000_000 {
        6
    } else if nanos <= 1_000_000_000 {
        7
    } else if nanos <= 2_500_000_000 {
        8
    } else if nanos <= 5_000_000_000 {
        9
    } else if nanos <= 10_000_000_000 {
        10
    } else {
        11
    }
}

/// A duration falls in one bucket.
pub proof fn law_one_bucket_per_duration(nanos: nat, i: int, j: int)
    requires
        falls_in(nanos, i),
        falls_in(nanos, j),
    ensures
        i == j,
{
    if i < j {
        assert(nanos > bucket_bound(i));
    } else if j < i {
        assert(nanos > bucket_bound(j));
    }
}

/// The longest pushes of each bucket but the last one, in milliseconds.
pub open spec fn bounds_in_millis() -> Seq<nat> {
    seq![5, 10, 25, 50, 100, 250, 500, 1_000, 2_500, 5_000, 10_000]
}

/// A push falls in the first bucket whose bound it does not exceed: the bounds go from five
/// milliseconds to ten seconds, and what takes longer falls in the last one.
pub proof fn law_buckets_go_by_milliseconds(nanos: nat, i: int)
    requires
        0 <= i <= 11,
    ensures
        falls_in(nanos, i) <==> {
            &&& i < 11 ==> nanos <= bounds_in_millis()[i] * 1_000_000
            &&& i > 0 ==> nanos > bounds_in_millis()[i - 1] * 1_000_000
        },
{
    let bounds = bounds_in_millis();
    assert(bounds.len() == 11);
    assert forall|j: int| 0 <= j < 11 implies #[trigger] bucket_bound(j) == bounds[j]
        * 1_000_000 by {}
    if i > 0 {
        assert(bucket_bound(i - 1) == bounds[i - 1] * 1_000_000);
    }
    if i < 11 {
        assert(bucket_bound(i) == bounds[i] * 1_000_000);
    }
    assert forall|j: int| 0 <= j < i && i > 0 implies #[trigger] bucket_bound(j) <= bucket_bound(
        i - 1,
    ) by {}
}

/// A 64-bit counter that wraps.
pub open spec fn wrapped(n: int) -> u64 {
    (n % 0x1_0000_0000_0000_0000) as u64
}

/// The sum of the first `n` buckets.
pub open spec fn bucket_sum(buckets: Seq<u64>, n: int) -> nat
    decreases n,
{
    if n <= 0 {
        0
    } else {
        bucket_sum(buckets, n - 1) + buckets[n - 1] as nat
    }
}

/// Figures on messages pushed over HTTP, of all subscriptions together.
#[derive(Debug)]
pub struct PushMetrics {
    dispatch_success: u64,
    dispatch_failure: u64,
    duration_buckets: [u64; 12],
    duration_sum_micros: u64,
}

/// The figures of a [`PushMetrics`].
pub struct PushCounts {
    pub success: u64,
    pub failure: u64,
    pub buckets: Seq<u64>,
    pub sum_micros: u64,
}

/// Whether as many durations were counted as outcomes, as far as the counters wrap.
pub open spec fn balanced(c: PushCounts) -> bool {
    wrapped(c.success + c.failure) == wrapped(bucket_sum(c.buckets, DURATION_BUCKETS as int) as int)
}

/// The figures before anything was pushed.
pub open spec fn no_counts() -> PushCounts {
    PushCounts {
        success: 0,
        failure: 0,
        buckets: Seq::new(DURATION_BUCKETS as nat, |i: int| 0u64),
        sum_micros: 0,
    }
}

/// Whether the figures are those after a push more that succeeded or failed and took this long.
pub open spec fn is_recorded(
    before: PushCounts,
    after: PushCounts,
    success: bool,
    nanos: nat,
) -> bool {
    &&& after.success == wrapped(before.success + if success {
        1int
    } else {
        0
    })
    &&& after.failure == wrapped(before.failure + if success {
        0int
    } else {
        1
    })
    &&& exists|i: int|
        #![trigger falls_in(nanos, i)]
        falls_in(nanos, i) && after.buckets == before.buckets.update(
            i,
            wrapped(before.buckets[i] + 1),
        )
    &&& after.sum_micros == wrapped(before.sum_micros + nanos / 1_000)
}

impl PushMetrics {
    /// The figures.
    pub closed spec fn view(&self) -> PushCounts {
        PushCounts {
            success: self.dispatch_success,
            failure: self.dispatch_failure,
            buckets: self.duration_buckets@,
            sum_micros: self.duration_sum_micros,
        }
    }

    /// Nothing pushed yet.
    pub fn new() -> (m: PushMetrics)
        ensures
            m@ == no_counts(),
    {
        let m = PushMetrics {
            dispatch_success: 0,
            dispatch_failure: 0,
            duration_buckets: [0, 0, 0, 0, 0, 0, 0, 0, 0, 0, 0, 0],
            duration_sum_micros: 0,
        };
        assert(m@.buckets =~= Seq::new(DURATION_BUCKETS as nat, |i: int| 0u64));
        m
    }

    /// Counts a push that succeeded or failed, and how long it took.
    pub fn record(&mut self, success: bool, duration: Duration)
        ensures
            is_recorded(old(self)@, final(self)@, success, duration@),
    {
        if success {
            self.dispatch_success = self.dispatch_success.wrapping_add(1);
        } else {
            self.dispatch_failure = self.dispatch_failure.wrapping_add(1);
        }
        let bucket: usize = bucket_of(duration);
        let ghost before = self.duration_buckets@;
        self.duration_buckets[bucket] = self.duration_buckets[bucket].wrapping_add(1);
        let micros: u128 = duration.as_micros();
        let low: u64 = (micros % 0x1_0000_0000_0000_0000) as u64;
        self.duration_sum_micros = self.duration_sum_micros.wrapping_add(low);
        proof {
            assert(self.duration_buckets@ =~= before.update(
                bucket as int,
                wrapped(before[bucket as int] + 1),
            ));
            assert(falls_in(duration@, bucket as int));
        }
    }

    /// The figures at this moment.
    pub fn snapshot(&self) -> (s: PushMetricsSnapshot)
        ensures
            s.dispatch_success == self@.success,
            s.dispatch_failure == self@.failure,
            s.duration_buckets@ == self@.buckets,
            s.duration_sum_micros == self@.sum_micros,
            s.duration_count == wrapped(
                bucket_sum(self@.buckets, DURATION_BUCKETS as int) as int,
            ),
    {
        let mut count: u64 = 0;
        let mut i: usize = 0;
        while i < DURATION_BUCKETS
            invariant
                i <= DURATION_BUCKETS,
                count == wrapped(bucket_sum(self.duration_buckets@, i as int) as int),
            decreases DURATION_BUCKETS - i,
        {
            count = count.wrapping_add(self.duration_buckets[i]);
            i += 1;
        }
        PushMetricsSnapshot {
            dispatch_success: self.dispatch_success,
            dispatch_failure: self.dispatch_failure,
            duration_buckets: self.duration_buckets,
            duration_sum_micros: self.duration_sum_micros,
            duration_count: count,
        }
    }
}

impl Default for PushMetrics {
    fn default() -> (m: PushMetrics)
        ensures
            m@ == no_counts(),
    {
        PushMetrics::new()
    }
}

/// The figures at a moment.
#[derive(Debug, Clone)]
pub struct PushMetricsSnapshot {
    pub dispatch_success: u64,
    pub dispatch_failure: u64,
    pub duration_buckets: [u64; 12],
    pub duration_sum_micros: u64,
    pub duration_count: u64,
}

/// One more in a bucket is one more in the sum.
proof fn lemma_sum_updated(buckets: Seq<u64>, i: int, v: u64, n: int)
    requires
        0 <= i < buckets.len(),
        n <= buckets.len(),
    ensures
        bucket_sum(buckets.update(i, v), n) == bucket_sum(buckets, n) + if i < n {
            v - buckets[i]
        } else {
            0
        },
    decreases n,
{
    if n > 0 {
        lemma_sum_updated(buckets, i, v, n - 1);
    }
}

/// A counter goes up by one, or wraps.
proof fn lemma_next(n: u64)
    ensures
        wrapped(n as int) == n,
        wrapped(n + 1) == n + 1 || wrapped(n + 1) == n + 1 - 0x1_0000_0000_0000_0000,
{
}

/// Two sums that wrap to the same go on to wrap to the same.
proof fn lemma_same_next(a: int, b: int, a2: int, b2: int)
    requires
        wrapped(a) == wrapped(b),
        a2 == a + 1 || a2 == a + 1 - 0x1_0000_0000_0000_0000,
        b2 == b + 1 || b2 == b + 1 - 0x1_0000_0000_0000_0000,
    ensures
        wrapped(a2) == wrapped(b2),
{
}

/// As many outcomes as durations are counted, before a push is counted and after.
pub proof fn law_outcomes_and_durations_agree(
    before: PushCounts,
    after: PushCounts,
    success: bool,
    nanos: nat,
)
    requires
        before.buckets.len() == DURATION_BUCKETS,
        balanced(before),
        is_recorded(before, after, success, nanos),
    ensures
        balanced(after),
{
    let i = choose|i: int|
        #![trigger falls_in(nanos, i)]
        falls_in(nanos, i) && after.buckets == before.buckets.update(
            i,
            wrapped(before.buckets[i] + 1),
        );
    let v = wrapped(before.buckets[i] + 1);
    lemma_sum_updated(before.buckets, i, v, DURATION_BUCKETS as int);
    lemma_next(before.success);
    lemma_next(before.failure);
    lemma_next(before.buckets[i]);
    lemma_same_next(
        before.success + before.failure,
        bucket_sum(before.buckets, DURATION_BUCKETS as int) as int,
        after.success + after.failure,
        bucket_sum(after.buckets, DURATION_BUCKETS as int) as int,
    );
}

/// A push: whether it succeeded, and how many nanoseconds it took.
pub struct Push {
    pub success: bool,
    pub nanos: nat,
}

/// How many of the pushes succeeded.
pub open spec fn successes(pushes: Seq<Push>) -> nat
    decreases pushes.len(),
{
    if pushes.len() == 0 {
        0
    } else {
        successes(pushes.drop_last()) + if pushes.last().success {
            1nat
        } else {
            0nat
        }
    }
}

/// How many of the pushes took as long as falls in the bucket.
pub open spec fn fallen_in(pushes: Seq<Push>, i: int) -> nat
    decreases pushes.len(),
{
    if pushes.len() == 0 {
        0
    } else {
        fallen_in(pushes.drop_last(), i) + if falls_in(pushes.last().nanos, i) {
            1nat
        } else {
            0nat
        }
    }
}

/// The whole microseconds of the pushes, summed up.
pub open spec fn total_micros(pushes: Seq<Push>) -> nat
    decreases pushes.len(),
{
    if pushes.len() == 0 {
        0
    } else {
        total_micros(pushes.drop_last()) + pushes.last().nanos / 1_000
    }
}

/// Whether the figures went from none to the last ones as the pushes were recorded in turn.
pub open spec fn is_history(history: Seq<PushCounts>, pushes: Seq<Push>) -> bool {
    &&& history.len() == pushes.len() + 1
    &&& history[0] == no_counts()
    &&& forall|k: int|
        0 <= k < pushes.len() ==> is_recorded(
            #[trigger] history[k],
            history[k + 1],
            pushes[k].success,
            pushes[k].nanos,
        )
}

/// No more pushes succeed or fall in a bucket than there are.
proof fn lemma_at_most_all(pushes: Seq<Push>, i: int)
    ensures
        successes(pushes) <= pushes.len(),
        fallen_in(pushes, i) <= pushes.len(),
    decreases pushes.len(),
{
    if pushes.len() > 0 {
        lemma_at_most_all(pushes.drop_last(), i);
    }
}

/// Whether the figures are the totals of the pushes: how many succeeded and failed, how many fell
/// in each bucket, how long they took together, and, summed up over the buckets, how many there
/// were.
pub open spec fn are_totals(c: PushCounts, pushes: Seq<Push>) -> bool {
    &&& c.success == successes(pushes)
    &&& c.failure == pushes.len() - successes(pushes)
    &&& c.buckets.len() == DURATION_BUCKETS
    &&& forall|i: int|
        0 <= i < DURATION_BUCKETS ==> #[trigger] c.buckets[i] == fallen_in(pushes, i)
    &&& c.sum_micros == total_micros(pushes)
    &&& bucket_sum(c.buckets, DURATION_BUCKETS as int) == pushes.len()
}

/// A counter that has room counts one more.
proof fn lemma_room(n: u64)
    requires
        n < u64::MAX,
    ensures
        wrapped(n + 1) == n + 1,
        wrapped(n + 0) == n,
{
}

/// Totals stay totals with one push more.
proof fn lemma_totals(before: PushCounts, after: PushCounts, init: Seq<Push>, push: Push)
    requires
        are_totals(before, init),
        is_recorded(before, after, push.success, push.nanos),
        init.len() < u64::MAX,
        total_micros(init.push(push)) <= u64::MAX,
    ensures
        are_totals(after, init.push(push)),
{
    let pushes = init.push(push);
    assert(pushes.drop_last() =~= init);
    let at = choose|i: int|
        #![trigger falls_in(push.nanos, i)]
        falls_in(push.nanos, i) && after.buckets == before.buckets.update(
            i,
            wrapped(before.buckets[i] + 1),
        );
    lemma_at_most_all(init, at);
    assert(before.buckets[at] == fallen_in(init, at));
    lemma_room(before.success);
    lemma_room(before.failure);
    lemma_room(before.buckets[at]);
    assert forall|i: int| 0 <= i < DURATION_BUCKETS implies #[trigger] after.buckets[i]
        == fallen_in(pushes, i) by {
        assert(before.buckets[i] == fallen_in(init, i));
        if falls_in(push.nanos, i) {
            law_one_bucket_per_duration(push.nanos, i, at);
        }
    }
    lemma_sum_updated(
        before.buckets,
        at,
        wrapped(before.buckets[at] + 1),
        DURATION_BUCKETS as int,
    );
}

/// After any pushes the figures are their totals, as long as none of these is too large for its
/// counter.
pub proof fn law_figures_are_totals(history: Seq<PushCounts>, pushes: Seq<Push>)
    requires
        is_history(history, pushes),
        pushes.len() <= u64::MAX,
        total_micros(pushes) <= u64::MAX,
    ensures
        are_totals(history.last(), pushes),
    decreases pushes.len(),
{
    if pushes.len() == 0 {
        lemma_no_sum(no_counts().buckets, DURATION_BUCKETS as int);
    } else {
        let init = pushes.drop_last();
        let earlier = history.drop_last();
        let n = init.len() as int;
        assert forall|k: int| 0 <= k < init.len() implies is_recorded(
            #[trigger] earlier[k],
            earlier[k + 1],
            init[k].success,
            init[k].nanos,
        ) by {
            assert(is_recorded(history[k], history[k + 1], pushes[k].success, pushes[k].nanos));
        }
        law_figures_are_totals(earlier, init);
        assert(is_recorded(history[n], history[n + 1], pushes[n].success, pushes[n].nanos));
        assert(init.push(pushes.last()) =~= pushes);
        lemma_totals(history[n], history[n + 1], init, pushes.last());
    }
}

/// Buckets with nothing in them sum up to nothing.
proof fn lemma_no_sum(buckets: Seq<u64>, n: int)
    requires
        n <= buckets.len(),
        forall|i: int| 0 <= i < buckets.len() ==> #[trigger] buckets[i] == 0,
    ensures
        bucket_sum(buckets, n) == 0,
    decreases n,
{
    if n > 0 {
        lemma_no_sum(buckets, n - 1);
    }
}

} // verus!
