//! Collects the metrics of the server.
use vstd::prelude::*;

use crate::api::subscriber::{ServiceState, SubscriberService};
use crate::metrics::render::MetricsReport;
use crate::push::metrics;
use crate::push::metrics::{DURATION_BUCKETS, Push, PushCounts, PushMetrics, PushMetricsSnapshot};
use crate::subscriptions::subscription_manager;
use crate::time::{Instant, SystemTime};
use crate::topics::topic_manager;

verus! {

/// Collects the metrics of the server and renders them.
#[derive(Debug, Copy, Clone)]
pub struct MetricsService {
    start_time_seconds: u64,
}

/// The whole seconds from the Unix epoch to a time; none before it.
pub open spec fn epoch_seconds(nanos: int) -> int {
    if nanos < 0 {
        0
    } else {
        nanos / 1_000_000_000
    }
}

/// Whether these are the figures on pushes at a moment.
pub open spec fn is_snapshot(s: PushMetricsSnapshot, push: PushCounts) -> bool {
    &&& s.dispatch_success == push.success
    &&& s.dispatch_failure == push.failure
    &&& s.duration_buckets@ == push.buckets
    &&& s.duration_sum_micros == push.sum_micros
    &&& s.duration_count == metrics::wrapped(
        metrics::bucket_sum(push.buckets, DURATION_BUCKETS as int) as int,
    )
}

/// Whether the report tells of what the server holds: every topic and every subscription, in
/// order.
pub open spec fn is_report(
    report: MetricsReport,
    st: ServiceState,
    push: PushCounts,
    started: int,
    now: nat,
) -> bool {
    &&& report.topics_total == st.topics.len()
    &&& report.subscriptions_total == st.subscriptions.len()
    &&& report.topic_stats@.len() == st.topics.len()
    &&& forall|i: int|
        0 <= i < st.topics.len() ==> topic_manager::topic_stats_of(
            #[trigger] report.topic_stats@[i],
            st.topics[i],
        )
    &&& report.subscription_stats@.len() == st.subscriptions.len()
    &&& forall|i: int|
        0 <= i < st.subscriptions.len() ==> subscription_manager::subscription_stats_of(
            #[trigger] report.subscription_stats@[i],
            st.subscriptions[i],
            now,
        )
    &&& is_snapshot(report.push, push)
    &&& report.start_time_seconds == started
}

impl MetricsService {
    /// When the server started, in seconds after the Unix epoch.
    pub closed spec fn started(&self) -> int {
        self.start_time_seconds as int
    }

    /// The metrics of a server that started at this time.
    pub fn new(started: SystemTime) -> (m: MetricsService)
        ensures
            m.started() == epoch_seconds(started@),
    {
        let start_time_seconds: u64 = match started.since_unix_epoch() {
            Some(d) => d.as_secs(),
            None => 0,
        };
        MetricsService { start_time_seconds }
    }

    /// Collects the figures on what the server holds at this moment.
    pub fn collect(&self, service: &SubscriberService, push: &PushMetrics, now: Instant) -> (report:
        MetricsReport)
        ensures
            is_report(report, service@, push@, self.started(), now@),
    {
        let topics = service.topic_manager();
        let subscriptions = service.subscription_manager();
        MetricsReport {
            topics_total: topics.len(),
            subscriptions_total: subscriptions.len(),
            topic_stats: topics.all_stats(),
            subscription_stats: subscriptions.all_stats(now),
            push: push.snapshot(),
            start_time_seconds: self.start_time_seconds,
        }
    }
}

/// The start is told in whole seconds after the Unix epoch, rounded down, and as the epoch where it was
/// before that.
pub proof fn law_start_is_told_in_seconds(nanos: int)
    ensures
        nanos >= 0 ==> epoch_seconds(nanos) * 1_000_000_000 <= nanos < (epoch_seconds(nanos) + 1)
            * 1_000_000_000,
        nanos < 0 ==> epoch_seconds(nanos) == 0,
{
}

/// The figures on pushes that are told are those of all pushes: how many succeeded and failed, how many
/// there were, and how long they took together.
pub proof fn law_push_figures_are_those_of_all_pushes(
    s: PushMetricsSnapshot,
    history: Seq<PushCounts>,
    pushes: Seq<Push>,
)
    requires
        metrics::is_history(history, pushes),
        pushes.len() <= u64::MAX,
        metrics::total_micros(pushes) <= u64::MAX,
        is_snapshot(s, history.last()),
    ensures
        s.dispatch_success == metrics::successes(pushes),
        s.dispatch_success + s.dispatch_failure == pushes.len(),
        s.duration_count == pushes.len(),
        s.duration_sum_micros == metrics::total_micros(pushes),
        forall|i: int|
            0 <= i < DURATION_BUCKETS ==> #[trigger] s.duration_buckets@[i] == metrics::fallen_in(
                pushes,
                i,
            ),
{
    metrics::law_figures_are_totals(history, pushes);
}

/// A report tells of each topic and of each subscription of the server, in the order in which they
/// stand, and of nothing else.
pub proof fn law_report_tells_what_is_held(
    report: MetricsReport,
    st: ServiceState,
    push: PushCounts,
    started: int,
    now: nat,
    t: int,
    i: int,
)
    requires
        is_report(report, st, push, started, now),
        0 <= t < st.topics.len(),
        0 <= i < st.subscriptions.len(),
    ensures
        report.topics_total == st.topics.len(),
        report.topic_stats@.len() == st.topics.len(),
        report.subscriptions_total == st.subscriptions.len(),
        report.subscription_stats@.len() == st.subscriptions.len(),
        report.start_time_seconds == started,
        ({
            let s = report.topic_stats@[t];
            &&& s.topic_name@ == st.topics[t].info.name@
            &&& s.subscription_count == st.topics[t].subscriptions.len()
            &&& s.published_count == st.topics[t].published_count
            &&& s.published_bytes == st.topics[t].published_bytes
        }),
        ({
            let s = report.subscription_stats@[i];
            let held = st.subscriptions[i].state;
            &&& s.subscription_name@ == held.info.name@
            &&& s.outstanding_messages_count == held.outstanding.len()
            &&& s.retry_messages_count == held.retries.len()
            &&& s.counters == held.counters
        }),
{
    assert(topic_manager::topic_stats_of(report.topic_stats@[t], st.topics[t]));
    assert(subscription_manager::subscription_stats_of(
        report.subscription_stats@[i],
        st.subscriptions[i],
        now,
    ));
}

} // verus!
