//! The text in which the metrics are exposed.
use vstd::prelude::*;

use crate::metrics::encoder;
use crate::metrics::encoder::PromText;
use crate::push::metrics;
use crate::push::metrics::{PushMetricsSnapshot, DURATION_BUCKETS};
use crate::subscriptions::stats::SubscriptionStats;
use crate::subscriptions::subscription_name;
use crate::text;
use crate::topics::stats::TopicStats;
use crate::topics::topic_name;

verus! {

/// What the metrics are made of.
#[derive(Debug)]
pub struct MetricsReport {
    pub topics_total: usize,
    pub subscriptions_total: usize,
    pub topic_stats: Vec<TopicStats>,
    pub subscription_stats: Vec<SubscriptionStats>,
    pub push: PushMetricsSnapshot,
    /// When the server started, in seconds after the Unix epoch.
    pub start_time_seconds: u64,
}

/// The figures with a fraction, written out.
#[derive(Debug)]
pub struct FractionTexts {
    /// The age in seconds of the oldest unacknowledged message of each subscription.
    pub oldest_unacked_ages: Vec<String>,
    /// The seconds that all pushes took together.
    pub push_duration_sum: String,
}

/// A figure on a topic.
#[derive(Debug, Copy, Clone)]
pub enum TopicFigure {
    Retained,
    Subscriptions,
    Published,
    PublishedBytes,
}

/// The value of a figure on a topic.
pub open spec fn topic_figure(t: TopicStats, figure: TopicFigure) -> u64 {
    match figure {
        TopicFigure::Retained => t.message_count as u64,
        TopicFigure::Subscriptions => t.subscription_count as u64,
        TopicFigure::Published => t.published_count,
        TopicFigure::PublishedBytes => t.published_bytes,
    }
}

/// A sample for each topic.
pub open spec fn topic_samples(
    name: Seq<char>,
    stats: Seq<TopicStats>,
    figure: TopicFigure,
) -> Seq<char>
    decreases stats.len(),
{
    if stats.len() == 0 {
        Seq::empty()
    } else {
        let t = stats.last();
        topic_samples(name, stats.drop_last(), figure) + encoder::labeled_text(
            name,
            seq![("topic"@, topic_name::topic_name_text(t.topic_name@))],
            text::decimal(topic_figure(t, figure) as nat),
        )
    }
}

/// A metric family with a sample for each topic.
pub open spec fn topic_family(
    name: Seq<char>,
    metric_type: Seq<char>,
    help: Seq<char>,
    stats: Seq<TopicStats>,
    figure: TopicFigure,
) -> Seq<char> {
    encoder::family_text(name, metric_type, help) + topic_samples(name, stats, figure)
}

/// A figure on a subscription.
#[derive(Debug, Copy, Clone)]
pub enum SubscriptionFigure {
    Backlog,
    Outstanding,
    Retry,
}

/// The value of a figure on a subscription.
pub open spec fn subscription_figure(s: SubscriptionStats, figure: SubscriptionFigure) -> u64 {
    match figure {
        SubscriptionFigure::Backlog => s.backlog_messages_count as u64,
        SubscriptionFigure::Outstanding => s.outstanding_messages_count as u64,
        SubscriptionFigure::Retry => s.retry_messages_count as u64,
    }
}

/// The labels of a subscription and its topic.
pub open spec fn subscription_labels(s: SubscriptionStats) -> Seq<(Seq<char>, Seq<char>)> {
    seq![
        (
            "subscription"@,
            subscription_name::subscription_name_text(s.subscription_name@),
        ),
        ("topic"@, topic_name::topic_name_text(s.topic_name@)),
    ]
}

/// A sample for each subscription.
pub open spec fn subscription_samples(
    name: Seq<char>,
    stats: Seq<SubscriptionStats>,
    figure: SubscriptionFigure,
) -> Seq<char>
    decreases stats.len(),
{
    if stats.len() == 0 {
        Seq::empty()
    } else {
        let s = stats.last();
        subscription_samples(name, stats.drop_last(), figure) + encoder::labeled_text(
            name,
            subscription_labels(s),
            text::decimal(subscription_figure(s, figure) as nat),
        )
    }
}

/// A metric family with a sample for each subscription.
pub open spec fn subscription_family(
    name: Seq<char>,
    metric_type: Seq<char>,
    help: Seq<char>,
    stats: Seq<SubscriptionStats>,
    figure: SubscriptionFigure,
) -> Seq<char> {
    encoder::family_text(name, metric_type, help) + subscription_samples(name, stats, figure)
}

/// The age of the oldest unacknowledged message of each subscription.
pub open spec fn age_samples(
    name: Seq<char>,
    stats: Seq<SubscriptionStats>,
    ages: Seq<String>,
) -> Seq<char>
    decreases stats.len(),
{
    if stats.len() == 0 {
        Seq::empty()
    } else {
        age_samples(name, stats.drop_last(), ages) + encoder::labeled_text(
            name,
            subscription_labels(stats.last()),
            ages[stats.len() - 1]@,
        )
    }
}

/// A counter of a subscription.
#[derive(Debug, Copy, Clone)]
pub enum SubscriptionCounter {
    Pulled,
    Acked,
    Nacked,
    Expired,
    DeadLettered,
}

/// The value of a counter of a subscription.
pub open spec fn subscription_counter(s: SubscriptionStats, counter: SubscriptionCounter) -> u64 {
    match counter {
        SubscriptionCounter::Pulled => s.counters.pulled,
        SubscriptionCounter::Acked => s.counters.acked,
        SubscriptionCounter::Nacked => s.counters.nacked,
        SubscriptionCounter::Expired => s.counters.expired,
        SubscriptionCounter::DeadLettered => s.counters.dead_lettered,
    }
}

/// A sample of a counter for each subscription.
pub open spec fn counter_samples(
    name: Seq<char>,
    stats: Seq<SubscriptionStats>,
    counter: SubscriptionCounter,
) -> Seq<char>
    decreases stats.len(),
{
    if stats.len() == 0 {
        Seq::empty()
    } else {
        let s = stats.last();
        counter_samples(name, stats.drop_last(), counter) + encoder::labeled_text(
            name,
            seq![
                (
                    "subscription"@,
                    subscription_name::subscription_name_text(s.subscription_name@),
                ),
            ],
            text::decimal(subscription_counter(s, counter) as nat),
        )
    }
}

/// A metric family with a sample of a counter for each subscription.
pub open spec fn counter_family(
    name: Seq<char>,
    help: Seq<char>,
    stats: Seq<SubscriptionStats>,
    counter: SubscriptionCounter,
) -> Seq<char> {
    encoder::family_text(name, "counter"@, help) + counter_samples(name, stats, counter)
}

/// The bound of a bucket in seconds.
pub open spec fn bound_text(i: int) -> Seq<char> {
    if i == 0 {
        "0.005"@
    } else if i == 1 {
        "0.01"@
    } else if i == 2 {
        "0.025"@
    } else if i == 3 {
        "0.05"@
    } else if i == 4 {
        "0.1"@
    } else if i == 5 {
        "0.25"@
    } else if i == 6 {
        "0.5"@
    } else if i == 7 {
        "1"@
    } else if i == 8 {
        "2.5"@
    } else if i == 9 {
        "5"@
    } else if i == 10 {
        "10"@
    } else {
        "+Inf"@
    }
}

/// How many pushes took no longer than the bound of a bucket, as far as the counters wrap.
pub open spec fn cumulative(buckets: Seq<u64>, i: int) -> u64 {
    metrics::wrapped(metrics::bucket_sum(buckets, i + 1) as int)
}

/// The first `n` buckets of the histogram of push durations.
pub open spec fn bucket_samples(buckets: Seq<u64>, n: int) -> Seq<char>
    decreases n,
{
    if n <= 0 {
        Seq::empty()
    } else {
        bucket_samples(buckets, n - 1) + encoder::labeled_text(
            "deltio_push_dispatch_duration_seconds_bucket"@,
            seq![("le"@, bound_text(n - 1))],
            text::decimal(cumulative(buckets, n - 1) as nat),
        )
    }
}

/// The build, the start and the totals.
pub open spec fn process_text(report: MetricsReport, version: Seq<char>) -> Seq<char> {
    encoder::family_text(
        "deltio_build_info"@,
        "gauge"@,
        "Build information; the value is always 1."@,
    ) + encoder::labeled_text("deltio_build_info"@, seq![("version"@, version)], text::decimal(1))
        + encoder::family_text(
        "deltio_start_time_seconds"@,
        "gauge"@,
        "Unix timestamp at which the metrics service started."@,
    ) + encoder::sample_text(
        "deltio_start_time_seconds"@,
        text::decimal(report.start_time_seconds as nat),
    ) + encoder::family_text("deltio_topics"@, "gauge"@, "Number of topics."@)
        + encoder::sample_text("deltio_topics"@, text::decimal(report.topics_total as nat))
        + encoder::family_text(
        "deltio_subscriptions"@,
        "gauge"@,
        "Number of subscriptions."@,
    ) + encoder::sample_text(
        "deltio_subscriptions"@,
        text::decimal(report.subscriptions_total as nat),
    )
}

/// The figures on topics.
pub open spec fn topics_text(stats: Seq<TopicStats>) -> Seq<char> {
    topic_family(
        "deltio_topic_retained_messages"@,
        "gauge"@,
        "Number of messages currently retained on the topic."@,
        stats,
        TopicFigure::Retained,
    ) + topic_family(
        "deltio_topic_subscriptions"@,
        "gauge"@,
        "Number of subscriptions attached to the topic."@,
        stats,
        TopicFigure::Subscriptions,
    ) + topic_family(
        "deltio_topic_messages_published_total"@,
        "counter"@,
        "Total number of messages published to the topic."@,
        stats,
        TopicFigure::Published,
    ) + topic_family(
        "deltio_topic_messages_published_bytes_total"@,
        "counter"@,
        "Total number of message data bytes published to the topic."@,
        stats,
        TopicFigure::PublishedBytes,
    )
}

/// The figures on subscriptions.
pub open spec fn subscriptions_text(stats: Seq<SubscriptionStats>, ages: Seq<String>) -> Seq<char> {
    subscription_family(
        "deltio_subscription_backlog_messages"@,
        "gauge"@,
        "Number of messages in the subscription backlog waiting to be delivered."@,
        stats,
        SubscriptionFigure::Backlog,
    ) + subscription_family(
        "deltio_subscription_outstanding_messages"@,
        "gauge"@,
        "Number of messages delivered but not yet acknowledged."@,
        stats,
        SubscriptionFigure::Outstanding,
    ) + subscription_family(
        "deltio_subscription_retry_messages"@,
        "gauge"@,
        "Number of messages waiting on retry backoff before redelivery."@,
        stats,
        SubscriptionFigure::Retry,
    ) + encoder::family_text(
        "deltio_subscription_oldest_unacked_message_age_seconds"@,
        "gauge"@,
        "Age in seconds of the oldest unacknowledged message."@,
    ) + age_samples("deltio_subscription_oldest_unacked_message_age_seconds"@, stats, ages)
}

/// The counters of subscriptions.
pub open spec fn counters_text(stats: Seq<SubscriptionStats>) -> Seq<char> {
    counter_family(
        "deltio_subscription_messages_pulled_total"@,
        "Total number of messages delivered to consumers."@,
        stats,
        SubscriptionCounter::Pulled,
    ) + counter_family(
        "deltio_subscription_messages_acked_total"@,
        "Total number of messages acknowledged."@,
        stats,
        SubscriptionCounter::Acked,
    ) + counter_family(
        "deltio_subscription_messages_nacked_total"@,
        "Total number of messages explicitly nacked."@,
        stats,
        SubscriptionCounter::Nacked,
    ) + counter_family(
        "deltio_subscription_messages_expired_total"@,
        "Total number of messages redelivered after their ack deadline expired."@,
        stats,
        SubscriptionCounter::Expired,
    ) + counter_family(
        "deltio_subscription_messages_dead_lettered_total"@,
        "Total number of messages forwarded to a dead letter topic."@,
        stats,
        SubscriptionCounter::DeadLettered,
    )
}

/// The figures on pushes.
pub open spec fn push_text(push: PushMetricsSnapshot, sum: Seq<char>) -> Seq<char> {
    encoder::family_text(
        "deltio_push_dispatch_total"@,
        "counter"@,
        "Total number of HTTP push dispatches, by result."@,
    ) + encoder::labeled_text(
        "deltio_push_dispatch_total"@,
        seq![("result"@, "success"@)],
        text::decimal(push.dispatch_success as nat),
    ) + encoder::labeled_text(
        "deltio_push_dispatch_total"@,
        seq![("result"@, "failure"@)],
        text::decimal(push.dispatch_failure as nat),
    ) + encoder::family_text(
        "deltio_push_dispatch_duration_seconds"@,
        "histogram"@,
        "Duration of HTTP push dispatches in seconds."@,
    ) + bucket_samples(push.duration_buckets@, DURATION_BUCKETS as int) + encoder::sample_text(
        "deltio_push_dispatch_duration_seconds_sum"@,
        sum,
    ) + encoder::sample_text(
        "deltio_push_dispatch_duration_seconds_count"@,
        text::decimal(push.duration_count as nat),
    )
}

/// The whole text.
pub open spec fn metrics_text(
    report: MetricsReport,
    fractions: FractionTexts,
    version: Seq<char>,
) -> Seq<char> {
    process_text(report, version) + topics_text(report.topic_stats@) + subscriptions_text(
        report.subscription_stats@,
        fractions.oldest_unacked_ages@,
    ) + counters_text(report.subscription_stats@) + push_text(
        report.push,
        fractions.push_duration_sum@,
    )
}

/// Writes a metric family with a sample for each topic.
fn write_topic_family(
    p: &mut PromText,
    name: &str,
    metric_type: &str,
    help: &str,
    stats: &Vec<TopicStats>,
    figure: TopicFigure,
)
    ensures
        final(p)@ == old(p)@ + topic_family(name@, metric_type@, help@, stats@, figure),
{
    p.family(name, metric_type, help);
    let ghost start = p@;
    let mut i: usize = 0;
    assert(stats@.take(0) =~= Seq::empty());
    assert(p@ =~= start + topic_samples(name@, stats@.take(0), figure));
    while i < stats.len()
        invariant
            i <= stats@.len(),
            p@ == start + topic_samples(name@, stats@.take(i as int), figure),
        decreases stats@.len() - i,
    {
        let ghost before = p@;
        let t = &stats[i];
        let topic = t.topic_name.to_string();
        let value: u64 = match figure {
            TopicFigure::Retained => t.message_count as u64,
            TopicFigure::Subscriptions => t.subscription_count as u64,
            TopicFigure::Published => t.published_count,
            TopicFigure::PublishedBytes => t.published_bytes,
        };
        let labels = vec![("topic", topic.as_str())];
        proof {
            assert(encoder::label_views(labels@) =~= seq![
                ("topic"@, topic_name::topic_name_text(t.topic_name@)),
            ]);
            assert(stats@.take(i + 1).drop_last() =~= stats@.take(i as int));
        }
        p.labeled(name, labels.as_slice(), value);
        assert(p@ =~= start + topic_samples(name@, stats@.take(i + 1), figure));
        i += 1;
    }
    assert(stats@.take(stats@.len() as int) =~= stats@);
    assert(p@ =~= old(p)@ + topic_family(name@, metric_type@, help@, stats@, figure));
}

/// Writes a sample labeled with a subscription and its topic.
fn write_subscription_sample<V: encoder::MetricValue>(
    p: &mut PromText,
    name: &str,
    s: &SubscriptionStats,
    value: V,
)
    ensures
        final(p)@ == old(p)@ + encoder::labeled_text(
            name@,
            subscription_labels(*s),
            value.value_text(),
        ),
{
    let subscription = s.subscription_name.to_string();
    let topic = s.topic_name.to_string();
    let labels = vec![("subscription", subscription.as_str()), ("topic", topic.as_str())];
    assert(encoder::label_views(labels@) =~= subscription_labels(*s));
    p.labeled(name, labels.as_slice(), value);
}

/// Writes a metric family with a sample for each subscription.
fn write_subscription_family(
    p: &mut PromText,
    name: &str,
    metric_type: &str,
    help: &str,
    stats: &Vec<SubscriptionStats>,
    figure: SubscriptionFigure,
)
    ensures
        final(p)@ == old(p)@ + subscription_family(name@, metric_type@, help@, stats@, figure),
{
    p.family(name, metric_type, help);
    let ghost start = p@;
    let mut i: usize = 0;
    assert(stats@.take(0) =~= Seq::empty());
    assert(p@ =~= start + subscription_samples(name@, stats@.take(0), figure));
    while i < stats.len()
        invariant
            i <= stats@.len(),
            p@ == start + subscription_samples(name@, stats@.take(i as int), figure),
        decreases stats@.len() - i,
    {
        let s = &stats[i];
        let value: u64 = match figure {
            SubscriptionFigure::Backlog => s.backlog_messages_count as u64,
            SubscriptionFigure::Outstanding => s.outstanding_messages_count as u64,
            SubscriptionFigure::Retry => s.retry_messages_count as u64,
        };
        assert(stats@.take(i + 1).drop_last() =~= stats@.take(i as int));
        write_subscription_sample(p, name, s, value);
        assert(p@ =~= start + subscription_samples(name@, stats@.take(i + 1), figure));
        i += 1;
    }
    assert(stats@.take(stats@.len() as int) =~= stats@);
    assert(p@ =~= old(p)@ + subscription_family(name@, metric_type@, help@, stats@, figure));
}

/// Writes a sample of the age for each subscription.
fn write_ages(p: &mut PromText, name: &str, stats: &Vec<SubscriptionStats>, ages: &Vec<String>)
    requires
        ages@.len() == stats@.len(),
    ensures
        final(p)@ == old(p)@ + age_samples(name@, stats@, ages@),
{
    let ghost start = p@;
    let mut i: usize = 0;
    assert(stats@.take(0) =~= Seq::empty());
    assert(p@ =~= start + age_samples(name@, stats@.take(0), ages@));
    while i < stats.len()
        invariant
            i <= stats@.len(),
            ages@.len() == stats@.len(),
            p@ == start + age_samples(name@, stats@.take(i as int), ages@),
        decreases stats@.len() - i,
    {
        assert(stats@.take(i + 1).drop_last() =~= stats@.take(i as int));
        write_subscription_sample(p, name, &stats[i], ages[i].clone());
        assert(p@ =~= start + age_samples(name@, stats@.take(i + 1), ages@));
        i += 1;
    }
    assert(stats@.take(stats@.len() as int) =~= stats@);
}

/// Writes a metric family with a sample of a counter for each subscription.
fn write_counter_family(
    p: &mut PromText,
    name: &str,
    help: &str,
    stats: &Vec<SubscriptionStats>,
    counter: SubscriptionCounter,
)
    ensures
        final(p)@ == old(p)@ + counter_family(name@, help@, stats@, counter),
{
    p.family(name, "counter", help);
    let ghost start = p@;
    let mut i: usize = 0;
    assert(stats@.take(0) =~= Seq::empty());
    assert(p@ =~= start + counter_samples(name@, stats@.take(0), counter));
    while i < stats.len()
        invariant
            i <= stats@.len(),
            p@ == start + counter_samples(name@, stats@.take(i as int), counter),
        decreases stats@.len() - i,
    {
        let s = &stats[i];
        let subscription = s.subscription_name.to_string();
        let value: u64 = match counter {
            SubscriptionCounter::Pulled => s.counters.pulled,
            SubscriptionCounter::Acked => s.counters.acked,
            SubscriptionCounter::Nacked => s.counters.nacked,
            SubscriptionCounter::Expired => s.counters.expired,
            SubscriptionCounter::DeadLettered => s.counters.dead_lettered,
        };
        let labels = vec![("subscription", subscription.as_str())];
        proof {
            assert(encoder::label_views(labels@) =~= seq![
                (
                    "subscription"@,
                    subscription_name::subscription_name_text(s.subscription_name@),
                ),
            ]);
            assert(stats@.take(i + 1).drop_last() =~= stats@.take(i as int));
        }
        p.labeled(name, labels.as_slice(), value);
        assert(p@ =~= start + counter_samples(name@, stats@.take(i + 1), counter));
        i += 1;
    }
    assert(stats@.take(stats@.len() as int) =~= stats@);
    assert(p@ =~= old(p)@ + counter_family(name@, help@, stats@, counter));
}

/// The bound of a bucket in seconds.
fn bound_of(i: usize) -> (s: &'static str)
    ensures
        s@ == bound_text(i as int),
{
    match i {
        0 => "0.005",
        1 => "0.01",
        2 => "0.025",
        3 => "0.05",
        4 => "0.1",
        5 => "0.25",
        6 => "0.5",
        7 => "1",
        8 => "2.5",
        9 => "5",
        10 => "10",
        _ => "+Inf",
    }
}

/// Writes a sample with one label.
fn write_labeled(p: &mut PromText, name: &str, key: &str, label: &str, value: u64)
    ensures
        final(p)@ == old(p)@ + encoder::labeled_text(
            name@,
            seq![(key@, label@)],
            text::decimal(value as nat),
        ),
{
    let labels = vec![(key, label)];
    assert(encoder::label_views(labels@) =~= seq![(key@, label@)]);
    p.labeled(name, labels.as_slice(), value);
}

/// Writes the buckets of the histogram of push durations.
fn write_buckets(p: &mut PromText, buckets: &[u64; 12])
    ensures
        final(p)@ == old(p)@ + bucket_samples(buckets@, DURATION_BUCKETS as int),
{
    let ghost start = p@;
    let mut sum: u64 = 0;
    let mut i: usize = 0;
    assert(p@ =~= start + bucket_samples(buckets@, 0));
    while i < DURATION_BUCKETS
        invariant
            i <= DURATION_BUCKETS,
            sum == metrics::wrapped(metrics::bucket_sum(buckets@, i as int) as int),
            p@ == start + bucket_samples(buckets@, i as int),
        decreases DURATION_BUCKETS - i,
    {
        sum = sum.wrapping_add(buckets[i]);
        assert(sum == cumulative(buckets@, i as int));
        write_labeled(
            p,
            "deltio_push_dispatch_duration_seconds_bucket",
            "le",
            bound_of(i),
            sum,
        );
        assert(p@ =~= start + bucket_samples(buckets@, i + 1));
        i += 1;
    }
}

/// Writes the build, the start and the totals.
fn write_process(p: &mut PromText, report: &MetricsReport, version: &str)
    ensures
        final(p)@ == old(p)@ + process_text(*report, version@),
{
    p.family("deltio_build_info", "gauge", "Build information; the value is always 1.");
    write_labeled(p, "deltio_build_info", "version", version, 1);
    p.family(
        "deltio_start_time_seconds",
        "gauge",
        "Unix timestamp at which the metrics service started.",
    );
    p.sample("deltio_start_time_seconds", report.start_time_seconds);
    p.family("deltio_topics", "gauge", "Number of topics.");
    p.sample("deltio_topics", report.topics_total as u64);
    p.family("deltio_subscriptions", "gauge", "Number of subscriptions.");
    p.sample("deltio_subscriptions", report.subscriptions_total as u64);
    assert(p@ =~= old(p)@ + process_text(*report, version@));
}

/// Writes the figures on topics.
fn write_topics(p: &mut PromText, stats: &Vec<TopicStats>)
    ensures
        final(p)@ == old(p)@ + topics_text(stats@),
{
    write_topic_family(
        p,
        "deltio_topic_retained_messages",
        "gauge",
        "Number of messages currently retained on the topic.",
        stats,
        TopicFigure::Retained,
    );
    write_topic_family(
        p,
        "deltio_topic_subscriptions",
        "gauge",
        "Number of subscriptions attached to the topic.",
        stats,
        TopicFigure::Subscriptions,
    );
    write_topic_family(
        p,
        "deltio_topic_messages_published_total",
        "counter",
        "Total number of messages published to the topic.",
        stats,
        TopicFigure::Published,
    );
    write_topic_family(
        p,
        "deltio_topic_messages_published_bytes_total",
        "counter",
        "Total number of message data bytes published to the topic.",
        stats,
        TopicFigure::PublishedBytes,
    );
    assert(p@ =~= old(p)@ + topics_text(stats@));
}

/// Writes the figures on subscriptions.
fn write_subscriptions(p: &mut PromText, stats: &Vec<SubscriptionStats>, ages: &Vec<String>)
    requires
        ages@.len() == stats@.len(),
    ensures
        final(p)@ == old(p)@ + subscriptions_text(stats@, ages@),
{
    write_subscription_family(
        p,
        "deltio_subscription_backlog_messages",
        "gauge",
        "Number of messages in the subscription backlog waiting to be delivered.",
        stats,
        SubscriptionFigure::Backlog,
    );
    write_subscription_family(
        p,
        "deltio_subscription_outstanding_messages",
        "gauge",
        "Number of messages delivered but not yet acknowledged.",
        stats,
        SubscriptionFigure::Outstanding,
    );
    write_subscription_family(
        p,
        "deltio_subscription_retry_messages",
        "gauge",
        "Number of messages waiting on retry backoff before redelivery.",
        stats,
        SubscriptionFigure::Retry,
    );
    p.family(
        "deltio_subscription_oldest_unacked_message_age_seconds",
        "gauge",
        "Age in seconds of the oldest unacknowledged message.",
    );
    write_ages(p, "deltio_subscription_oldest_unacked_message_age_seconds", stats, ages);
    assert(p@ =~= old(p)@ + subscriptions_text(stats@, ages@));
}

/// Writes the counters of subscriptions.
fn write_counters(p: &mut PromText, stats: &Vec<SubscriptionStats>)
    ensures
        final(p)@ == old(p)@ + counters_text(stats@),
{
    write_counter_family(
        p,
        "deltio_subscription_messages_pulled_total",
        "Total number of messages delivered to consumers.",
        stats,
        SubscriptionCounter::Pulled,
    );
    write_counter_family(
        p,
        "deltio_subscription_messages_acked_total",
        "Total number of messages acknowledged.",
        stats,
        SubscriptionCounter::Acked,
    );
    write_counter_family(
        p,
        "deltio_subscription_messages_nacked_total",
        "Total number of messages explicitly nacked.",
        stats,
        SubscriptionCounter::Nacked,
    );
    write_counter_family(
        p,
        "deltio_subscription_messages_expired_total",
        "Total number of messages redelivered after their ack deadline expired.",
        stats,
        SubscriptionCounter::Expired,
    );
    write_counter_family(
        p,
        "deltio_subscription_messages_dead_lettered_total",
        "Total number of messages forwarded to a dead letter topic.",
        stats,
        SubscriptionCounter::DeadLettered,
    );
    assert(p@ =~= old(p)@ + counters_text(stats@));
}

/// Writes the figures on pushes.
fn write_push(p: &mut PromText, push: &PushMetricsSnapshot, sum: &String)
    ensures
        final(p)@ == old(p)@ + push_text(*push, sum@),
{
    p.family(
        "deltio_push_dispatch_total",
        "counter",
        "Total number of HTTP push dispatches, by result.",
    );
    write_labeled(p, "deltio_push_dispatch_total", "result", "success", push.dispatch_success);
    write_labeled(p, "deltio_push_dispatch_total", "result", "failure", push.dispatch_failure);
    p.family(
        "deltio_push_dispatch_duration_seconds",
        "histogram",
        "Duration of HTTP push dispatches in seconds.",
    );
    write_buckets(p, &push.duration_buckets);
    p.sample("deltio_push_dispatch_duration_seconds_sum", sum.clone());
    p.sample("deltio_push_dispatch_duration_seconds_count", push.duration_count);
    assert(p@ =~= old(p)@ + push_text(*push, sum@));
}

/// The metrics in the Prometheus text format.
pub fn render_text(report: &MetricsReport, fractions: &FractionTexts, version: &str) -> (s: String)
    requires
        fractions.oldest_unacked_ages@.len() == report.subscription_stats@.len(),
    ensures
        s@ == metrics_text(*report, *fractions, version@),
{
    let mut p = PromText::new();
    write_process(&mut p, report, version);
    write_topics(&mut p, &report.topic_stats);
    write_subscriptions(&mut p, &report.subscription_stats, &fractions.oldest_unacked_ages);
    write_counters(&mut p, &report.subscription_stats);
    write_push(&mut p, &report.push, &fractions.push_duration_sum);
    assert(p@ =~= metrics_text(*report, *fractions, version@));
    p.into_string()
}

/// The count of the histogram is its last cumulative bucket.
pub proof fn law_count_is_last_bucket(push: PushMetricsSnapshot)
    requires
        push.duration_count == metrics::wrapped(
            metrics::bucket_sum(push.duration_buckets@, DURATION_BUCKETS as int) as int,
        ),
    ensures
        push.duration_count == cumulative(push.duration_buckets@, DURATION_BUCKETS - 1),
{
}

} // verus!
