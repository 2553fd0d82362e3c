//! Which figures the metrics tell, and under which name.
use vstd::prelude::*;

use crate::metrics::encoder;
use crate::metrics::render;
use crate::metrics::render::{
    FractionTexts, MetricsReport, SubscriptionCounter, SubscriptionFigure, TopicFigure,
};
use crate::push::metrics;
use crate::push::metrics::DURATION_BUCKETS;
use crate::subscriptions::stats::SubscriptionStats;
use crate::subscriptions::subscription_name;
use crate::text;
use crate::topics::stats::TopicStats;
use crate::topics::topic_name;

verus! {

/// Whether the line stands in the text.
pub open spec fn tells(text: Seq<char>, line: Seq<char>) -> bool {
    exists|front: Seq<char>, back: Seq<char>| text == #[trigger] (front + line + back)
}

/// A line that stands in one of two texts stands in both together.
proof fn lemma_tells(a: Seq<char>, b: Seq<char>, line: Seq<char>)
    ensures
        tells(a, line) ==> tells(a + b, line),
        tells(b, line) ==> tells(a + b, line),
{
    if tells(a, line) {
        let (front, back) = choose|front: Seq<char>, back: Seq<char>|
            a == #[trigger] (front + line + back);
        assert(a + b =~= front + line + (back + b));
    }
    if tells(b, line) {
        let (front, back) = choose|front: Seq<char>, back: Seq<char>|
            b == #[trigger] (front + line + back);
        assert(a + b =~= (a + front) + line + back);
    }
}

/// A line stands in itself.
proof fn lemma_tells_itself(line: Seq<char>)
    ensures
        tells(line, line),
{
    let none = Seq::<char>::empty();
    assert(line =~= none + line + none);
}

/// The line of a figure on a topic.
pub open spec fn topic_line(name: Seq<char>, t: TopicStats, figure: int) -> Seq<char> {
    encoder::labeled_text(
        name,
        seq![("topic"@, topic_name::topic_name_text(t.topic_name@))],
        text::decimal(figure as nat),
    )
}

/// The line of a figure on a subscription, with its topic.
pub open spec fn subscription_line(name: Seq<char>, s: SubscriptionStats, value: Seq<char>) -> Seq<
    char,
> {
    encoder::labeled_text(
        name,
        seq![
            (
                "subscription"@,
                subscription_name::subscription_name_text(s.subscription_name@),
            ),
            ("topic"@, topic_name::topic_name_text(s.topic_name@)),
        ],
        value,
    )
}

/// The line of a counter of a subscription.
pub open spec fn counter_line(name: Seq<char>, s: SubscriptionStats, count: int) -> Seq<char> {
    encoder::labeled_text(
        name,
        seq![
            (
                "subscription"@,
                subscription_name::subscription_name_text(s.subscription_name@),
            ),
        ],
        text::decimal(count as nat),
    )
}

proof fn lemma_topic_samples(
    name: Seq<char>,
    stats: Seq<TopicStats>,
    figure: TopicFigure,
    i: int,
)
    requires
        0 <= i < stats.len(),
    ensures
        tells(
            render::topic_samples(name, stats, figure),
            topic_line(name, stats[i], render::topic_figure(stats[i], figure) as int),
        ),
    decreases stats.len(),
{
    let line = topic_line(name, stats[i], render::topic_figure(stats[i], figure) as int);
    let rest = stats.drop_last();
    let last = topic_line(
        name,
        stats.last(),
        render::topic_figure(stats.last(), figure) as int,
    );
    if i < rest.len() {
        lemma_topic_samples(name, rest, figure, i);
    } else {
        lemma_tells_itself(line);
    }
    lemma_tells(render::topic_samples(name, rest, figure), last, line);
}

proof fn lemma_subscription_samples(
    name: Seq<char>,
    stats: Seq<SubscriptionStats>,
    figure: SubscriptionFigure,
    i: int,
)
    requires
        0 <= i < stats.len(),
    ensures
        tells(
            render::subscription_samples(name, stats, figure),
            subscription_line(
                name,
                stats[i],
                text::decimal(render::subscription_figure(stats[i], figure) as nat),
            ),
        ),
    decreases stats.len(),
{
    let line = subscription_line(
        name,
        stats[i],
        text::decimal(render::subscription_figure(stats[i], figure) as nat),
    );
    let rest = stats.drop_last();
    let last = subscription_line(
        name,
        stats.last(),
        text::decimal(render::subscription_figure(stats.last(), figure) as nat),
    );
    if i < rest.len() {
        lemma_subscription_samples(name, rest, figure, i);
    } else {
        lemma_tells_itself(line);
    }
    lemma_tells(render::subscription_samples(name, rest, figure), last, line);
}

proof fn lemma_counter_samples(
    name: Seq<char>,
    stats: Seq<SubscriptionStats>,
    counter: SubscriptionCounter,
    i: int,
)
    requires
        0 <= i < stats.len(),
    ensures
        tells(
            render::counter_samples(name, stats, counter),
            counter_line(name, stats[i], render::subscription_counter(stats[i], counter) as int),
        ),
    decreases stats.len(),
{
    let line = counter_line(
        name,
        stats[i],
        render::subscription_counter(stats[i], counter) as int,
    );
    let rest = stats.drop_last();
    let last = counter_line(
        name,
        stats.last(),
        render::subscription_counter(stats.last(), counter) as int,
    );
    if i < rest.len() {
        lemma_counter_samples(name, rest, counter, i);
    } else {
        lemma_tells_itself(line);
    }
    lemma_tells(render::counter_samples(name, rest, counter), last, line);
}

proof fn lemma_age_samples(
    name: Seq<char>,
    stats: Seq<SubscriptionStats>,
    ages: Seq<String>,
    i: int,
)
    requires
        0 <= i < stats.len(),
    ensures
        tells(
            render::age_samples(name, stats, ages),
            subscription_line(name, stats[i], ages[i]@),
        ),
    decreases stats.len(),
{
    let line = subscription_line(name, stats[i], ages[i]@);
    let rest = stats.drop_last();
    let last = subscription_line(name, stats.last(), ages[stats.len() - 1]@);
    if i < rest.len() {
        lemma_age_samples(name, rest, ages, i);
    } else {
        lemma_tells_itself(line);
    }
    lemma_tells(render::age_samples(name, rest, ages), last, line);
}

/// What stands in one of five texts stands in all of them together.
proof fn lemma_one_of_five(
    a: Seq<char>,
    b: Seq<char>,
    c: Seq<char>,
    d: Seq<char>,
    e: Seq<char>,
    line: Seq<char>,
)
    requires
        tells(a, line) || tells(b, line) || tells(c, line) || tells(d, line) || tells(e, line),
    ensures
        tells(a + b + c + d + e, line),
{
    lemma_tells(a, b, line);
    lemma_tells(a + b, c, line);
    lemma_tells(a + b + c, d, line);
    lemma_tells(a + b + c + d, e, line);
}

/// What one part of the metrics tells the metrics tell.
proof fn lemma_part(
    report: MetricsReport,
    fractions: FractionTexts,
    version: Seq<char>,
    line: Seq<char>,
)
    requires
        tells(render::process_text(report, version), line) || tells(
            render::topics_text(report.topic_stats@),
            line,
        ) || tells(
            render::subscriptions_text(
                report.subscription_stats@,
                fractions.oldest_unacked_ages@,
            ),
            line,
        ) || tells(render::counters_text(report.subscription_stats@), line) || tells(
            render::push_text(report.push, fractions.push_duration_sum@),
            line,
        ),
    ensures
        tells(render::metrics_text(report, fractions, version), line),
{
    lemma_one_of_five(
        render::process_text(report, version),
        render::topics_text(report.topic_stats@),
        render::subscriptions_text(report.subscription_stats@, fractions.oldest_unacked_ages@),
        render::counters_text(report.subscription_stats@),
        render::push_text(report.push, fractions.push_duration_sum@),
        line,
    );
}

/// The figures on the topics stand in what is told of them.
proof fn lemma_topic_part(stats: Seq<TopicStats>, i: int)
    requires
        0 <= i < stats.len(),
    ensures
        ({
            let t = stats[i];
            let all = render::topics_text(stats);
            &&& tells(
                all,
                topic_line("deltio_topic_retained_messages"@, t, t.message_count as u64 as int),
            )
            &&& tells(
                all,
                topic_line("deltio_topic_subscriptions"@, t, t.subscription_count as u64 as int),
            )
            &&& tells(
                all,
                topic_line("deltio_topic_messages_published_total"@, t, t.published_count as int),
            )
            &&& tells(
                all,
                topic_line(
                    "deltio_topic_messages_published_bytes_total"@,
                    t,
                    t.published_bytes as int,
                ),
            )
        }),
{
    let t = stats[i];
    let a = render::topic_family(
        "deltio_topic_retained_messages"@,
        "gauge"@,
        "Number of messages currently retained on the topic."@,
        stats,
        TopicFigure::Retained,
    );
    let b = render::topic_family(
        "deltio_topic_subscriptions"@,
        "gauge"@,
        "Number of subscriptions attached to the topic."@,
        stats,
        TopicFigure::Subscriptions,
    );
    let c = render::topic_family(
        "deltio_topic_messages_published_total"@,
        "counter"@,
        "Total number of messages published to the topic."@,
        stats,
        TopicFigure::Published,
    );
    let d = render::topic_family(
        "deltio_topic_messages_published_bytes_total"@,
        "counter"@,
        "Total number of message data bytes published to the topic."@,
        stats,
        TopicFigure::PublishedBytes,
    );
    let none = Seq::<char>::empty();
    assert(render::topics_text(stats) =~= a + b + c + d + none);
    lemma_topic_family_tells(
        "deltio_topic_retained_messages"@,
        "gauge"@,
        "Number of messages currently retained on the topic."@,
        stats,
        TopicFigure::Retained,
        i,
    );
    lemma_topic_family_tells(
        "deltio_topic_subscriptions"@,
        "gauge"@,
        "Number of subscriptions attached to the topic."@,
        stats,
        TopicFigure::Subscriptions,
        i,
    );
    lemma_topic_family_tells(
        "deltio_topic_messages_published_total"@,
        "counter"@,
        "Total number of messages published to the topic."@,
        stats,
        TopicFigure::Published,
        i,
    );
    lemma_topic_family_tells(
        "deltio_topic_messages_published_bytes_total"@,
        "counter"@,
        "Total number of message data bytes published to the topic."@,
        stats,
        TopicFigure::PublishedBytes,
        i,
    );
    lemma_one_of_five(
        a,
        b,
        c,
        d,
        none,
        topic_line("deltio_topic_retained_messages"@, t, t.message_count as u64 as int),
    );
    lemma_one_of_five(
        a,
        b,
        c,
        d,
        none,
        topic_line("deltio_topic_subscriptions"@, t, t.subscription_count as u64 as int),
    );
    lemma_one_of_five(
        a,
        b,
        c,
        d,
        none,
        topic_line("deltio_topic_messages_published_total"@, t, t.published_count as int),
    );
    lemma_one_of_five(
        a,
        b,
        c,
        d,
        none,
        topic_line("deltio_topic_messages_published_bytes_total"@, t, t.published_bytes as int),
    );
}

proof fn lemma_topic_family_tells(
    name: Seq<char>,
    metric_type: Seq<char>,
    help: Seq<char>,
    stats: Seq<TopicStats>,
    figure: TopicFigure,
    i: int,
)
    requires
        0 <= i < stats.len(),
    ensures
        tells(
            render::topic_family(name, metric_type, help, stats, figure),
            topic_line(name, stats[i], render::topic_figure(stats[i], figure) as int),
        ),
{
    lemma_topic_samples(name, stats, figure, i);
    lemma_tells(
        encoder::family_text(name, metric_type, help),
        render::topic_samples(name, stats, figure),
        topic_line(name, stats[i], render::topic_figure(stats[i], figure) as int),
    );
}

/// The metrics tell of each topic how many messages it retains, how many subscriptions are attached to
/// it, and how many messages and bytes were published to it, each under its own name.
pub proof fn law_metrics_tell_of_each_topic(
    report: MetricsReport,
    fractions: FractionTexts,
    version: Seq<char>,
    i: int,
)
    requires
        0 <= i < report.topic_stats@.len(),
    ensures
        ({
            let all = render::metrics_text(report, fractions, version);
            let t = report.topic_stats@[i];
            &&& tells(
                all,
                topic_line("deltio_topic_retained_messages"@, t, t.message_count as u64 as int),
            )
            &&& tells(
                all,
                topic_line("deltio_topic_subscriptions"@, t, t.subscription_count as u64 as int),
            )
            &&& tells(
                all,
                topic_line("deltio_topic_messages_published_total"@, t, t.published_count as int),
            )
            &&& tells(
                all,
                topic_line(
                    "deltio_topic_messages_published_bytes_total"@,
                    t,
                    t.published_bytes as int,
                ),
            )
        }),
{
    let t = report.topic_stats@[i];
    lemma_topic_part(report.topic_stats@, i);
    lemma_part(
        report,
        fractions,
        version,
        topic_line("deltio_topic_retained_messages"@, t, t.message_count as u64 as int),
    );
    lemma_part(
        report,
        fractions,
        version,
        topic_line("deltio_topic_subscriptions"@, t, t.subscription_count as u64 as int),
    );
    lemma_part(
        report,
        fractions,
        version,
        topic_line("deltio_topic_messages_published_total"@, t, t.published_count as int),
    );
    lemma_part(
        report,
        fractions,
        version,
        topic_line("deltio_topic_messages_published_bytes_total"@, t, t.published_bytes as int),
    );
}

proof fn lemma_counter_family_tells(
    name: Seq<char>,
    help: Seq<char>,
    stats: Seq<SubscriptionStats>,
    counter: SubscriptionCounter,
    i: int,
)
    requires
        0 <= i < stats.len(),
    ensures
        tells(
            render::counter_family(name, help, stats, counter),
            counter_line(name, stats[i], render::subscription_counter(stats[i], counter) as int),
        ),
{
    lemma_counter_samples(name, stats, counter, i);
    lemma_tells(
        encoder::family_text(name, "counter"@, help),
        render::counter_samples(name, stats, counter),
        counter_line(name, stats[i], render::subscription_counter(stats[i], counter) as int),
    );
}

/// The counters of a subscription stand in what is told of them.
proof fn lemma_counter_part(stats: Seq<SubscriptionStats>, i: int, line: Seq<char>)
    requires
        0 <= i < stats.len(),
        ({
            let s = stats[i];
            ||| line == counter_line(
                "deltio_subscription_messages_pulled_total"@,
                s,
                s.counters.pulled as int,
            )
            ||| line == counter_line(
                "deltio_subscription_messages_acked_total"@,
                s,
                s.counters.acked as int,
            )
            ||| line == counter_line(
                "deltio_subscription_messages_nacked_total"@,
                s,
                s.counters.nacked as int,
            )
            ||| line == counter_line(
                "deltio_subscription_messages_expired_total"@,
                s,
                s.counters.expired as int,
            )
            ||| line == counter_line(
                "deltio_subscription_messages_dead_lettered_total"@,
                s,
                s.counters.dead_lettered as int,
            )
        }),
    ensures
        tells(render::counters_text(stats), line),
{
    let pulled = "deltio_subscription_messages_pulled_total"@;
    let pulled_help = "Total number of messages delivered to consumers."@;
    let acked = "deltio_subscription_messages_acked_total"@;
    let acked_help = "Total number of messages acknowledged."@;
    let nacked = "deltio_subscription_messages_nacked_total"@;
    let nacked_help = "Total number of messages explicitly nacked."@;
    let expired = "deltio_subscription_messages_expired_total"@;
    let expired_help = "Total number of messages redelivered after their ack deadline expired."@;
    let dead = "deltio_subscription_messages_dead_lettered_total"@;
    let dead_help = "Total number of messages forwarded to a dead letter topic."@;
    lemma_counter_family_tells(pulled, pulled_help, stats, SubscriptionCounter::Pulled, i);
    lemma_counter_family_tells(acked, acked_help, stats, SubscriptionCounter::Acked, i);
    lemma_counter_family_tells(nacked, nacked_help, stats, SubscriptionCounter::Nacked, i);
    lemma_counter_family_tells(expired, expired_help, stats, SubscriptionCounter::Expired, i);
    lemma_counter_family_tells(dead, dead_help, stats, SubscriptionCounter::DeadLettered, i);
    lemma_one_of_five(
        render::counter_family(pulled, pulled_help, stats, SubscriptionCounter::Pulled),
        render::counter_family(acked, acked_help, stats, SubscriptionCounter::Acked),
        render::counter_family(nacked, nacked_help, stats, SubscriptionCounter::Nacked),
        render::counter_family(expired, expired_help, stats, SubscriptionCounter::Expired),
        render::counter_family(dead, dead_help, stats, SubscriptionCounter::DeadLettered),
        line,
    );
}

/// The metrics tell of each subscription how many messages were ever delivered, acknowledged, returned,
/// overdue and forwarded as dead letters, each under its own name.
pub proof fn law_metrics_tell_the_counters(
    report: MetricsReport,
    fractions: FractionTexts,
    version: Seq<char>,
    i: int,
)
    requires
        0 <= i < report.subscription_stats@.len(),
    ensures
        ({
            let all = render::metrics_text(report, fractions, version);
            let s = report.subscription_stats@[i];
            let c = s.counters;
            &&& tells(
                all,
                counter_line("deltio_subscription_messages_pulled_total"@, s, c.pulled as int),
            )
            &&& tells(
                all,
                counter_line("deltio_subscription_messages_acked_total"@, s, c.acked as int),
            )
            &&& tells(
                all,
                counter_line("deltio_subscription_messages_nacked_total"@, s, c.nacked as int),
            )
            &&& tells(
                all,
                counter_line("deltio_subscription_messages_expired_total"@, s, c.expired as int),
            )
            &&& tells(
                all,
                counter_line(
                    "deltio_subscription_messages_dead_lettered_total"@,
                    s,
                    c.dead_lettered as int,
                ),
            )
        }),
{
    let stats = report.subscription_stats@;
    let s = stats[i];
    let c = s.counters;
    let pulled = counter_line("deltio_subscription_messages_pulled_total"@, s, c.pulled as int);
    let acked = counter_line("deltio_subscription_messages_acked_total"@, s, c.acked as int);
    let nacked = counter_line("deltio_subscription_messages_nacked_total"@, s, c.nacked as int);
    let expired = counter_line("deltio_subscription_messages_expired_total"@, s, c.expired as int);
    let dead = counter_line(
        "deltio_subscription_messages_dead_lettered_total"@,
        s,
        c.dead_lettered as int,
    );
    lemma_counter_part(stats, i, pulled);
    lemma_counter_part(stats, i, acked);
    lemma_counter_part(stats, i, nacked);
    lemma_counter_part(stats, i, expired);
    lemma_counter_part(stats, i, dead);
    lemma_part(report, fractions, version, pulled);
    lemma_part(report, fractions, version, acked);
    lemma_part(report, fractions, version, nacked);
    lemma_part(report, fractions, version, expired);
    lemma_part(report, fractions, version, dead);
}

proof fn lemma_subscription_family_tells(
    name: Seq<char>,
    metric_type: Seq<char>,
    help: Seq<char>,
    stats: Seq<SubscriptionStats>,
    figure: SubscriptionFigure,
    i: int,
)
    requires
        0 <= i < stats.len(),
    ensures
        tells(
            render::subscription_family(name, metric_type, help, stats, figure),
            subscription_line(
                name,
                stats[i],
                text::decimal(render::subscription_figure(stats[i], figure) as nat),
            ),
        ),
{
    lemma_subscription_samples(name, stats, figure, i);
    lemma_tells(
        encoder::family_text(name, metric_type, help),
        render::subscription_samples(name, stats, figure),
        subscription_line(
            name,
            stats[i],
            text::decimal(render::subscription_figure(stats[i], figure) as nat),
        ),
    );
}

/// The figures on the subscriptions stand in what is told of them.
proof fn lemma_subscription_part(
    stats: Seq<SubscriptionStats>,
    ages: Seq<String>,
    i: int,
    line: Seq<char>,
)
    requires
        0 <= i < stats.len(),
        ({
            let s = stats[i];
            ||| line == subscription_line(
                "deltio_subscription_backlog_messages"@,
                s,
                text::decimal(s.backlog_messages_count as u64 as nat),
            )
            ||| line == subscription_line(
                "deltio_subscription_outstanding_messages"@,
                s,
                text::decimal(s.outstanding_messages_count as u64 as nat),
            )
            ||| line == subscription_line(
                "deltio_subscription_retry_messages"@,
                s,
                text::decimal(s.retry_messages_count as u64 as nat),
            )
            ||| line == subscription_line(
                "deltio_subscription_oldest_unacked_message_age_seconds"@,
                s,
                ages[i]@,
            )
        }),
    ensures
        tells(render::subscriptions_text(stats, ages), line),
{
    let gauge = "gauge"@;
    let backlog = "deltio_subscription_backlog_messages"@;
    let backlog_help = "Number of messages in the subscription backlog waiting to be delivered."@;
    let outstanding = "deltio_subscription_outstanding_messages"@;
    let outstanding_help = "Number of messages delivered but not yet acknowledged."@;
    let retry = "deltio_subscription_retry_messages"@;
    let retry_help = "Number of messages waiting on retry backoff before redelivery."@;
    let age = "deltio_subscription_oldest_unacked_message_age_seconds"@;
    let age_help = "Age in seconds of the oldest unacknowledged message."@;
    lemma_subscription_family_tells(
        backlog,
        gauge,
        backlog_help,
        stats,
        SubscriptionFigure::Backlog,
        i,
    );
    lemma_subscription_family_tells(
        outstanding,
        gauge,
        outstanding_help,
        stats,
        SubscriptionFigure::Outstanding,
        i,
    );
    lemma_subscription_family_tells(retry, gauge, retry_help, stats, SubscriptionFigure::Retry, i);
    lemma_age_samples(age, stats, ages, i);
    lemma_one_of_five(
        render::subscription_family(
            backlog,
            gauge,
            backlog_help,
            stats,
            SubscriptionFigure::Backlog,
        ),
        render::subscription_family(
            outstanding,
            gauge,
            outstanding_help,
            stats,
            SubscriptionFigure::Outstanding,
        ),
        render::subscription_family(retry, gauge, retry_help, stats, SubscriptionFigure::Retry),
        encoder::family_text(age, gauge, age_help),
        render::age_samples(age, stats, ages),
        line,
    );
}

/// The metrics tell of each subscription how many messages can be delivered, are outstanding and wait
/// for their retry, and how old the oldest outstanding one is, each under its own name.
pub proof fn law_metrics_tell_of_each_subscription(
    report: MetricsReport,
    fractions: FractionTexts,
    version: Seq<char>,
    i: int,
)
    requires
        0 <= i < report.subscription_stats@.len(),
    ensures
        ({
            let all = render::metrics_text(report, fractions, version);
            let s = report.subscription_stats@[i];
            &&& tells(
                all,
                subscription_line(
                    "deltio_subscription_backlog_messages"@,
                    s,
                    text::decimal(s.backlog_messages_count as u64 as nat),
                ),
            )
            &&& tells(
                all,
                subscription_line(
                    "deltio_subscription_outstanding_messages"@,
                    s,
                    text::decimal(s.outstanding_messages_count as u64 as nat),
                ),
            )
            &&& tells(
                all,
                subscription_line(
                    "deltio_subscription_retry_messages"@,
                    s,
                    text::decimal(s.retry_messages_count as u64 as nat),
                ),
            )
            &&& tells(
                all,
                subscription_line(
                    "deltio_subscription_oldest_unacked_message_age_seconds"@,
                    s,
                    fractions.oldest_unacked_ages@[i]@,
                ),
            )
        }),
{
    let stats = report.subscription_stats@;
    let ages = fractions.oldest_unacked_ages@;
    let s = stats[i];
    let backlog = subscription_line(
        "deltio_subscription_backlog_messages"@,
        s,
        text::decimal(s.backlog_messages_count as u64 as nat),
    );
    let outstanding = subscription_line(
        "deltio_subscription_outstanding_messages"@,
        s,
        text::decimal(s.outstanding_messages_count as u64 as nat),
    );
    let retry = subscription_line(
        "deltio_subscription_retry_messages"@,
        s,
        text::decimal(s.retry_messages_count as u64 as nat),
    );
    let age = subscription_line(
        "deltio_subscription_oldest_unacked_message_age_seconds"@,
        s,
        ages[i]@,
    );
    lemma_subscription_part(stats, ages, i, backlog);
    lemma_subscription_part(stats, ages, i, outstanding);
    lemma_subscription_part(stats, ages, i, retry);
    lemma_subscription_part(stats, ages, i, age);
    lemma_part(report, fractions, version, backlog);
    lemma_part(report, fractions, version, outstanding);
    lemma_part(report, fractions, version, retry);
    lemma_part(report, fractions, version, age);
}

/// The line of the pushes that took no longer than the bound.
pub open spec fn bucket_line(bound: Seq<char>, count: int) -> Seq<char> {
    encoder::labeled_text(
        "deltio_push_dispatch_duration_seconds_bucket"@,
        seq![("le"@, bound)],
        text::decimal(count as nat),
    )
}

proof fn lemma_bucket_samples(buckets: Seq<u64>, n: int, i: int)
    requires
        0 <= i < n,
    ensures
        tells(
            render::bucket_samples(buckets, n),
            bucket_line(render::bound_text(i), render::cumulative(buckets, i) as int),
        ),
    decreases n,
{
    let line = bucket_line(render::bound_text(i), render::cumulative(buckets, i) as int);
    if i < n - 1 {
        lemma_bucket_samples(buckets, n - 1, i);
    } else {
        lemma_tells_itself(line);
    }
    lemma_tells(
        render::bucket_samples(buckets, n - 1),
        bucket_line(render::bound_text(n - 1), render::cumulative(buckets, n - 1) as int),
        line,
    );
}

/// The metrics tell how many pushes succeeded and failed, how many took no longer than each of the
/// bounds, how many there were, and how long they took together.
pub proof fn law_metrics_tell_of_the_pushes(
    report: MetricsReport,
    fractions: FractionTexts,
    version: Seq<char>,
    i: int,
)
    requires
        0 <= i < DURATION_BUCKETS,
        metrics::bucket_sum(report.push.duration_buckets@, i + 1) <= u64::MAX,
    ensures
        ({
            let all = render::metrics_text(report, fractions, version);
            let push = report.push;
            &&& tells(
                all,
                encoder::labeled_text(
                    "deltio_push_dispatch_total"@,
                    seq![("result"@, "success"@)],
                    text::decimal(push.dispatch_success as nat),
                ),
            )
            &&& tells(
                all,
                encoder::labeled_text(
                    "deltio_push_dispatch_total"@,
                    seq![("result"@, "failure"@)],
                    text::decimal(push.dispatch_failure as nat),
                ),
            )
            &&& tells(
                all,
                bucket_line(
                    render::bound_text(i),
                    metrics::bucket_sum(push.duration_buckets@, i + 1) as int,
                ),
            )
            &&& tells(
                all,
                encoder::sample_text(
                    "deltio_push_dispatch_duration_seconds_count"@,
                    text::decimal(push.duration_count as nat),
                ),
            )
            &&& tells(
                all,
                encoder::sample_text(
                    "deltio_push_dispatch_duration_seconds_sum"@,
                    fractions.push_duration_sum@,
                ),
            )
        }),
{
    let push = report.push;
    let sum = fractions.push_duration_sum@;
    let head = encoder::family_text(
        "deltio_push_dispatch_total"@,
        "counter"@,
        "Total number of HTTP push dispatches, by result."@,
    );
    let success = encoder::labeled_text(
        "deltio_push_dispatch_total"@,
        seq![("result"@, "success"@)],
        text::decimal(push.dispatch_success as nat),
    );
    let failure = encoder::labeled_text(
        "deltio_push_dispatch_total"@,
        seq![("result"@, "failure"@)],
        text::decimal(push.dispatch_failure as nat),
    );
    let durations = encoder::family_text(
        "deltio_push_dispatch_duration_seconds"@,
        "histogram"@,
        "Duration of HTTP push dispatches in seconds."@,
    );
    let buckets = render::bucket_samples(push.duration_buckets@, DURATION_BUCKETS as int);
    let sum_line = encoder::sample_text("deltio_push_dispatch_duration_seconds_sum"@, sum);
    let count_line = encoder::sample_text(
        "deltio_push_dispatch_duration_seconds_count"@,
        text::decimal(push.duration_count as nat),
    );
    let bucket = bucket_line(
        render::bound_text(i),
        metrics::bucket_sum(push.duration_buckets@, i + 1) as int,
    );
    let front = head + success + failure + durations + buckets;
    lemma_bucket_samples(push.duration_buckets@, DURATION_BUCKETS as int, i);
    lemma_tells_itself(success);
    lemma_tells_itself(failure);
    lemma_tells_itself(sum_line);
    lemma_tells_itself(count_line);
    lemma_one_of_five(head, success, failure, durations, buckets, success);
    lemma_one_of_five(head, success, failure, durations, buckets, failure);
    lemma_one_of_five(head, success, failure, durations, buckets, bucket);
    lemma_tells(front, sum_line, success);
    lemma_tells(front, sum_line, failure);
    lemma_tells(front, sum_line, bucket);
    lemma_tells(front, sum_line, sum_line);
    lemma_tells(front + sum_line, count_line, success);
    lemma_tells(front + sum_line, count_line, failure);
    lemma_tells(front + sum_line, count_line, bucket);
    lemma_tells(front + sum_line, count_line, sum_line);
    lemma_tells(front + sum_line, count_line, count_line);
    assert(render::push_text(push, sum) == front + sum_line + count_line);
    lemma_part(report, fractions, version, success);
    lemma_part(report, fractions, version, failure);
    lemma_part(report, fractions, version, bucket);
    lemma_part(report, fractions, version, sum_line);
    lemma_part(report, fractions, version, count_line);
}

/// The metrics tell how many topics and subscriptions there are, when the server started, and its
/// version.
pub proof fn law_metrics_tell_of_the_server(
    report: MetricsReport,
    fractions: FractionTexts,
    version: Seq<char>,
)
    ensures
        ({
            let all = render::metrics_text(report, fractions, version);
            &&& tells(
                all,
                encoder::sample_text("deltio_topics"@, text::decimal(report.topics_total as nat)),
            )
            &&& tells(
                all,
                encoder::sample_text(
                    "deltio_subscriptions"@,
                    text::decimal(report.subscriptions_total as nat),
                ),
            )
            &&& tells(
                all,
                encoder::sample_text(
                    "deltio_start_time_seconds"@,
                    text::decimal(report.start_time_seconds as nat),
                ),
            )
            &&& tells(
                all,
                encoder::labeled_text(
                    "deltio_build_info"@,
                    seq![("version"@, version)],
                    text::decimal(1),
                ),
            )
        }),
{
    let build = encoder::labeled_text(
        "deltio_build_info"@,
        seq![("version"@, version)],
        text::decimal(1),
    );
    let start = encoder::sample_text(
        "deltio_start_time_seconds"@,
        text::decimal(report.start_time_seconds as nat),
    );
    let topics = encoder::sample_text("deltio_topics"@, text::decimal(report.topics_total as nat));
    let subscriptions = encoder::sample_text(
        "deltio_subscriptions"@,
        text::decimal(report.subscriptions_total as nat),
    );
    let a = encoder::family_text(
        "deltio_build_info"@,
        "gauge"@,
        "Build information; the value is always 1."@,
    );
    let b = encoder::family_text(
        "deltio_start_time_seconds"@,
        "gauge"@,
        "Unix timestamp at which the metrics service started."@,
    );
    let c = encoder::family_text("deltio_topics"@, "gauge"@, "Number of topics."@);
    let d = encoder::family_text("deltio_subscriptions"@, "gauge"@, "Number of subscriptions."@);
    let front = a + build + b + start + c;
    lemma_tells_itself(build);
    lemma_tells_itself(start);
    lemma_tells_itself(topics);
    lemma_tells_itself(subscriptions);
    lemma_one_of_five(a, build, b, start, c, build);
    lemma_one_of_five(a, build, b, start, c, start);
    let none = Seq::<char>::empty();
    let all = front + topics + d + subscriptions + none;
    lemma_one_of_five(front, topics, d, subscriptions, none, build);
    lemma_one_of_five(front, topics, d, subscriptions, none, start);
    lemma_one_of_five(front, topics, d, subscriptions, none, topics);
    lemma_one_of_five(front, topics, d, subscriptions, none, subscriptions);
    assert(render::process_text(report, version) =~= all);
    lemma_part(report, fractions, version, build);
    lemma_part(report, fractions, version, start);
    lemma_part(report, fractions, version, topics);
    lemma_part(report, fractions, version, subscriptions);
}

} // verus!
