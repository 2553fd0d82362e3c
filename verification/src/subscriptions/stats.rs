//! Figures on a subscription.
use vstd::prelude::*;

use crate::subscriptions::subscription_name::SubscriptionName;
use crate::time::Duration;
use crate::topics::topic_name::TopicName;

verus! {

/// Counts of what happened to the messages of a subscription. They never go down.
#[derive(Debug, PartialEq, Eq, Structural, Copy, Clone)]
pub struct SubscriptionCounters {
    /// Messages delivered to consumers.
    pub pulled: u64,
    /// Messages acknowledged.
    pub acked: u64,
    /// Messages returned by a consumer.
    pub nacked: u64,
    /// Messages delivered again because their deadline came.
    pub expired: u64,
    /// Messages forwarded to a dead letter topic.
    pub dead_lettered: u64,
}

impl Default for SubscriptionCounters {
    fn default() -> (c: SubscriptionCounters)
        ensures
            c == no_counts(),
    {
        SubscriptionCounters { pulled: 0, acked: 0, nacked: 0, expired: 0, dead_lettered: 0 }
    }
}

/// Nothing happened yet.
pub open spec fn no_counts() -> SubscriptionCounters {
    SubscriptionCounters { pulled: 0, acked: 0, nacked: 0, expired: 0, dead_lettered: 0 }
}

/// A count that went up by `n`, as far as it can be held.
pub open spec fn counted(count: u64, n: nat) -> u64 {
    if count + n <= u64::MAX {
        (count + n) as u64
    } else {
        u64::MAX
    }
}

/// The count after `n` more.
pub fn count_up(count: u64, n: usize) -> (c: u64)
    ensures
        c == counted(count, n as nat),
{
    count.saturating_add(n as u64)
}

/// Figures on a subscription.
#[derive(Debug, Clone)]
pub struct SubscriptionStats {
    /// The subscription.
    pub subscription_name: SubscriptionName,
    /// The topic that it is attached to.
    pub topic_name: TopicName,
    /// How many messages are delivered and not acknowledged.
    pub outstanding_messages_count: usize,
    /// How many messages can be delivered. Those that wait for their retry are not among them.
    pub backlog_messages_count: usize,
    /// How many messages wait for their retry.
    pub retry_messages_count: usize,
    /// The age of the oldest message that is delivered and not acknowledged; zero without one.
    pub oldest_unacked_age: Duration,
    /// Counts of what happened.
    pub counters: SubscriptionCounters,
}

impl SubscriptionStats {
    /// The figures.
    pub fn new(
        subscription_name: SubscriptionName,
        topic_name: TopicName,
        outstanding_messages_count: usize,
        backlog_messages_count: usize,
        retry_messages_count: usize,
        oldest_unacked_age: Duration,
        counters: SubscriptionCounters,
    ) -> (s: SubscriptionStats)
        ensures
            s == (SubscriptionStats {
                subscription_name,
                topic_name,
                outstanding_messages_count,
                backlog_messages_count,
                retry_messages_count,
                oldest_unacked_age,
                counters,
            }),
    {
        SubscriptionStats {
            subscription_name,
            topic_name,
            outstanding_messages_count,
            backlog_messages_count,
            retry_messages_count,
            oldest_unacked_age,
            counters,
        }
    }
}

} // verus!
