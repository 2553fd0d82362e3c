//! Figures on a topic.
use vstd::prelude::*;

use crate::topics::topic_name::TopicName;

verus! {

/// Figures on a topic.
#[derive(Debug, Clone)]
pub struct TopicStats {
    /// The topic.
    pub topic_name: TopicName,
    /// How many messages the topic retains. Topics hand messages on to their subscriptions and
    /// retain none, so this is zero in the figures on a topic.
    pub message_count: usize,
    /// How many subscriptions are attached to the topic.
    pub subscription_count: usize,
    /// How many messages were published to the topic.
    pub published_count: u64,
    /// How many bytes of message data were published to the topic.
    pub published_bytes: u64,
}

impl TopicStats {
    /// The figures.
    pub fn new(
        topic_name: TopicName,
        message_count: usize,
        subscription_count: usize,
        published_count: u64,
        published_bytes: u64,
    ) -> (s: TopicStats)
        ensures
            s == (TopicStats {
                topic_name,
                message_count,
                subscription_count,
                published_count,
                published_bytes,
            }),
    {
        TopicStats {
            topic_name,
            message_count,
            subscription_count,
            published_count,
            published_bytes,
        }
    }
}

} // verus!
