//! Messages published to a topic.
use bytes::Bytes;
use std::sync::Arc;
use vstd::prelude::*;

use crate::collections::StringMap;
use crate::text;
use crate::time::{Instant, SystemTime};

verus! {

/// A message published to a topic.
#[derive(Debug)]
pub struct TopicMessage {
    pub id: MessageId,
    pub published_at: SystemTime,
    /// The reading of the monotonic clock at publication, by which messages age.
    pub published_at_instant: Instant,
    pub data: Bytes,
    pub attributes: Option<StringMap>,
    /// Messages of one key are delivered in order by subscriptions that ask for it.
    pub ordering_key: Option<String>,
}

impl TopicMessage {
    /// A message that was not published yet, made at `now`.
    pub fn new(data: Bytes, attributes: Option<StringMap>, now: Instant) -> (m: TopicMessage)
        ensures
            m.data == data,
            m.attributes == attributes,
            m.id.value == 0,
            m.published_at@ == 0,
            m.published_at_instant == now,
            m.ordering_key is None,
    {
        TopicMessage {
            id: MessageId { value: 0 },
            published_at: SystemTime::unix_epoch(),
            published_at_instant: now,
            data,
            attributes,
            ordering_key: None,
        }
    }

    /// Sets what publication decides.
    pub fn publish(&mut self, id: MessageId, published_at: SystemTime, instant: Instant)
        ensures
            final(self).id == id,
            final(self).published_at == published_at,
            final(self).published_at_instant == instant,
            final(self).data == old(self).data,
            final(self).attributes == old(self).attributes,
            final(self).ordering_key == old(self).ordering_key,
    {
        self.id = id;
        self.published_at = published_at;
        self.published_at_instant = instant;
    }

    /// The ordering key of the message.
    pub open spec fn key(&self) -> Option<Seq<char>> {
        match self.ordering_key {
            Some(key) => Some(key@),
            None => None,
        }
    }
}

/// `Arc::clone`: another handle on the same message.
#[verifier::external_body]
pub(crate) fn share(message: &Arc<TopicMessage>) -> (handle: Arc<TopicMessage>)
    ensures
        handle == *message,
{
    Arc::clone(message)
}

/// The id of a message.
#[derive(Debug, PartialEq, Eq, Structural, Hash, Copy, Clone)]
pub struct MessageId {
    pub value: u64,
}

/// The value of a message id: the topic's number above the message's number in the topic.
pub open spec fn message_id_value(topic_internal_id: u32, topic_local_message_id: u32) -> int {
    topic_internal_id * 0x1_0000_0000 + topic_local_message_id
}

impl Default for MessageId {
    fn default() -> (id: MessageId)
        ensures
            id.value == 0,
    {
        MessageId { value: 0 }
    }
}

impl MessageId {
    /// The id of the message with this number in the topic with this number.
    pub fn new(topic_internal_id: u32, topic_local_message_id: u32) -> (id: MessageId)
        ensures
            id.value == message_id_value(topic_internal_id, topic_local_message_id),
    {
        let high: u64 = topic_internal_id as u64;
        let low: u64 = topic_local_message_id as u64;
        assert(high << 32 | low == high * 0x1_0000_0000 + low) by (bit_vector)
            requires
                high <= 0xffff_ffff,
                low <= 0xffff_ffff,
        ;
        MessageId { value: (high << 32) | low }
    }

    /// The id in decimal digits.
    pub fn to_string(&self) -> (text: String)
        ensures
            text@ == text::decimal(self.value as nat),
    {
        text::decimal_string(self.value)
    }
}

/// Two messages have the same id only where both their topics and their numbers are the same.
pub proof fn law_message_ids_are_unique(topic1: u32, local1: u32, topic2: u32, local2: u32)
    requires
        message_id_value(topic1, local1) == message_id_value(topic2, local2),
    ensures
        topic1 == topic2,
        local1 == local2,
{
}

} // verus!
