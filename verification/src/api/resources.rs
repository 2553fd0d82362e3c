//! What the server holds, as it is given to clients.
use vstd::prelude::*;

use crate::api::proto::{
    DeadLetterPolicyProto, DurationProto, OidcToken, PubsubMessage, PushConfigProto,
    ReceivedMessage, RetryPolicyProto, SubscriptionProto, TimestampProto, TopicProto,
};
use crate::collections::StringMap;
use crate::message_data;
use crate::message_data::bytes_to_vec;
use crate::subscriptions::ack::{Delivery, PulledMessage};
use crate::subscriptions::info::{PushConfig, SubscriptionInfo};
use crate::subscriptions::outstanding;
use crate::subscriptions::policies::{DeadLetterPolicy, RetryPolicy};
use crate::subscriptions::subscription_name;
use crate::text;
use crate::time::{Duration, SystemTime};
use crate::topics::topic::TopicInfo;
use crate::topics::topic_name;
use crate::topics::topic_name::{TopicName, TopicNameView};

verus! {

/// Whether the timestamp is that of the time: whole seconds since the Unix epoch, rounded down, and
/// the nanoseconds after that second.
pub open spec fn is_timestamp_of(t: TimestampProto, nanos: int) -> bool {
    t.seconds == nanos / 1_000_000_000 && t.nanos == nanos % 1_000_000_000
}

/// The timestamp of a time.
fn timestamp(time: SystemTime) -> (t: TimestampProto)
    ensures
        is_timestamp_of(t, time@),
{
    TimestampProto { seconds: time.secs(), nanos: time.nanos() as i32 }
}

/// Whether the span is the one of this many nanoseconds.
pub open spec fn is_span_of(d: DurationProto, nanos: nat) -> bool {
    d.seconds == (nanos / 1_000_000_000) as u64 as i64 && d.nanos == nanos % 1_000_000_000
}

/// A span as it is given to clients.
fn span(d: Duration) -> (p: DurationProto)
    ensures
        is_span_of(p, d@),
{
    DurationProto { seconds: d.as_secs() as i64, nanos: d.subsec_nanos() as i32 }
}

/// Whether the message is the delivered one as it is given to clients.
pub open spec fn is_received(r: ReceivedMessage, d: Delivery) -> bool {
    let m = d.message;
    &&& r.ack_id@ == text::decimal(d.ack_id as nat)
    &&& r.delivery_attempt == d.delivery_attempt
    &&& r.message.publish_time matches Some(t) && is_timestamp_of(t, m.published_at@)
    &&& r.message.ordering_key@ == (match m.ordering_key {
        Some(k) => k@,
        None => Seq::empty(),
    })
    &&& r.message.message_id@ == text::decimal(m.id.value as nat)
    &&& r.message.data@ == message_data::bytes_held(m.data)
    &&& r.message.attributes@ == (match m.attributes {
        Some(a) => a@,
        None => Map::<Seq<char>, Seq<char>>::empty(),
    })
}

/// A delivered message as it is given to clients.
pub fn map_to_received_message(m: &PulledMessage) -> (r: ReceivedMessage)
    ensures
        is_received(r, m@),
{
    let message = m.message();
    let ordering_key = match &message.ordering_key {
        Some(k) => k.clone(),
        None => String::new(),
    };
    let attributes = match &message.attributes {
        Some(a) => a.clone(),
        None => StringMap::new(),
    };
    ReceivedMessage {
        ack_id: m.ack_id().to_string(),
        delivery_attempt: m.delivery_attempt() as i32,
        message: PubsubMessage {
            publish_time: Some(timestamp(message.published_at)),
            ordering_key,
            message_id: message.id.to_string(),
            data: bytes_to_vec(&message.data),
            attributes,
        },
    }
}

/// Whether the messages are the delivered ones as they are given to clients.
pub open spec fn are_received(rs: Seq<ReceivedMessage>, ds: Seq<Delivery>) -> bool {
    &&& rs.len() == ds.len()
    &&& forall|i: int| 0 <= i < rs.len() ==> is_received(#[trigger] rs[i], ds[i])
}

/// Delivered messages as they are given to clients.
pub fn map_to_received_messages(messages: &Vec<PulledMessage>) -> (rs: Vec<ReceivedMessage>)
    ensures
        are_received(
            rs@,
            outstanding::deliveries(messages@),
        ),
{
    let mut rs: Vec<ReceivedMessage> = Vec::new();
    let mut i: usize = 0;
    while i < messages.len()
        invariant
            i <= messages@.len(),
            rs@.len() == i,
            forall|j: int| 0 <= j < i ==> is_received(#[trigger] rs@[j], messages@[j]@),
        decreases messages@.len() - i,
    {
        rs.push(map_to_received_message(&messages[i]));
        i += 1;
    }
    rs
}

/// Whether the push config is this one as it is given to clients.
pub open spec fn is_push_config_of(p: PushConfigProto, c: PushConfig) -> bool {
    &&& p.push_endpoint@ == c.endpoint@
    &&& p.attributes@ == (match c.attributes {
        Some(a) => a@,
        None => Map::<Seq<char>, Seq<char>>::empty(),
    })
    &&& match c.oidc_token {
        Some(t) => p.oidc_token matches Some(o) && o.audience == t.audience
            && o.service_account_email == t.service_account_email,
        None => p.oidc_token is None,
    }
}

/// A push config as it is given to clients.
fn push_config_proto(c: &PushConfig) -> (p: PushConfigProto)
    ensures
        is_push_config_of(p, *c),
{
    let attributes = match &c.attributes {
        Some(a) => a.clone(),
        None => StringMap::new(),
    };
    let oidc_token = match &c.oidc_token {
        Some(t) => Some(
            OidcToken {
                service_account_email: t.service_account_email.clone(),
                audience: t.audience.clone(),
            },
        ),
        None => None,
    };
    PushConfigProto { push_endpoint: c.endpoint.clone(), attributes, oidc_token }
}

/// Whether the retry policy is this one as it is given to clients.
pub open spec fn is_retry_policy_of(p: RetryPolicyProto, r: RetryPolicy) -> bool {
    &&& p.minimum_backoff matches Some(d) && is_span_of(d, r.minimum_backoff@)
    &&& p.maximum_backoff matches Some(d) && is_span_of(d, r.maximum_backoff@)
}

/// Whether the dead letter policy is this one as it is given to clients.
pub open spec fn is_dead_letter_policy_of(p: DeadLetterPolicyProto, d: DeadLetterPolicy) -> bool {
    &&& p.dead_letter_topic@ == topic_name::topic_name_text(d.dead_letter_topic@)
    &&& p.max_delivery_attempts == d.max_delivery_attempts
}

/// The topic of a subscription, or the mark of a deleted one.
pub open spec fn topic_view(topic: Option<TopicName>) -> TopicNameView {
    match topic {
        Some(t) => t@,
        None => TopicNameView::Deleted,
    }
}

/// Whether the subscription is this one as it is given to clients.
pub open spec fn is_resource_of(
    p: SubscriptionProto,
    info: SubscriptionInfo,
    topic: Option<TopicName>,
) -> bool {
    &&& p.name@ == subscription_name::subscription_name_text(info.name@)
    &&& p.topic@ == topic_name::topic_name_text(topic_view(topic))
    &&& match info.push_config {
        Some(c) => p.push_config matches Some(x) && is_push_config_of(x, c),
        None => p.push_config is None,
    }
    &&& p.ack_deadline_seconds == (info.ack_deadline@ / 1_000_000_000) as u64 as i32
    &&& match info.message_retention_duration {
        Some(d) => p.message_retention_duration matches Some(x) && is_span_of(x, d@),
        None => p.message_retention_duration is None,
    }
    &&& p.enable_message_ordering == info.enable_message_ordering
    &&& p.filter@ == (match info.filter {
        Some(f) => f@,
        None => Seq::empty(),
    })
    &&& match info.dead_letter_policy {
        Some(d) => p.dead_letter_policy matches Some(x) && is_dead_letter_policy_of(x, d),
        None => p.dead_letter_policy is None,
    }
    &&& match info.retry_policy {
        Some(r) => p.retry_policy matches Some(x) && is_retry_policy_of(x, r),
        None => p.retry_policy is None,
    }
    &&& p.detached == info.detached
    &&& p.enable_exactly_once_delivery == info.enable_exactly_once_delivery
}

/// A subscription as it is given to clients.
pub fn map_to_subscription_resource(info: &SubscriptionInfo, topic: &Option<TopicName>) -> (p:
    SubscriptionProto)
    ensures
        is_resource_of(p, *info, *topic),
{
    let topic_name = match topic {
        Some(t) => t.to_string(),
        None => TopicName::deleted().to_string(),
    };
    let push_config = match &info.push_config {
        Some(c) => Some(push_config_proto(c)),
        None => None,
    };
    let message_retention_duration = match info.message_retention_duration {
        Some(d) => Some(span(d)),
        None => None,
    };
    let filter = match &info.filter {
        Some(f) => f.clone(),
        None => String::new(),
    };
    let dead_letter_policy = match &info.dead_letter_policy {
        Some(d) => Some(
            DeadLetterPolicyProto {
                dead_letter_topic: d.dead_letter_topic.to_string(),
                max_delivery_attempts: d.max_delivery_attempts,
            },
        ),
        None => None,
    };
    let retry_policy = match &info.retry_policy {
        Some(r) => Some(
            RetryPolicyProto {
                minimum_backoff: Some(span(r.minimum_backoff)),
                maximum_backoff: Some(span(r.maximum_backoff)),
            },
        ),
        None => None,
    };
    SubscriptionProto {
        name: info.name.to_string(),
        topic: topic_name,
        push_config,
        ack_deadline_seconds: info.ack_deadline.as_secs() as i32,
        message_retention_duration,
        enable_message_ordering: info.enable_message_ordering,
        filter,
        dead_letter_policy,
        retry_policy,
        detached: info.detached,
        enable_exactly_once_delivery: info.enable_exactly_once_delivery,
    }
}

/// Whether the topic is this one as it is given to clients.
pub open spec fn is_topic_resource_of(p: TopicProto, info: TopicInfo) -> bool {
    &&& p.name@ == topic_name::topic_name_text(info.name@)
    &&& p.labels@ == info.labels@
    &&& match info.message_retention_duration {
        Some(d) => p.message_retention_duration matches Some(x) && is_span_of(x, d@),
        None => p.message_retention_duration is None,
    }
}

/// A topic as it is given to clients.
pub fn map_to_topic_resource(info: &TopicInfo) -> (p: TopicProto)
    ensures
        is_topic_resource_of(p, *info),
{
    let message_retention_duration = match info.message_retention_duration {
        Some(d) => Some(span(d)),
        None => None,
    };
    TopicProto {
        name: info.name.to_string(),
        labels: info.labels.clone(),
        message_retention_duration,
    }
}

} // verus!
