//! The messages of the Pub/Sub interface.
use vstd::prelude::*;

use crate::collections::StringMap;

verus! {

/// A span of time.
#[derive(Debug, PartialEq, Eq, Structural, Copy, Clone)]
pub struct DurationProto {
    pub seconds: i64,
    pub nanos: i32,
}

/// A time of the wall clock.
#[derive(Debug, PartialEq, Eq, Structural, Copy, Clone)]
pub struct TimestampProto {
    pub seconds: i64,
    pub nanos: i32,
}

/// The token that pushed requests carry.
#[derive(Debug)]
pub struct OidcToken {
    pub service_account_email: String,
    pub audience: String,
}

/// Where messages are pushed.
#[derive(Debug)]
pub struct PushConfigProto {
    pub push_endpoint: String,
    pub attributes: StringMap,
    pub oidc_token: Option<OidcToken>,
}

/// How long redelivery of a message waits.
#[derive(Debug)]
pub struct RetryPolicyProto {
    pub minimum_backoff: Option<DurationProto>,
    pub maximum_backoff: Option<DurationProto>,
}

/// Where messages go that were delivered too often.
#[derive(Debug)]
pub struct DeadLetterPolicyProto {
    pub dead_letter_topic: String,
    pub max_delivery_attempts: i32,
}

/// A subscription.
#[derive(Debug)]
pub struct SubscriptionProto {
    pub name: String,
    pub topic: String,
    pub push_config: Option<PushConfigProto>,
    pub ack_deadline_seconds: i32,
    pub message_retention_duration: Option<DurationProto>,
    pub enable_message_ordering: bool,
    pub filter: String,
    pub dead_letter_policy: Option<DeadLetterPolicyProto>,
    pub retry_policy: Option<RetryPolicyProto>,
    pub detached: bool,
    pub enable_exactly_once_delivery: bool,
}

/// A topic.
#[derive(Debug)]
pub struct TopicProto {
    pub name: String,
    pub labels: StringMap,
    pub message_retention_duration: Option<DurationProto>,
}

/// A change of a topic.
#[derive(Debug)]
pub struct UpdateTopicRequest {
    pub topic: Option<TopicProto>,
    /// The paths of the fields to change.
    pub update_mask: Option<Vec<String>>,
}

/// A page of the topics of a project.
#[derive(Debug)]
pub struct ListTopicsRequest {
    pub project: String,
    pub page_size: i32,
    pub page_token: String,
}

/// A page of topics.
#[derive(Debug)]
pub struct ListTopicsResponse {
    pub topics: Vec<TopicProto>,
    pub next_page_token: String,
}

/// A page of what belongs to a topic.
#[derive(Debug)]
pub struct ListOfTopicRequest {
    pub topic: String,
    pub page_size: i32,
    pub page_token: String,
}

/// A page of names.
#[derive(Debug)]
pub struct NamesPage {
    pub names: Vec<String>,
    pub next_page_token: String,
}

/// A message.
#[derive(Debug)]
pub struct PubsubMessage {
    pub data: Vec<u8>,
    pub attributes: StringMap,
    pub message_id: String,
    pub publish_time: Option<TimestampProto>,
    pub ordering_key: String,
}

/// A message that was delivered.
#[derive(Debug)]
pub struct ReceivedMessage {
    pub ack_id: String,
    pub message: PubsubMessage,
    pub delivery_attempt: i32,
}

/// A change of a subscription.
#[derive(Debug)]
pub struct UpdateSubscriptionRequest {
    pub subscription: Option<SubscriptionProto>,
    /// The paths of the fields to change.
    pub update_mask: Option<Vec<String>>,
}

/// A page of the subscriptions of a project.
#[derive(Debug)]
pub struct ListSubscriptionsRequest {
    pub project: String,
    pub page_size: i32,
    pub page_token: String,
}

/// A page of subscriptions.
#[derive(Debug)]
pub struct ListSubscriptionsResponse {
    pub subscriptions: Vec<SubscriptionProto>,
    pub next_page_token: String,
}

/// New deadlines for delivered messages.
#[derive(Debug)]
pub struct ModifyAckDeadlineRequest {
    pub subscription: String,
    pub ack_ids: Vec<String>,
    pub ack_deadline_seconds: i32,
}

/// An acknowledgement of delivered messages.
#[derive(Debug)]
pub struct AcknowledgeRequest {
    pub subscription: String,
    pub ack_ids: Vec<String>,
}

/// Another push config of a subscription.
#[derive(Debug)]
pub struct ModifyPushConfigRequest {
    pub subscription: String,
    pub push_config: Option<PushConfigProto>,
}

/// A request for messages.
#[derive(Debug)]
pub struct PullRequest {
    pub subscription: String,
    pub return_immediately: bool,
    pub max_messages: i32,
}

/// A request on a stream of messages.
#[derive(Debug)]
pub struct StreamingPullRequest {
    pub subscription: String,
    pub ack_ids: Vec<String>,
    pub modify_deadline_seconds: Vec<i32>,
    pub modify_deadline_ack_ids: Vec<String>,
    pub max_outstanding_messages: i64,
    pub max_outstanding_bytes: i64,
    pub protocol_version: i64,
}

/// What came of an acknowledgement on a stream.
#[derive(Debug)]
pub struct AcknowledgeConfirmation {
    pub ack_ids: Vec<String>,
    pub invalid_ack_ids: Vec<String>,
    pub unordered_ack_ids: Vec<String>,
    pub temporary_failed_ack_ids: Vec<String>,
}

/// What came of new deadlines on a stream.
#[derive(Debug)]
pub struct ModifyAckDeadlineConfirmation {
    pub ack_ids: Vec<String>,
    pub invalid_ack_ids: Vec<String>,
    pub temporary_failed_ack_ids: Vec<String>,
}

/// What a subscription promises to those who stream from it.
#[derive(Debug, PartialEq, Eq, Structural, Copy, Clone)]
pub struct SubscriptionProperties {
    pub exactly_once_delivery_enabled: bool,
    pub message_ordering_enabled: bool,
}

/// A response on a stream of messages.
#[derive(Debug)]
pub struct StreamingPullResponse {
    pub received_messages: Vec<ReceivedMessage>,
    pub acknowledge_confirmation: Option<AcknowledgeConfirmation>,
    pub modify_ack_deadline_confirmation: Option<ModifyAckDeadlineConfirmation>,
    pub subscription_properties: Option<SubscriptionProperties>,
}

} // verus!
