//! A subscription that is sent requests.
use bytes::Bytes;
use deltio::subscriptions::ack::{AckId, DeadlineModification};
use deltio::subscriptions::info::{PushConfig, SubscriptionInfo, SubscriptionUpdate};
use deltio::subscriptions::request::{SubscriptionReply, SubscriptionRequest};
use deltio::subscriptions::subscription_actor::SubscriptionActor;
use deltio::subscriptions::subscription_name::SubscriptionName;
use deltio::metrics::http::{answer, route, Route};
use deltio::time::{Duration, Instant};
use deltio::topics::topic_message::TopicMessage;
use deltio::topics::topic_name::TopicName;
use std::sync::Arc;

#[test]
fn each_request_has_its_reply() {
    let now = Instant::at(Duration::from_secs(5));
    let info = SubscriptionInfo::new_with_defaults(SubscriptionName::new("p", "s"));
    let mut actor = SubscriptionActor::start(1, info, TopicName::new("p", "t"));
    assert_eq!(actor.internal_id(), 1);

    let message = Arc::new(TopicMessage::new(Bytes::from("m"), None, now));
    match actor.receive(SubscriptionRequest::PostMessages { messages: vec![message] }, now) {
        SubscriptionReply::Posted { messages_available } => assert!(messages_available),
        other => panic!("unexpected reply {other:?}"),
    }
    let id = match actor
        .receive(SubscriptionRequest::PullMessages { max_count: 1, max_outstanding: 0 }, now)
    {
        SubscriptionReply::Pulled { result } => result.unwrap().messages[0].ack_id(),
        other => panic!("unexpected reply {other:?}"),
    };
    assert_eq!(id, AckId::new(1));
    match actor.receive(
        SubscriptionRequest::ModifyDeadline {
            deadline_modifications: vec![DeadlineModification::nack(AckId::new(9))],
        },
        now,
    ) {
        SubscriptionReply::DeadlinesModified { modified } => {
            assert_eq!(modified.outcome.invalid, vec![AckId::new(9)]);
            assert!(modified.returned.dead_letters.is_empty());
        }
        other => panic!("unexpected reply {other:?}"),
    }
    match actor.receive(SubscriptionRequest::AcknowledgeMessages { ack_ids: vec![id] }, now) {
        SubscriptionReply::Acknowledged { acknowledged } => {
            assert_eq!(acknowledged.outcome.valid, vec![id]);
        }
        other => panic!("unexpected reply {other:?}"),
    }
    let mut update = SubscriptionUpdate::default();
    update.ack_deadline = Some(Duration::from_secs(77));
    match actor.receive(SubscriptionRequest::UpdateInfo { update }, now) {
        SubscriptionReply::Info { info } => {
            assert_eq!(info.ack_deadline, Duration::from_secs(77));
        }
        other => panic!("unexpected reply {other:?}"),
    }
    let push_config = Some(PushConfig::new("http://x".to_string(), None, None));
    assert!(matches!(
        actor.receive(SubscriptionRequest::ModifyPushConfig { push_config }, now),
        SubscriptionReply::PushConfigModified
    ));
    match actor.receive(SubscriptionRequest::GetInfo, now) {
        SubscriptionReply::Info { info } => {
            assert_eq!(info.push_config.unwrap().endpoint, "http://x");
        }
        other => panic!("unexpected reply {other:?}"),
    }
    match actor.receive(SubscriptionRequest::GetStats, now) {
        SubscriptionReply::Stats { stats } => {
            assert_eq!(stats.counters.pulled, 1);
            assert_eq!(stats.counters.acked, 1);
            assert_eq!(stats.topic_name.to_string(), "projects/p/topics/t");
        }
        other => panic!("unexpected reply {other:?}"),
    }
    assert!(matches!(
        actor.receive(SubscriptionRequest::Detach, now),
        SubscriptionReply::Detached
    ));
    match actor.receive(SubscriptionRequest::Delete, now) {
        SubscriptionReply::Deleted { was_there } => assert!(was_there),
        other => panic!("unexpected reply {other:?}"),
    }
    match actor.receive(SubscriptionRequest::Delete, now) {
        SubscriptionReply::Deleted { was_there } => assert!(!was_there),
        other => panic!("unexpected reply {other:?}"),
    }
}

#[test]
fn metrics_port_has_two_pages() {
    assert_eq!(route("/metrics"), Route::Metrics);
    assert_eq!(route("/healthz"), Route::Health);
    assert_eq!(route("/health"), Route::Health);
    assert_eq!(route("/"), Route::NotFound);
}

#[test]
fn metrics_port_answers() {
    let a = answer("/metrics", "deltio_up 1\n".to_string());
    assert_eq!(a.status, 200);
    assert_eq!(a.content_type.as_deref(), Some("text/plain; version=0.0.4; charset=utf-8"));
    assert_eq!(a.body, "deltio_up 1\n");

    let a = answer("/health", String::new());
    assert_eq!(a.status, 200);
    assert_eq!(a.content_type.as_deref(), Some("text/plain; charset=utf-8"));
    assert_eq!(a.body, "ok");

    let a = answer("/metrics/", "deltio_up 1\n".to_string());
    assert_eq!(a.status, 404);
    assert_eq!(a.content_type, None);
    assert_eq!(a.body, "not found");
}

#[test]
fn nothing_changes_a_deleted_subscription() {
    let now = Instant::at(Duration::from_secs(5));
    let info = SubscriptionInfo::new_with_defaults(SubscriptionName::new("p", "s"));
    let mut actor = SubscriptionActor::start(1, info, TopicName::new("p", "t"));
    let message = Arc::new(TopicMessage::new(Bytes::from("m"), None, now));
    actor.receive(SubscriptionRequest::PostMessages { messages: vec![message.clone()] }, now);
    actor.receive(SubscriptionRequest::PullMessages { max_count: 1, max_outstanding: 0 }, now);
    actor.receive(SubscriptionRequest::Delete, now);
    assert!(actor.is_deleted());

    let mut update = SubscriptionUpdate::default();
    update.ack_deadline = Some(Duration::from_secs(77));
    match actor.receive(SubscriptionRequest::UpdateInfo { update }, now) {
        SubscriptionReply::Info { info } => {
            assert_eq!(info.ack_deadline, Duration::from_secs(10));
        }
        other => panic!("unexpected reply {other:?}"),
    }
    let push_config = Some(PushConfig::new("http://x".to_string(), None, None));
    actor.receive(SubscriptionRequest::ModifyPushConfig { push_config }, now);
    actor.receive(SubscriptionRequest::Detach, now);
    match actor.receive(SubscriptionRequest::GetInfo, now) {
        SubscriptionReply::Info { info } => {
            assert!(info.push_config.is_none());
            assert!(!info.detached);
        }
        other => panic!("unexpected reply {other:?}"),
    }
    match actor.receive(SubscriptionRequest::PostMessages { messages: vec![message] }, now) {
        SubscriptionReply::Posted { messages_available } => assert!(!messages_available),
        other => panic!("unexpected reply {other:?}"),
    }
    match actor
        .receive(SubscriptionRequest::PullMessages { max_count: 1, max_outstanding: 0 }, now)
    {
        SubscriptionReply::Pulled { result } => assert!(result.unwrap().messages.is_empty()),
        other => panic!("unexpected reply {other:?}"),
    }
    let ack_ids = vec![AckId::new(1)];
    match actor.receive(SubscriptionRequest::AcknowledgeMessages { ack_ids }, now) {
        SubscriptionReply::Acknowledged { acknowledged } => {
            assert!(acknowledged.outcome.valid.is_empty());
            assert!(acknowledged.outcome.invalid.is_empty());
        }
        other => panic!("unexpected reply {other:?}"),
    }
    let deadline_modifications = vec![DeadlineModification::nack(AckId::new(1))];
    match actor.receive(SubscriptionRequest::ModifyDeadline { deadline_modifications }, now) {
        SubscriptionReply::DeadlinesModified { modified } => {
            assert!(modified.outcome.valid.is_empty());
            assert!(modified.outcome.invalid.is_empty());
        }
        other => panic!("unexpected reply {other:?}"),
    }
}
