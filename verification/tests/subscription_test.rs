//! A topic and a subscription: how messages are delivered, acknowledged and delivered again.
use bytes::Bytes;
use deltio::api::proto::{PullRequest, StreamingPullRequest, SubscriptionProto, TopicProto};
use deltio::api::status::Code;
use deltio::api::streaming::StreamStep;
use deltio::api::subscriber::PullStep;
use deltio::collections::StringMap;
use deltio::subscriptions::ack::{DeadlineModification, PulledMessage};
use deltio::subscriptions::info::{PushConfig, SubscriptionInfo};
use deltio::subscriptions::request::{SubscriptionReply, SubscriptionRequest};
use deltio::subscriptions::stats::SubscriptionStats;
use deltio::subscriptions::subscription_actor::{PullMessagesError, SubscriptionActor};
use deltio::subscriptions::subscription_manager::SubscriptionManager;
use deltio::subscriptions::subscription_name::SubscriptionName;
use deltio::time::{Duration, Instant, SystemTime};
use deltio::topics::topic::TopicInfo;
use deltio::topics::topic_manager::TopicManager;
use deltio::topics::topic_message::TopicMessage;
use deltio::topics::topic_name::TopicName;
use deltio::Deltio;

/// A topic with a subscription, and a clock.
struct Fixture {
    topics: TopicManager,
    subscriptions: SubscriptionManager,
    now: Instant,
    wall: SystemTime,
}

impl Fixture {
    fn new(info: SubscriptionInfo) -> Fixture {
        let mut topics = TopicManager::new();
        let mut subscriptions = SubscriptionManager::new();
        let topic = TopicName::new("test", "topic");
        topics.create_topic(TopicInfo::new(topic.clone())).unwrap();
        let name = info.name.clone();
        subscriptions.create_subscription(info, topic, &topics).unwrap();
        topics.attach_at(0, name);
        Fixture {
            topics,
            subscriptions,
            now: Instant::at(Duration::from_secs(1_000)),
            wall: SystemTime::unix_epoch().plus(Duration::from_secs(1_700_000_000)),
        }
    }

    fn with_defaults() -> Fixture {
        Fixture::new(info())
    }

    /// Publishes messages. Says whether the subscription took one.
    fn publish(&mut self, messages: Vec<TopicMessage>) -> bool {
        let published = self.topics.publish_at(0, messages, self.wall, self.now).unwrap();
        let names = self.topics.at(0).all_subscriptions();
        self.subscriptions.post(&names, &published)
    }

    fn pull(&mut self, max_count: u16) -> Vec<PulledMessage> {
        self.subscriptions.pull_at(0, max_count, 0, self.now).unwrap().messages
    }

    fn stats(&self) -> SubscriptionStats {
        self.subscriptions.at(0).get_stats(self.now)
    }

    fn advance(&mut self, d: Duration) {
        self.now = self.now.plus(d);
        self.wall = self.wall.plus(d);
    }
}

fn info() -> SubscriptionInfo {
    SubscriptionInfo::new_with_defaults(SubscriptionName::new("test", "sub"))
}

fn ordered() -> Fixture {
    let mut info = info();
    info.enable_message_ordering = true;
    Fixture::new(info)
}

fn with_retention(retention: Option<Duration>) -> Fixture {
    let mut info = info();
    info.message_retention_duration = retention;
    Fixture::new(info)
}

fn filtered(filter: &str) -> Fixture {
    let mut info = info();
    info.filter = Some(filter.to_string());
    Fixture::new(info)
}

fn plain(body: &'static str) -> TopicMessage {
    TopicMessage::new(Bytes::from(body), None, Instant::at(Duration::from_secs(0)))
}

fn msg(body: &'static str, ordering_key: Option<&str>) -> TopicMessage {
    let mut m = plain(body);
    if let Some(k) = ordering_key {
        m.ordering_key = Some(k.to_string());
    }
    m
}

fn msg_with_attr(body: &'static str, key: &str, value: &str) -> TopicMessage {
    let mut attrs = StringMap::new();
    attrs.insert(key.to_string(), value.to_string());
    TopicMessage::new(Bytes::from(body), Some(attrs), Instant::at(Duration::from_secs(0)))
}

fn bodies(pulled: &[PulledMessage]) -> Vec<String> {
    pulled
        .iter()
        .map(|m| String::from_utf8(m.message().data.to_vec()).unwrap())
        .collect()
}

#[test]
fn pulling_messages() {
    let mut f = Fixture::with_defaults();

    // Publishing makes messages available.
    assert!(f.publish(vec![plain("meow"), plain("can haz cheezburger?")]));

    let pulled_messages = f.pull(10);
    assert_eq!(pulled_messages.len(), 2);
    assert_eq!(pulled_messages[0].message().data, Bytes::from("meow"));
    assert_eq!(pulled_messages[1].message().data, Bytes::from("can haz cheezburger?"));

    // Pull again, the messages should not be returned again as they are outstanding.
    assert_eq!(f.pull(10).len(), 0);
    assert_eq!(f.stats().outstanding_messages_count, 2);

    f.subscriptions
        .acknowledge_at(0, pulled_messages.iter().map(|m| m.ack_id()).collect());
    assert_eq!(f.pull(10).len(), 0);
    assert_eq!(f.stats().outstanding_messages_count, 0);
}

#[test]
fn nack_messages() {
    let mut f = Fixture::with_defaults();
    assert!(f.publish(vec![plain("meow"), plain("can haz cheezburger?")]));

    let pulled_messages = f.pull(10);
    assert_eq!(pulled_messages.len(), 2);
    assert_eq!(f.stats().outstanding_messages_count, 2);

    // NACK the 2nd message, which makes something available.
    let r = f.subscriptions.modify_at(
        0,
        vec![DeadlineModification::nack(pulled_messages[1].ack_id())],
        f.now,
    );
    assert!(r.returned.messages_available);
    assert_eq!(r.outcome.valid, vec![pulled_messages[1].ack_id()]);

    // It is not outstanding any more, as it was returned to the backlog.
    assert_eq!(f.stats().outstanding_messages_count, 1);
    assert_eq!(f.stats().backlog_messages_count, 1);

    let pulled_messages = f.pull(10);
    assert_eq!(pulled_messages.len(), 1);
    assert_eq!(pulled_messages[0].message().data, Bytes::from("can haz cheezburger?"));
    assert_eq!(pulled_messages[0].delivery_attempt(), 2);

    assert_eq!(f.stats().outstanding_messages_count, 2);
    assert_eq!(f.stats().backlog_messages_count, 0);
}

#[test]
fn seek_to_now_purges_subscription() {
    let mut f = Fixture::with_defaults();
    assert!(f.publish(vec![plain("meow"), plain("woof")]));

    // Pull one message so it becomes outstanding; the other stays in the backlog.
    let pulled = f.pull(1);
    assert_eq!(pulled.len(), 1);
    assert_eq!(f.stats().outstanding_messages_count, 1);
    assert_eq!(f.stats().backlog_messages_count, 1);

    // Seek to a point after every message was published.
    let after_publish = f.wall.plus(Duration::from_secs(60));
    assert!(!f.subscriptions.seek_at(0, after_publish));

    assert_eq!(f.stats().outstanding_messages_count, 0);
    assert_eq!(f.stats().backlog_messages_count, 0);
    assert_eq!(f.pull(10).len(), 0);
}

#[test]
fn seek_to_past_redelivers_in_memory_messages() {
    let mut f = Fixture::with_defaults();
    assert!(f.publish(vec![plain("meow"), plain("woof")]));

    let pulled = f.pull(10);
    assert_eq!(pulled.len(), 2);
    assert_eq!(f.stats().outstanding_messages_count, 2);

    // Every message was published after the epoch, so all are made available again.
    assert!(f.subscriptions.seek_at(0, SystemTime::unix_epoch()));
    assert_eq!(f.stats().outstanding_messages_count, 0);
    assert_eq!(f.stats().backlog_messages_count, 2);

    let redelivered = f.pull(10);
    assert_eq!(redelivered.len(), 2);
    let mut data: Vec<Bytes> = redelivered.iter().map(|m| m.message().data.clone()).collect();
    data.sort();
    assert_eq!(data, vec![Bytes::from("meow"), Bytes::from("woof")]);
}

#[test]
fn test_delete_subscription() {
    let mut f = Fixture::with_defaults();
    f.subscriptions.delete_at(0);
    assert_eq!(f.subscriptions.len(), 0);
    assert!(f.subscriptions.find(&SubscriptionName::new("test", "sub")).is_none());
    // Nothing is made available any more.
    assert!(!f.publish(vec![plain("meow")]));

    // The one who deletes is told that the subscription was there until then.
    let mut actor = SubscriptionActor::start(1, info(), TopicName::new("test", "topic"));
    match actor.receive(SubscriptionRequest::Delete, f.now) {
        SubscriptionReply::Deleted { was_there } => assert!(was_there),
        other => panic!("unexpected reply {other:?}"),
    }

    // Those who wait for messages wait no longer.
    let mut service = Deltio::new(f.wall).service;
    let topic = TopicProto {
        name: "projects/test/topics/topic".to_string(),
        labels: StringMap::new(),
        message_retention_duration: None,
    };
    service.create_topic(&topic).unwrap();
    let subscription = SubscriptionProto {
        name: "projects/test/subscriptions/sub".to_string(),
        topic: topic.name,
        push_config: None,
        ack_deadline_seconds: 10,
        message_retention_duration: None,
        enable_message_ordering: false,
        filter: String::new(),
        dead_letter_policy: None,
        retry_policy: None,
        detached: false,
        enable_exactly_once_delivery: false,
    };
    service.create_subscription(&subscription).unwrap();
    let request = PullRequest {
        subscription: subscription.name.clone(),
        return_immediately: false,
        max_messages: 10,
    };
    let stream = service
        .open_stream(&Some(StreamingPullRequest {
            subscription: subscription.name.clone(),
            ack_ids: vec![],
            modify_deadline_seconds: vec![],
            modify_deadline_ack_ids: vec![],
            max_outstanding_messages: 0,
            max_outstanding_bytes: 0,
            protocol_version: 0,
        }))
        .unwrap();
    assert!(matches!(service.pull(&request, f.now), Ok(PullStep::Wait)));
    assert!(matches!(service.streaming_pull(&stream, f.now), StreamStep::Wait));
    service.delete_subscription(&subscription.name).unwrap();
    assert_eq!(service.pull(&request, f.now).unwrap_err().code, Code::NotFound);
    match service.streaming_pull(&stream, f.now) {
        StreamStep::Fail(e) => assert_eq!(e.code, Code::NotFound),
        other => panic!("expected a failure, got {other:?}"),
    }
}

#[test]
fn test_push_registry_integration() {
    let push_config = PushConfig::new("http://end.point".to_string(), None, None);
    let mut f = Fixture::new(SubscriptionInfo::new(
        SubscriptionName::new("test", "sub"),
        Duration::from_secs(10),
        Some(push_config.clone()),
        None,
        None,
    ));

    // Make sure the registry was updated.
    let entries = f.subscriptions.push_registry().entries();
    assert_eq!(entries.len(), 1);
    assert_eq!(entries[0].name.to_string(), "projects/test/subscriptions/sub");
    assert_eq!(entries[0].config.endpoint, push_config.endpoint);

    // Make sure the entry is removed with the subscription.
    f.subscriptions.delete_at(0);
    assert_eq!(f.subscriptions.push_registry().entries().len(), 0);
}

#[test]
fn filter_drops_non_matching_messages_silently() {
    let mut f = filtered("attributes.ce-type = \"foo\" OR attributes.ce-type = \"bar\"");
    f.publish(vec![
        msg_with_attr("m1", "ce-type", "foo"),
        msg_with_attr("m2", "ce-type", "baz"),
        msg_with_attr("m3", "ce-type", "bar"),
    ]);

    let pulled = f.pull(10);
    assert_eq!(bodies(&pulled), vec!["m1", "m3"]);

    // Backlog drained, dropped message must not be outstanding.
    assert_eq!(f.stats().outstanding_messages_count, 2);
    assert_eq!(f.stats().backlog_messages_count, 0);
}

#[test]
fn filter_drops_messages_with_no_attributes() {
    let mut f = filtered("attributes.ce-type = \"foo\"");
    f.publish(vec![plain("no-attrs"), msg_with_attr("with-attr", "ce-type", "foo")]);

    let pulled = f.pull(10);
    assert_eq!(pulled.len(), 1);
    assert_eq!(pulled[0].message().data, Bytes::from("with-attr"));
}

#[test]
fn delivers_one_message_per_key_until_acked() {
    let mut f = ordered();
    f.publish(vec![
        msg("k1-1", Some("k1")),
        msg("k1-2", Some("k1")),
        msg("k1-3", Some("k1")),
    ]);

    let pulled = f.pull(10);
    assert_eq!(pulled.len(), 1, "only the head of key k1 should deliver");
    assert_eq!(pulled[0].message().data, Bytes::from("k1-1"));

    // Pulling again returns nothing: k1 is still in flight.
    let again = f.pull(10);
    assert!(again.is_empty(), "next k1 must wait for ack");

    let r = f.subscriptions.acknowledge_at(0, vec![pulled[0].ack_id()]);
    assert!(r.messages_available);
    assert!(r.outstanding_freed);

    let pulled = f.pull(10);
    assert_eq!(pulled.len(), 1);
    assert_eq!(pulled[0].message().data, Bytes::from("k1-2"));
}

#[test]
fn delivers_different_keys_in_parallel() {
    let mut f = ordered();
    f.publish(vec![
        msg("k1-1", Some("k1")),
        msg("k1-2", Some("k1")),
        msg("k2-1", Some("k2")),
    ]);

    let bodies = bodies(&f.pull(10));
    assert_eq!(bodies.len(), 2);
    assert!(bodies.contains(&"k1-1".to_string()));
    assert!(bodies.contains(&"k2-1".to_string()));
    assert!(!bodies.contains(&"k1-2".to_string()));
}

#[test]
fn unkeyed_messages_are_not_serialised() {
    let mut f = ordered();
    f.publish(vec![msg("a", None), msg("b", None), msg("c", None)]);
    assert_eq!(f.pull(10).len(), 3, "all unkeyed messages deliver together");
}

#[test]
fn nack_redelivers_at_head_of_key_queue() {
    let mut f = ordered();
    f.publish(vec![msg("k1-1", Some("k1")), msg("k1-2", Some("k1"))]);

    let pulled = f.pull(10);
    assert_eq!(pulled.len(), 1);

    f.subscriptions
        .modify_at(0, vec![DeadlineModification::nack(pulled[0].ack_id())], f.now);

    let pulled = f.pull(10);
    assert_eq!(pulled.len(), 1);
    assert_eq!(
        pulled[0].message().data,
        Bytes::from("k1-1"),
        "redelivered head must come before k1-2"
    );
}

#[test]
fn ordering_disabled_treats_keyed_messages_as_unordered() {
    let mut f = Fixture::new(SubscriptionInfo::new_with_defaults(SubscriptionName::new(
        "test",
        "no-ordering",
    )));
    f.publish(vec![msg("k1-1", Some("k1")), msg("k1-2", Some("k1"))]);
    assert_eq!(f.pull(10).len(), 2, "ordering ignored when disabled");
}

#[test]
fn pulls_message_within_retention_window() {
    let mut f = with_retention(Some(Duration::from_secs(600)));
    f.publish(vec![plain("fresh")]);

    // Advance only a little; well within retention.
    f.advance(Duration::from_secs(60));

    let pulled = f.pull(10);
    assert_eq!(pulled.len(), 1, "message should still be deliverable");
    assert_eq!(pulled[0].message().data, Bytes::from("fresh"));
}

#[test]
fn evicts_message_past_retention_window_on_pull() {
    let mut f = with_retention(Some(Duration::from_secs(600)));
    f.publish(vec![plain("stale")]);

    // Advance past the 10-minute retention window.
    f.advance(Duration::from_secs(11 * 60));

    let pulled = f.pull(10);
    assert_eq!(pulled.len(), 0, "expired message must not be delivered");

    // The backlog should be cleared too.
    assert_eq!(f.stats().backlog_messages_count, 0);
    assert_eq!(f.stats().outstanding_messages_count, 0);
}

#[test]
fn evicts_message_when_retry_ready_after_retention() {
    let mut f = with_retention(Some(Duration::from_secs(600)));
    f.publish(vec![plain("soon-stale")]);

    // First pull lands the message as outstanding.
    let pulled = f.pull(10);
    assert_eq!(pulled.len(), 1);

    // NACK so it goes back immediately.
    f.subscriptions
        .modify_at(0, vec![DeadlineModification::nack(pulled[0].ack_id())], f.now);

    // Time passes past retention before the next pull.
    f.advance(Duration::from_secs(11 * 60));

    let pulled = f.pull(10);
    assert_eq!(pulled.len(), 0, "nack'd message must also be evicted");
    assert_eq!(f.stats().backlog_messages_count, 0);
    assert_eq!(f.stats().outstanding_messages_count, 0);
}

#[test]
fn no_retention_means_no_eviction() {
    let mut f = with_retention(None);
    f.publish(vec![plain("forever")]);
    f.advance(Duration::from_secs(7 * 24 * 60 * 60));
    assert_eq!(f.pull(10).len(), 1, "without retention, message stays");
}

#[test]
fn keys_are_pulled_in_order_and_before_the_backlog() {
    let mut f = ordered();
    f.publish(vec![
        msg("plain", None),
        msg("b-1", Some("b")),
        msg("a-1", Some("a")),
        msg("a-2", Some("a")),
    ]);
    assert_eq!(bodies(&f.pull(10)), vec!["a-1", "b-1", "plain"]);
}

#[test]
fn pull_is_limited_by_count_cap_and_batch() {
    let mut f = Fixture::with_defaults();
    f.publish((0..1_005).map(|_| plain("m")).collect());
    assert_eq!(f.pull(2).len(), 2);

    // A cap of 5 leaves room for 3 more.
    let batch = f.subscriptions.pull_at(0, 100, 5, f.now).unwrap();
    assert_eq!(batch.messages.len(), 3);
    assert!(batch.more_available);
    assert_eq!(f.subscriptions.pull_at(0, 100, 5, f.now).unwrap().messages.len(), 0);

    // No pull delivers more than a thousand.
    assert_eq!(f.pull(u16::MAX).len(), 1_000);
    assert_eq!(f.pull(u16::MAX).len(), 0);
}

#[test]
fn overdue_messages_come_back_with_another_attempt() {
    let mut f = Fixture::with_defaults();
    f.publish(vec![plain("slow")]);
    let first = f.pull(1);
    assert_eq!(first[0].delivery_attempt(), 1);
    assert_eq!(f.subscriptions.at(0).next_wakeup(), Some(f.now.plus(Duration::from_secs(10))));

    f.advance(Duration::from_secs(9));
    assert!(!f.subscriptions.expire_at(0, f.now).messages_available);
    assert_eq!(f.stats().outstanding_messages_count, 1);

    f.advance(Duration::from_secs(1));
    assert!(f.subscriptions.expire_at(0, f.now).messages_available);
    assert_eq!(f.stats().outstanding_messages_count, 0);
    assert_eq!(f.stats().counters.expired, 1);

    let second = f.pull(1);
    assert_eq!(second[0].delivery_attempt(), 2);
    assert_ne!(second[0].ack_id(), first[0].ack_id());
}

#[test]
fn detached_subscription_gives_nothing() {
    let mut f = Fixture::with_defaults();
    f.publish(vec![plain("gone")]);
    f.subscriptions.detach_at(0);
    assert_eq!(f.stats().backlog_messages_count, 0);
    assert!(matches!(
        f.subscriptions.pull_at(0, 10, 0, f.now),
        Err(PullMessagesError::Detached)
    ));
}

#[test]
fn acknowledging_again_is_invalid() {
    let mut f = Fixture::with_defaults();
    f.publish(vec![plain("once")]);
    let id = f.pull(1)[0].ack_id();
    let first = f.subscriptions.acknowledge_at(0, vec![id]);
    assert_eq!(first.outcome.valid, vec![id]);
    assert!(first.outcome.invalid.is_empty());
    let second = f.subscriptions.acknowledge_at(0, vec![id]);
    assert!(second.outcome.valid.is_empty());
    assert_eq!(second.outcome.invalid, vec![id]);
    assert!(!second.outstanding_freed);
    assert_eq!(f.stats().counters.acked, 1);
}

#[test]
fn oldest_unacked_age_is_that_of_the_oldest_outstanding_message() {
    let mut f = Fixture::with_defaults();
    f.publish(vec![plain("old")]);
    f.advance(Duration::from_secs(5));
    f.publish(vec![plain("new")]);
    assert_eq!(f.stats().oldest_unacked_age, Duration::from_secs(0));
    f.pull(10);
    f.advance(Duration::from_millis(250));
    assert_eq!(f.stats().oldest_unacked_age, Duration::from_millis(5_250));
}

#[test]
fn topics_are_ordered_by_number() {
    let mut topics = TopicManager::new();
    topics.create_topic(TopicInfo::new(TopicName::new("p", "zebra"))).unwrap();
    topics.create_topic(TopicInfo::new(TopicName::new("p", "ant"))).unwrap();
    assert!(topics.at(0) < topics.at(1));
    assert!(topics.at(0) == topics.at(0));
    assert!(topics.at(0) != topics.at(1));
}

#[test]
fn key_is_delivered_in_publish_order_whatever_comes_back() {
    let mut f = ordered();
    f.publish(vec![msg("k1-1", Some("k1")), msg("k2-1", Some("k2")), msg("k1-2", Some("k1"))]);
    f.publish(vec![msg("k1-3", Some("k1"))]);
    let mut delivered: Vec<String> = Vec::new();
    for round in 0..6 {
        let pulled = f.pull(10);
        delivered.extend(bodies(&pulled).into_iter().filter(|b| b.starts_with("k1")));
        let ids: Vec<_> = pulled.iter().map(|m| m.ack_id()).collect();
        if round % 2 == 0 {
            let nacks = ids.into_iter().map(DeadlineModification::nack).collect();
            f.subscriptions.modify_at(0, nacks, f.now);
        } else {
            f.subscriptions.acknowledge_at(0, ids);
        }
    }
    assert_eq!(delivered, ["k1-1", "k1-1", "k1-2", "k1-2", "k1-3", "k1-3"]);
    assert_eq!(f.pull(10).len(), 0);
}

#[test]
fn counters_are_the_numbers_ever_delivered_and_acknowledged() {
    let mut f = Fixture::with_defaults();
    f.publish(vec![plain("a"), plain("b"), plain("c")]);
    let pulled = f.pull(10);
    f.subscriptions.acknowledge_at(0, vec![pulled[0].ack_id()]);
    let stats = f.stats();
    assert_eq!(stats.backlog_messages_count, 0);
    assert_eq!(stats.outstanding_messages_count, 2);
    assert_eq!(stats.retry_messages_count, 0);
    assert_eq!(stats.counters.pulled, 3);
    assert_eq!(stats.counters.acked, 1);

    // What is delivered again is counted again, and what is acknowledged again is not.
    f.subscriptions.modify_at(0, vec![DeadlineModification::nack(pulled[1].ack_id())], f.now);
    f.pull(10);
    f.subscriptions.acknowledge_at(0, vec![pulled[0].ack_id()]);
    let again = f.stats().clone();
    assert_eq!(again.counters.pulled, 4);
    assert_eq!(again.counters.acked, 1);
}
