//! The server as its clients see it.
use deltio::api::proto::{
    AcknowledgeRequest, DeadLetterPolicyProto, DurationProto, ListOfTopicRequest,
    ListSubscriptionsRequest, ListTopicsRequest, ModifyAckDeadlineRequest,
    ModifyPushConfigRequest, PubsubMessage, PullRequest, PushConfigProto, ReceivedMessage,
    RetryPolicyProto, StreamingPullRequest, StreamingPullResponse, SubscriptionProto, TopicProto,
    UpdateSubscriptionRequest, UpdateTopicRequest,
};
use deltio::api::status::{Code, Status};
use deltio::api::streaming::{PullStream, StreamStep};
use deltio::api::subscriber::{not_implemented, PullStep};
use deltio::collections::StringMap;
use deltio::metrics::render::{render_text, FractionTexts};
use deltio::scenario::{Answer, Scenario};
use deltio::time::{Duration, Instant, SystemTime};
use deltio::Deltio;

const TOPIC: &str = "projects/test/topics/topic";
const SUBSCRIPTION: &str = "projects/test/subscriptions/sub";

/// A server and a clock.
struct Host {
    deltio: Deltio,
    now: Instant,
    wall: SystemTime,
}

impl Host {
    fn start() -> Host {
        let wall = SystemTime::unix_epoch().plus(Duration::from_secs(1_700_000_000));
        Host {
            deltio: Deltio::new(wall),
            now: Instant::at(Duration::from_secs(1_000)),
            wall,
        }
    }

    /// A server with a topic.
    fn with_topic() -> Host {
        let mut host = Host::start();
        host.deltio.service.create_topic(&topic(TOPIC)).unwrap();
        host
    }

    /// A server with a topic and a subscription.
    fn with_subscription() -> Host {
        let mut host = Host::with_topic();
        host.create(subscription());
        host
    }

    fn create(&mut self, s: SubscriptionProto) {
        self.deltio.service.create_subscription(&s).unwrap();
    }

    fn get(&self) -> SubscriptionProto {
        self.deltio.service.get_subscription(SUBSCRIPTION).unwrap()
    }

    fn publish(&mut self, topic: &str, bodies: &[&str]) -> Vec<String> {
        let messages = bodies.iter().map(|b| message(b)).collect();
        self.deltio.service.publish(topic, messages, self.now, self.wall).unwrap()
    }

    fn pull(&mut self, subscription: &str) -> Vec<ReceivedMessage> {
        let request = PullRequest {
            subscription: subscription.to_string(),
            return_immediately: true,
            max_messages: 10,
        };
        match self.deltio.service.pull(&request, self.now).unwrap() {
            PullStep::Respond(messages) => messages,
            PullStep::Wait => panic!("an immediate answer was asked for"),
        }
    }

    fn nack(&mut self, subscription: &str, ack_id: &str) {
        let request = ModifyAckDeadlineRequest {
            subscription: subscription.to_string(),
            ack_ids: vec![ack_id.to_string()],
            ack_deadline_seconds: 0,
        };
        self.deltio.service.modify_ack_deadline(&request, self.now, self.wall).unwrap();
    }

    fn ack(&mut self, subscription: &str, ack_id: &str) {
        let request = AcknowledgeRequest {
            subscription: subscription.to_string(),
            ack_ids: vec![ack_id.to_string()],
        };
        self.deltio.service.acknowledge(&request).unwrap();
    }

    fn open(&self, max_outstanding_messages: i64, protocol_version: i64) -> PullStream {
        let mut first = ping();
        first.subscription = SUBSCRIPTION.to_string();
        first.max_outstanding_messages = max_outstanding_messages;
        first.protocol_version = protocol_version;
        self.deltio.service.open_stream(&Some(first)).unwrap()
    }

    /// What comes on a stream.
    fn next(&mut self, stream: &PullStream) -> Option<StreamingPullResponse> {
        match self.deltio.service.streaming_pull(stream, self.now) {
            StreamStep::Yield(r) => Some(r),
            StreamStep::Wait => None,
            StreamStep::End => panic!("the stream ended"),
            StreamStep::Fail(e) => panic!("the stream failed: {}", e.message),
        }
    }

    fn send(
        &mut self,
        stream: &PullStream,
        request: StreamingPullRequest,
    ) -> Result<Option<StreamingPullResponse>, Status> {
        self.deltio.service.handle_streaming_pull_request(stream, &request, self.now, self.wall)
    }

    fn advance(&mut self, d: Duration) {
        self.now = self.now.plus(d);
        self.wall = self.wall.plus(d);
        self.deltio.service.tick(self.now, self.wall);
    }

    fn metrics(&self) -> String {
        let report = self.deltio.collect_metrics(self.now);
        let ages = report
            .subscription_stats
            .iter()
            .map(|s| format!("{:.3}", s.oldest_unacked_age.as_nanos() as f64 / 1e9))
            .collect();
        let sum = format!("{:.6}", report.push.duration_sum_micros as f64 / 1e6);
        let fractions = FractionTexts { oldest_unacked_ages: ages, push_duration_sum: sum };
        render_text(&report, &fractions, "0.8.0")
    }
}

fn topic(name: &str) -> TopicProto {
    TopicProto {
        name: name.to_string(),
        labels: StringMap::new(),
        message_retention_duration: None,
    }
}

fn subscription() -> SubscriptionProto {
    SubscriptionProto {
        name: SUBSCRIPTION.to_string(),
        topic: TOPIC.to_string(),
        push_config: None,
        ack_deadline_seconds: 10,
        message_retention_duration: None,
        enable_message_ordering: false,
        filter: String::new(),
        dead_letter_policy: None,
        retry_policy: None,
        detached: false,
        enable_exactly_once_delivery: false,
    }
}

fn eod_subscription() -> SubscriptionProto {
    let mut s = subscription();
    s.enable_exactly_once_delivery = true;
    s
}

fn for_update() -> SubscriptionProto {
    let mut s = subscription();
    s.topic = String::new();
    s.ack_deadline_seconds = 0;
    s
}

fn message(body: &str) -> PubsubMessage {
    PubsubMessage {
        data: body.as_bytes().to_vec(),
        attributes: StringMap::new(),
        message_id: String::new(),
        publish_time: None,
        ordering_key: String::new(),
    }
}

fn ping() -> StreamingPullRequest {
    StreamingPullRequest {
        subscription: String::new(),
        ack_ids: vec![],
        modify_deadline_seconds: vec![],
        modify_deadline_ack_ids: vec![],
        max_outstanding_messages: 0,
        max_outstanding_bytes: 0,
        protocol_version: 0,
    }
}

fn streaming_ack(ack_ids: Vec<String>) -> StreamingPullRequest {
    let mut request = ping();
    request.ack_ids = ack_ids;
    request
}

fn streaming_modify(ack_ids: Vec<String>, seconds: Vec<i32>) -> StreamingPullRequest {
    let mut request = ping();
    request.modify_deadline_ack_ids = ack_ids;
    request.modify_deadline_seconds = seconds;
    request
}

fn push_config(endpoint: &str) -> PushConfigProto {
    PushConfigProto {
        push_endpoint: endpoint.to_string(),
        attributes: StringMap::new(),
        oidc_token: None,
    }
}

fn seconds(n: i64) -> Option<DurationProto> {
    Some(DurationProto { seconds: n, nanos: 0 })
}

fn update(
    host: &mut Host,
    s: SubscriptionProto,
    paths: &[&str],
) -> Result<SubscriptionProto, Status> {
    host.deltio.service.update_subscription(UpdateSubscriptionRequest {
        subscription: Some(s),
        update_mask: Some(paths.iter().map(|p| p.to_string()).collect()),
    })
}

fn update_topic(host: &mut Host, t: TopicProto, paths: &[&str]) -> Result<TopicProto, Status> {
    host.deltio.service.update_topic(UpdateTopicRequest {
        topic: Some(t),
        update_mask: Some(paths.iter().map(|p| p.to_string()).collect()),
    })
}

fn data(m: &ReceivedMessage) -> String {
    String::from_utf8(m.message.data.clone()).unwrap()
}

// Detaching.

#[test]
fn detach_subscription_marks_detached_in_get() {
    let mut host = Host::with_subscription();
    host.deltio.service.detach_subscription(SUBSCRIPTION).unwrap();
    assert!(host.get().detached);
}

#[test]
fn detach_subscription_pull_returns_failed_precondition() {
    let mut host = Host::with_subscription();
    host.deltio.service.detach_subscription(SUBSCRIPTION).unwrap();
    let request = PullRequest {
        subscription: SUBSCRIPTION.to_string(),
        return_immediately: true,
        max_messages: 10,
    };
    let err = host.deltio.service.pull(&request, host.now).unwrap_err();
    assert_eq!(err.code, Code::FailedPrecondition);
}

#[test]
fn detach_subscription_streaming_pull_returns_failed_precondition() {
    let mut host = Host::with_subscription();
    host.deltio.service.detach_subscription(SUBSCRIPTION).unwrap();
    let mut first = ping();
    first.subscription = SUBSCRIPTION.to_string();
    first.max_outstanding_messages = 10;
    let err = host.deltio.service.open_stream(&Some(first)).unwrap_err();
    assert_eq!(err.code, Code::FailedPrecondition);
}

#[test]
fn detach_subscription_is_idempotent() {
    let mut host = Host::with_subscription();
    for _ in 0..2 {
        host.deltio.service.detach_subscription(SUBSCRIPTION).unwrap();
    }
    assert!(host.get().detached);
}

#[test]
fn detach_missing_subscription_returns_not_found() {
    let mut host = Host::start();
    let err =
        host.deltio.service.detach_subscription("projects/test/subscriptions/nope").unwrap_err();
    assert_eq!(err.code, Code::NotFound);
    assert_eq!(err.message, "Resource not found (resource=nope).");
}

#[test]
fn stream_ends_when_its_subscription_is_detached() {
    let mut host = Host::with_subscription();
    let stream = host.open(0, 0);
    host.deltio.service.detach_subscription(SUBSCRIPTION).unwrap();
    assert!(matches!(
        host.deltio.service.streaming_pull(&stream, host.now),
        StreamStep::End
    ));
}

// Confirmations.

#[test]
fn ack_returns_acknowledge_confirmation_when_eod_enabled() {
    let mut host = Host::with_topic();
    host.create(eod_subscription());
    let stream = host.open(100, 0);
    host.publish(TOPIC, &["msg"]);

    let resp = host.next(&stream).unwrap();
    assert_eq!(resp.received_messages.len(), 1);
    let ack_id = resp.received_messages[0].ack_id.clone();

    let resp = host.send(&stream, streaming_ack(vec![ack_id.clone()])).unwrap().unwrap();
    let confirmation = resp.acknowledge_confirmation.unwrap();
    assert_eq!(confirmation.ack_ids, vec![ack_id]);
    assert!(confirmation.invalid_ack_ids.is_empty());
}

#[test]
fn ack_invalid_id_appears_in_invalid_ack_ids_when_eod_enabled() {
    let mut host = Host::with_topic();
    host.create(eod_subscription());
    let stream = host.open(100, 0);
    host.publish(TOPIC, &["msg"]);
    let first = host.next(&stream).unwrap();
    let valid_ack = first.received_messages[0].ack_id.clone();

    let resp = host
        .send(&stream, streaming_ack(vec![valid_ack.clone(), "999999".to_string()]))
        .unwrap()
        .unwrap();
    let confirmation = resp.acknowledge_confirmation.unwrap();
    assert_eq!(confirmation.ack_ids, vec![valid_ack]);
    assert_eq!(confirmation.invalid_ack_ids, vec!["999999".to_string()]);
}

#[test]
fn modify_ack_deadline_returns_confirmation_when_eod_enabled() {
    let mut host = Host::with_topic();
    host.create(eod_subscription());
    let stream = host.open(100, 0);
    host.publish(TOPIC, &["msg"]);
    let ack_id = host.next(&stream).unwrap().received_messages[0].ack_id.clone();

    let resp = host
        .send(&stream, streaming_modify(vec![ack_id.clone()], vec![60]))
        .unwrap()
        .unwrap();
    let confirmation = resp.modify_ack_deadline_confirmation.unwrap();
    assert_eq!(confirmation.ack_ids, vec![ack_id]);
    assert!(confirmation.invalid_ack_ids.is_empty());
}

#[test]
fn no_confirmation_emitted_when_eod_disabled() {
    let mut host = Host::with_subscription();
    let stream = host.open(100, 0);
    host.publish(TOPIC, &["msg"]);
    let ack_id = host.next(&stream).unwrap().received_messages[0].ack_id.clone();
    let resp = host.send(&stream, streaming_ack(vec![ack_id])).unwrap();
    assert!(
        resp.is_none(),
        "EOD disabled subscriptions must not emit ack confirmations"
    );
}

#[test]
fn first_response_carries_subscription_properties_when_eod_enabled() {
    let mut host = Host::with_topic();
    host.create(eod_subscription());
    let stream = host.open(100, 0);
    host.publish(TOPIC, &["msg"]);
    let props = host
        .next(&stream)
        .unwrap()
        .subscription_properties
        .expect("expected subscription_properties on first EOD response");
    assert!(props.exactly_once_delivery_enabled);
    assert!(!props.message_ordering_enabled);
}

#[test]
fn every_id_is_confirmed_as_acked_or_invalid() {
    let mut host = Host::with_topic();
    host.create(eod_subscription());
    let stream = host.open(0, 0);
    host.publish(TOPIC, &["msg"]);
    let id = host.next(&stream).unwrap().received_messages[0].ack_id.clone();

    let ids = vec!["no id".to_string(), id.clone(), "77".to_string()];
    let resp = host.send(&stream, streaming_ack(ids)).unwrap().unwrap();
    let confirmation = resp.acknowledge_confirmation.unwrap();
    assert_eq!(confirmation.ack_ids, vec![id]);
    assert_eq!(confirmation.invalid_ack_ids, vec!["77".to_string(), "no id".to_string()]);
    assert!(confirmation.unordered_ack_ids.is_empty());
    assert!(confirmation.temporary_failed_ack_ids.is_empty());
}

#[test]
fn one_unreadable_deadline_makes_all_invalid() {
    let mut host = Host::with_topic();
    host.create(eod_subscription());
    let stream = host.open(0, 0);
    host.publish(TOPIC, &["msg"]);
    let id = host.next(&stream).unwrap().received_messages[0].ack_id.clone();

    let request = streaming_modify(vec![id.clone(), "x".to_string()], vec![60, 60]);
    let resp = host.send(&stream, request).unwrap().unwrap();
    let confirmation = resp.modify_ack_deadline_confirmation.unwrap();
    assert!(confirmation.ack_ids.is_empty());
    assert_eq!(confirmation.invalid_ack_ids, vec![id, "x".to_string()]);
}

// Filters.

#[test]
fn create_subscription_with_invalid_filter_is_rejected() {
    let mut host = Host::with_topic();
    let mut s = subscription();
    s.filter = "attributes.x ===== \"oops\"".to_string();
    let err = host.deltio.service.create_subscription(&s).unwrap_err();
    assert_eq!(err.code, Code::InvalidArgument);
    assert!(err.message.starts_with("invalid filter expression: "));
}

// Flow control.

#[test]
fn streaming_pull_caps_in_flight_to_max_outstanding() {
    let mut host = Host::with_subscription();
    let stream = host.open(2, 0);

    // Publish 5 messages but only 2 should be delivered concurrently.
    host.publish(TOPIC, &["a", "b", "c", "d", "e"]);

    let first = host.next(&stream).unwrap();
    assert!(
        first.received_messages.len() <= 2,
        "expected <=2 in flight, got {}",
        first.received_messages.len()
    );
    if let Some(resp) = host.next(&stream) {
        let total = first.received_messages.len() + resp.received_messages.len();
        assert!(total <= 2, "server delivered {} messages while max_outstanding=2", total);
    }

    let ack_ids = first.received_messages.iter().map(|m| m.ack_id.clone()).collect();
    host.send(&stream, streaming_ack(ack_ids)).unwrap();

    let second = host.next(&stream).unwrap();
    assert!(!second.received_messages.is_empty());
    assert!(second.received_messages.len() <= 2);
}

#[test]
fn streaming_pull_unlimited_when_zero_or_unset() {
    let mut host = Host::with_subscription();
    let stream = host.open(0, 0);
    let bodies: Vec<String> = (0..5).map(|i| format!("msg-{i}")).collect();
    let texts: Vec<&str> = bodies.iter().map(|b| b.as_str()).collect();
    host.publish(TOPIC, &texts);

    let mut total = 0;
    while total < 5 {
        total += host.next(&stream).unwrap().received_messages.len();
    }
    assert_eq!(total, 5);
}

#[test]
fn negative_cap_is_rejected() {
    let host = Host::with_subscription();
    let mut first = ping();
    first.subscription = SUBSCRIPTION.to_string();
    first.max_outstanding_messages = -1;
    let err = host.deltio.service.open_stream(&Some(first)).unwrap_err();
    assert_eq!(err.code, Code::InvalidArgument);
    assert_eq!(err.message, "max_outstanding_messages must be non-negative");
}

#[test]
fn stream_without_a_request_is_cancelled() {
    let host = Host::with_subscription();
    let err = host.deltio.service.open_stream(&None).unwrap_err();
    assert_eq!(err.code, Code::Cancelled);
    assert_eq!(err.message, "The request was canceled");
}

// Keepalives.

#[test]
fn ping_gets_a_response_when_protocol_version_is_set() {
    let mut host = Host::with_subscription();
    let stream = host.open(0, 1);
    let response = host.send(&stream, ping()).unwrap().unwrap();
    assert!(response.received_messages.is_empty());
    assert!(response.acknowledge_confirmation.is_none());
    assert!(response.modify_ack_deadline_confirmation.is_none());
}

#[test]
fn ping_gets_no_response_without_protocol_version() {
    let mut host = Host::with_subscription();
    let stream = host.open(0, 0);
    let result = host.send(&stream, ping()).unwrap();
    assert!(
        result.is_none(),
        "expected no response to a ping without protocol_version, got {:?}",
        result
    );
}

#[test]
fn keepalives_do_not_disturb_message_delivery() {
    let mut host = Host::with_subscription();
    let stream = host.open(0, 1);

    // Ping first, then publish: the message must still arrive on the same stream.
    host.send(&stream, ping()).unwrap();
    host.publish(TOPIC, &["hello"]);
    let message = host.next(&stream).unwrap().received_messages.remove(0);
    assert_eq!(message.message.data, "hello".as_bytes().to_vec());

    // Acking still works, and the ack itself also answers as a keepalive.
    let response = host.send(&stream, streaming_ack(vec![message.ack_id])).unwrap().unwrap();
    assert!(response.received_messages.is_empty());
}

#[test]
fn protocol_version_on_subsequent_request_is_rejected() {
    let mut host = Host::with_subscription();
    let stream = host.open(0, 1);
    let mut request = ping();
    request.protocol_version = 1;
    let status = host.send(&stream, request).unwrap_err();
    assert_eq!(status.code, Code::InvalidArgument);
}

#[test]
fn later_requests_may_not_set_up_the_stream() {
    let mut host = Host::with_subscription();
    let stream = host.open(0, 0);

    let mut request = ping();
    request.subscription = SUBSCRIPTION.to_string();
    assert_eq!(
        host.send(&stream, request).unwrap_err().message,
        "subscription must only be specified in the initial request."
    );
    let mut request = ping();
    request.max_outstanding_bytes = 1;
    assert_eq!(
        host.send(&stream, request).unwrap_err().message,
        "max_outstanding_bytes must only be specified in the initial request."
    );
    let mut request = ping();
    request.max_outstanding_messages = 1;
    assert_eq!(
        host.send(&stream, request).unwrap_err().message,
        "max_outstanding_messages must only be specified in the initial request."
    );
    let request = streaming_modify(vec!["1".to_string()], vec![]);
    assert_eq!(
        host.send(&stream, request).unwrap_err().message,
        "modify_deadline_seconds and modify_deadline_ack_ids must be the same length"
    );
}

// Push.

#[test]
fn modify_pull_to_push_round_trips() {
    let mut host = Host::with_subscription();
    host.deltio
        .service
        .modify_push_config(&ModifyPushConfigRequest {
            subscription: SUBSCRIPTION.to_string(),
            push_config: Some(push_config("http://example.invalid/push")),
        })
        .unwrap();
    let pc = host.get().push_config.expect("push config should be set");
    assert_eq!(pc.push_endpoint, "http://example.invalid/push");
}

/// A server with a topic and a subscription that pushes.
fn with_push_subscription() -> Host {
    let mut host = Host::with_topic();
    let mut s = subscription();
    s.push_config = Some(push_config("http://example.invalid/push"));
    host.create(s);
    host
}

#[test]
fn modify_push_to_pull_clears_push_config() {
    let mut host = with_push_subscription();
    assert!(host.get().push_config.is_some());

    // An empty push config switches the subscription to pull.
    host.deltio
        .service
        .modify_push_config(&ModifyPushConfigRequest {
            subscription: SUBSCRIPTION.to_string(),
            push_config: Some(push_config("")),
        })
        .unwrap();
    assert!(host.get().push_config.is_none());
}

#[test]
fn modify_push_to_pull_with_none_clears_push_config() {
    let mut host = with_push_subscription();
    host.deltio
        .service
        .modify_push_config(&ModifyPushConfigRequest {
            subscription: SUBSCRIPTION.to_string(),
            push_config: None,
        })
        .unwrap();
    assert!(host.get().push_config.is_none());
}

#[test]
fn modify_push_config_missing_subscription_not_found() {
    let mut host = Host::start();
    let err = host
        .deltio
        .service
        .modify_push_config(&ModifyPushConfigRequest {
            subscription: "projects/test/subscriptions/nope".to_string(),
            push_config: Some(push_config("http://example.invalid/push")),
        })
        .unwrap_err();
    assert_eq!(err.code, Code::NotFound);
}

#[test]
fn modify_push_config_invalid_endpoint_rejected() {
    let mut host = Host::with_subscription();
    let err = host
        .deltio
        .service
        .modify_push_config(&ModifyPushConfigRequest {
            subscription: SUBSCRIPTION.to_string(),
            push_config: Some(push_config("ftp://nope")),
        })
        .unwrap_err();
    assert_eq!(err.code, Code::InvalidArgument);
}

#[test]
fn registry_follows_the_push_config() {
    let mut host = with_push_subscription();
    let entries = |host: &Host| {
        host.deltio.service.subscription_manager().push_registry().entries().len()
    };
    assert_eq!(entries(&host), 1);
    host.deltio
        .service
        .modify_push_config(&ModifyPushConfigRequest {
            subscription: SUBSCRIPTION.to_string(),
            push_config: None,
        })
        .unwrap();
    assert_eq!(entries(&host), 0);
    host.deltio
        .service
        .modify_push_config(&ModifyPushConfigRequest {
            subscription: SUBSCRIPTION.to_string(),
            push_config: Some(push_config("https://example.invalid/other")),
        })
        .unwrap();
    assert_eq!(entries(&host), 1);
    host.deltio.service.delete_subscription(SUBSCRIPTION).unwrap();
    assert_eq!(entries(&host), 0);
}

// Updates of subscriptions.

#[test]
fn update_ack_deadline_round_trips() {
    let mut host = Host::with_subscription();
    let mut s = for_update();
    s.ack_deadline_seconds = 47;
    let updated = update(&mut host, s, &["ack_deadline_seconds"]).unwrap();
    assert_eq!(updated.ack_deadline_seconds, 47);
    assert_eq!(host.get().ack_deadline_seconds, 47);
}

#[test]
fn update_retry_policy_round_trips() {
    let mut host = Host::with_subscription();
    let mut s = for_update();
    s.retry_policy =
        Some(RetryPolicyProto { minimum_backoff: seconds(5), maximum_backoff: seconds(120) });
    update(&mut host, s, &["retry_policy"]).unwrap();
    let rp = host.get().retry_policy.expect("retry policy should be set");
    assert_eq!(rp.minimum_backoff.unwrap().seconds, 5);
    assert_eq!(rp.maximum_backoff.unwrap().seconds, 120);
}

#[test]
fn update_subscription_test_update_message_retention_duration_round_trips() {
    let mut host = Host::with_subscription();
    let mut s = for_update();
    s.message_retention_duration = seconds(7 * 24 * 60 * 60);
    update(&mut host, s, &["message_retention_duration"]).unwrap();
    let mrd = host.get().message_retention_duration.expect("retention should be set");
    assert_eq!(mrd.seconds, 7 * 24 * 60 * 60);
}

#[test]
fn update_enable_exactly_once_delivery_round_trips() {
    let mut host = Host::with_subscription();
    let mut s = for_update();
    s.enable_exactly_once_delivery = true;
    update(&mut host, s, &["enable_exactly_once_delivery"]).unwrap();
    assert!(host.get().enable_exactly_once_delivery);
}

#[test]
fn update_subscription_test_update_with_empty_mask_is_rejected() {
    let mut host = Host::with_subscription();
    let err = update(&mut host, for_update(), &[]).unwrap_err();
    assert_eq!(err.code, Code::InvalidArgument);
}

#[test]
fn update_subscription_test_update_with_missing_mask_is_rejected() {
    let mut host = Host::with_subscription();
    let err = host
        .deltio
        .service
        .update_subscription(UpdateSubscriptionRequest {
            subscription: Some(for_update()),
            update_mask: None,
        })
        .unwrap_err();
    assert_eq!(err.code, Code::InvalidArgument);
}

#[test]
fn update_subscription_test_update_with_unknown_path_is_rejected() {
    let mut host = Host::with_subscription();
    let err = update(&mut host, for_update(), &["this_field_does_not_exist"]).unwrap_err();
    assert_eq!(err.code, Code::InvalidArgument);
}

#[test]
fn update_immutable_path_enable_message_ordering_is_rejected() {
    let mut host = Host::with_subscription();
    let err = update(&mut host, for_update(), &["enable_message_ordering"]).unwrap_err();
    assert_eq!(err.code, Code::InvalidArgument);
}

#[test]
fn update_missing_subscription_is_not_found() {
    let mut host = Host::with_topic();
    let mut s = for_update();
    s.name = "projects/test/subscriptions/nope".to_string();
    s.ack_deadline_seconds = 30;
    let err = update(&mut host, s, &["ack_deadline_seconds"]).unwrap_err();
    assert_eq!(err.code, Code::NotFound);
}

#[test]
fn create_with_full_options_round_trips_via_get() {
    let mut host = Host::with_topic();
    let mut s = subscription();
    s.ack_deadline_seconds = 600;
    s.enable_message_ordering = true;
    s.enable_exactly_once_delivery = true;
    s.filter = "attributes.ce-type = \"foo\"".to_string();
    s.message_retention_duration = seconds(7 * 24 * 60 * 60);
    s.retry_policy =
        Some(RetryPolicyProto { minimum_backoff: seconds(2), maximum_backoff: seconds(300) });
    host.create(s);

    let got = host.get();
    assert_eq!(got.ack_deadline_seconds, 600);
    assert!(got.enable_message_ordering);
    assert!(got.enable_exactly_once_delivery);
    assert_eq!(got.filter, "attributes.ce-type = \"foo\"");
    let mrd = got.message_retention_duration.expect("retention");
    assert_eq!(mrd.seconds, 7 * 24 * 60 * 60);
    let rp = got.retry_policy.expect("retry policy");
    assert_eq!(rp.minimum_backoff.unwrap().seconds, 2);
    assert_eq!(rp.maximum_backoff.unwrap().seconds, 300);
}

#[test]
fn update_changes_only_what_the_mask_names() {
    let mut host = Host::with_subscription();
    let mut s = for_update();
    s.ack_deadline_seconds = 47;
    s.enable_exactly_once_delivery = true;
    update(&mut host, s, &["ack_deadline_seconds"]).unwrap();
    let got = host.get();
    assert_eq!(got.ack_deadline_seconds, 47);
    assert!(!got.enable_exactly_once_delivery);
    assert_eq!(got.topic, TOPIC);
}

// Topics.

#[test]
fn update_labels_round_trips() {
    let mut host = Host::with_topic();
    let mut t = topic(TOPIC);
    t.labels.insert("env".to_string(), "test".to_string());
    t.labels.insert("team".to_string(), "data".to_string());
    let updated = update_topic(&mut host, t, &["labels"]).unwrap();
    assert_eq!(updated.labels.get("env").map(String::as_str), Some("test"));
    assert_eq!(updated.labels.get("team").map(String::as_str), Some("data"));

    let got = host.deltio.service.get_topic(TOPIC).unwrap();
    assert_eq!(got.labels.get("env").map(String::as_str), Some("test"));
    assert_eq!(got.labels.get("team").map(String::as_str), Some("data"));
}

#[test]
fn update_topic_test_update_message_retention_duration_round_trips() {
    let mut host = Host::with_topic();
    let mut t = topic(TOPIC);
    t.message_retention_duration = seconds(6 * 60 * 60);
    update_topic(&mut host, t, &["message_retention_duration"]).unwrap();
    let got = host.deltio.service.get_topic(TOPIC).unwrap();
    let mrd = got.message_retention_duration.expect("retention should be set");
    assert_eq!(mrd.seconds, 6 * 60 * 60);
}

#[test]
fn update_topic_test_update_with_empty_mask_is_rejected() {
    let mut host = Host::with_topic();
    let err = update_topic(&mut host, topic(TOPIC), &[]).unwrap_err();
    assert_eq!(err.code, Code::InvalidArgument);
}

#[test]
fn update_topic_test_update_with_missing_mask_is_rejected() {
    let mut host = Host::with_topic();
    let err = host
        .deltio
        .service
        .update_topic(UpdateTopicRequest { topic: Some(topic(TOPIC)), update_mask: None })
        .unwrap_err();
    assert_eq!(err.code, Code::InvalidArgument);
}

#[test]
fn update_topic_test_update_with_unknown_path_is_rejected() {
    let mut host = Host::with_topic();
    let err = update_topic(&mut host, topic(TOPIC), &["this_field_does_not_exist"]).unwrap_err();
    assert_eq!(err.code, Code::InvalidArgument);
}

#[test]
fn update_immutable_path_name_is_rejected() {
    let mut host = Host::with_topic();
    let err = update_topic(&mut host, topic(TOPIC), &["name"]).unwrap_err();
    assert_eq!(err.code, Code::InvalidArgument);
}

#[test]
fn update_missing_topic_is_not_found() {
    let mut host = Host::start();
    let mut t = topic("projects/test/topics/nope");
    t.labels.insert("env".to_string(), "test".to_string());
    let err = update_topic(&mut host, t, &["labels"]).unwrap_err();
    assert_eq!(err.code, Code::NotFound);
}

#[test]
fn create_with_labels_round_trips_via_get() {
    let mut host = Host::start();
    let mut t = topic(TOPIC);
    t.labels.insert("env".to_string(), "ci".to_string());
    host.deltio.service.create_topic(&t).unwrap();
    let got = host.deltio.service.get_topic(TOPIC).unwrap();
    assert_eq!(got.labels.get("env").map(String::as_str), Some("ci"));
}

#[test]
fn create_with_message_retention_duration_round_trips_via_get() {
    let mut host = Host::start();
    let mut t = topic(TOPIC);
    t.message_retention_duration = seconds(24 * 60 * 60);
    host.deltio.service.create_topic(&t).unwrap();
    let got = host.deltio.service.get_topic(TOPIC).unwrap();
    let mrd = got.message_retention_duration.expect("retention");
    assert_eq!(mrd.seconds, 24 * 60 * 60);
}

#[test]
fn topic_is_created_once_and_can_be_deleted() {
    let mut host = Host::with_subscription();
    let err = host.deltio.service.create_topic(&topic(TOPIC)).unwrap_err();
    assert_eq!(err.code, Code::AlreadyExists);
    assert_eq!(err.message, "The topic projects/test/topics/topic already exists");

    host.deltio.service.delete_topic(TOPIC).unwrap();
    assert_eq!(host.deltio.service.get_topic(TOPIC).unwrap_err().code, Code::NotFound);
    assert_eq!(host.deltio.service.delete_topic(TOPIC).unwrap_err().code, Code::NotFound);
    // The subscription stays.
    assert_eq!(host.get().topic, "_deleted_topic_");
    assert_eq!(
        host.deltio.service.delete_topic("nonsense").unwrap_err().code,
        Code::InvalidArgument
    );
}

#[test]
fn topics_are_listed_by_project_in_pages() {
    let mut host = Host::start();
    for name in ["projects/a/topics/1", "projects/b/topics/2", "projects/a/topics/3"] {
        host.deltio.service.create_topic(&topic(name)).unwrap();
    }
    let ask = |host: &Host, token: &str| {
        host.deltio
            .service
            .list_topics(&ListTopicsRequest {
                project: "projects/a".to_string(),
                page_size: 1,
                page_token: token.to_string(),
            })
            .unwrap()
    };
    let first = ask(&host, "");
    assert_eq!(first.topics.len(), 1);
    assert_eq!(first.topics[0].name, "projects/a/topics/1");
    let second = ask(&host, &first.next_page_token);
    assert_eq!(second.topics[0].name, "projects/a/topics/3");
    assert_eq!(second.next_page_token, "");
}

#[test]
fn subscriptions_of_a_topic_are_listed() {
    let mut host = Host::with_subscription();
    let request = ListOfTopicRequest {
        topic: TOPIC.to_string(),
        page_size: 0,
        page_token: String::new(),
    };
    let page = host.deltio.service.list_topic_subscriptions(&request).unwrap();
    assert_eq!(page.names, vec![SUBSCRIPTION.to_string()]);
    let snapshots = host.deltio.service.list_topic_snapshots(&request).unwrap();
    assert!(snapshots.names.is_empty());
    assert_eq!(snapshots.next_page_token, "");

    host.deltio.service.delete_subscription(SUBSCRIPTION).unwrap();
    let page = host.deltio.service.list_topic_subscriptions(&request).unwrap();
    assert!(page.names.is_empty());

    let request = ListOfTopicRequest {
        topic: "projects/test/topics/nope".to_string(),
        page_size: 0,
        page_token: String::new(),
    };
    assert_eq!(
        host.deltio.service.list_topic_snapshots(&request).unwrap_err().code,
        Code::NotFound
    );
}

// Subscriptions.

#[test]
fn subscription_is_found_until_it_is_deleted() {
    let mut host = Host::with_subscription();
    assert_eq!(host.get().name, SUBSCRIPTION);
    host.deltio.service.delete_subscription(SUBSCRIPTION).unwrap();
    let err = host.deltio.service.get_subscription(SUBSCRIPTION).unwrap_err();
    assert_eq!(err.code, Code::NotFound);
    assert_eq!(err.message, "Resource not found (resource=sub).");
    let err = host.deltio.service.get_subscription("sub").unwrap_err();
    assert_eq!(err.code, Code::InvalidArgument);
    assert_eq!(err.message, "Invalid subscription name 'sub'");
}

#[test]
fn creation_is_refused_for_each_reason() {
    let mut host = Host::with_subscription();
    let err = host.deltio.service.create_subscription(&subscription()).unwrap_err();
    assert_eq!(err.code, Code::AlreadyExists);
    assert_eq!(
        err.message,
        "The subscription projects/test/subscriptions/sub already exists"
    );

    let mut s = subscription();
    s.name = "projects/other/subscriptions/sub".to_string();
    let err = host.deltio.service.create_subscription(&s).unwrap_err();
    assert_eq!(err.code, Code::InvalidArgument);
    assert_eq!(err.message, "The subscription must be in the same project as the topic");

    let mut s = subscription();
    s.name = "projects/test/subscriptions/second".to_string();
    s.topic = "projects/test/topics/nope".to_string();
    let err = host.deltio.service.create_subscription(&s).unwrap_err();
    assert_eq!(err.code, Code::NotFound);
    assert_eq!(err.message, "The topic projects/test/topics/nope does not exist");

    let mut s = subscription();
    s.name = "projects/test/subscriptions/second".to_string();
    s.dead_letter_policy = Some(DeadLetterPolicyProto {
        dead_letter_topic: "projects/test/topics/nope".to_string(),
        max_delivery_attempts: 5,
    });
    let err = host.deltio.service.create_subscription(&s).unwrap_err();
    assert_eq!(err.code, Code::NotFound);
    assert_eq!(err.message, "The dead letter topic does not exist");
}

#[test]
fn subscriptions_are_listed_by_project_in_pages() {
    let mut host = Host::with_topic();
    for i in 0..3 {
        let mut s = subscription();
        s.name = format!("projects/test/subscriptions/s{i}");
        host.create(s);
    }
    let ask = |host: &Host, size: i32, token: &str| {
        host.deltio.service.list_subscriptions(&ListSubscriptionsRequest {
            project: "projects/test".to_string(),
            page_size: size,
            page_token: token.to_string(),
        })
    };
    let first = ask(&host, 2, "").unwrap();
    assert_eq!(first.subscriptions.len(), 2);
    assert_eq!(first.subscriptions[0].name, "projects/test/subscriptions/s0");
    let second = ask(&host, 2, &first.next_page_token).unwrap();
    assert_eq!(second.subscriptions.len(), 1);
    assert_eq!(second.subscriptions[0].name, "projects/test/subscriptions/s2");
    assert_eq!(second.next_page_token, "");
    assert_eq!(ask(&host, 0, "").unwrap().subscriptions.len(), 3);
    assert_eq!(ask(&host, 2, "what").unwrap_err().code, Code::InvalidArgument);
    assert_eq!(ask(&host, -1, "").unwrap_err().code, Code::InvalidArgument);
}

#[test]
fn stream_of_a_deleted_subscription_fails() {
    let mut host = Host::with_subscription();
    let stream = host.open(0, 0);
    host.deltio.service.delete_subscription(SUBSCRIPTION).unwrap();
    // Nor does it go over to a later subscription of that name.
    host.create(subscription());
    match host.deltio.service.streaming_pull(&stream, host.now) {
        StreamStep::Fail(e) => {
            assert_eq!(e.code, Code::NotFound);
            assert_eq!(e.message, "Resource not found (resource=sub).");
        }
        other => panic!("expected a failure, got {other:?}"),
    }
    let err = host.send(&stream, streaming_ack(vec!["1".to_string()])).unwrap_err();
    assert_eq!(err.code, Code::FailedPrecondition);
    assert_eq!(err.message, "The operation resulted in a conflict.");
}

#[test]
fn pull_waits_where_there_is_nothing() {
    let mut host = Host::with_subscription();
    let request = PullRequest {
        subscription: SUBSCRIPTION.to_string(),
        return_immediately: false,
        max_messages: 10,
    };
    assert!(matches!(host.deltio.service.pull(&request, host.now), Ok(PullStep::Wait)));
    host.publish(TOPIC, &["now"]);
    match host.deltio.service.pull(&request, host.now) {
        Ok(PullStep::Respond(messages)) => assert_eq!(data(&messages[0]), "now"),
        other => panic!("expected messages, got {other:?}"),
    }
}

#[test]
fn received_message_tells_what_was_published() {
    let mut host = Host::with_subscription();
    let mut m = message("body");
    m.attributes.insert("k".to_string(), "v".to_string());
    m.ordering_key = "key".to_string();
    let ids = host.deltio.service.publish(TOPIC, vec![m], host.now, host.wall).unwrap();
    let received = host.pull(SUBSCRIPTION).remove(0);
    assert_eq!(received.ack_id, "1");
    assert_eq!(received.delivery_attempt, 1);
    assert_eq!(received.message.message_id, ids[0]);
    assert_eq!(received.message.data, b"body".to_vec());
    assert_eq!(received.message.attributes.get("k").map(String::as_str), Some("v"));
    assert_eq!(received.message.ordering_key, "key");
    let time = received.message.publish_time.unwrap();
    assert_eq!((time.seconds, time.nanos), (1_700_000_000, 0));
}

#[test]
fn refused_acknowledgements_and_deadlines() {
    let mut host = Host::with_subscription();
    let err = host
        .deltio
        .service
        .acknowledge(&AcknowledgeRequest {
            subscription: SUBSCRIPTION.to_string(),
            ack_ids: vec!["1".to_string(), "x".to_string()],
        })
        .unwrap_err();
    assert_eq!(err.code, Code::InvalidArgument);
    let err = host
        .deltio
        .service
        .modify_ack_deadline(
            &ModifyAckDeadlineRequest {
                subscription: SUBSCRIPTION.to_string(),
                ack_ids: vec!["1".to_string()],
                ack_deadline_seconds: -1,
            },
            host.now,
            host.wall,
        )
        .unwrap_err();
    assert_eq!(err.code, Code::InvalidArgument);
    assert_eq!(err.message, "Seconds must not be less than zero");
}

#[test]
fn longer_deadline_keeps_the_message_outstanding() {
    let mut host = Host::with_subscription();
    host.publish(TOPIC, &["slow"]);
    let id = host.pull(SUBSCRIPTION).remove(0).ack_id;
    host.deltio
        .service
        .modify_ack_deadline(
            &ModifyAckDeadlineRequest {
                subscription: SUBSCRIPTION.to_string(),
                ack_ids: vec![id],
                ack_deadline_seconds: 60,
            },
            host.now,
            host.wall,
        )
        .unwrap();
    assert_eq!(
        host.deltio.service.next_wakeup(),
        Some(host.now.plus(Duration::from_secs(60)))
    );
    host.advance(Duration::from_secs(30));
    assert!(host.pull(SUBSCRIPTION).is_empty());
    host.advance(Duration::from_secs(30));
    assert_eq!(host.pull(SUBSCRIPTION).len(), 1);
}

#[test]
fn methods_that_are_not_there() {
    let status = not_implemented("Seek");
    assert_eq!(status.code, Code::Unimplemented);
    assert_eq!(status.message, "Seek is not implemented in Deltio");
}

// Whole runs.

#[test]
fn all_published_messages_are_received() {
    let mut host = Host::with_subscription();
    host.publish(TOPIC, &["abc"; 10]);
    let mut client = Scenario::receive_all(10);
    let mut done = false;
    for m in host.pull(SUBSCRIPTION) {
        assert!(!done);
        let step = client.on_delivery();
        assert_eq!(step.answer, Answer::Ack);
        host.ack(SUBSCRIPTION, &m.ack_id);
        done = step.done;
    }
    assert!(done);
    assert!(host.pull(SUBSCRIPTION).is_empty());
}

#[test]
fn refused_message_comes_again_after_its_backoff() {
    let mut host = Host::with_topic();
    let mut s = subscription();
    s.retry_policy =
        Some(RetryPolicyProto { minimum_backoff: seconds(1), maximum_backoff: seconds(10) });
    host.create(s);
    host.publish(TOPIC, &["retry-me"]);

    let mut client = Scenario::retry_once();
    let first = host.pull(SUBSCRIPTION).remove(0);
    let step = client.on_delivery();
    assert_eq!(step.answer, Answer::Nack);
    assert!(!step.done);
    host.nack(SUBSCRIPTION, &first.ack_id);

    // The second attempt waits for twice the shortest backoff.
    assert!(host.pull(SUBSCRIPTION).is_empty());
    host.advance(Duration::from_millis(1_999));
    assert!(host.pull(SUBSCRIPTION).is_empty());
    host.advance(Duration::from_millis(1));
    let second = host.pull(SUBSCRIPTION).remove(0);
    assert_eq!(data(&second), "retry-me");
    assert_eq!(second.delivery_attempt, 2);
    let step = client.on_delivery();
    assert_eq!(step.answer, Answer::Ack);
    assert!(step.done);
    host.ack(SUBSCRIPTION, &second.ack_id);
}

#[test]
fn message_refused_too_often_becomes_a_dead_letter() {
    let dead = "projects/test/topics/dead";
    let observer = "projects/test/subscriptions/observer";
    let mut host = Host::with_topic();
    host.deltio.service.create_topic(&topic(dead)).unwrap();
    let mut s = subscription();
    s.dead_letter_policy = Some(DeadLetterPolicyProto {
        dead_letter_topic: dead.to_string(),
        max_delivery_attempts: 5,
    });
    host.create(s);
    let mut s = subscription();
    s.name = observer.to_string();
    s.topic = dead.to_string();
    host.create(s);
    host.publish(TOPIC, &["dlq-me"]);

    let mut client = Scenario::until_dead_lettered(5);
    loop {
        let m = host.pull(SUBSCRIPTION).remove(0);
        let step = client.on_delivery();
        assert_eq!(step.answer, Answer::Nack);
        assert!(host.pull(observer).is_empty());
        host.nack(SUBSCRIPTION, &m.ack_id);
        if step.done {
            assert_eq!(m.delivery_attempt, 5);
            break;
        }
    }

    assert!(host.pull(SUBSCRIPTION).is_empty());
    let letter = host.pull(observer).remove(0);
    assert_eq!(data(&letter), "dlq-me", "DLQ message data mismatch");
    let attributes = &letter.message.attributes;
    assert_eq!(
        attributes.get("CloudPubSubDeadLetterSourceDeliveryCount").map(String::as_str),
        Some("5")
    );
    assert_eq!(
        attributes.get("CloudPubSubDeadLetterSourceSubscription").map(String::as_str),
        Some("sub")
    );
    assert_eq!(
        attributes.get("CloudPubSubDeadLetterSourceSubscriptionProject").map(String::as_str),
        Some("test")
    );
    assert_eq!(
        attributes.get("CloudPubSubDeadLetterSourceTopicPublishTime").map(String::as_str),
        Some("2023-11-14T22:13:20.000+00:00")
    );
}

// Metrics.

#[test]
fn metrics_report_queue_depth_and_counters() {
    let mut host = Host::with_subscription();
    host.publish(TOPIC, &["a", "b", "c"]);

    // Before pulling, all 3 should be in the backlog.
    let text = host.metrics();
    assert!(text.contains("deltio_topics 1"), "got:\n{text}");
    assert!(text.contains("deltio_subscriptions 1"), "got:\n{text}");
    let both = format!("{{subscription=\"{SUBSCRIPTION}\",topic=\"{TOPIC}\"}}");
    let has = |text: &str, sample: String| {
        assert!(text.contains(&sample), "no {sample}, got:\n{text}");
    };
    has(&text, format!("deltio_subscription_backlog_messages{both} 3"));

    // Pull all 3, then ack 1.
    let pulled = host.pull(SUBSCRIPTION);
    assert_eq!(pulled.len(), 3);
    host.ack(SUBSCRIPTION, &pulled[0].ack_id);

    let text = host.metrics();
    has(&text, format!("deltio_subscription_backlog_messages{both} 0"));
    has(&text, format!("deltio_subscription_outstanding_messages{both} 2"));
    has(&text, format!("deltio_topic_messages_published_total{{topic=\"{TOPIC}\"}} 3"));
    has(
        &text,
        format!("deltio_subscription_messages_pulled_total{{subscription=\"{SUBSCRIPTION}\"}} 3"),
    );
    has(
        &text,
        format!("deltio_subscription_messages_acked_total{{subscription=\"{SUBSCRIPTION}\"}} 1"),
    );
    has(&text, format!("deltio_topic_messages_published_bytes_total{{topic=\"{TOPIC}\"}} 3"));
    has(&text, format!("deltio_subscription_retry_messages{both} 0"));
    has(&text, format!("deltio_subscription_oldest_unacked_message_age_seconds{both}"));
    assert!(text.contains("deltio_build_info{version=\""), "got:\n{text}");
    assert!(text.contains("# TYPE deltio_start_time_seconds gauge"));
    assert!(text.contains("deltio_push_dispatch_total{result=\"success\"} 0"));
    assert!(text.contains("deltio_push_dispatch_total{result=\"failure\"} 0"));
    assert!(text.contains("# TYPE deltio_push_dispatch_duration_seconds histogram"));
    assert!(text.contains("deltio_push_dispatch_duration_seconds_bucket{le=\"+Inf\"} 0"));
    assert!(text.contains("deltio_push_dispatch_duration_seconds_count 0"));
    assert!(text.contains("# TYPE deltio_topic_messages_published_total counter"));
    assert!(text.contains("# TYPE deltio_subscription_backlog_messages gauge"));
}

#[test]
fn metrics_tell_the_start_and_the_pushes() {
    let mut host = with_push_subscription();
    host.deltio.push_metrics.record(true, Duration::from_millis(30));
    host.deltio.push_metrics.record(false, Duration::from_secs(3));
    let text = host.metrics();
    assert!(text.contains("deltio_start_time_seconds 1700000000\n"));
    assert!(text.contains("deltio_push_dispatch_total{result=\"failure\"} 1\n"));
    assert!(text.contains("deltio_push_dispatch_duration_seconds_bucket{le=\"0.025\"} 0\n"));
    assert!(text.contains("deltio_push_dispatch_duration_seconds_bucket{le=\"0.05\"} 1\n"));
    assert!(text.contains("deltio_push_dispatch_duration_seconds_bucket{le=\"+Inf\"} 2\n"));
    assert!(text.contains("deltio_push_dispatch_duration_seconds_sum 3.030000\n"));
    assert!(text.contains("deltio_push_dispatch_duration_seconds_count 2\n"));
}

#[test]
fn push_loop_keeps_its_settings() {
    let host = Host::start();
    let push_loop = host.deltio.push_loop(Duration::from_millis(100), 8);
    assert_eq!(push_loop.interval, Duration::from_millis(100));
    assert_eq!(push_loop.max_concurrency, 8);
}

#[test]
fn given_subscription_is_read_as_the_same() {
    let mut host = Host::with_topic();
    let mut asked = subscription();
    asked.ack_deadline_seconds = 33;
    asked.filter = "  attributes:x ".to_string();
    asked.message_retention_duration = Some(DurationProto { seconds: 5, nanos: 0 });
    host.create(asked);
    let given = host.get();
    host.deltio.service.delete_subscription(SUBSCRIPTION).unwrap();

    // What was given is asked for, and is given again.
    host.deltio.service.create_subscription(&given).unwrap();
    let again = host.get();
    assert_eq!(again.ack_deadline_seconds, 33);
    assert_eq!(again.filter, "attributes:x");
    assert_eq!(again.message_retention_duration.unwrap().seconds, 600);
    assert_eq!(again.topic, given.topic);
}

#[test]
fn deleted_subscription_gets_no_push_config() {
    let mut host = Host::with_subscription();
    host.deltio.service.delete_subscription(SUBSCRIPTION).unwrap();
    let request = ModifyPushConfigRequest {
        subscription: SUBSCRIPTION.to_string(),
        push_config: Some(PushConfigProto {
            push_endpoint: "http://end.point".to_string(),
            attributes: StringMap::new(),
            oidc_token: None,
        }),
    };
    let err = host.deltio.service.modify_push_config(&request).unwrap_err();
    assert_eq!(err.code, Code::NotFound);
    host.create(subscription());
    assert!(host.get().push_config.is_none());
}

#[test]
fn update_goes_by_its_set_of_paths() {
    let masks: [&[&str]; 3] = [
        &["ack_deadline_seconds", "enable_exactly_once_delivery"],
        &["enable_exactly_once_delivery", "ack_deadline_seconds"],
        &["ack_deadline_seconds", "enable_exactly_once_delivery", "ack_deadline_seconds"],
    ];
    for mask in masks {
        let mut host = Host::with_subscription();
        let mut changed = for_update();
        changed.ack_deadline_seconds = 42;
        changed.enable_exactly_once_delivery = true;
        changed.message_retention_duration = seconds(1_000);
        let request = UpdateSubscriptionRequest {
            subscription: Some(changed),
            update_mask: Some(mask.iter().map(|p| p.to_string()).collect()),
        };
        host.deltio.service.update_subscription(request).unwrap();
        let given = host.get();
        assert_eq!(given.ack_deadline_seconds, 42);
        assert!(given.enable_exactly_once_delivery);
        assert!(given.message_retention_duration.is_none());
    }
}
