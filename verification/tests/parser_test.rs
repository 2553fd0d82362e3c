//! How requests are read, and why they are refused.
use deltio::api::parser::{
    parse_ack_id, parse_create_ack_deadline, parse_dead_letter_policy,
    parse_deadline_extension_duration, parse_deadline_modifications,
    parse_message_retention_duration, parse_page_token, parse_paging, parse_project_id,
    parse_push_config, parse_retry_policy, parse_subscription_name, parse_topic_message,
    parse_topic_name,
};
use deltio::api::proto::{
    DeadLetterPolicyProto, DurationProto, OidcToken, PubsubMessage, PushConfigProto,
    RetryPolicyProto,
};
use deltio::api::status::Code;
use deltio::collections::StringMap;
use deltio::names::{parse_name, write_name};
use deltio::paging::{PageToken, Paging};
use deltio::subscriptions::ack::AckId;
use deltio::subscriptions::info::{SubscriptionInfo, SubscriptionUpdate};
use deltio::subscriptions::policies::RetryPolicy;
use deltio::subscriptions::subscription_name::SubscriptionName;
use deltio::text::{decimal_string, parse_number, trim};
use deltio::time::{epoch_days_to_date, Duration, Instant, SystemTime};
use deltio::topics::topic_message::MessageId;
use deltio::topics::topic_name::TopicName;

fn span(seconds: i64, nanos: i32) -> DurationProto {
    DurationProto { seconds, nanos }
}

#[test]
fn names_read_back() {
    let name = parse_topic_name("projects/p/topics/a/b").unwrap();
    assert_eq!(name.to_string(), "projects/p/topics/a/b");
    assert!(name.same(&TopicName::new("p", "a/b")));
    assert_eq!(
        parse_topic_name("projects/p").unwrap_err().message,
        "Invalid topic name 'projects/p'"
    );
    let name = parse_subscription_name("projects/p/subscriptions/s").unwrap();
    assert_eq!(name.project_id(), "p");
    assert_eq!(name.subscription_id(), "s");
    assert_eq!(
        parse_subscription_name("projects/p/topics/s").unwrap_err().code,
        Code::InvalidArgument
    );
    assert_eq!(TopicName::deleted().to_string(), "_deleted_topic_");
    assert_eq!(
        parse_name("projects/p/things/t", "/things/"),
        Some(("p".to_string(), "t".to_string()))
    );
    assert_eq!(write_name("p", "/things/", "t"), "projects/p/things/t");
}

#[test]
fn ack_ids_read_back() {
    assert_eq!(parse_ack_id("42").unwrap(), AckId::new(42));
    assert_eq!(AckId::new(42).to_string(), "42");
    assert_eq!(
        parse_ack_id("18446744073709551615").unwrap().value,
        u64::MAX
    );
    for bad in ["", "-1", "4x", "18446744073709551616"] {
        assert_eq!(parse_ack_id(bad).unwrap_err().code, Code::InvalidArgument);
    }
}

#[test]
fn deadlines_move_by_ten_minutes_at_most() {
    assert_eq!(
        parse_deadline_extension_duration(-1).unwrap_err().message,
        "Seconds must not be less than zero"
    );
    assert_eq!(parse_deadline_extension_duration(0).unwrap(), None);
    assert_eq!(parse_deadline_extension_duration(60).unwrap(), Some(Duration::from_secs(60)));
    assert_eq!(parse_deadline_extension_duration(601).unwrap(), Some(Duration::from_secs(600)));

    let now = Instant::at(Duration::from_secs(100));
    let ms = parse_deadline_modifications(now, &vec!["1".into(), "2".into()], &vec![5, 0]).unwrap();
    assert_eq!(ms.len(), 2);
    assert_eq!(ms[0].ack_id, AckId::new(1));
    assert_eq!(ms[0].new_deadline.unwrap().time, now.plus(Duration::from_secs(5)));
    assert!(ms[1].new_deadline.is_none());
}

#[test]
fn pages_read_back() {
    assert_eq!(PageToken::new(7).encode(), "7");
    assert_eq!(parse_page_token("7").unwrap(), Some(PageToken::new(7)));
    assert_eq!(parse_page_token("").unwrap(), None);
    assert_eq!(parse_page_token("x").unwrap_err().message, "Page token malformed");
    assert_eq!(parse_paging(-1, "").unwrap_err().message, "Not a valid page size");
    assert_eq!(parse_paging(10, "5").unwrap(), Paging::new(10, Some(5)));
    assert_eq!(Paging::new(0, None).range(250), (0, 100));
    assert_eq!(Paging::new(10, Some(5)).range(8), (5, 8));
    assert_eq!(Paging::new(10, Some(20)).range(8), (8, 8));
}

#[test]
fn projects_are_named_with_a_prefix() {
    assert_eq!(parse_project_id("projects/p").unwrap(), "p");
    assert_eq!(parse_project_id("p").unwrap_err().message, "Invalid project name 'p'");
}

#[test]
fn push_configs_need_an_http_endpoint() {
    let mut attributes = StringMap::new();
    attributes.insert("x".to_string(), "y".to_string());
    let config = parse_push_config(&PushConfigProto {
        push_endpoint: "  https://example.invalid ".to_string(),
        attributes,
        oidc_token: Some(OidcToken {
            service_account_email: "me".to_string(),
            audience: "you".to_string(),
        }),
    })
    .unwrap();
    assert_eq!(config.endpoint, "https://example.invalid");
    assert_eq!(config.oidc_token.as_ref().unwrap().audience, "you");
    assert_eq!(config.oidc_token.as_ref().unwrap().service_account_email, "me");
    assert_eq!(config.attributes.unwrap().get("x").map(String::as_str), Some("y"));

    let err = parse_push_config(&PushConfigProto {
        push_endpoint: "ftp://nope".to_string(),
        attributes: StringMap::new(),
        oidc_token: None,
    })
    .unwrap_err();
    assert_eq!(err.message, "Unsupported push_endpoint");
}

#[test]
fn retry_policies_have_defaults_and_bounds() {
    let policy =
        parse_retry_policy(&RetryPolicyProto { minimum_backoff: None, maximum_backoff: None })
            .unwrap();
    assert_eq!(policy.minimum_backoff, Duration::from_secs(10));
    assert_eq!(policy.maximum_backoff, Duration::from_secs(600));
    let policy = parse_retry_policy(&RetryPolicyProto {
        minimum_backoff: Some(span(-5, 0)),
        maximum_backoff: Some(span(1_000, 0)),
    })
    .unwrap();
    assert_eq!(policy.minimum_backoff, Duration::from_secs(0));
    assert_eq!(policy.maximum_backoff, Duration::from_secs(600));
    let err = parse_retry_policy(&RetryPolicyProto {
        minimum_backoff: Some(span(5, 1)),
        maximum_backoff: Some(span(5, 0)),
    })
    .unwrap_err();
    assert_eq!(err.message, "minimum_backoff must not be greater than maximum_backoff");
}

#[test]
fn dead_letter_policies_allow_five_to_a_hundred_attempts() {
    let read = |attempts: i32| {
        parse_dead_letter_policy(&DeadLetterPolicyProto {
            dead_letter_topic: "projects/p/topics/dead".to_string(),
            max_delivery_attempts: attempts,
        })
    };
    assert_eq!(read(0).unwrap().max_delivery_attempts, 5);
    assert_eq!(read(5).unwrap().max_delivery_attempts, 5);
    assert_eq!(read(100).unwrap().max_delivery_attempts, 100);
    for bad in [-1, 4, 101] {
        assert_eq!(
            read(bad).unwrap_err().message,
            "max_delivery_attempts must be between 5 and 100"
        );
    }
    let err = parse_dead_letter_policy(&DeadLetterPolicyProto {
        dead_letter_topic: "dead".to_string(),
        max_delivery_attempts: 5,
    })
    .unwrap_err();
    assert_eq!(err.message, "Invalid topic name 'dead'");
}

#[test]
fn retention_is_kept_within_bounds() {
    assert_eq!(
        parse_message_retention_duration(&span(1, 0)).unwrap(),
        Duration::from_secs(600)
    );
    assert_eq!(
        parse_message_retention_duration(&span(3_600, 5)).unwrap(),
        Duration::new(3_600, 5)
    );
    assert_eq!(
        parse_message_retention_duration(&span(700_000, 0)).unwrap(),
        Duration::from_secs(604_800)
    );
    assert_eq!(
        parse_message_retention_duration(&span(0, -1)).unwrap_err().message,
        "message_retention_duration must be non-negative"
    );
}

#[test]
fn ack_deadline_is_ten_seconds_at_least() {
    assert_eq!(parse_create_ack_deadline(-3), Duration::from_secs(10));
    assert_eq!(parse_create_ack_deadline(11), Duration::from_secs(11));
}

#[test]
fn messages_are_read_as_they_are_published() {
    let m = parse_topic_message(
        PubsubMessage {
            data: vec![1, 2, 3],
            attributes: StringMap::new(),
            message_id: String::new(),
            publish_time: None,
            ordering_key: "k".to_string(),
        },
        Instant::at(Duration::from_secs(1)),
    );
    assert_eq!(m.data.to_vec(), vec![1, 2, 3]);
    assert!(m.attributes.is_none());
    assert_eq!(m.ordering_key.as_deref(), Some("k"));
}

#[test]
fn message_ids_differ_between_topics() {
    assert_eq!(MessageId::new(1, 2).value, (1u64 << 32) + 2);
    assert_ne!(MessageId::new(1, 2), MessageId::new(2, 1));
    assert_eq!(MessageId::new(1, 2).to_string(), "4294967298");
}

#[test]
fn numbers_read_back() {
    for n in [0u64, 7, 10, 1_234_567_890, u64::MAX] {
        assert_eq!(parse_number(decimal_string(n).as_str()), Some(n));
    }
    assert_eq!(parse_number("007"), Some(7));
    assert_eq!(trim(" \u{2003}a b\t"), "a b");
}

#[test]
fn dates_are_those_of_the_calendar() {
    assert_eq!(epoch_days_to_date(0), (1970, 1, 1));
    assert_eq!(epoch_days_to_date(11_016), (2000, 2, 29));
    assert_eq!(epoch_days_to_date(11_017), (2000, 3, 1));
    assert!(SystemTime::from_parts(-1, 0).since_unix_epoch().is_none());
}

#[test]
fn backoff_doubles_between_its_bounds() {
    let policy = RetryPolicy {
        minimum_backoff: Duration::from_millis(100),
        maximum_backoff: Duration::from_secs(1),
    };
    let waits: Vec<Duration> = (1..=6).map(|n| policy.calculate_backoff(n)).collect();
    let expected: Vec<Duration> =
        [100, 200, 400, 800, 1_000, 1_000].iter().map(|m| Duration::from_millis(*m)).collect();
    assert_eq!(waits, expected);
}

#[test]
fn update_made_twice_is_made_once() {
    let mut info = SubscriptionInfo::new_with_defaults(SubscriptionName::new("p", "s"));
    let update = || {
        let mut u = SubscriptionUpdate::default();
        u.ack_deadline = Some(Duration::from_secs(30));
        u.message_retention_duration = Some(Some(Duration::from_secs(900)));
        u
    };
    info.apply_update(update());
    info.apply_update(update());
    assert_eq!(info.ack_deadline, Duration::from_secs(30));
    assert_eq!(info.message_retention_duration, Some(Duration::from_secs(900)));
    assert!(info.retry_policy.is_none());
}
