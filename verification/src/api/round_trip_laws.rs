//! What is asked for is what is given back.
use vstd::prelude::*;

use crate::api::parser;
use crate::api::proto::{
    DeadLetterPolicyProto, DurationProto, RetryPolicyProto, SubscriptionProto, TopicProto,
};
use crate::api::publisher;
use crate::api::publisher::TopicInfoView;
use crate::api::resources;
use crate::api::status::StatusView;
use crate::api::subscriber;
use crate::names;
use crate::subscriptions::info::{InfoView, SubscriptionInfo};
use crate::subscriptions::policies::{DeadLetterPolicy, RetryPolicy};
use crate::subscriptions::subscription_name;
use crate::text;
use crate::topics::topic::TopicInfo;
use crate::topics::topic_name;
use crate::topics::topic_name::{TopicName, TopicNameView};

verus! {

/// A name that is read is written as it was.
pub proof fn law_read_name_writes_back(raw: Seq<char>)
    ensures
        topic_name::topic_name_read(raw) matches Some(name) ==> topic_name::topic_name_text(name)
            == raw,
        subscription_name::subscription_name_read(raw) matches Some(name)
            ==> subscription_name::subscription_name_text(name) == raw,
{
    lemma_name_written(raw, "/topics/"@);
    lemma_name_written(raw, "/subscriptions/"@);
}

/// A name that is read has that text.
proof fn lemma_name_written(raw: Seq<char>, collection: Seq<char>)
    ensures
        names::name_read(raw, collection) matches Some((project, id)) ==> names::name_text(
            project,
            collection,
            id,
        ) == raw,
{
    if names::name_read(raw, collection) is Some {
        let (project, id) = choose|project: Seq<char>, id: Seq<char>|
            names::is_name(raw, project, collection, id);
        assert(names::is_name(raw, project, collection, id));
    }
}

/// Whether the span is written in the usual way: not negative, and with less than a second in the
/// nanoseconds.
pub open spec fn is_usual(d: DurationProto) -> bool {
    d.seconds >= 0 && 0 <= d.nanos < 1_000_000_000
}

/// A span that is written in the usual way is given back as it was.
pub proof fn law_span_reads_back(asked: DurationProto, given: DurationProto)
    requires
        is_usual(asked),
        resources::is_span_of(given, parser::span_nanos(asked)),
    ensures
        given == asked,
{
    let nanos = parser::span_nanos(asked);
    assert(nanos / 1_000_000_000 == asked.seconds);
}

/// A topic is given back as it was asked for.
pub proof fn law_topic_reads_back(asked: TopicProto, info: TopicInfo, given: TopicProto)
    requires
        publisher::topic_read(asked) == Ok::<TopicInfoView, StatusView>(info@),
        resources::is_topic_resource_of(given, info),
        asked.message_retention_duration matches Some(d) ==> is_usual(d),
    ensures
        given.name@ == asked.name@,
        given.labels@ == asked.labels@,
        given.message_retention_duration == asked.message_retention_duration,
{
    law_read_name_writes_back(asked.name@);
    if let Some(d) = asked.message_retention_duration {
        law_span_reads_back(d, given.message_retention_duration->0);
    }
}

/// Whether the span is written in the usual way and within the bounds of a retention.
pub open spec fn is_retention(d: DurationProto) -> bool {
    is_usual(d) && 600_000_000_000 <= parser::span_nanos(d) <= 604_800_000_000_000
}

/// Whether both waits are given, in the usual way, and ten minutes at most.
pub open spec fn is_full_policy(p: RetryPolicyProto) -> bool {
    &&& p.minimum_backoff matches Some(d) && is_usual(d) && parser::span_nanos(d)
        <= 600_000_000_000
    &&& p.maximum_backoff matches Some(d) && is_usual(d) && parser::span_nanos(d)
        <= 600_000_000_000
}

/// A retry policy whose waits are within bounds is given back as it was asked for.
pub proof fn law_retry_policy_reads_back(
    asked: RetryPolicyProto,
    policy: RetryPolicy,
    given: RetryPolicyProto,
)
    requires
        is_full_policy(asked),
        parser::retry_policy_read(asked) == Ok::<_, StatusView>(policy@),
        resources::is_retry_policy_of(given, policy),
    ensures
        given == asked,
{
    law_span_reads_back(asked.minimum_backoff->0, given.minimum_backoff->0);
    law_span_reads_back(asked.maximum_backoff->0, given.maximum_backoff->0);
}

/// A dead letter policy with a number of attempts is given back as it was asked for.
pub proof fn law_dead_letter_policy_reads_back(
    asked: DeadLetterPolicyProto,
    policy: DeadLetterPolicy,
    given: DeadLetterPolicyProto,
)
    requires
        asked.max_delivery_attempts != 0,
        parser::dead_letter_policy_read(asked) == Ok::<_, StatusView>(policy@),
        resources::is_dead_letter_policy_of(given, policy),
    ensures
        given.dead_letter_topic@ == asked.dead_letter_topic@,
        given.max_delivery_attempts == asked.max_delivery_attempts,
{
    law_read_name_writes_back(asked.dead_letter_topic@);
}

/// A subscription is given back as it was asked for: a deadline below ten seconds as ten seconds,
/// and the filter without the white space around it.
pub proof fn law_subscription_reads_back(
    asked: SubscriptionProto,
    topic: TopicName,
    info: SubscriptionInfo,
    given: SubscriptionProto,
)
    requires
        subscriber::subscription_read(asked) == Ok::<(TopicNameView, InfoView), StatusView>(
            (topic@, info@),
        ),
        resources::is_resource_of(given, info, Some(topic)),
    ensures
        given.name@ == asked.name@,
        given.topic@ == asked.topic@,
        given.ack_deadline_seconds == if asked.ack_deadline_seconds <= 10 {
            10
        } else {
            asked.ack_deadline_seconds
        },
        given.filter@ == text::trimmed(asked.filter@),
        given.enable_message_ordering == asked.enable_message_ordering,
        given.enable_exactly_once_delivery == asked.enable_exactly_once_delivery,
        !given.detached,
        asked.message_retention_duration is None ==> given.message_retention_duration is None,
        (asked.message_retention_duration matches Some(d) && is_retention(d))
            ==> given.message_retention_duration == asked.message_retention_duration,
        asked.retry_policy is None ==> given.retry_policy is None,
        (asked.retry_policy matches Some(p) && is_full_policy(p)) ==> given.retry_policy
            == asked.retry_policy,
        asked.dead_letter_policy is None ==> given.dead_letter_policy is None,
        asked.dead_letter_policy matches Some(p) ==> given.dead_letter_policy matches Some(g)
            && g.dead_letter_topic@ == p.dead_letter_topic@ && g.max_delivery_attempts == if
        p.max_delivery_attempts == 0 {
            5
        } else {
            p.max_delivery_attempts
        },
        asked.push_config is None ==> given.push_config is None,
        asked.push_config matches Some(c) ==> given.push_config matches Some(g)
            && g.push_endpoint@ == text::trimmed(c.push_endpoint@) && g.attributes@ == c.attributes@
            && (g.oidc_token is Some == c.oidc_token is Some),
        (asked.push_config matches Some(c) && c.oidc_token is Some) ==> {
            let c = asked.push_config->0.oidc_token->0;
            let g = given.push_config->0.oidc_token->0;
            g.audience@ == c.audience@ && g.service_account_email@ == c.service_account_email@
        },
{
    if let Some(p) = asked.dead_letter_policy {
        law_read_name_writes_back(p.dead_letter_topic@);
    }
    law_read_name_writes_back(asked.name@);
    law_read_name_writes_back(asked.topic@);
    if let Some(d) = asked.message_retention_duration {
        if is_retention(d) {
            law_span_reads_back(d, given.message_retention_duration->0);
        }
    }
    if let Some(p) = asked.retry_policy {
        if is_full_policy(p) {
            law_retry_policy_reads_back(p, info.retry_policy->0, given.retry_policy->0);
        }
    }
    assert(text::trimmed(asked.filter@).len() == 0 ==> text::trimmed(asked.filter@)
        =~= Seq::empty());
}

/// A span that is given to clients is read as the one held.
proof fn lemma_span_parses_back(given: DurationProto, nanos: nat)
    requires
        resources::is_span_of(given, nanos),
        nanos <= 604_800_000_000_000,
    ensures
        parser::span_nanos(given) == nanos,
        is_usual(given),
{
}

/// Whether the parts of the configuration are what those of a request are read as.
pub open spec fn is_read_from(info: InfoView, asked: SubscriptionProto) -> bool {
    &&& info.ack_deadline == parser::ack_deadline_read(asked.ack_deadline_seconds)
    &&& parser::push_config_given(asked.push_config) == Ok::<_, StatusView>(info.push_config)
    &&& parser::retry_policy_given(asked.retry_policy) == Ok::<_, StatusView>(info.retry_policy)
    &&& parser::dead_letter_policy_given(asked.dead_letter_policy) == Ok::<_, StatusView>(
        info.dead_letter_policy,
    )
    &&& parser::retention_given(asked.message_retention_duration) == Ok::<_, StatusView>(
        info.message_retention_duration,
    )
    &&& subscriber::filter_read(asked.filter@) == Ok::<_, StatusView>(info.filter)
}

/// A subscription as it is given to clients is read as the configuration held: where the parts of
/// the configuration were read from any requests, those of the resource are read as the same.
pub proof fn law_given_resource_is_read_as_held(
    info: SubscriptionInfo,
    topic: Option<TopicName>,
    asked: SubscriptionProto,
    given: SubscriptionProto,
)
    requires
        is_read_from(info@, asked),
        resources::is_resource_of(given, info, topic),
    ensures
        is_read_from(info@, given),
        given.enable_message_ordering == info.enable_message_ordering,
        given.enable_exactly_once_delivery == info.enable_exactly_once_delivery,
        given.detached == info.detached,
        given.topic@ == (match topic {
            Some(t) => topic_name::topic_name_text(t@),
            None => "_deleted_topic_"@,
        }),
{
    let held = info@;
    lemma_deadline_is_read_as_held(asked.ack_deadline_seconds, given.ack_deadline_seconds);
    if let Some(c) = info.push_config {
        let g = given.push_config->0;
        text::law_trimming_again_changes_nothing(asked.push_config->0.push_endpoint@);
        assert(parser::push_config_read(g)->Ok_0 == held.push_config->0);
    }
    if let Some(r) = info.retry_policy {
        let g = given.retry_policy->0;
        lemma_span_parses_back(g.minimum_backoff->0, r.minimum_backoff@);
        lemma_span_parses_back(g.maximum_backoff->0, r.maximum_backoff@);
        assert(parser::retry_policy_read(g)->Ok_0 == held.retry_policy->0);
    }
    if let Some(d) = info.dead_letter_policy {
        law_read_name_writes_back(asked.dead_letter_policy->0.dead_letter_topic@);
    }
    if let Some(d) = info.message_retention_duration {
        lemma_span_parses_back(given.message_retention_duration->0, d@);
    }
    text::law_trimming_again_changes_nothing(asked.filter@);
    assert(text::trimmed(Seq::<char>::empty()) =~= Seq::empty());
}

/// A deadline that is given to clients is read as the one held.
proof fn lemma_deadline_is_read_as_held(asked: i32, given: i32)
    requires
        given == (parser::ack_deadline_read(asked) / 1_000_000_000) as u64 as i32,
    ensures
        parser::ack_deadline_read(given) == parser::ack_deadline_read(asked),
{
}

} // verus!
