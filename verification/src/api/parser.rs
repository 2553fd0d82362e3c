//! Reads the parts of requests.
use vstd::prelude::*;

use crate::api::proto::{
    DeadLetterPolicyProto, DurationProto, PubsubMessage, PushConfigProto, RetryPolicyProto,
    SubscriptionProto,
};
use crate::api::status;
use crate::api::status::{Code, Status, StatusView};
use crate::message_data;
use crate::message_data::bytes_from_vec;
use crate::paging;
use crate::paging::{PageToken, Paging};
use crate::subscriptions::ack::{AckDeadline, AckId, DeadlineModification, Modification};
use crate::subscriptions::info;
use crate::subscriptions::info::{
    PushConfig, PushConfigOidcToken, PushConfigView, SubscriptionUpdate, UpdateView,
};
use crate::subscriptions::outstanding;
use crate::subscriptions::policies::{
    DeadLetterPolicy, DeadLetterPolicyView, RetryPolicy, RetryPolicyView,
};
use crate::subscriptions::state;
use crate::subscriptions::subscription_name;
use crate::subscriptions::subscription_name::SubscriptionName;
use crate::text;
use crate::time::{Duration, Instant};
use crate::topics::topic_message::TopicMessage;
use crate::topics::topic_name;
use crate::topics::topic_name::TopicName;

verus! {

/// Reads a topic name.
pub fn parse_topic_name(raw: &str) -> (r: Result<TopicName, Status>)
    ensures
        match r {
            Ok(n) => topic_name::topic_name_read(raw@) == Some(n@),
            Err(e) => topic_name::topic_name_read(raw@) is None && e@ == status::invalid_value(
                "Invalid topic name"@,
                raw@,
            ),
        },
{
    match TopicName::try_parse(raw) {
        Some(n) => Ok(n),
        None => Err(Status::invalid_value("Invalid topic name", raw)),
    }
}

/// Reads a subscription name.
pub fn parse_subscription_name(raw: &str) -> (r: Result<SubscriptionName, Status>)
    ensures
        match r {
            Ok(n) => subscription_name::subscription_name_read(raw@) == Some(n@),
            Err(e) => subscription_name::subscription_name_read(raw@) is None && e@
                == bad_subscription_name(raw@),
        },
{
    match SubscriptionName::try_parse(raw) {
        Some(n) => Ok(n),
        None => Err(Status::invalid_value("Invalid subscription name", raw)),
    }
}

/// The refusal of a text that is no subscription name.
pub open spec fn bad_subscription_name(raw: Seq<char>) -> StatusView {
    status::invalid_value("Invalid subscription name"@, raw)
}

/// The refusal of a text that is no ack id.
pub open spec fn bad_ack_id(raw: Seq<char>) -> StatusView {
    status::invalid_value("Invalid ack ID"@, raw)
}

/// Reads an ack id.
pub fn parse_ack_id(raw: &str) -> (r: Result<AckId, Status>)
    ensures
        match r {
            Ok(id) => text::number_read(raw@) == Some(id.value as nat),
            Err(e) => text::number_read(raw@) is None && e@ == bad_ack_id(raw@),
        },
{
    match AckId::parse(raw) {
        Ok(id) => Ok(id),
        Err(_) => Err(Status::invalid_value("Invalid ack ID", raw)),
    }
}

/// The ack ids that texts are read as, or the refusal of the first that is none.
pub open spec fn ack_ids_read(raws: Seq<String>) -> Result<Seq<AckId>, StatusView>
    decreases raws.len(),
{
    if raws.len() == 0 {
        Ok(Seq::empty())
    } else {
        match ack_ids_read(raws.drop_last()) {
            Ok(ids) => match text::number_read(raws.last()@) {
                Some(n) => Ok(ids.push(AckId { value: n as u64 })),
                None => Err(bad_ack_id(raws.last()@)),
            },
            Err(e) => Err(e),
        }
    }
}

/// Once one text is no ack id the refusal stays the same.
proof fn lemma_ack_ids_refused(raws: Seq<String>, i: int)
    requires
        0 <= i <= raws.len(),
        ack_ids_read(raws.take(i)) is Err,
    ensures
        ack_ids_read(raws) == ack_ids_read(raws.take(i)),
    decreases raws.len() - i,
{
    if i < raws.len() {
        assert(raws.take(i + 1).drop_last() =~= raws.take(i));
        lemma_ack_ids_refused(raws, i + 1);
    } else {
        assert(raws.take(i) =~= raws);
    }
}

/// Reads ack ids.
pub fn parse_ack_ids(raws: &Vec<String>) -> (r: Result<Vec<AckId>, Status>)
    ensures
        match r {
            Ok(ids) => ack_ids_read(raws@) == Ok::<Seq<AckId>, StatusView>(ids@),
            Err(e) => ack_ids_read(raws@) == Err::<Seq<AckId>, StatusView>(e@),
        },
{
    let mut ids: Vec<AckId> = Vec::new();
    let mut i: usize = 0;
    assert(raws@.take(0) =~= Seq::empty());
    while i < raws.len()
        invariant
            i <= raws@.len(),
            ack_ids_read(raws@.take(i as int)) == Ok::<Seq<AckId>, StatusView>(ids@),
        decreases raws@.len() - i,
    {
        assert(raws@.take(i + 1).drop_last() =~= raws@.take(i as int));
        match parse_ack_id(raws[i].as_str()) {
            Ok(id) => {
                ids.push(id);
            },
            Err(e) => {
                proof {
                    lemma_ack_ids_refused(raws@, i + 1);
                }
                return Err(e);
            },
        }
        i += 1;
    }
    assert(raws@.take(raws@.len() as int) =~= raws@);
    Ok(ids)
}

/// By how many seconds a deadline moves: up to ten minutes, and not at all for a message that is
/// returned.
pub open spec fn extension_read(seconds: i32) -> Result<Option<nat>, StatusView> {
    if seconds < 0 {
        Err(status::refusal(Code::InvalidArgument, "Seconds must not be less than zero"@))
    } else if seconds >= 600 {
        Ok(Some(600))
    } else if seconds == 0 {
        Ok(None)
    } else {
        Ok(Some(seconds as nat))
    }
}

/// Reads by how much a deadline moves.
pub fn parse_deadline_extension_duration(raw: i32) -> (r: Result<Option<Duration>, Status>)
    ensures
        match r {
            Ok(Some(d)) => extension_read(raw) matches Ok(Some(secs)) && d@ == secs * 1_000_000_000,
            Ok(None) => extension_read(raw) == Ok::<Option<nat>, StatusView>(None),
            Err(e) => extension_read(raw) == Err::<Option<nat>, StatusView>(e@),
        },
{
    if raw < 0 {
        Err(Status::invalid_argument("Seconds must not be less than zero"))
    } else if raw >= 600 {
        Ok(Some(Duration::from_secs(600)))
    } else if raw == 0 {
        Ok(None)
    } else {
        Ok(Some(Duration::from_secs(raw as u64)))
    }
}

/// What one deadline modification is read as: the ack id is looked at first.
pub open spec fn modification_read(now: nat, raw: Seq<char>, seconds: i32) -> Result<
    Modification,
    StatusView,
> {
    match text::number_read(raw) {
        None => Err(bad_ack_id(raw)),
        Some(n) => match extension_read(seconds) {
            Err(e) => Err(e),
            Ok(extension) => Ok(
                Modification {
                    ack_id: n as u64,
                    new_deadline: match extension {
                        Some(secs) => Some(state::later(now, secs * 1_000_000_000)),
                        None => None,
                    },
                },
            ),
        },
    }
}

/// What deadline modifications are read as, or the refusal of the first that is refused.
pub open spec fn modifications_read(
    now: nat,
    raws: Seq<String>,
    seconds: Seq<i32>,
    n: int,
) -> Result<Seq<Modification>, StatusView>
    decreases n,
{
    if n <= 0 {
        Ok(Seq::empty())
    } else {
        match modifications_read(now, raws, seconds, n - 1) {
            Ok(ms) => match modification_read(now, raws[n - 1]@, seconds[n - 1]) {
                Ok(m) => Ok(ms.push(m)),
                Err(e) => Err(e),
            },
            Err(e) => Err(e),
        }
    }
}

/// The shorter of the two lengths.
pub open spec fn paired(raws: Seq<String>, seconds: Seq<i32>) -> int {
    if raws.len() <= seconds.len() {
        raws.len() as int
    } else {
        seconds.len() as int
    }
}

/// Once one modification is refused the refusal stays the same.
proof fn lemma_modifications_refused(
    now: nat,
    raws: Seq<String>,
    seconds: Seq<i32>,
    i: int,
    n: int,
)
    requires
        0 <= i <= n,
        modifications_read(now, raws, seconds, i) is Err,
    ensures
        modifications_read(now, raws, seconds, n) == modifications_read(now, raws, seconds, i),
    decreases n,
{
    if i < n {
        lemma_modifications_refused(now, raws, seconds, i, n - 1);
    }
}

/// Reads deadline modifications: ack ids, and for each of them the seconds.
pub fn parse_deadline_modifications(
    now: Instant,
    ack_ids: &Vec<String>,
    modify_deadline_seconds: &Vec<i32>,
) -> (r: Result<Vec<DeadlineModification>, Status>)
    ensures
        ({
            let read = modifications_read(
                now@,
                ack_ids@,
                modify_deadline_seconds@,
                paired(ack_ids@, modify_deadline_seconds@),
            );
            match r {
                Ok(ms) => read == Ok::<Seq<Modification>, StatusView>(
                    outstanding::modifications_of(ms@),
                ),
                Err(e) => read == Err::<Seq<Modification>, StatusView>(e@),
            }
        }),
{
    let mut ms: Vec<DeadlineModification> = Vec::new();
    let mut i: usize = 0;
    let ghost n = paired(ack_ids@, modify_deadline_seconds@);
    assert(outstanding::modifications_of(ms@) =~= Seq::empty());
    while i < ack_ids.len() && i < modify_deadline_seconds.len()
        invariant
            i <= n,
            n == paired(ack_ids@, modify_deadline_seconds@),
            modifications_read(now@, ack_ids@, modify_deadline_seconds@, i as int) == Ok::<
                Seq<Modification>,
                StatusView,
            >(outstanding::modifications_of(ms@)),
        decreases ack_ids@.len() - i,
    {
        let ghost before = ms@;
        let id = match parse_ack_id(ack_ids[i].as_str()) {
            Ok(id) => id,
            Err(e) => {
                proof {
                    lemma_modifications_refused(
                        now@,
                        ack_ids@,
                        modify_deadline_seconds@,
                        i + 1,
                        n,
                    );
                }
                return Err(e);
            },
        };
        let extension = match parse_deadline_extension_duration(modify_deadline_seconds[i]) {
            Ok(extension) => extension,
            Err(e) => {
                proof {
                    lemma_modifications_refused(
                        now@,
                        ack_ids@,
                        modify_deadline_seconds@,
                        i + 1,
                        n,
                    );
                }
                return Err(e);
            },
        };
        let m = match extension {
            Some(d) => {
                let deadline = now.plus(d);
                DeadlineModification::new(id, AckDeadline::new(&deadline))
            },
            None => DeadlineModification::nack(id),
        };
        assert(modification_read(
            now@,
            ack_ids@[i as int]@,
            modify_deadline_seconds@[i as int],
        ) == Ok::<Modification, StatusView>(m@));
        ms.push(m);
        assert(outstanding::modifications_of(ms@) =~= outstanding::modifications_of(before).push(
            m@,
        ));
        i += 1;
    }
    Ok(ms)
}

/// What a page token is read as; none for an empty text.
pub open spec fn page_token_read(raw: Seq<char>) -> Result<Option<nat>, StatusView> {
    if raw.len() == 0 {
        Ok(None)
    } else {
        match text::number_read(raw) {
            Some(n) => if n <= usize::MAX {
                Ok(Some(n))
            } else {
                Err(status::refusal(Code::InvalidArgument, "Page token malformed"@))
            },
            None => Err(status::refusal(Code::InvalidArgument, "Page token malformed"@)),
        }
    }
}

/// Reads a page token.
pub fn parse_page_token(raw: &str) -> (r: Result<Option<PageToken>, Status>)
    ensures
        match r {
            Ok(Some(t)) => page_token_read(raw@) == Ok::<Option<nat>, StatusView>(
                Some(t.offset as nat),
            ),
            Ok(None) => page_token_read(raw@) == Ok::<Option<nat>, StatusView>(None),
            Err(e) => page_token_read(raw@) == Err::<Option<nat>, StatusView>(e@),
        },
{
    if text::chars_of(raw).len() == 0 {
        return Ok(None);
    }
    match PageToken::try_decode(raw) {
        Some(t) => Ok(Some(t)),
        None => Err(Status::invalid_argument("Page token malformed")),
    }
}

/// What paging parameters are read as: the size, and where the page starts.
pub open spec fn paging_read(size: i32, token: Seq<char>) -> Result<
    (usize, Option<nat>),
    StatusView,
> {
    match page_token_read(token) {
        Err(e) => Err(e),
        Ok(offset) => if size < 0 {
            Err(status::refusal(Code::InvalidArgument, "Not a valid page size"@))
        } else {
            Ok((size as usize, offset))
        },
    }
}

/// Reads paging parameters.
pub fn parse_paging(size: i32, token: &str) -> (r: Result<Paging, Status>)
    ensures
        match r {
            Ok(p) => paging_read(size, token@) matches Ok((s, offset)) && p.limit()
                == paging::page_size(s) && p.start() == (match offset {
                Some(o) => o,
                None => 0,
            }),
            Err(e) => paging_read(size, token@) == Err::<(usize, Option<nat>), StatusView>(e@),
        },
{
    let page_token = match parse_page_token(token) {
        Ok(t) => t,
        Err(e) => {
            return Err(e);
        },
    };
    if size < 0 {
        return Err(Status::invalid_argument("Not a valid page size"));
    }
    let offset: Option<usize> = match page_token {
        Some(t) => Some(t.offset),
        None => None,
    };
    Ok(Paging::new(size as usize, offset))
}

/// The project that a text of the form `projects/{project}` names.
pub open spec fn project_read(raw: Seq<char>) -> Result<Seq<char>, StatusView> {
    if "projects/"@.is_prefix_of(raw) {
        Ok(raw.skip("projects/"@.len() as int))
    } else {
        Err(status::invalid_value("Invalid project name"@, raw))
    }
}

/// Reads a project from the form `projects/{project}`.
pub fn parse_project_id(raw: &str) -> (r: Result<String, Status>)
    ensures
        match r {
            Ok(p) => project_read(raw@) == Ok::<Seq<char>, StatusView>(p@),
            Err(e) => project_read(raw@) == Err::<Seq<char>, StatusView>(e@),
        },
{
    if !text::starts_with(raw, "projects/") {
        return Err(Status::invalid_value("Invalid project name", raw));
    }
    proof {
        reveal_strlit("projects/");
    }
    let chars = text::chars_of(raw);
    let mut project = String::new();
    let mut i: usize = 9;
    assert(raw@.subrange(9, 9) =~= Seq::empty());
    while i < chars.len()
        invariant
            9 <= i <= chars@.len(),
            chars@ == raw@,
            project@ =~= raw@.subrange(9, i as int),
        decreases chars@.len() - i,
    {
        project.push(chars[i]);
        i += 1;
    }
    assert(project@ =~= raw@.skip(9));
    Ok(project)
}

/// What a push config is read as.
pub open spec fn push_config_read(proto: PushConfigProto) -> Result<PushConfigView, StatusView> {
    let endpoint = text::trimmed(proto.push_endpoint@);
    if !"http"@.is_prefix_of(endpoint) {
        Err(status::refusal(Code::InvalidArgument, "Unsupported push_endpoint"@))
    } else {
        Ok(
            PushConfigView {
                endpoint,
                oidc_token: match proto.oidc_token {
                    Some(t) => Some(
                        PushConfigOidcToken {
                            audience: t.audience,
                            service_account_email: t.service_account_email,
                        },
                    ),
                    None => None,
                },
                attributes: if proto.attributes@ == Map::<Seq<char>, Seq<char>>::empty() {
                    None
                } else {
                    Some(proto.attributes@)
                },
            },
        )
    }
}

/// Reads a push config.
pub fn parse_push_config(proto: &PushConfigProto) -> (r: Result<PushConfig, Status>)
    ensures
        match r {
            Ok(c) => push_config_read(*proto) == Ok::<PushConfigView, StatusView>(c@),
            Err(e) => push_config_read(*proto) == Err::<PushConfigView, StatusView>(e@),
        },
{
    let endpoint = text::trim(proto.push_endpoint.as_str());
    if !text::starts_with(endpoint.as_str(), "http") {
        return Err(Status::invalid_argument("Unsupported push_endpoint"));
    }
    let oidc_token = match &proto.oidc_token {
        Some(t) => Some(
            PushConfigOidcToken {
                audience: t.audience.clone(),
                service_account_email: t.service_account_email.clone(),
            },
        ),
        None => None,
    };
    let attributes = if proto.attributes.is_empty() {
        None
    } else {
        Some(proto.attributes.clone())
    };
    Ok(PushConfig::new(endpoint, oidc_token, attributes))
}

/// The span in nanoseconds, with negative parts taken as zero.
pub open spec fn span_nanos(d: DurationProto) -> nat {
    (if d.seconds > 0 {
        d.seconds as nat
    } else {
        0
    }) * 1_000_000_000 + if d.nanos > 0 {
        d.nanos as nat
    } else {
        0
    }
}

/// The span of a wait in nanoseconds, which is ten minutes at most.
pub open spec fn wait_nanos(d: Option<DurationProto>, default_secs: nat) -> nat {
    let nanos = match d {
        Some(d) => span_nanos(d),
        None => default_secs * 1_000_000_000,
    };
    if nanos <= 600_000_000_000 {
        nanos
    } else {
        600_000_000_000
    }
}

/// What a retry policy is read as.
pub open spec fn retry_policy_read(proto: RetryPolicyProto) -> Result<RetryPolicyView, StatusView> {
    let minimum_backoff = wait_nanos(proto.minimum_backoff, 10);
    let maximum_backoff = wait_nanos(proto.maximum_backoff, 600);
    if minimum_backoff > maximum_backoff {
        Err(
            status::refusal(
                Code::InvalidArgument,
                "minimum_backoff must not be greater than maximum_backoff"@,
            ),
        )
    } else {
        Ok(RetryPolicyView { minimum_backoff, maximum_backoff })
    }
}

/// The span, with negative parts taken as zero.
pub(crate) fn span_of(d: &DurationProto) -> (span: Duration)
    ensures
        span@ == span_nanos(*d),
{
    let seconds: u64 = if d.seconds > 0 {
        d.seconds as u64
    } else {
        0
    };
    let nanos: u32 = if d.nanos > 0 {
        d.nanos as u32
    } else {
        0
    };
    Duration::new(seconds, nanos)
}

/// The span of a wait, which is ten minutes at most.
fn wait_of(d: &Option<DurationProto>, default_secs: u64) -> (span: Duration)
    ensures
        span@ == wait_nanos(*d, default_secs as nat),
{
    let span = match d {
        Some(d) => span_of(d),
        None => Duration::from_secs(default_secs),
    };
    span.min(Duration::from_secs(600))
}

/// Reads a retry policy.
pub fn parse_retry_policy(proto: &RetryPolicyProto) -> (r: Result<RetryPolicy, Status>)
    ensures
        match r {
            Ok(p) => retry_policy_read(*proto) == Ok::<RetryPolicyView, StatusView>(p@),
            Err(e) => retry_policy_read(*proto) == Err::<RetryPolicyView, StatusView>(e@),
        },
{
    let minimum_backoff = wait_of(&proto.minimum_backoff, 10);
    let maximum_backoff = wait_of(&proto.maximum_backoff, 600);
    if minimum_backoff.longer_than(&maximum_backoff) {
        return Err(
            Status::invalid_argument("minimum_backoff must not be greater than maximum_backoff"),
        );
    }
    Ok(RetryPolicy { minimum_backoff, maximum_backoff })
}

/// What a dead letter policy is read as: five to a hundred attempts, and five for none.
pub open spec fn dead_letter_policy_read(proto: DeadLetterPolicyProto) -> Result<
    DeadLetterPolicyView,
    StatusView,
> {
    match topic_name::topic_name_read(proto.dead_letter_topic@) {
        None => Err(status::invalid_value("Invalid topic name"@, proto.dead_letter_topic@)),
        Some(dead_letter_topic) => if proto.max_delivery_attempts == 0 {
            Ok(DeadLetterPolicyView { dead_letter_topic, max_delivery_attempts: 5 })
        } else if proto.max_delivery_attempts < 5 || proto.max_delivery_attempts > 100 {
            Err(
                status::refusal(
                    Code::InvalidArgument,
                    "max_delivery_attempts must be between 5 and 100"@,
                ),
            )
        } else {
            Ok(
                DeadLetterPolicyView {
                    dead_letter_topic,
                    max_delivery_attempts: proto.max_delivery_attempts,
                },
            )
        },
    }
}

/// Reads a dead letter policy.
pub fn parse_dead_letter_policy(proto: &DeadLetterPolicyProto) -> (r: Result<
    DeadLetterPolicy,
    Status,
>)
    ensures
        match r {
            Ok(p) => dead_letter_policy_read(*proto) == Ok::<DeadLetterPolicyView, StatusView>(p@),
            Err(e) => dead_letter_policy_read(*proto) == Err::<DeadLetterPolicyView, StatusView>(
                e@,
            ),
        },
{
    let dead_letter_topic = match parse_topic_name(proto.dead_letter_topic.as_str()) {
        Ok(n) => n,
        Err(e) => {
            return Err(e);
        },
    };
    let attempts: i32 = proto.max_delivery_attempts;
    let max_delivery_attempts: i32 = if attempts == 0 {
        5
    } else if attempts < 5 || attempts > 100 {
        return Err(Status::invalid_argument("max_delivery_attempts must be between 5 and 100"));
    } else {
        attempts
    };
    Ok(DeadLetterPolicy { dead_letter_topic, max_delivery_attempts })
}

/// What a message retention is read as, in nanoseconds: ten minutes at least and seven days at
/// most.
pub open spec fn retention_read(proto: DurationProto) -> Result<nat, StatusView> {
    if proto.seconds < 0 || proto.nanos < 0 {
        Err(
            status::refusal(
                Code::InvalidArgument,
                "message_retention_duration must be non-negative"@,
            ),
        )
    } else if span_nanos(proto) < 600_000_000_000 {
        Ok(600_000_000_000)
    } else if span_nanos(proto) > 604_800_000_000_000 {
        Ok(604_800_000_000_000)
    } else {
        Ok(span_nanos(proto))
    }
}

/// Reads a message retention. It is kept between ten minutes and seven days rather than refused.
pub fn parse_message_retention_duration(proto: &DurationProto) -> (r: Result<Duration, Status>)
    ensures
        match r {
            Ok(d) => retention_read(*proto) == Ok::<nat, StatusView>(d@),
            Err(e) => retention_read(*proto) == Err::<nat, StatusView>(e@),
        },
{
    if proto.seconds < 0 || proto.nanos < 0 {
        return Err(Status::invalid_argument("message_retention_duration must be non-negative"));
    }
    let raw = span_of(proto);
    Ok(raw.max(Duration::from_secs(600)).min(Duration::from_secs(604_800)))
}

/// The deadline in nanoseconds that a subscription is asked to have: ten seconds at least.
pub open spec fn ack_deadline_read(seconds: i32) -> nat {
    if seconds <= 10 {
        10_000_000_000
    } else {
        (seconds * 1_000_000_000) as nat
    }
}

/// Reads the deadline that a subscription is asked to have.
pub fn parse_create_ack_deadline(raw: i32) -> (d: Duration)
    ensures
        d@ == ack_deadline_read(raw),
{
    if raw <= 10 {
        Duration::from_secs(10)
    } else {
        Duration::from_secs(raw as u64)
    }
}

/// Whether the field of a subscription can be updated.
pub open spec fn updatable_path(path: Seq<char>) -> bool {
    path == "ack_deadline_seconds"@ || path == "retry_policy"@ || path == "dead_letter_policy"@
        || path == "message_retention_duration"@ || path == "enable_exactly_once_delivery"@
}

/// Whether the field of a subscription cannot be changed once it was created.
pub open spec fn immutable_path(path: Seq<char>) -> bool {
    path == "name"@ || path == "topic"@ || path == "enable_message_ordering"@ || path == "filter"@
        || path == "detached"@ || path == "labels"@ || path == "expiration_policy"@ || path
        == "push_config"@ || path == "bigquery_config"@ || path == "retain_acked_messages"@ || path
        == "topic_message_retention_duration"@ || path == "state"@
}

/// Whether the field of a subscription cannot be changed once it was created.
fn is_immutable(path: &str) -> (b: bool)
    ensures
        b == immutable_path(path@),
{
    text::same_text(path, "name") || text::same_text(path, "topic") || text::same_text(
        path,
        "enable_message_ordering",
    ) || text::same_text(path, "filter") || text::same_text(path, "detached") || text::same_text(
        path,
        "labels",
    ) || text::same_text(path, "expiration_policy") || text::same_text(path, "push_config")
        || text::same_text(path, "bigquery_config") || text::same_text(
        path,
        "retain_acked_messages",
    ) || text::same_text(path, "topic_message_retention_duration") || text::same_text(path, "state")
}

/// What a part that may be missing is read as.
pub open spec fn if_given<P, V>(
    part: Option<P>,
    read: spec_fn(P) -> Result<V, StatusView>,
) -> Result<Option<V>, StatusView> {
    match part {
        None => Ok(None),
        Some(p) => match read(p) {
            Ok(v) => Ok(Some(v)),
            Err(e) => Err(e),
        },
    }
}

/// What the retry policy of a request is read as.
pub open spec fn retry_policy_given(part: Option<RetryPolicyProto>) -> Result<
    Option<RetryPolicyView>,
    StatusView,
> {
    if_given(part, |p: RetryPolicyProto| retry_policy_read(p))
}

/// What the dead letter policy of a request is read as.
pub open spec fn dead_letter_policy_given(part: Option<DeadLetterPolicyProto>) -> Result<
    Option<DeadLetterPolicyView>,
    StatusView,
> {
    if_given(part, |p: DeadLetterPolicyProto| dead_letter_policy_read(p))
}

/// What the message retention of a request is read as.
pub open spec fn retention_given(part: Option<DurationProto>) -> Result<Option<nat>, StatusView> {
    if_given(part, |d: DurationProto| retention_read(d))
}

/// What the push config of a request is read as.
pub open spec fn push_config_given(part: Option<PushConfigProto>) -> Result<
    Option<PushConfigView>,
    StatusView,
> {
    if_given(part, |c: PushConfigProto| push_config_read(c))
}

/// Reads the retry policy of a request.
pub fn parse_optional_retry_policy(part: &Option<RetryPolicyProto>) -> (r: Result<
    Option<RetryPolicy>,
    Status,
>)
    ensures
        match r {
            Ok(p) => retry_policy_given(*part) == Ok::<Option<RetryPolicyView>, StatusView>(
                info::retry_view(p),
            ),
            Err(e) => retry_policy_given(*part) == Err::<Option<RetryPolicyView>, StatusView>(e@),
        },
{
    match part {
        None => Ok(None),
        Some(p) => match parse_retry_policy(p) {
            Ok(p) => Ok(Some(p)),
            Err(e) => Err(e),
        },
    }
}

/// Reads the dead letter policy of a request.
pub fn parse_optional_dead_letter_policy(part: &Option<DeadLetterPolicyProto>) -> (r: Result<
    Option<DeadLetterPolicy>,
    Status,
>)
    ensures
        match r {
            Ok(p) => dead_letter_policy_given(*part) == Ok::<
                Option<DeadLetterPolicyView>,
                StatusView,
            >(info::dead_letter_view(p)),
            Err(e) => dead_letter_policy_given(*part) == Err::<
                Option<DeadLetterPolicyView>,
                StatusView,
            >(e@),
        },
{
    match part {
        None => Ok(None),
        Some(p) => match parse_dead_letter_policy(p) {
            Ok(p) => Ok(Some(p)),
            Err(e) => Err(e),
        },
    }
}

/// Reads the message retention of a request.
pub fn parse_optional_retention(part: &Option<DurationProto>) -> (r: Result<
    Option<Duration>,
    Status,
>)
    ensures
        match r {
            Ok(d) => retention_given(*part) == Ok::<Option<nat>, StatusView>(info::span_view(d)),
            Err(e) => retention_given(*part) == Err::<Option<nat>, StatusView>(e@),
        },
{
    match part {
        None => Ok(None),
        Some(d) => match parse_message_retention_duration(d) {
            Ok(d) => Ok(Some(d)),
            Err(e) => Err(e),
        },
    }
}

/// Reads the push config of a request.
pub fn parse_optional_push_config(part: &Option<PushConfigProto>) -> (r: Result<
    Option<PushConfig>,
    Status,
>)
    ensures
        match r {
            Ok(c) => push_config_given(*part) == Ok::<Option<PushConfigView>, StatusView>(
                info::push_view(c),
            ),
            Err(e) => push_config_given(*part) == Err::<
                Option<PushConfigView>,
                StatusView,
            >(e@),
        },
{
    match part {
        None => Ok(None),
        Some(c) => match parse_push_config(c) {
            Ok(c) => Ok(Some(c)),
            Err(e) => Err(e),
        },
    }
}

/// The refusal of a path that cannot be updated.
pub open spec fn bad_path(path: Seq<char>, why: Seq<char>) -> StatusView {
    status::refusal(Code::InvalidArgument, "Field '"@ + path + why)
}

/// An update with the field at the path set from the subscription.
pub open spec fn path_read(
    update: UpdateView,
    subscription: SubscriptionProto,
    path: Seq<char>,
) -> Result<UpdateView, StatusView> {
    if immutable_path(path) {
        Err(bad_path(path, "' is not modifiable after creation"@))
    } else if !updatable_path(path) {
        Err(bad_path(path, "' is not a valid update path"@))
    } else if path == "ack_deadline_seconds"@ {
        Ok(
            UpdateView {
                ack_deadline: Some(ack_deadline_read(subscription.ack_deadline_seconds)),
                ..update
            },
        )
    } else if path == "retry_policy"@ {
        match retry_policy_given(subscription.retry_policy) {
            Ok(p) => Ok(UpdateView { retry_policy: Some(p), ..update }),
            Err(e) => Err(e),
        }
    } else if path == "dead_letter_policy"@ {
        match dead_letter_policy_given(subscription.dead_letter_policy) {
            Ok(p) => Ok(UpdateView { dead_letter_policy: Some(p), ..update }),
            Err(e) => Err(e),
        }
    } else if path == "message_retention_duration"@ {
        match retention_given(subscription.message_retention_duration) {
            Ok(d) => Ok(UpdateView { message_retention_duration: Some(d), ..update }),
            Err(e) => Err(e),
        }
    } else {
        Ok(
            UpdateView {
                enable_exactly_once_delivery: Some(subscription.enable_exactly_once_delivery),
                ..update
            },
        )
    }
}

/// The update that changes nothing.
pub open spec fn empty_update() -> UpdateView {
    UpdateView {
        ack_deadline: None,
        retry_policy: None,
        dead_letter_policy: None,
        message_retention_duration: None,
        enable_exactly_once_delivery: None,
    }
}

/// An update with the fields at the paths set in turn, or the refusal of the first path that is
/// refused.
pub open spec fn paths_read(subscription: SubscriptionProto, paths: Seq<String>) -> Result<
    UpdateView,
    StatusView,
>
    decreases paths.len(),
{
    if paths.len() == 0 {
        Ok(empty_update())
    } else {
        match paths_read(subscription, paths.drop_last()) {
            Ok(update) => path_read(update, subscription, paths.last()@),
            Err(e) => Err(e),
        }
    }
}

/// What an update is read as.
pub open spec fn update_read(subscription: SubscriptionProto, paths: Seq<String>) -> Result<
    UpdateView,
    StatusView,
> {
    if paths.len() == 0 {
        Err(
            status::refusal(
                Code::InvalidArgument,
                "update_mask must be specified and non-empty"@,
            ),
        )
    } else {
        paths_read(subscription, paths)
    }
}

/// Once one path is refused the refusal stays the same.
proof fn lemma_paths_refused(subscription: SubscriptionProto, paths: Seq<String>, i: int)
    requires
        0 <= i <= paths.len(),
        paths_read(subscription, paths.take(i)) is Err,
    ensures
        paths_read(subscription, paths) == paths_read(subscription, paths.take(i)),
    decreases paths.len() - i,
{
    if i < paths.len() {
        assert(paths.take(i + 1).drop_last() =~= paths.take(i));
        lemma_paths_refused(subscription, paths, i + 1);
    } else {
        assert(paths.take(i) =~= paths);
    }
}

/// The refusal of a path that cannot be updated.
pub(crate) fn refuse_path(path: &str, why: &str) -> (s: Status)
    ensures
        s@ == bad_path(path@, why@),
{
    let mut message = "Field '".to_owned();
    message.push_str(path);
    message.push_str(why);
    Status { code: Code::InvalidArgument, message }
}

/// Sets the field at the path in the update.
fn parse_path(update: SubscriptionUpdate, subscription: &SubscriptionProto, path: &str) -> (r:
    Result<SubscriptionUpdate, Status>)
    ensures
        match r {
            Ok(u) => path_read(update@, *subscription, path@) == Ok::<UpdateView, StatusView>(u@),
            Err(e) => path_read(update@, *subscription, path@) == Err::<UpdateView, StatusView>(
                e@,
            ),
        },
{
    let mut update = update;
    if is_immutable(path) {
        return Err(refuse_path(path, "' is not modifiable after creation"));
    }
    if text::same_text(path, "ack_deadline_seconds") {
        update.ack_deadline = Some(parse_create_ack_deadline(subscription.ack_deadline_seconds));
    } else if text::same_text(path, "retry_policy") {
        match parse_optional_retry_policy(&subscription.retry_policy) {
            Ok(p) => {
                update.retry_policy = Some(p);
            },
            Err(e) => {
                return Err(e);
            },
        }
    } else if text::same_text(path, "dead_letter_policy") {
        match parse_optional_dead_letter_policy(&subscription.dead_letter_policy) {
            Ok(p) => {
                update.dead_letter_policy = Some(p);
            },
            Err(e) => {
                return Err(e);
            },
        }
    } else if text::same_text(path, "message_retention_duration") {
        match parse_optional_retention(&subscription.message_retention_duration) {
            Ok(d) => {
                update.message_retention_duration = Some(d);
            },
            Err(e) => {
                return Err(e);
            },
        }
    } else if text::same_text(path, "enable_exactly_once_delivery") {
        update.enable_exactly_once_delivery = Some(subscription.enable_exactly_once_delivery);
    } else {
        return Err(refuse_path(path, "' is not a valid update path"));
    }
    Ok(update)
}

/// Reads an update of a subscription: the fields at the paths of the mask.
pub fn parse_subscription_update(subscription: &SubscriptionProto, paths: &Vec<String>) -> (r:
    Result<SubscriptionUpdate, Status>)
    ensures
        match r {
            Ok(u) => update_read(*subscription, paths@) == Ok::<UpdateView, StatusView>(u@),
            Err(e) => update_read(*subscription, paths@) == Err::<UpdateView, StatusView>(e@),
        },
{
    if paths.len() == 0 {
        return Err(Status::invalid_argument("update_mask must be specified and non-empty"));
    }
    let mut update = SubscriptionUpdate::default();
    let mut i: usize = 0;
    assert(paths@.take(0) =~= Seq::empty());
    while i < paths.len()
        invariant
            i <= paths@.len(),
            paths@.len() > 0,
            paths_read(*subscription, paths@.take(i as int)) == Ok::<UpdateView, StatusView>(
                update@,
            ),
        decreases paths@.len() - i,
    {
        assert(paths@.take(i + 1).drop_last() =~= paths@.take(i as int));
        match parse_path(update, subscription, paths[i].as_str()) {
            Ok(u) => {
                update = u;
            },
            Err(e) => {
                proof {
                    lemma_paths_refused(*subscription, paths@, i + 1);
                }
                return Err(e);
            },
        }
        i += 1;
    }
    assert(paths@.take(paths@.len() as int) =~= paths@);
    Ok(update)
}

/// Whether the path is one of the paths.
pub open spec fn has_path(paths: Seq<String>, path: Seq<char>) -> bool {
    exists|i: int| 0 <= i < paths.len() && (#[trigger] paths[i])@ == path
}

/// Whether a path can be updated from the subscription.
pub open spec fn is_accepted(subscription: SubscriptionProto, path: Seq<char>) -> bool {
    path_read(empty_update(), subscription, path) is Ok
}

/// The update with the fields at the paths set from the subscription.
pub open spec fn masked(subscription: SubscriptionProto, paths: Seq<String>) -> UpdateView {
    UpdateView {
        ack_deadline: if has_path(paths, "ack_deadline_seconds"@) {
            Some(ack_deadline_read(subscription.ack_deadline_seconds))
        } else {
            None
        },
        retry_policy: if has_path(paths, "retry_policy"@) {
            Some(retry_policy_given(subscription.retry_policy)->Ok_0)
        } else {
            None
        },
        dead_letter_policy: if has_path(paths, "dead_letter_policy"@) {
            Some(dead_letter_policy_given(subscription.dead_letter_policy)->Ok_0)
        } else {
            None
        },
        message_retention_duration: if has_path(paths, "message_retention_duration"@) {
            Some(retention_given(subscription.message_retention_duration)->Ok_0)
        } else {
            None
        },
        enable_exactly_once_delivery: if has_path(paths, "enable_exactly_once_delivery"@) {
            Some(subscription.enable_exactly_once_delivery)
        } else {
            None
        },
    }
}

/// One path more is that path or one of the others.
pub proof fn lemma_has_path(paths: Seq<String>, path: Seq<char>)
    requires
        paths.len() > 0,
    ensures
        has_path(paths, path) == (has_path(paths.drop_last(), path) || paths.last()@ == path),
{
    if has_path(paths.drop_last(), path) {
        let i = choose|i: int|
            0 <= i < paths.drop_last().len() && (#[trigger] paths.drop_last()[i])@ == path;
        assert(paths[i]@ == path);
    }
    if has_path(paths, path) && paths.last()@ != path {
        let i = choose|i: int| 0 <= i < paths.len() && (#[trigger] paths[i])@ == path;
        assert(paths.drop_last()[i]@ == path);
    }
}

/// An update is read where every path is accepted, and has the fields at the paths.
pub proof fn lemma_masked(subscription: SubscriptionProto, paths: Seq<String>)
    ensures
        paths_read(subscription, paths) is Ok <==> forall|i: int|
            0 <= i < paths.len() ==> is_accepted(subscription, (#[trigger] paths[i])@),
        paths_read(subscription, paths) matches Ok(u) ==> u == masked(subscription, paths),
    decreases paths.len(),
{
    if paths.len() > 0 {
        let init = paths.drop_last();
        let path = paths.last()@;
        lemma_masked(subscription, init);
        if paths_read(subscription, init) is Ok {
            assert forall|i: int| 0 <= i < init.len() implies is_accepted(
                subscription,
                (#[trigger] paths[i])@,
            ) by {
                assert(init[i] == paths[i]);
            }
        } else {
            let i = choose|i: int|
                0 <= i < init.len() && !is_accepted(subscription, (#[trigger] init[i])@);
            assert(init[i] == paths[i]);
        }
        lemma_has_path(paths, "ack_deadline_seconds"@);
        lemma_has_path(paths, "retry_policy"@);
        lemma_has_path(paths, "dead_letter_policy"@);
        lemma_has_path(paths, "message_retention_duration"@);
        lemma_has_path(paths, "enable_exactly_once_delivery"@);
        reveal_strlit("ack_deadline_seconds");
        reveal_strlit("retry_policy");
        reveal_strlit("dead_letter_policy");
        reveal_strlit("message_retention_duration");
        reveal_strlit("enable_exactly_once_delivery");
        assert(paths[paths.len() - 1]@ == path);
    } else {
        assert(paths_read(subscription, paths) == Ok::<UpdateView, StatusView>(
            masked(subscription, paths),
        ));
    }
}

/// An update goes by which paths its mask has, and neither by their order nor by how often they
/// occur: it is refused or not alike, and where it is not it is the same update. Only which of
/// several bad paths is told of depends on which comes first.
pub proof fn law_update_goes_by_its_set_of_paths(
    subscription: SubscriptionProto,
    a: Seq<String>,
    b: Seq<String>,
)
    requires
        forall|path: Seq<char>| #[trigger] has_path(a, path) == has_path(b, path),
    ensures
        update_read(subscription, a) is Ok == update_read(subscription, b) is Ok,
        update_read(subscription, a) is Ok ==> update_read(subscription, a) == update_read(
            subscription,
            b,
        ),
{
    lemma_masked(subscription, a);
    lemma_masked(subscription, b);
    if paths_read(subscription, a) is Ok {
        lemma_accepted_alike(subscription, a, b);
    }
    if paths_read(subscription, b) is Ok {
        lemma_accepted_alike(subscription, b, a);
    }
    if a.len() > 0 {
        assert(has_path(a, a[0]@));
    }
    if b.len() > 0 {
        assert(has_path(b, b[0]@));
    }
    assert(masked(subscription, a) == masked(subscription, b));
}

/// Where all paths of a mask are accepted, those of a mask with no others are.
proof fn lemma_accepted_alike(subscription: SubscriptionProto, a: Seq<String>, b: Seq<String>)
    requires
        forall|path: Seq<char>| #[trigger] has_path(b, path) ==> has_path(a, path),
        forall|i: int| 0 <= i < a.len() ==> is_accepted(subscription, (#[trigger] a[i])@),
    ensures
        forall|i: int| 0 <= i < b.len() ==> is_accepted(subscription, (#[trigger] b[i])@),
{
    assert forall|i: int| 0 <= i < b.len() implies is_accepted(
        subscription,
        (#[trigger] b[i])@,
    ) by {
        assert(has_path(b, b[i]@));
        let j = choose|j: int| 0 <= j < a.len() && (#[trigger] a[j])@ == b[i]@;
        assert(is_accepted(subscription, a[j]@));
    }
}

/// Reads a message to publish, made at `now`.
pub fn parse_topic_message(message: PubsubMessage, now: Instant) -> (m: TopicMessage)
    ensures
        message_data::bytes_held(m.data) == message.data@,
        m.attributes == if message.attributes@ == Map::<Seq<char>, Seq<char>>::empty() {
            None
        } else {
            Some(message.attributes)
        },
        m.key() == if message.ordering_key@.len() == 0 {
            None
        } else {
            Some(message.ordering_key@)
        },
        m.published_at_instant == now,
{
    let data = bytes_from_vec(message.data);
    let attributes = if message.attributes.is_empty() {
        None
    } else {
        Some(message.attributes)
    };
    let mut m = TopicMessage::new(data, attributes, now);
    if text::chars_of(message.ordering_key.as_str()).len() > 0 {
        m.ordering_key = Some(message.ordering_key);
    }
    m
}

} // verus!
