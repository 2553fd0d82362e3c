//! What the parts of requests are taken for.
use vstd::prelude::*;

use crate::api::parser;
use crate::api::proto::{
    DeadLetterPolicyProto, DurationProto, ListSubscriptionsRequest, ListTopicsRequest,
    PushConfigProto, RetryPolicyProto, SubscriptionProto, TopicProto, UpdateSubscriptionRequest,
    UpdateTopicRequest,
};
use crate::api::publisher;
use crate::api::status::{Code, StatusView};
use crate::api::subscriber;
use crate::api::subscriber::ServiceState;
use crate::api::topic_lists;
use crate::names;
use crate::paging;
use crate::subscriptions::filter;
use crate::subscriptions::info;
use crate::subscriptions::info::InfoView;
use crate::subscriptions::policies::{DeadLetterPolicyView, RetryPolicyView};
use crate::subscriptions::subscription_manager;
use crate::subscriptions::subscription_name;
use crate::subscriptions::subscription_name::SubscriptionNameView;
use crate::text;
use crate::topics::topic_manager;
use crate::topics::topic_name;
use crate::topics::topic_name::TopicNameView;

verus! {

/// Whether the request is refused because of one of its arguments.
pub open spec fn is_refused<T>(r: Result<T, StatusView>) -> bool {
    r matches Err(e) && e.code == Code::InvalidArgument
}

/// Whether the texts are those of the ids.
pub open spec fn are_texts_of(raws: Seq<String>, ids: Seq<u64>) -> bool {
    &&& raws.len() == ids.len()
    &&& forall|i: int|
        0 <= i < ids.len() ==> (#[trigger] raws[i])@ == text::decimal(#[trigger] ids[i] as nat)
}

/// Ack ids are read in turn from their texts.
pub proof fn law_ack_ids_are_read_in_turn(raws: Seq<String>, ids: Seq<u64>)
    requires
        are_texts_of(raws, ids),
    ensures
        parser::ack_ids_read(raws) matches Ok(read) && read.len() == ids.len() && forall|i: int|
            0 <= i < ids.len() ==> (#[trigger] read[i]).value == ids[i],
    decreases raws.len(),
{
    if raws.len() > 0 {
        let last: int = raws.len() - 1;
        assert forall|i: int| 0 <= i < last implies (#[trigger] raws.drop_last()[i])@
            == text::decimal(#[trigger] ids.drop_last()[i] as nat) by {
            assert(raws[i]@ == text::decimal(ids[i] as nat));
        }
        law_ack_ids_are_read_in_turn(raws.drop_last(), ids.drop_last());
        assert(raws[last]@ == text::decimal(ids[last] as nat));
        text::law_decimal_reads_back(ids[last]);
        let read = parser::ack_ids_read(raws)->Ok_0;
        let front = parser::ack_ids_read(raws.drop_last())->Ok_0;
        assert forall|i: int| 0 <= i < ids.len() implies (#[trigger] read[i]).value == ids[i] by {
            if i < last {
                assert(read[i] == front[i]);
                assert(ids.drop_last()[i] == ids[i]);
            }
        }
    }
}

/// Ack ids that are refused are refused as arguments.
proof fn lemma_ack_ids_are_arguments(raws: Seq<String>)
    ensures
        parser::ack_ids_read(raws) is Err ==> is_refused(parser::ack_ids_read(raws)),
    decreases raws.len(),
{
    if raws.len() > 0 {
        lemma_ack_ids_are_arguments(raws.drop_last());
    }
}

/// An ack id that is not written with digits, but for a plus sign in front, is refused.
pub proof fn law_ack_id_is_a_number(raws: Seq<String>, i: int, j: int)
    requires
        0 <= i < raws.len(),
        raws[i]@.len() == 0 || (0 <= j < raws[i]@.len() && !('0' <= raws[i]@[j] <= '9') && (j > 0
            || raws[i]@[j] != '+')),
    ensures
        is_refused(parser::ack_ids_read(raws)),
    decreases raws.len(),
{
    if i < raws.len() - 1 {
        law_ack_id_is_a_number(raws.drop_last(), i, j);
    } else {
        let s = raws[i]@;
        lemma_ack_ids_are_arguments(raws.drop_last());
        assert(raws.last()@ == s);
        if s.len() > 0 {
            if s[0] == '+' {
                if s.drop_first().len() > 0 {
                    assert(s.drop_first()[j - 1] == s[j]);
                    assert(!text::is_digit(s.drop_first()[j - 1]));
                }
            } else {
                assert(!text::is_digit(s[j]));
            }
        }
    }
}

/// New deadlines are read in turn: a message whose seconds are zero is returned, and any other one
/// is due as many seconds from now, but ten minutes from now at most. Negative seconds are refused.
pub proof fn law_deadlines_are_read_in_turn(
    now: nat,
    raws: Seq<String>,
    ids: Seq<u64>,
    seconds: Seq<i32>,
    n: int,
)
    requires
        are_texts_of(raws, ids),
        0 <= n <= raws.len(),
        n <= seconds.len(),
        now + 600_000_000_000 <= u128::MAX,
    ensures
        (exists|i: int| 0 <= i < n && #[trigger] seconds[i] < 0) ==> is_refused(
            parser::modifications_read(now, raws, seconds, n),
        ),
        (forall|i: int| 0 <= i < n ==> #[trigger] seconds[i] >= 0) ==> {
            &&& parser::modifications_read(now, raws, seconds, n) matches Ok(read)
            &&& read.len() == n
            &&& forall|i: int|
                0 <= i < n ==> {
                    &&& (#[trigger] read[i]).ack_id == ids[i]
                    &&& seconds[i] == 0 ==> read[i].new_deadline is None
                    &&& 0 < seconds[i] <= 600 ==> read[i].new_deadline == Some(
                        (now + seconds[i] * 1_000_000_000) as nat,
                    )
                    &&& seconds[i] > 600 ==> read[i].new_deadline == Some(
                        (now + 600_000_000_000) as nat,
                    )
                }
        },
    decreases n,
{
    if n > 0 {
        law_deadlines_are_read_in_turn(now, raws, ids, seconds, n - 1);
        assert(raws[n - 1]@ == text::decimal(ids[n - 1] as nat));
        text::law_decimal_reads_back(ids[n - 1]);
        if forall|i: int| 0 <= i < n - 1 ==> #[trigger] seconds[i] >= 0 {
            if seconds[n - 1] < 0 {
                assert(is_refused(parser::modifications_read(now, raws, seconds, n)));
            }
        } else {
            let i = choose|i: int| 0 <= i < n - 1 && #[trigger] seconds[i] < 0;
            assert(seconds[i] < 0);
            assert(is_refused(parser::modifications_read(now, raws, seconds, n - 1)));
        }
    }
}

/// A page token that is empty asks for the first page, and one that is the text of a number for the
/// page that starts there; a size of zero stands for a hundred, any other for itself, and a negative
/// one is refused.
pub proof fn law_page_is_what_is_asked_for(size: i32, token: Seq<char>, offset: usize)
    requires
        token.len() == 0 ==> offset == 0,
        token.len() > 0 ==> token == text::decimal(offset as nat),
    ensures
        size < 0 ==> is_refused(parser::paging_read(size, token)),
        size >= 0 ==> (parser::paging_read(size, token) matches Ok((s, o)) && paging::page_size(s)
            == (if size == 0 {
            100
        } else {
            size as int
        }) && (match o {
            Some(at) => at == offset,
            None => offset == 0,
        })),
{
    text::law_decimal_reads_back(offset as u64);
}

/// A project is named by `projects/` with its id behind it, and by nothing else.
pub proof fn law_project_is_named_with_a_prefix(raw: Seq<char>, project: Seq<char>)
    ensures
        raw == "projects/"@ + project <==> parser::project_read(raw) == Ok::<Seq<char>, StatusView>(
            project,
        ),
        parser::project_read(raw) is Err ==> is_refused(parser::project_read(raw)),
{
    reveal_strlit("projects/");
    if raw == "projects/"@ + project {
        assert(raw.subrange(0, 9) =~= "projects/"@);
        assert(raw.skip(9) =~= project);
    }
    if parser::project_read(raw) == Ok::<Seq<char>, StatusView>(project) {
        assert(raw =~= "projects/"@ + raw.skip(9));
    }
}

/// A topic is named by its project and its id, and each text names one topic or none: the text is
/// `projects/`, the project, `/topics/` and the id, and the project has no slash in it.
pub proof fn law_topic_is_named_with_its_project(
    raw: Seq<char>,
    project: Seq<char>,
    id: Seq<char>,
)
    ensures
        topic_name::topic_name_read(raw) == Some(
            TopicNameView::Named { project_id: project, topic_id: id },
        ) <==> raw == "projects/"@ + project + "/topics/"@ + id && !project.contains('/'),
{
    reveal_strlit("/topics/");
    if raw == "projects/"@ + project + "/topics/"@ + id && !project.contains('/') {
        names::law_name_reads_back(project, "/topics/"@, id);
    }
    if names::name_read(raw, "/topics/"@) is Some {
        let (p, i) = choose|p: Seq<char>, i: Seq<char>| names::is_name(raw, p, "/topics/"@, i);
        assert(names::is_name(raw, p, "/topics/"@, i));
    }
}

/// A subscription is named by its project and its id, and each text names one subscription or none:
/// the text is `projects/`, the project, `/subscriptions/` and the id, and the project has no slash in
/// it.
pub proof fn law_subscription_is_named_with_its_project(
    raw: Seq<char>,
    project: Seq<char>,
    id: Seq<char>,
)
    ensures
        subscription_name::subscription_name_read(raw) == Some(
            SubscriptionNameView { project_id: project, subscription_id: id },
        ) <==> raw == "projects/"@ + project + "/subscriptions/"@ + id && !project.contains('/'),
{
    reveal_strlit("/subscriptions/");
    if raw == "projects/"@ + project + "/subscriptions/"@ + id && !project.contains('/') {
        names::law_name_reads_back(project, "/subscriptions/"@, id);
    }
    if names::name_read(raw, "/subscriptions/"@) is Some {
        let (p, i) = choose|p: Seq<char>, i: Seq<char>|
            names::is_name(raw, p, "/subscriptions/"@, i);
        assert(names::is_name(raw, p, "/subscriptions/"@, i));
    }
}

/// Whether the character is a visible one of ASCII.
pub open spec fn is_visible(c: char) -> bool {
    '!' <= c <= '~'
}

/// Whether the text is nothing but spaces, tabs and line ends.
pub open spec fn is_blank(s: Seq<char>) -> bool {
    forall|i: int|
        0 <= i < s.len() ==> (#[trigger] s[i] == ' ' || s[i] == '\t' || s[i] == '\n' || s[i] == '\r')
}

/// White space in front is taken away.
proof fn lemma_front_is_trimmed(front: Seq<char>, s: Seq<char>)
    requires
        is_blank(front),
        s.len() > 0,
        is_visible(s[0]),
    ensures
        text::trimmed_start(front + s) == s,
    decreases front.len(),
{
    if front.len() == 0 {
        assert(front + s =~= s);
    } else {
        let rest = front.drop_first();
        assert(front[0] == ' ' || front[0] == '\t' || front[0] == '\n' || front[0] == '\r');
        assert forall|i: int| 0 <= i < rest.len() implies (#[trigger] rest[i] == ' ' || rest[i]
            == '\t' || rest[i] == '\n' || rest[i] == '\r') by {
            assert(rest[i] == front[i + 1]);
        }
        lemma_front_is_trimmed(rest, s);
        assert((front + s)[0] == front[0]);
        assert((front + s).drop_first() =~= rest + s);
    }
}

/// White space at the end is taken away.
proof fn lemma_back_is_trimmed(s: Seq<char>, back: Seq<char>)
    requires
        is_blank(back),
        s.len() > 0,
        is_visible(s.last()),
    ensures
        text::trimmed_end(s + back) == s,
    decreases back.len(),
{
    if back.len() == 0 {
        assert(s + back =~= s);
    } else {
        let rest = back.drop_last();
        let c = back[back.len() - 1];
        assert(c == ' ' || c == '\t' || c == '\n' || c == '\r');
        assert forall|i: int| 0 <= i < rest.len() implies (#[trigger] rest[i] == ' ' || rest[i]
            == '\t' || rest[i] == '\n' || rest[i] == '\r') by {
            assert(rest[i] == back[i]);
        }
        lemma_back_is_trimmed(s, rest);
        assert((s + back).last() == c);
        assert((s + back).drop_last() =~= s + rest);
    }
}

/// Trimming takes away the white space around a text, and nothing of the text.
pub proof fn law_trimming_takes_what_is_around(front: Seq<char>, s: Seq<char>, back: Seq<char>)
    requires
        is_blank(front),
        is_blank(back),
        s.len() > 0 ==> is_visible(s[0]) && is_visible(s.last()),
        s.len() == 0 ==> back.len() == 0,
    ensures
        text::trimmed(front + s + back) == s,
{
    if s.len() > 0 {
        assert((s + back)[0] == s[0]);
        lemma_front_is_trimmed(front, s + back);
        assert(front + s + back =~= front + (s + back));
        lemma_back_is_trimmed(s, back);
    } else {
        assert(front + s + back =~= front);
        lemma_blank_is_trimmed(front);
    }
}

/// Nothing is left of white space.
proof fn lemma_blank_is_trimmed(s: Seq<char>)
    requires
        is_blank(s),
    ensures
        text::trimmed_start(s) == Seq::<char>::empty(),
        text::trimmed(s) == Seq::<char>::empty(),
    decreases s.len(),
{
    if s.len() > 0 {
        let rest = s.drop_first();
        assert(s[0] == ' ' || s[0] == '\t' || s[0] == '\n' || s[0] == '\r');
        assert forall|i: int| 0 <= i < rest.len() implies (#[trigger] rest[i] == ' ' || rest[i]
            == '\t' || rest[i] == '\n' || rest[i] == '\r') by {
            assert(rest[i] == s[i + 1]);
        }
        lemma_blank_is_trimmed(rest);
    } else {
        assert(s =~= Seq::<char>::empty());
    }
}

/// A push config is taken where its endpoint, without white space around it, starts with `http`, and
/// refused else. It has that endpoint, and the attributes and the token that were given.
pub proof fn law_push_config_is_taken_as_given(
    asked: PushConfigProto,
    front: Seq<char>,
    endpoint: Seq<char>,
    back: Seq<char>,
)
    requires
        is_blank(front),
        is_blank(back),
        endpoint.len() > 0,
        is_visible(endpoint[0]),
        is_visible(endpoint.last()),
        asked.push_endpoint@ == front + endpoint + back,
    ensures
        (exists|rest: Seq<char>| endpoint == #[trigger] ("http"@ + rest)) ==> {
            &&& parser::push_config_read(asked) matches Ok(c)
            &&& c.endpoint == endpoint
            &&& asked.attributes@ == (match c.attributes {
                Some(a) => a,
                None => Map::empty(),
            })
            &&& asked.oidc_token is None ==> c.oidc_token is None
            &&& asked.oidc_token matches Some(t) ==> c.oidc_token matches Some(o) && o.audience
                == t.audience && o.service_account_email == t.service_account_email
        },
        !(exists|rest: Seq<char>| endpoint == #[trigger] ("http"@ + rest)) ==> is_refused(
            parser::push_config_read(asked),
        ),
{
    law_trimming_takes_what_is_around(front, endpoint, back);
    reveal_strlit("http");
    if exists|rest: Seq<char>| endpoint == #[trigger] ("http"@ + rest) {
        let rest = choose|rest: Seq<char>| endpoint == #[trigger] ("http"@ + rest);
        assert(("http"@ + rest).subrange(0, 4) =~= "http"@);
    }
    if "http"@.is_prefix_of(endpoint) {
        let rest = endpoint.subrange(4, endpoint.len() as int);
        assert(endpoint =~= "http"@ + rest);
    }
}

/// How many nanoseconds a span takes that is not negative.
pub open spec fn nanos_of(d: DurationProto) -> int {
    d.seconds * 1_000_000_000 + d.nanos
}

/// Whether no part of the span is negative.
pub open spec fn is_span(d: DurationProto) -> bool {
    d.seconds >= 0 && d.nanos >= 0
}

/// The waits of a retry policy are those that are given, but ten minutes at most; one that is not
/// given is ten seconds for the shortest, and ten minutes for the longest. The policy is refused where
/// the shortest is longer than the longest.
pub proof fn law_retry_policy_is_taken_as_given(
    asked: RetryPolicyProto,
    shortest: int,
    longest: int,
)
    requires
        match asked.minimum_backoff {
            Some(d) => is_span(d) && shortest == nanos_of(d) && shortest <= 600_000_000_000,
            None => shortest == 10_000_000_000,
        },
        match asked.maximum_backoff {
            Some(d) => is_span(d) && (longest == nanos_of(d) <= 600_000_000_000 || (nanos_of(d)
                > 600_000_000_000 && longest == 600_000_000_000)),
            None => longest == 600_000_000_000,
        },
    ensures
        shortest <= longest ==> (parser::retry_policy_read(asked) matches Ok(p) && p.minimum_backoff
            == shortest && p.maximum_backoff == longest),
        shortest > longest ==> is_refused(parser::retry_policy_read(asked)),
{
}

/// A dead letter policy allows the number of attempts that is given, which is five to a hundred; zero
/// stands for five, and any other number is refused.
pub proof fn law_dead_letter_policy_is_taken_as_given(asked: DeadLetterPolicyProto)
    requires
        topic_name::topic_name_read(asked.dead_letter_topic@) is Some,
    ensures
        5 <= asked.max_delivery_attempts <= 100 ==> (parser::dead_letter_policy_read(asked) matches Ok(
            p,
        ) && p.max_delivery_attempts == asked.max_delivery_attempts && p.dead_letter_topic
            == topic_name::topic_name_read(asked.dead_letter_topic@)->0),
        asked.max_delivery_attempts == 0 ==> (parser::dead_letter_policy_read(asked) matches Ok(p)
            && p.max_delivery_attempts == 5 && p.dead_letter_topic == topic_name::topic_name_read(
            asked.dead_letter_topic@,
        )->0),
        asked.max_delivery_attempts != 0 && !(5 <= asked.max_delivery_attempts <= 100) ==> is_refused(
            parser::dead_letter_policy_read(asked),
        ),
{
}

/// Messages are retained by a subscription for as long as is asked for, but for ten minutes at least
/// and for seven days at most. A negative span is refused.
pub proof fn law_retention_is_within_bounds(asked: DurationProto)
    ensures
        !is_span(asked) ==> is_refused(parser::retention_read(asked)),
        is_span(asked) ==> (parser::retention_read(asked) matches Ok(n) && n == (if nanos_of(asked)
            < 10 * 60 * 1_000_000_000 {
            10 * 60 * 1_000_000_000int
        } else if nanos_of(asked) > 7 * 24 * 3600 * 1_000_000_000 {
            7 * 24 * 3600 * 1_000_000_000int
        } else {
            nanos_of(asked)
        })),
{
}

/// A topic keeps the retention that is asked for as it is. A negative span is refused.
pub proof fn law_topic_retention_is_taken_as_given(asked: DurationProto)
    ensures
        !is_span(asked) ==> is_refused(publisher::topic_retention_read(Some(asked))),
        is_span(asked) ==> (publisher::topic_retention_read(Some(asked)) matches Ok(Some(n)) && n
            == nanos_of(asked)),
        publisher::topic_retention_read(None) == Ok::<Option<nat>, StatusView>(None),
{
}

/// A subscription has the ack deadline that is asked for, but ten seconds at least.
pub proof fn law_ack_deadline_is_ten_seconds_at_least(seconds: i32)
    ensures
        parser::ack_deadline_read(seconds) == (if seconds < 10 {
            10
        } else {
            seconds as int
        }) * 1_000_000_000,
{
}

/// Whether a field of a subscription can be updated.
pub open spec fn is_field(path: Seq<char>) -> bool {
    ||| path == "ack_deadline_seconds"@
    ||| path == "retry_policy"@
    ||| path == "dead_letter_policy"@
    ||| path == "message_retention_duration"@
    ||| path == "enable_exactly_once_delivery"@
}

/// An update sets the fields that its mask names to what the request has there, and keeps the others;
/// a policy or retention that the request does not have is taken away. It is refused where its mask is
/// empty or names anything else.
pub proof fn law_update_sets_what_its_mask_names(
    asked: SubscriptionProto,
    paths: Seq<String>,
    held: InfoView,
    i: int,
)
    ensures
        paths.len() == 0 ==> is_refused(parser::update_read(asked, paths)),
        0 <= i < paths.len() && !is_field(paths[i]@) ==> is_refused(parser::update_read(asked, paths)),
        parser::update_read(asked, paths) matches Ok(update) ==> {
            let after = info::updated_view(held, update);
            &&& after.name == held.name
            &&& after.push_config == held.push_config
            &&& after.filter == held.filter
            &&& after.enable_message_ordering == held.enable_message_ordering
            &&& after.detached == held.detached
            &&& after.ack_deadline == if parser::has_path(paths, "ack_deadline_seconds"@) {
                (if asked.ack_deadline_seconds < 10 {
                    10
                } else {
                    asked.ack_deadline_seconds as int
                }) * 1_000_000_000
            } else {
                held.ack_deadline as int
            }
            &&& after.enable_exactly_once_delivery == if parser::has_path(
                paths,
                "enable_exactly_once_delivery"@,
            ) {
                asked.enable_exactly_once_delivery
            } else {
                held.enable_exactly_once_delivery
            }
            &&& if parser::has_path(paths, "retry_policy"@) {
                match asked.retry_policy {
                    Some(p) => after.retry_policy is Some && parser::retry_policy_read(p) == Ok::<
                        RetryPolicyView,
                        StatusView,
                    >(after.retry_policy->0),
                    None => after.retry_policy is None,
                }
            } else {
                after.retry_policy == held.retry_policy
            }
            &&& if parser::has_path(paths, "dead_letter_policy"@) {
                match asked.dead_letter_policy {
                    Some(p) => after.dead_letter_policy is Some && parser::dead_letter_policy_read(p)
                        == Ok::<DeadLetterPolicyView, StatusView>(after.dead_letter_policy->0),
                    None => after.dead_letter_policy is None,
                }
            } else {
                after.dead_letter_policy == held.dead_letter_policy
            }
            &&& if parser::has_path(paths, "message_retention_duration"@) {
                match asked.message_retention_duration {
                    Some(d) => after.message_retention_duration is Some && parser::retention_read(d)
                        == Ok::<nat, StatusView>(after.message_retention_duration->0),
                    None => after.message_retention_duration is None,
                }
            } else {
                after.message_retention_duration == held.message_retention_duration
            }
        },
{
    if 0 <= i < paths.len() && !is_field(paths[i]@) {
        lemma_update_is_refused(asked, paths, i);
    }
    if paths.len() > 0 {
        parser::lemma_masked(asked, paths);
        if parser::update_read(asked, paths) is Ok {
            lemma_named_parts_are_read(asked, paths);
        }
    }
}

/// A mask that names something else is refused.
proof fn lemma_update_is_refused(asked: SubscriptionProto, paths: Seq<String>, i: int)
    requires
        0 <= i < paths.len(),
        !is_field(paths[i]@),
    ensures
        is_refused(parser::paths_read(asked, paths)),
    decreases paths.len(),
{
    lemma_refusals_are_of_arguments(asked, paths.drop_last());
    if i < paths.len() - 1 {
        assert(paths.drop_last()[i] == paths[i]);
        lemma_update_is_refused(asked, paths.drop_last(), i);
    }
}

/// An update that is refused is refused because of an argument.
proof fn lemma_refusals_are_of_arguments(asked: SubscriptionProto, paths: Seq<String>)
    ensures
        parser::paths_read(asked, paths) is Err ==> is_refused(parser::paths_read(asked, paths)),
    decreases paths.len(),
{
    if paths.len() > 0 {
        lemma_refusals_are_of_arguments(asked, paths.drop_last());
    }
}

/// Where an update is not refused, what it names is read.
proof fn lemma_named_parts_are_read(asked: SubscriptionProto, paths: Seq<String>)
    requires
        parser::paths_read(asked, paths) is Ok,
    ensures
        parser::has_path(paths, "retry_policy"@) ==> parser::retry_policy_given(asked.retry_policy) is Ok,
        parser::has_path(paths, "dead_letter_policy"@) ==> parser::dead_letter_policy_given(
            asked.dead_letter_policy,
        ) is Ok,
        parser::has_path(paths, "message_retention_duration"@) ==> parser::retention_given(
            asked.message_retention_duration,
        ) is Ok,
{
    parser::lemma_masked(asked, paths);
    reveal_strlit("ack_deadline_seconds");
    reveal_strlit("retry_policy");
    reveal_strlit("dead_letter_policy");
    reveal_strlit("message_retention_duration");
    reveal_strlit("enable_exactly_once_delivery");
    if parser::has_path(paths, "retry_policy"@) {
        let i = choose|i: int| 0 <= i < paths.len() && (#[trigger] paths[i])@ == "retry_policy"@;
        assert(parser::is_accepted(asked, paths[i]@));
    }
    if parser::has_path(paths, "dead_letter_policy"@) {
        let i = choose|i: int|
            0 <= i < paths.len() && (#[trigger] paths[i])@ == "dead_letter_policy"@;
        assert(parser::is_accepted(asked, paths[i]@));
    }
    if parser::has_path(paths, "message_retention_duration"@) {
        let i = choose|i: int|
            0 <= i < paths.len() && (#[trigger] paths[i])@ == "message_retention_duration"@;
        assert(parser::is_accepted(asked, paths[i]@));
    }
}

/// An update of a topic sets what its paths name, and is refused where one of them is no field that
/// can be changed.
proof fn lemma_topic_paths(asked: TopicProto, paths: Seq<String>)
    ensures
        match publisher::topic_paths_read(asked, paths) {
            Ok(u) => {
                &&& u.labels == if parser::has_path(paths, "labels"@) {
                    Some(asked.labels@)
                } else {
                    None
                }
                &&& if parser::has_path(paths, "message_retention_duration"@) {
                    u.message_retention_duration is Some && publisher::topic_retention_read(
                        asked.message_retention_duration,
                    ) == Ok::<Option<nat>, StatusView>(u.message_retention_duration->0)
                } else {
                    u.message_retention_duration is None
                }
                &&& forall|i: int|
                    0 <= i < paths.len() ==> (#[trigger] paths[i])@ == "labels"@ || paths[i]@
                        == "message_retention_duration"@
            },
            Err(e) => e.code == Code::InvalidArgument,
        },
    decreases paths.len(),
{
    reveal_strlit("labels");
    reveal_strlit("message_retention_duration");
    if paths.len() > 0 {
        let front = paths.drop_last();
        lemma_topic_paths(asked, front);
        parser::lemma_has_path(paths, "labels"@);
        parser::lemma_has_path(paths, "message_retention_duration"@);
        if publisher::topic_paths_read(asked, paths) is Ok {
            assert forall|i: int| 0 <= i < paths.len() implies (#[trigger] paths[i])@ == "labels"@
                || paths[i]@ == "message_retention_duration"@ by {
                if i < paths.len() - 1 {
                    assert(front[i] == paths[i]);
                }
            }
        }
    }
}

/// An update of a topic sets the labels and the retention where its mask names them to what the
/// request has there, and keeps what it does not name. No other topic and no subscription changes. It
/// is refused where its mask is empty or names anything else.
pub proof fn law_topic_update_sets_what_its_mask_names(
    before: ServiceState,
    after: ServiceState,
    request: UpdateTopicRequest,
    asked: TopicProto,
    paths: Vec<String>,
    i: int,
    j: int,
)
    requires
        request.topic == Some(asked),
        request.update_mask == Some(paths),
    ensures
        paths@.len() == 0 ==> is_refused(publisher::topic_update_asked(before, request)),
        (0 <= j < paths@.len() && paths@[j]@ != "labels"@ && paths@[j]@
            != "message_retention_duration"@) ==> is_refused(
            publisher::topic_update_asked(before, request),
        ),
        (publisher::topic_update_asked(before, request) matches Ok((at, update)) && at == i
            && publisher::is_topic_updated(before, after, i, update)) ==> {
            let held = before.topics[i].info;
            let now = after.topics[i].info;
            &&& now.name == held.name
            &&& now.labels@ == if parser::has_path(paths@, "labels"@) {
                asked.labels@
            } else {
                held.labels@
            }
            &&& if parser::has_path(paths@, "message_retention_duration"@) {
                match asked.message_retention_duration {
                    Some(d) => now.message_retention_duration is Some
                        && now.message_retention_duration->0@ == nanos_of(d),
                    None => now.message_retention_duration is None,
                }
            } else {
                now.message_retention_duration == held.message_retention_duration
            }
            &&& after.topics.len() == before.topics.len()
            &&& 0 <= j < before.topics.len() && j != i ==> after.topics[j] == before.topics[j]
            &&& after.topics[i].subscriptions == before.topics[i].subscriptions
            &&& after.topics[i].next_message_id == before.topics[i].next_message_id
            &&& after.subscriptions == before.subscriptions
        },
{
    lemma_topic_paths(asked, paths@);
    if let Some(name) = topic_name::topic_name_read(asked.name@) {
        topic_manager::lemma_topic_place(before.topics, name);
    }
}

/// Whether there is a topic of that name.
pub open spec fn is_there(st: ServiceState, name: TopicNameView) -> bool {
    exists|i: int| 0 <= i < st.topics.len() && (#[trigger] st.topics[i]).info.name@ == name
}

/// A request for a topic is refused where there is a topic of that name, and taken where there is
/// none, the request can be read and there are numbers left.
pub proof fn law_topic_is_created_once(st: ServiceState, request: TopicProto)
    requires
        publisher::topic_read(request) is Ok,
        st.next_topic < u32::MAX,
    ensures
        ({
            let name = topic_name::topic_name_read(request.name@)->0;
            &&& is_there(st, name) ==> (publisher::topic_refusal(st, request) matches Some(e)
                && e.code == Code::AlreadyExists)
            &&& !is_there(st, name) ==> publisher::topic_refusal(st, request) is None
        }),
{
    let name = topic_name::topic_name_read(request.name@)->0;
    topic_manager::lemma_topic_place(st.topics, name);
}

/// A request for a subscription that can be read is refused where its topic is not there, where it is
/// not in the project of its topic, where the topic for its dead letters is not there, and where there
/// is a subscription of its name; else it is taken, where there are numbers left.
pub proof fn law_subscription_is_created_once(
    st: ServiceState,
    request: SubscriptionProto,
    topic: TopicNameView,
    info: InfoView,
)
    requires
        subscriber::subscription_read(request) == Ok::<(TopicNameView, InfoView), StatusView>(
            (topic, info),
        ),
        st.next_subscription < u32::MAX,
    ensures
        ({
            let refusal = subscriber::creation_refusal(st, request);
            let same_project = topic is Named && topic->project_id == info.name.project_id;
            let letters = info.dead_letter_policy matches Some(p) ==> is_there(
                st,
                p.dead_letter_topic,
            );
            let known = exists|i: int|
                0 <= i < st.subscriptions.len() && (#[trigger] st.subscriptions[i]).state.info.name@
                    == info.name;
            &&& !is_there(st, topic) ==> (refusal matches Some(e) && e.code == Code::NotFound)
            &&& is_there(st, topic) && !same_project ==> (refusal matches Some(e) && e.code
                == Code::InvalidArgument)
            &&& is_there(st, topic) && same_project && !letters ==> (refusal matches Some(e)
                && e.code == Code::NotFound)
            &&& is_there(st, topic) && same_project && letters && known ==> (refusal matches Some(e)
                && e.code == Code::AlreadyExists)
            &&& is_there(st, topic) && same_project && letters && !known ==> refusal is None
        }),
{
    topic_manager::lemma_topic_place(st.topics, topic);
    if let Some(p) = info.dead_letter_policy {
        topic_manager::lemma_topic_place(st.topics, p.dead_letter_topic);
    }
    subscription_manager::lemma_subscription_place(st.subscriptions, info.name);
    if let Some(i) = subscription_manager::subscription_place(st.subscriptions, info.name) {
        assert(st.subscriptions[i].state.info.name@ == info.name);
    }
}

/// A filter that is blank is none, and any other one is kept without the white space around it where it
/// is one, and refused where it is not.
pub proof fn law_filter_is_taken_as_given(front: Seq<char>, filter: Seq<char>, back: Seq<char>)
    requires
        is_blank(front),
        is_blank(back),
        filter.len() > 0 ==> is_visible(filter[0]) && is_visible(filter.last()),
        filter.len() == 0 ==> back.len() == 0,
    ensures
        ({
            let read = subscriber::filter_read(front + filter + back);
            &&& filter.len() == 0 ==> read == Ok::<Option<Seq<char>>, StatusView>(None)
            &&& filter.len() > 0 && filter::filter_of(filter) is Ok ==> read == Ok::<
                Option<Seq<char>>,
                StatusView,
            >(Some(filter))
            &&& filter.len() > 0 && filter::filter_of(filter) is Err ==> is_refused(read)
        }),
{
    law_trimming_takes_what_is_around(front, filter, back);
}

/// Whether the token and the offset belong together: no token for the front of a list, or the text of
/// the offset.
pub open spec fn is_token_of(token: Seq<char>, offset: usize) -> bool {
    if token.len() == 0 {
        offset == 0
    } else {
        token == text::decimal(offset as nat)
    }
}

/// A request for a page of a project is read as the page of that project, of the size that it asks
/// for, or a hundred, which starts where its token says.
pub proof fn law_list_request_is_read_as_its_page(
    subscriptions: ListSubscriptionsRequest,
    topics: ListTopicsRequest,
    project: Seq<char>,
    offset: usize,
)
    requires
        subscriptions.project@ == "projects/"@ + project,
        subscriptions.page_size >= 0,
        is_token_of(subscriptions.page_token@, offset),
        topics.project@ == subscriptions.project@,
        topics.page_size == subscriptions.page_size,
        topics.page_token@ == subscriptions.page_token@,
    ensures
        ({
            let size = if subscriptions.page_size == 0 {
                100
            } else {
                subscriptions.page_size as int
            };
            &&& subscriber::list_asked(subscriptions) matches Ok((s, o, p)) && s == size && o
                == offset && p == project
            &&& topic_lists::topics_refusal(topics) is None
            &&& topic_lists::page_asked(topics.page_size, topics.page_token@) matches Ok((s, o)) && s
                == size && o == offset
        }),
{
    law_page_is_what_is_asked_for(subscriptions.page_size, subscriptions.page_token@, offset);
    law_project_is_named_with_a_prefix(subscriptions.project@, project);
}

/// A request to change a subscription without one, or without a mask, is refused.
pub proof fn law_update_needs_a_subscription_and_a_mask(
    st: ServiceState,
    request: UpdateSubscriptionRequest,
)
    requires
        request.subscription is None || request.update_mask is None,
    ensures
        is_refused(subscriber::update_asked(st, request)),
{
}

} // verus!
