//! The subscribing side of the interface.
use std::sync::Arc;
use vstd::prelude::*;

use crate::api::parser;
use crate::api::proto::{
    AcknowledgeRequest, ListSubscriptionsRequest, ListSubscriptionsResponse,
    ModifyAckDeadlineRequest, ModifyPushConfigRequest, PullRequest, ReceivedMessage,
    SubscriptionProto, UpdateSubscriptionRequest,
};
use crate::api::resources;
use crate::api::status;
use crate::api::status::{Code, Status, StatusView};
use crate::paging;
use crate::paging::PageToken;
use crate::push::registry::Pushes;
use crate::subscriptions::ack::{AckId, AckOutcome, DeadlineModification, Modification};
use crate::subscriptions::filter;
use crate::subscriptions::filter::Filter;
use crate::subscriptions::info;
use crate::subscriptions::info::{
    InfoView, PushConfig, PushConfigView, SubscriptionInfo, SubscriptionUpdate, UpdateView,
};
use crate::subscriptions::outstanding;
use crate::subscriptions::state;
use crate::subscriptions::state::{Condemned, SubscriptionState};
use crate::subscriptions::subscription_actor::{PullMessagesError, SubscriptionActor};
use crate::subscriptions::subscription_manager;
use crate::subscriptions::subscription_manager::{
    CreateSubscriptionError, SubscriptionEntry, SubscriptionManager,
};
use crate::subscriptions::subscription_name;
use crate::subscriptions::subscription_name::{SubscriptionName, SubscriptionNameView};
use crate::text;
use crate::time::{Instant, SystemTime};
use crate::topics::topic;
use crate::topics::topic::{PublishMessagesError, TopicInfo, TopicState, TopicUpdate};
use crate::topics::topic_manager;
use crate::topics::topic_manager::{CreateTopicError, GetTopicError, TopicManager};
use crate::topics::topic_message::TopicMessage;
use crate::topics::topic_name;
use crate::topics::topic_name::{TopicName, TopicNameView};

verus! {

/// What the server holds.
#[verifier::ext_equal]
pub struct ServiceState {
    pub topics: Seq<TopicState>,
    /// The number of the next topic.
    pub next_topic: u32,
    pub subscriptions: Seq<SubscriptionEntry>,
    /// The number of the next subscription.
    pub next_subscription: u32,
    /// Which subscriptions push, and where to.
    pub pushes: Pushes,
}

/// The topics and subscriptions, and what clients can do with them.
#[derive(Debug)]
pub struct SubscriberService {
    pub(crate) topic_manager: TopicManager,
    pub(crate) subscription_manager: SubscriptionManager,
}

impl View for SubscriberService {
    type V = ServiceState;

    closed spec fn view(&self) -> ServiceState {
        ServiceState {
            topics: self.topic_manager@,
            next_topic: self.topic_manager.next_number(),
            subscriptions: self.subscription_manager@,
            next_subscription: self.subscription_manager.next_number(),
            pushes: self.subscription_manager.pushes(),
        }
    }
}

/// The refusal where there is no such subscription.
pub open spec fn subscription_not_found(name: SubscriptionNameView) -> StatusView {
    status::refusal(
        Code::NotFound,
        "Resource not found (resource="@ + name.subscription_id + ")."@,
    )
}

/// The refusal where a subscription is gone or the server shuts down.
pub open spec fn conflict() -> StatusView {
    status::refusal(Code::FailedPrecondition, "The operation resulted in a conflict."@)
}

/// The refusal where a subscription was detached.
pub open spec fn detached_status() -> StatusView {
    status::refusal(Code::FailedPrecondition, "Subscription is detached."@)
}

/// Where the subscription stands that a text names, or the refusal.
pub open spec fn target(st: ServiceState, raw: Seq<char>) -> Result<int, StatusView> {
    match subscription_name::subscription_name_read(raw) {
        None => Err(parser::bad_subscription_name(raw)),
        Some(name) => match subscription_manager::subscription_place(st.subscriptions, name) {
            Some(i) => Ok(i),
            None => Err(subscription_not_found(name)),
        },
    }
}

/// The server with a subscription in another state.
pub open spec fn with_subscription(
    st: ServiceState,
    i: int,
    state: SubscriptionState,
) -> ServiceState {
    ServiceState {
        subscriptions: st.subscriptions.update(
            i,
            subscription_manager::with_state(st.subscriptions[i], state),
        ),
        ..st
    }
}

/// The refusal where there is no such subscription.
pub(crate) fn refuse_missing(name: &SubscriptionName) -> (s: Status)
    ensures
        s@ == subscription_not_found(name@),
{
    let mut message = "Resource not found (resource=".to_owned();
    message.push_str(name.subscription_id());
    message.push_str(").");
    Status { code: Code::NotFound, message }
}

/// The refusal of a method that is not there.
pub fn not_implemented(method: &str) -> (s: Status)
    ensures
        s@ == status::refusal(Code::Unimplemented, method@ + " is not implemented in Deltio"@),
{
    let mut message = method.to_owned();
    message.push_str(" is not implemented in Deltio");
    Status { code: Code::Unimplemented, message }
}

/// What the filter of a request is read as: none for white space.
pub open spec fn filter_read(raw: Seq<char>) -> Result<Option<Seq<char>>, StatusView> {
    let trimmed = text::trimmed(raw);
    if trimmed.len() == 0 {
        Ok(None)
    } else {
        match filter::filter_of(trimmed) {
            Ok(_) => Ok(Some(trimmed)),
            Err(e) => Err(
                status::refusal(
                    Code::InvalidArgument,
                    "invalid filter expression: "@ + filter::error_text(e),
                ),
            ),
        }
    }
}

/// Reads the filter of a request.
fn parse_filter(raw: &str) -> (r: Result<Option<String>, Status>)
    ensures
        match r {
            Ok(f) => filter_read(raw@) == Ok::<Option<Seq<char>>, StatusView>(info::text_view(f)),
            Err(e) => filter_read(raw@) == Err::<Option<Seq<char>>, StatusView>(e@),
        },
{
    let trimmed = text::trim(raw);
    if text::chars_of(trimmed.as_str()).len() == 0 {
        return Ok(None);
    }
    match Filter::parse(trimmed.as_str()) {
        Ok(_) => Ok(Some(trimmed)),
        Err(e) => {
            let mut message = "invalid filter expression: ".to_owned();
            message.push_str(e.to_string().as_str());
            Err(Status { code: Code::InvalidArgument, message })
        },
    }
}

/// What a request for a subscription is read as: its topic and its configuration. The first part
/// that is refused is the one that the request is refused for.
pub open spec fn subscription_read(request: SubscriptionProto) -> Result<
    (TopicNameView, InfoView),
    StatusView,
> {
    match topic_name::topic_name_read(request.topic@) {
        None => Err(status::invalid_value("Invalid topic name"@, request.topic@)),
        Some(topic) => match subscription_name::subscription_name_read(request.name@) {
            None => Err(parser::bad_subscription_name(request.name@)),
            Some(name) => match parser::push_config_given(request.push_config) {
                Err(e) => Err(e),
                Ok(push_config) => match parser::retry_policy_given(request.retry_policy) {
                    Err(e) => Err(e),
                    Ok(retry_policy) => match parser::dead_letter_policy_given(
                        request.dead_letter_policy,
                    ) {
                        Err(e) => Err(e),
                        Ok(dead_letter_policy) => match parser::retention_given(
                            request.message_retention_duration,
                        ) {
                            Err(e) => Err(e),
                            Ok(retention) => match filter_read(request.filter@) {
                                Err(e) => Err(e),
                                Ok(filter) => Ok(
                                    (
                                        topic,
                                        InfoView {
                                            name,
                                            ack_deadline: parser::ack_deadline_read(
                                                request.ack_deadline_seconds,
                                            ),
                                            push_config,
                                            retry_policy,
                                            dead_letter_policy,
                                            message_retention_duration: retention,
                                            enable_message_ordering:
                                                request.enable_message_ordering,
                                            enable_exactly_once_delivery:
                                                request.enable_exactly_once_delivery,
                                            filter,
                                            detached: false,
                                        },
                                    ),
                                ),
                            },
                        },
                    },
                },
            },
        },
    }
}

/// Reads a request for a subscription.
fn parse_subscription(request: &SubscriptionProto) -> (r: Result<
    (TopicName, SubscriptionInfo),
    Status,
>)
    ensures
        match r {
            Ok((topic, info)) => subscription_read(*request) == Ok::<
                (TopicNameView, InfoView),
                StatusView,
            >((topic@, info@)),
            Err(e) => subscription_read(*request) == Err::<(TopicNameView, InfoView), StatusView>(
                e@,
            ),
        },
{
    let topic_name = match parser::parse_topic_name(request.topic.as_str()) {
        Ok(n) => n,
        Err(e) => {
            return Err(e);
        },
    };
    let name = match parser::parse_subscription_name(request.name.as_str()) {
        Ok(n) => n,
        Err(e) => {
            return Err(e);
        },
    };
    let ack_deadline = parser::parse_create_ack_deadline(request.ack_deadline_seconds);
    let push_config = match parser::parse_optional_push_config(&request.push_config) {
        Ok(c) => c,
        Err(e) => {
            return Err(e);
        },
    };
    let retry_policy = match parser::parse_optional_retry_policy(&request.retry_policy) {
        Ok(p) => p,
        Err(e) => {
            return Err(e);
        },
    };
    let dead_letter_policy = match parser::parse_optional_dead_letter_policy(
        &request.dead_letter_policy,
    ) {
        Ok(p) => p,
        Err(e) => {
            return Err(e);
        },
    };
    let retention = match parser::parse_optional_retention(&request.message_retention_duration) {
        Ok(d) => d,
        Err(e) => {
            return Err(e);
        },
    };
    let filter = match parse_filter(request.filter.as_str()) {
        Ok(f) => f,
        Err(e) => {
            return Err(e);
        },
    };
    let mut info = SubscriptionInfo::new(
        name,
        ack_deadline,
        push_config,
        retry_policy,
        dead_letter_policy,
    );
    info.message_retention_duration = retention;
    info.enable_message_ordering = request.enable_message_ordering;
    info.enable_exactly_once_delivery = request.enable_exactly_once_delivery;
    info.filter = filter;
    Ok((topic_name, info))
}

/// The topic that dead letters go to by the configuration.
pub open spec fn dead_letter_topic(info: InfoView) -> Option<TopicNameView> {
    match info.dead_letter_policy {
        Some(policy) => Some(policy.dead_letter_topic),
        None => None,
    }
}

/// The refusal of a subscription that could not be created.
pub open spec fn creation_status(
    e: CreateSubscriptionError,
    name: SubscriptionNameView,
) -> StatusView {
    match e {
        CreateSubscriptionError::AlreadyExists => status::refusal(
            Code::AlreadyExists,
            "The subscription "@ + subscription_name::subscription_name_text(name)
                + " already exists"@,
        ),
        CreateSubscriptionError::MustBeInSameProjectAsTopic => status::refusal(
            Code::InvalidArgument,
            "The subscription must be in the same project as the topic"@,
        ),
        CreateSubscriptionError::DeadLetterTopicDoesNotExist => status::refusal(
            Code::NotFound,
            "The dead letter topic does not exist"@,
        ),
        CreateSubscriptionError::Closed => conflict(),
    }
}

/// The refusal where there is no such topic.
pub open spec fn topic_missing(name: TopicNameView) -> StatusView {
    status::refusal(
        Code::NotFound,
        "The topic "@ + topic_name::topic_name_text(name) + " does not exist"@,
    )
}

/// The refusal of a request for a subscription; none where it is created.
pub open spec fn creation_refusal(st: ServiceState, request: SubscriptionProto) -> Option<
    StatusView,
> {
    match subscription_read(request) {
        Err(e) => Some(e),
        Ok((topic, info)) => match topic_manager::topic_place(st.topics, topic) {
            None => Some(topic_missing(topic)),
            Some(t) => match subscription_manager::creation_refused(
                st.subscriptions,
                st.next_subscription,
                st.topics,
                info.name,
                dead_letter_topic(info),
                topic,
            ) {
                Some(e) => Some(creation_status(e, info.name)),
                None => None,
            },
        },
    }
}

/// Whether the server holds the subscription that a request asked for, and else what it held
/// before: the subscription is the last one, attached to its topic, and pushes where it is
/// configured to.
pub open spec fn is_created(
    before: ServiceState,
    after: ServiceState,
    topic: TopicNameView,
    info: InfoView,
) -> bool {
    let entry = after.subscriptions.last();
    &&& after.subscriptions.len() == before.subscriptions.len() + 1
    &&& after.subscriptions.drop_last() == before.subscriptions
    &&& entry.state == state::started(entry.state.info)
    &&& entry.state.info@ == info
    &&& entry.topic matches Some(t) && t@ == topic
    &&& entry.number == before.next_subscription
    &&& after.next_subscription == before.next_subscription + 1
    &&& topic_manager::topic_place(before.topics, topic) matches Some(t) && after.topics
        == before.topics.update(t, topic::attached(before.topics[t], info.name))
    &&& after.next_topic == before.next_topic
    &&& after.pushes == (match info.push_config {
        Some(c) => before.pushes.insert(info.name, c),
        None => before.pushes,
    })
}

/// What a topic that may be missing is named.
pub open spec fn name_of(topic: Option<TopicName>) -> Option<TopicNameView> {
    match topic {
        Some(t) => Some(t@),
        None => None,
    }
}

/// Whether the topic has not enough ids left for this many messages.
pub open spec fn ids_exhausted(st: ServiceState, topic_at: int, n: nat) -> bool {
    st.topics[topic_at].next_message_id + n > u32::MAX
}

/// The server after messages were published to a topic and handed to its subscriptions.
pub open spec fn after_published(
    st: ServiceState,
    topic_at: int,
    messages: Seq<TopicMessage>,
    published: Seq<Arc<TopicMessage>>,
) -> ServiceState {
    ServiceState {
        topics: st.topics.update(
            topic_at,
            topic::after_publish(st.topics[topic_at], messages),
        ),
        subscriptions: subscription_manager::all_posted(
            st.subscriptions,
            st.topics[topic_at].subscriptions,
            published,
        ),
        ..st
    }
}

/// Whether messages were published to a topic and handed to its subscriptions.
pub open spec fn is_published(
    before: ServiceState,
    after: ServiceState,
    topic_at: int,
    messages: Seq<TopicMessage>,
    published: Seq<Arc<TopicMessage>>,
    at: SystemTime,
    now: Instant,
) -> bool {
    &&& !ids_exhausted(before, topic_at, messages.len())
    &&& topic::are_published(published, messages, before.topics[topic_at], at, now)
    &&& after == after_published(before, topic_at, messages, published)
}

/// Whether dead letters were published to the topic that they go to, or dropped where there is no
/// such topic or it has no ids left.
pub open spec fn are_forwarded(
    before: ServiceState,
    after: ServiceState,
    to: Option<TopicNameView>,
    letters: Seq<TopicMessage>,
    at: SystemTime,
    now: Instant,
) -> bool {
    if letters.len() == 0 || to is None {
        after == before
    } else {
        match topic_manager::topic_place(before.topics, to->0) {
            None => after == before,
            Some(t) => if ids_exhausted(before, t, letters.len()) {
                after == before
            } else {
                exists|published: Seq<Arc<TopicMessage>>|
                    is_published(before, after, t, letters, published, at, now)
            },
        }
    }
}

/// What a request to change a subscription is read as: which one, and the change.
pub open spec fn update_asked(st: ServiceState, request: UpdateSubscriptionRequest) -> Result<
    (int, UpdateView),
    StatusView,
> {
    match request.subscription {
        None => Err(status::refusal(Code::InvalidArgument, "subscription must be specified"@)),
        Some(subscription) => match request.update_mask {
            None => Err(status::refusal(Code::InvalidArgument, "update_mask must be specified"@)),
            Some(paths) => match subscription_name::subscription_name_read(subscription.name@) {
                None => Err(parser::bad_subscription_name(subscription.name@)),
                Some(name) => match parser::update_read(subscription, paths@) {
                    Err(e) => Err(e),
                    Ok(update) => match subscription_manager::subscription_place(
                        st.subscriptions,
                        name,
                    ) {
                        Some(i) => Ok((i, update)),
                        None => Err(subscription_not_found(name)),
                    },
                },
            },
        },
    }
}

/// Whether a subscription was changed as asked for, and nothing else.
pub open spec fn is_updated(
    before: ServiceState,
    after: ServiceState,
    i: int,
    asked: UpdateView,
) -> bool {
    exists|update: SubscriptionUpdate|
        update@ == asked && after == with_subscription(
            before,
            i,
            #[trigger] state::reconfigured(before.subscriptions[i].state, update),
        )
}

/// What a request for a page is read as: the size, where it starts, and the project.
pub open spec fn list_asked(request: ListSubscriptionsRequest) -> Result<
    (usize, nat, Seq<char>),
    StatusView,
> {
    match parser::paging_read(request.page_size, request.page_token@) {
        Err(e) => Err(e),
        Ok((size, offset)) => match parser::project_read(request.project@) {
            Err(e) => Err(e),
            Ok(project) => Ok(
                (
                    paging::page_size(size),
                    match offset {
                        Some(o) => o,
                        None => 0,
                    },
                    project,
                ),
            ),
        },
    }
}

/// Whether the page holds the subscriptions of the project from the offset on, as many as the size
/// allows, and the token of the next page where there are more.
pub open spec fn is_page(
    st: ServiceState,
    page: ListSubscriptionsResponse,
    size: usize,
    offset: nat,
    project: Seq<char>,
) -> bool {
    let all = subscription_manager::project_places(st.subscriptions, project);
    let end = if offset + size <= all.len() {
        (offset + size) as int
    } else {
        all.len() as int
    };
    let start = if offset <= end {
        offset as int
    } else {
        end
    };
    let listed = all.subrange(start, end);
    &&& page.subscriptions@.len() == listed.len()
    &&& forall|j: int|
        0 <= j < listed.len() ==> resources::is_resource_of(
            #[trigger] page.subscriptions@[j],
            st.subscriptions[listed[j]].state.info,
            st.subscriptions[listed[j]].topic,
        )
    &&& page.next_page_token@ == if end < all.len() {
        text::decimal(end as nat)
    } else {
        Seq::empty()
    }
}

/// The topics without a subscription among those of its topic.
pub open spec fn topics_without(st: ServiceState, e: SubscriptionEntry) -> Seq<TopicState> {
    match e.topic {
        None => st.topics,
        Some(t) => match topic_manager::topic_place(st.topics, t@) {
            None => st.topics,
            Some(j) => st.topics.update(j, topic::removed(st.topics[j], e.name())),
        },
    }
}

/// The server after a subscription was deleted.
pub open spec fn after_deleted(st: ServiceState, i: int) -> ServiceState {
    ServiceState {
        topics: topics_without(st, st.subscriptions[i]),
        subscriptions: st.subscriptions.remove(i),
        pushes: st.pushes.remove(st.subscriptions[i].name()),
        ..st
    }
}

/// What a request to move deadlines is read as: which subscription, and the modifications.
pub open spec fn modify_asked(
    st: ServiceState,
    request: ModifyAckDeadlineRequest,
    now: nat,
) -> Result<(int, Seq<Modification>), StatusView> {
    let seconds = Seq::new(request.ack_ids@.len(), |i: int| request.ack_deadline_seconds);
    match parser::modifications_read(
        now,
        request.ack_ids@,
        seconds,
        parser::paired(request.ack_ids@, seconds),
    ) {
        Err(e) => Err(e),
        Ok(modifications) => match target(st, request.subscription@) {
            Err(e) => Err(e),
            Ok(i) => Ok((i, modifications)),
        },
    }
}

/// The messages that modifications return and that were delivered too often.
pub open spec fn returned_condemned(
    st: SubscriptionState,
    modifications: Seq<Modification>,
    now: nat,
) -> Seq<Condemned> {
    if st.deleted {
        Seq::empty()
    } else {
        state::condemned(
            state::deadlines_moved(st, modifications),
            outstanding::modified(st.outstanding, modifications).1,
            now,
        )
    }
}

/// Whether the deadlines of a subscription were moved, and the dead letters forwarded that this
/// made.
pub open spec fn is_modified(
    before: ServiceState,
    after: ServiceState,
    i: int,
    modifications: Seq<Modification>,
    now: Instant,
    wall: SystemTime,
) -> bool {
    let st = before.subscriptions[i].state;
    let middle = with_subscription(before, i, state::modified(st, modifications, now@));
    exists|letters: Seq<TopicMessage>|
        state::are_dead_letters(
            letters,
            st.info,
            returned_condemned(st, modifications, now@),
            now@,
        ) && are_forwarded(
            middle,
            after,
            subscription_manager::dead_letter_topic_of(st.info),
            letters,
            wall,
            now,
        )
}

/// Whether the outcome says which ids named an outstanding message.
pub open spec fn is_outcome(outcome: AckOutcome, st: SubscriptionState, ids: Seq<AckId>) -> bool {
    if st.deleted {
        outcome.valid@.len() == 0 && outcome.invalid@.len() == 0
    } else {
        outcome.valid@ == state::valid_ids(st.outstanding, ids) && outcome.invalid@
            == state::invalid_ids(st.outstanding, ids)
    }
}

/// What an acknowledgement is read as: which subscription, and the ids.
pub open spec fn acknowledge_asked(st: ServiceState, request: AcknowledgeRequest) -> Result<
    (int, Seq<AckId>),
    StatusView,
> {
    match parser::ack_ids_read(request.ack_ids@) {
        Err(e) => Err(e),
        Ok(ids) => match target(st, request.subscription@) {
            Err(e) => Err(e),
            Ok(i) => Ok((i, ids)),
        },
    }
}

/// How long a request for messages waits for some, in seconds. It is answered with none then.
pub const PULL_TIMEOUT_SECS: u64 = 300;

/// A subscription after a request for messages: as many are delivered as were asked for, whatever is
/// outstanding.
pub open spec fn after_pull(
    st: SubscriptionState,
    request: PullRequest,
    now: nat,
) -> SubscriptionState {
    state::pulled(st, request.max_messages as u16, 0, now)
}

/// What comes of trying to answer a request for messages.
#[derive(Debug)]
pub enum PullStep {
    /// The request is answered with these messages.
    Respond(Vec<ReceivedMessage>),
    /// There is nothing to answer the request with yet.
    Wait,
}

/// What a request to set a push config is read as: which subscription, and the config.
pub open spec fn push_asked(st: ServiceState, request: ModifyPushConfigRequest) -> Result<
    (int, Option<PushConfigView>),
    StatusView,
> {
    let config = match request.push_config {
        None => Ok(None),
        Some(c) => if text::trimmed(c.push_endpoint@).len() == 0 {
            Ok(None)
        } else {
            match parser::push_config_read(c) {
                Ok(c) => Ok(Some(c)),
                Err(e) => Err(e),
            }
        },
    };
    match config {
        Err(e) => Err(e),
        Ok(config) => match target(st, request.subscription@) {
            Err(e) => Err(e),
            Ok(i) => Ok((i, config)),
        },
    }
}

/// Whether a subscription pushes as asked for, and is registered for it, and nothing else changed.
pub open spec fn is_repushed(
    before: ServiceState,
    after: ServiceState,
    i: int,
    asked: Option<PushConfigView>,
) -> bool {
    let e = before.subscriptions[i];
    exists|config: Option<PushConfig>|
        info::push_view(config) == asked && after == (ServiceState {
            subscriptions: before.subscriptions.update(
                i,
                subscription_manager::with_state(
                    e,
                    #[trigger] state::repushed(e.state, config),
                ),
            ),
            pushes: subscription_manager::pushes_changed(before.pushes, e, config),
            ..before
        })
}

/// Whether what was overdue of a subscription was taken back, and the dead letters forwarded that
/// this made.
pub open spec fn is_expired(
    before: ServiceState,
    after: ServiceState,
    i: int,
    now: Instant,
    wall: SystemTime,
) -> bool {
    let st = before.subscriptions[i].state;
    exists|letters: Seq<TopicMessage>|
        state::are_dead_letters(
            letters,
            st.info,
            state::condemned(
                state::overdue_taken(st, now@),
                outstanding::overdue(st.outstanding, now@),
                now@,
            ),
            now@,
        ) && are_forwarded(
            with_subscription(before, i, state::expired(st, now@)),
            after,
            subscription_manager::dead_letter_topic_of(st.info),
            letters,
            wall,
            now,
        )
}

/// Whether what was due at the time was done for a subscription.
pub open spec fn is_ticked(
    before: ServiceState,
    after: ServiceState,
    i: int,
    now: Instant,
    wall: SystemTime,
) -> bool {
    exists|middle: ServiceState|
        #[trigger] is_expired(before, middle, i, now, wall) && after == with_subscription(
            middle,
            i,
            state::retries_ended(middle.subscriptions[i].state, now@),
        )
}

/// Whether what was due at the time was done for every subscription in turn.
pub open spec fn is_tick(
    before: ServiceState,
    after: ServiceState,
    trace: Seq<ServiceState>,
    now: Instant,
    wall: SystemTime,
) -> bool {
    &&& trace.len() == before.subscriptions.len() + 1
    &&& trace[0] == before
    &&& trace.last() == after
    &&& forall|j: int|
        0 <= j < before.subscriptions.len() ==> is_ticked(
            #[trigger] trace[j],
            trace[j + 1],
            j,
            now,
            wall,
        )
}

/// Whether something is due at the time for one of the first `n` subscriptions.
pub open spec fn is_due_before(st: ServiceState, t: nat, n: int) -> bool {
    exists|i: int| 0 <= i < n && state::is_wakeup((#[trigger] st.subscriptions[i]).state, t)
}

/// Whether something is due at the time.
pub open spec fn is_due(st: ServiceState, t: nat) -> bool {
    is_due_before(st, t, st.subscriptions.len() as int)
}

/// The refusal of a subscription that could not be created.
fn refuse_creation(e: CreateSubscriptionError, name: &SubscriptionName) -> (s: Status)
    ensures
        s@ == creation_status(e, name@),
{
    match e {
        CreateSubscriptionError::AlreadyExists => {
            let mut message = "The subscription ".to_owned();
            message.push_str(name.to_string().as_str());
            message.push_str(" already exists");
            Status { code: Code::AlreadyExists, message }
        },
        CreateSubscriptionError::MustBeInSameProjectAsTopic => Status::invalid_argument(
            "The subscription must be in the same project as the topic",
        ),
        CreateSubscriptionError::DeadLetterTopicDoesNotExist => Status::not_found(
            "The dead letter topic does not exist",
        ),
        CreateSubscriptionError::Closed => refuse_conflict(),
    }
}

/// The refusal where a subscription is gone or the server shuts down.
pub(crate) fn refuse_conflict() -> (s: Status)
    ensures
        s@ == conflict(),
{
    Status::failed_precondition("The operation resulted in a conflict.")
}

/// The refusal where a subscription was detached.
pub(crate) fn refuse_detached() -> (s: Status)
    ensures
        s@ == detached_status(),
{
    Status::failed_precondition("Subscription is detached.")
}

impl SubscriberService {
    /// A service over these topics and subscriptions.
    pub fn new(topic_manager: TopicManager, subscription_manager: SubscriptionManager) -> (s:
        SubscriberService)
        ensures
            s@ == (ServiceState {
                topics: topic_manager@,
                next_topic: topic_manager.next_number(),
                subscriptions: subscription_manager@,
                next_subscription: subscription_manager.next_number(),
                pushes: subscription_manager.pushes(),
            }),
    {
        SubscriberService { topic_manager, subscription_manager }
    }

    /// The topics.
    pub fn topic_manager(&self) -> (m: &TopicManager)
        ensures
            m@ == self@.topics,
    {
        &self.topic_manager
    }

    /// The subscriptions.
    pub fn subscription_manager(&self) -> (m: &SubscriptionManager)
        ensures
            m@ == self@.subscriptions,
            m.pushes() == self@.pushes,
    {
        &self.subscription_manager
    }

    /// Where the subscription stands that a text names.
    pub(crate) fn locate(&self, raw: &str) -> (r: Result<usize, Status>)
        ensures
            match r {
                Ok(i) => i < self@.subscriptions.len() && target(self@, raw@) == Ok::<
                    int,
                    StatusView,
                >(i as int),
                Err(e) => target(self@, raw@) == Err::<int, StatusView>(e@),
            },
    {
        let name = match parser::parse_subscription_name(raw) {
            Ok(n) => n,
            Err(e) => {
                return Err(e);
            },
        };
        match self.subscription_manager.find(&name) {
            Some(i) => Ok(i),
            None => Err(refuse_missing(&name)),
        }
    }

    /// Where the subscription of the name stands.
    pub(crate) fn place_of(&self, name: &SubscriptionName) -> (place: Option<usize>)
        ensures
            match place {
                Some(i) => i < self@.subscriptions.len()
                    && subscription_manager::subscription_place(self@.subscriptions, name@) == Some(
                    i as int,
                ),
                None => subscription_manager::subscription_place(
                    self@.subscriptions,
                    name@,
                ) is None,
            },
    {
        self.subscription_manager.find(name)
    }

    /// The subscription at the place.
    pub(crate) fn subscription_at(&self, i: usize) -> (a: &SubscriptionActor)
        requires
            i < self@.subscriptions.len(),
        ensures
            subscription_manager::entry_of(*a) == self@.subscriptions[i as int],
    {
        self.subscription_manager.at(i)
    }

    /// The subscription at the place as it is given to clients.
    fn resource(&self, i: usize) -> (p: SubscriptionProto)
        requires
            i < self@.subscriptions.len(),
        ensures
            resources::is_resource_of(
                p,
                self@.subscriptions[i as int].state.info,
                self@.subscriptions[i as int].topic,
            ),
    {
        let actor = self.subscription_manager.at(i);
        resources::map_to_subscription_resource(actor.get_info(), actor.topic())
    }

    /// Creates a subscription.
    pub fn create_subscription(&mut self, request: &SubscriptionProto) -> (r: Result<
        SubscriptionProto,
        Status,
    >)
        ensures
            match r {
                Ok(p) => {
                    &&& creation_refusal(old(self)@, *request) is None
                    &&& subscription_read(*request) matches Ok((topic, info)) && is_created(
                        old(self)@,
                        final(self)@,
                        topic,
                        info,
                    )
                    &&& resources::is_resource_of(
                        p,
                        final(self)@.subscriptions.last().state.info,
                        final(self)@.subscriptions.last().topic,
                    )
                },
                Err(e) => {
                    &&& creation_refusal(old(self)@, *request) == Some(e@)
                    &&& final(self)@ == old(self)@
                },
            },
    {
        let (topic_name, info) = match parse_subscription(request) {
            Ok(x) => x,
            Err(e) => {
                return Err(e);
            },
        };
        let topic_at = match self.topic_manager.find(&topic_name) {
            Some(i) => i,
            None => {
                let mut message = "The topic ".to_owned();
                message.push_str(topic_name.to_string().as_str());
                message.push_str(" does not exist");
                return Err(Status { code: Code::NotFound, message });
            },
        };
        let name = info.name.clone();
        let ghost asked = info;
        match self.subscription_manager.create_subscription(
            info,
            topic_name,
            &self.topic_manager,
        ) {
            Ok(_) => {},
            Err(e) => {
                return Err(refuse_creation(e, &name));
            },
        }
        self.topic_manager.attach_at(topic_at, name);
        let last: usize = self.subscription_manager.len() - 1;
        assert(self@.subscriptions.drop_last() =~= old(self)@.subscriptions);
        Ok(self.resource(last))
    }

    /// Gives a subscription.
    pub fn get_subscription(&self, subscription: &str) -> (r: Result<SubscriptionProto, Status>)
        ensures
            match r {
                Ok(p) => target(self@, subscription@) matches Ok(i) && resources::is_resource_of(
                    p,
                    self@.subscriptions[i].state.info,
                    self@.subscriptions[i].topic,
                ),
                Err(e) => target(self@, subscription@) == Err::<int, StatusView>(e@),
            },
    {
        match self.locate(subscription) {
            Ok(i) => Ok(self.resource(i)),
            Err(e) => Err(e),
        }
    }

    /// Publishes messages to the topic at the place and hands them to its subscriptions.
    pub(crate) fn publish_to(
        &mut self,
        topic_at: usize,
        messages: Vec<TopicMessage>,
        published_at: SystemTime,
        now: Instant,
    ) -> (r: Result<Vec<Arc<TopicMessage>>, PublishMessagesError>)
        requires
            topic_at < old(self)@.topics.len(),
        ensures
            match r {
                Ok(published) => is_published(
                    old(self)@,
                    final(self)@,
                    topic_at as int,
                    messages@,
                    published@,
                    published_at,
                    now,
                ),
                Err(e) => {
                    &&& e == PublishMessagesError::IdsExhausted
                    &&& ids_exhausted(old(self)@, topic_at as int, messages@.len())
                    &&& final(self)@ == old(self)@
                },
            },
    {
        let published = match self.topic_manager.publish_at(topic_at, messages, published_at, now) {
            Ok(published) => published,
            Err(e) => {
                return Err(e);
            },
        };
        let names = self.topic_manager.at(topic_at).all_subscriptions();
        self.subscription_manager.post(&names, &published);
        assert(self@ =~= after_published(
            old(self)@,
            topic_at as int,
            messages@,
            published@,
        ));
        Ok(published)
    }

    /// Publishes dead letters to the topic that they go to. Where there is no such topic any more
    /// they are dropped.
    fn forward_dead_letters(
        &mut self,
        to: Option<TopicName>,
        letters: Vec<TopicMessage>,
        published_at: SystemTime,
        now: Instant,
    )
        ensures
            are_forwarded(
                old(self)@,
                final(self)@,
                name_of(to),
                letters@,
                published_at,
                now,
            ),
    {
        if letters.len() == 0 {
            return;
        }
        if let Some(to) = to {
            if let Some(topic_at) = self.topic_manager.find(&to) {
                let published = self.publish_to(topic_at, letters, published_at, now);
            }
        }
    }

    /// The topic that the dead letters of the subscription at the place go to.
    fn dead_letter_topic_at(&self, i: usize) -> (to: Option<TopicName>)
        requires
            i < self@.subscriptions.len(),
        ensures
            name_of(to) == subscription_manager::dead_letter_topic_of(
                self@.subscriptions[i as int].state.info,
            ),
    {
        match &self.subscription_manager.at(i).get_info().dead_letter_policy {
            Some(policy) => Some(policy.dead_letter_topic.clone()),
            None => None,
        }
    }

    /// Changes a subscription.
    pub fn update_subscription(&mut self, request: UpdateSubscriptionRequest) -> (r: Result<
        SubscriptionProto,
        Status,
    >)
        ensures
            match r {
                Ok(p) => {
                    &&& update_asked(old(self)@, request) matches Ok((i, asked)) && is_updated(
                        old(self)@,
                        final(self)@,
                        i,
                        asked,
                    ) && resources::is_resource_of(
                        p,
                        final(self)@.subscriptions[i].state.info,
                        final(self)@.subscriptions[i].topic,
                    )
                },
                Err(e) => {
                    &&& update_asked(old(self)@, request) == Err::<(int, UpdateView), StatusView>(
                        e@,
                    )
                    &&& final(self)@ == old(self)@
                },
            },
    {
        let subscription = match request.subscription {
            Some(s) => s,
            None => {
                return Err(Status::invalid_argument("subscription must be specified"));
            },
        };
        let paths = match request.update_mask {
            Some(paths) => paths,
            None => {
                return Err(Status::invalid_argument("update_mask must be specified"));
            },
        };
        let name = match parser::parse_subscription_name(subscription.name.as_str()) {
            Ok(n) => n,
            Err(e) => {
                return Err(e);
            },
        };
        let update = match parser::parse_subscription_update(&subscription, &paths) {
            Ok(u) => u,
            Err(e) => {
                return Err(e);
            },
        };
        let i = match self.subscription_manager.find(&name) {
            Some(i) => i,
            None => {
                return Err(refuse_missing(&name));
            },
        };
        self.subscription_manager.update_at(i, update);
        assert(self@ =~= with_subscription(
            old(self)@,
            i as int,
            state::reconfigured(old(self)@.subscriptions[i as int].state, update),
        ));
        Ok(self.resource(i))
    }

    /// Gives a page of the subscriptions of a project.
    pub fn list_subscriptions(&self, request: &ListSubscriptionsRequest) -> (r: Result<
        ListSubscriptionsResponse,
        Status,
    >)
        ensures
            match r {
                Ok(page) => list_asked(*request) matches Ok((size, offset, project)) && is_page(
                    self@,
                    page,
                    size,
                    offset,
                    project,
                ),
                Err(e) => list_asked(*request) == Err::<(usize, nat, Seq<char>), StatusView>(e@),
            },
    {
        let paging = match parser::parse_paging(request.page_size, request.page_token.as_str()) {
            Ok(p) => p,
            Err(e) => {
                return Err(e);
            },
        };
        let project = match parser::parse_project_id(request.project.as_str()) {
            Ok(p) => p,
            Err(e) => {
                return Err(e);
            },
        };
        let page = self.subscription_manager.list_subscriptions_in_project(
            project.as_str(),
            paging,
        );
        let mut subscriptions: Vec<SubscriptionProto> = Vec::new();
        let mut i: usize = 0;
        while i < page.places.len()
            invariant
                i <= page.places@.len(),
                subscriptions@.len() == i,
                forall|j: int|
                    0 <= j < page.places@.len() ==> (#[trigger] page.places@[j])
                        < self@.subscriptions.len(),
                forall|j: int|
                    0 <= j < i ==> resources::is_resource_of(
                        #[trigger] subscriptions@[j],
                        self@.subscriptions[page.places@[j] as int].state.info,
                        self@.subscriptions[page.places@[j] as int].topic,
                    ),
            decreases page.places@.len() - i,
        {
            subscriptions.push(self.resource(page.places[i]));
            i += 1;
        }
        let next_page_token = match page.offset {
            Some(offset) => PageToken::new(offset).encode(),
            None => String::new(),
        };
        let response = ListSubscriptionsResponse { subscriptions, next_page_token };
        proof {
            let all = subscription_manager::project_places(self@.subscriptions, project@);
            let listed = subscription_manager::as_ints(page.places@);
            assert(listed.len() == response.subscriptions@.len());
            assert forall|j: int|
                0 <= j < listed.len() implies resources::is_resource_of(
                #[trigger] response.subscriptions@[j],
                self@.subscriptions[listed[j]].state.info,
                self@.subscriptions[listed[j]].topic,
            ) by {
                assert(listed[j] == page.places@[j] as int);
            }
            assert(is_page(
                self@,
                response,
                paging.limit(),
                paging.start() as nat,
                project@,
            ));
        }
        Ok(response)
    }

    /// Deletes a subscription.
    pub fn delete_subscription(&mut self, subscription: &str) -> (r: Result<(), Status>)
        ensures
            match r {
                Ok(_) => target(old(self)@, subscription@) matches Ok(i) && final(self)@
                    == after_deleted(old(self)@, i),
                Err(e) => target(old(self)@, subscription@) == Err::<int, StatusView>(e@) && final(
                    self)@ == old(self)@,
            },
    {
        let i = match self.locate(subscription) {
            Ok(i) => i,
            Err(e) => {
                return Err(e);
            },
        };
        let actor = self.subscription_manager.at(i);
        let name = actor.get_info().name.clone();
        let topic_at = match actor.topic() {
            Some(t) => self.topic_manager.find(t),
            None => None,
        };
        if let Some(topic_at) = topic_at {
            self.topic_manager.remove_at(topic_at, &name);
        }
        self.subscription_manager.delete_at(i);
        assert(self@ =~= after_deleted(old(self)@, i as int));
        Ok(())
    }

    /// Moves the deadlines of delivered messages.
    pub fn modify_ack_deadline(
        &mut self,
        request: &ModifyAckDeadlineRequest,
        now: Instant,
        wall: SystemTime,
    ) -> (r: Result<(), Status>)
        ensures
            match r {
                Ok(_) => modify_asked(old(self)@, *request, now@) matches Ok((i, modifications))
                    && is_modified(old(self)@, final(self)@, i, modifications, now, wall),
                Err(e) => modify_asked(old(self)@, *request, now@) == Err::<
                    (int, Seq<Modification>),
                    StatusView,
                >(e@) && final(self)@ == old(self)@,
            },
    {
        let mut seconds: Vec<i32> = Vec::new();
        let ghost same = Seq::new(request.ack_ids@.len(), |i: int| request.ack_deadline_seconds);
        while seconds.len() < request.ack_ids.len()
            invariant
                seconds@.len() <= request.ack_ids@.len(),
                same == Seq::new(request.ack_ids@.len(), |i: int| request.ack_deadline_seconds),
                seconds@ =~= same.take(seconds@.len() as int),
            decreases request.ack_ids@.len() - seconds@.len(),
        {
            seconds.push(request.ack_deadline_seconds);
        }
        assert(seconds@ =~= same);
        let modifications = match parser::parse_deadline_modifications(
            now,
            &request.ack_ids,
            &seconds,
        ) {
            Ok(ms) => ms,
            Err(e) => {
                return Err(e);
            },
        };
        let i = match self.locate(request.subscription.as_str()) {
            Ok(i) => i,
            Err(e) => {
                return Err(e);
            },
        };
        let outcome = self.modify_deadlines_at(i, modifications, now, wall);
        Ok(())
    }

    /// Moves the deadlines of the subscription at the place, and forwards dead letters.
    pub(crate) fn modify_deadlines_at(
        &mut self,
        i: usize,
        modifications: Vec<DeadlineModification>,
        now: Instant,
        wall: SystemTime,
    ) -> (outcome: AckOutcome)
        requires
            i < old(self)@.subscriptions.len(),
        ensures
            is_modified(
                old(self)@,
                final(self)@,
                i as int,
                outstanding::modifications_of(modifications@),
                now,
                wall,
            ),
            is_outcome(
                outcome,
                old(self)@.subscriptions[i as int].state,
                state::modified_ids(modifications@),
            ),
    {
        let ghost before = self@;
        let to = self.dead_letter_topic_at(i);
        let r = self.subscription_manager.modify_at(i, modifications, now);
        let ghost middle = self@;
        let ghost views = outstanding::modifications_of(modifications@);
        let ghost st = before.subscriptions[i as int].state;
        assert(middle =~= with_subscription(before, i as int, state::modified(st, views, now@)));
        let ghost letters = r.returned.dead_letters@;
        self.forward_dead_letters(to, r.returned.dead_letters, wall, now);
        proof {
            assert(state::are_dead_letters(letters, st.info, returned_condemned(st, views, now@), now@));
            assert(are_forwarded(
                middle,
                self@,
                subscription_manager::dead_letter_topic_of(st.info),
                letters,
                wall,
                now,
            ));
        }
        r.outcome
    }

    /// Acknowledges delivered messages.
    pub fn acknowledge(&mut self, request: &AcknowledgeRequest) -> (r: Result<(), Status>)
        ensures
            match r {
                Ok(_) => acknowledge_asked(old(self)@, *request) matches Ok((i, ids)) && final(
                    self)@ == with_subscription(
                    old(self)@,
                    i,
                    state::acknowledged(
                        old(self)@.subscriptions[i].state,
                        outstanding::id_set(ids),
                    ),
                ),
                Err(e) => acknowledge_asked(old(self)@, *request) == Err::<
                    (int, Seq<AckId>),
                    StatusView,
                >(e@) && final(self)@ == old(self)@,
            },
    {
        let ack_ids = match parser::parse_ack_ids(&request.ack_ids) {
            Ok(ids) => ids,
            Err(e) => {
                return Err(e);
            },
        };
        let i = match self.locate(request.subscription.as_str()) {
            Ok(i) => i,
            Err(e) => {
                return Err(e);
            },
        };
        let outcome = self.acknowledge_at(i, ack_ids);
        Ok(())
    }

    /// Acknowledges messages of the subscription at the place.
    pub(crate) fn acknowledge_at(&mut self, i: usize, ack_ids: Vec<AckId>) -> (outcome: AckOutcome)
        requires
            i < old(self)@.subscriptions.len(),
        ensures
            final(self)@ == with_subscription(
                old(self)@,
                i as int,
                state::acknowledged(
                    old(self)@.subscriptions[i as int].state,
                    outstanding::id_set(ack_ids@),
                ),
            ),
            is_outcome(outcome, old(self)@.subscriptions[i as int].state, ack_ids@),
    {
        let r = self.subscription_manager.acknowledge_at(i, ack_ids);
        assert(self@ =~= with_subscription(
            old(self)@,
            i as int,
            state::acknowledged(
                old(self)@.subscriptions[i as int].state,
                outstanding::id_set(ack_ids@),
            ),
        ));
        r.outcome
    }

    /// Tries to answer a request for messages. Where there are none and the client did not ask for
    /// an answer in any case, it has to be tried again when there is something to pull.
    pub fn pull(&mut self, request: &PullRequest, now: Instant) -> (r: Result<PullStep, Status>)
        ensures
            match target(old(self)@, request.subscription@) {
                Err(e) => r matches Err(s) && s@ == e && final(self)@ == old(self)@,
                Ok(i) => {
                    let st = old(self)@.subscriptions[i].state;
                    let after = after_pull(st, *request, now@);
                    let new = after.outstanding.skip(st.outstanding.len() as int);
                    &&& final(self)@ == with_subscription(old(self)@, i, after)
                    &&& match r {
                        Err(s) => s@ == detached_status() && !st.deleted && st.info.detached,
                        Ok(PullStep::Respond(messages)) => {
                            &&& st.deleted || !st.info.detached
                            &&& new.len() > 0 || request.return_immediately
                            &&& resources::are_received(messages@, new)
                        },
                        Ok(PullStep::Wait) => {
                            &&& st.deleted || !st.info.detached
                            &&& new.len() == 0 && !request.return_immediately
                        },
                    }
                },
            },
    {
        let i = match self.locate(request.subscription.as_str()) {
            Ok(i) => i,
            Err(e) => {
                return Err(e);
            },
        };
        let max_count: u16 = request.max_messages as u16;
        match self.pull_at(i, max_count, 0, now) {
            Err(_) => Err(refuse_detached()),
            Ok(messages) => if messages.len() > 0 || request.return_immediately {
                Ok(PullStep::Respond(messages))
            } else {
                Ok(PullStep::Wait)
            },
        }
    }

    /// Delivers messages of the subscription at the place.
    pub(crate) fn pull_at(&mut self, i: usize, max_count: u16, max_outstanding: u16, now: Instant)
        -> (r: Result<Vec<ReceivedMessage>, PullMessagesError>)
        requires
            i < old(self)@.subscriptions.len(),
        ensures
            ({
                let st = old(self)@.subscriptions[i as int].state;
                let after = state::pulled(st, max_count, max_outstanding, now@);
                &&& final(self)@ == with_subscription(old(self)@, i as int, after)
                &&& match r {
                    Ok(messages) => (st.deleted || !st.info.detached) && resources::are_received(
                        messages@,
                        after.outstanding.skip(st.outstanding.len() as int),
                    ),
                    Err(e) => e == PullMessagesError::Detached && !st.deleted && st.info.detached,
                }
            }),
    {
        let r = self.subscription_manager.pull_at(i, max_count, max_outstanding, now);
        assert(self@ =~= with_subscription(
            old(self)@,
            i as int,
            state::pulled(
                old(self)@.subscriptions[i as int].state,
                max_count,
                max_outstanding,
                now@,
            ),
        ));
        match r {
            Ok(batch) => Ok(resources::map_to_received_messages(&batch.messages)),
            Err(e) => Err(e),
        }
    }

    /// Sets where a subscription pushes to. No config, or one without an endpoint, makes it one
    /// that is pulled from.
    pub fn modify_push_config(&mut self, request: &ModifyPushConfigRequest) -> (r: Result<
        (),
        Status,
    >)
        ensures
            match r {
                Ok(_) => push_asked(old(self)@, *request) matches Ok((i, config)) && is_repushed(
                    old(self)@,
                    final(self)@,
                    i,
                    config,
                ),
                Err(e) => push_asked(old(self)@, *request) == Err::<
                    (int, Option<PushConfigView>),
                    StatusView,
                >(e@) && final(self)@ == old(self)@,
            },
    {
        let push_config = match &request.push_config {
            None => None,
            Some(c) => if text::chars_of(text::trim(c.push_endpoint.as_str()).as_str()).len() == 0 {
                None
            } else {
                match parser::parse_push_config(c) {
                    Ok(c) => Some(c),
                    Err(e) => {
                        return Err(e);
                    },
                }
            },
        };
        let i = match self.locate(request.subscription.as_str()) {
            Ok(i) => i,
            Err(e) => {
                return Err(e);
            },
        };
        let ghost before = self@;
        self.subscription_manager.modify_push_config_at(i, push_config);
        proof {
            let e = before.subscriptions[i as int];
            assert(self@ =~= ServiceState {
                subscriptions: before.subscriptions.update(
                    i as int,
                    subscription_manager::with_state(
                        e,
                        state::repushed(e.state, push_config),
                    ),
                ),
                pushes: subscription_manager::pushes_changed(before.pushes, e, push_config),
                ..before
            });
        }
        Ok(())
    }

    /// Detaches a subscription from its topic.
    pub fn detach_subscription(&mut self, subscription: &str) -> (r: Result<(), Status>)
        ensures
            match r {
                Ok(_) => target(old(self)@, subscription@) matches Ok(i) && final(self)@
                    == with_subscription(
                    old(self)@,
                    i,
                    state::detached(old(self)@.subscriptions[i].state),
                ),
                Err(e) => target(old(self)@, subscription@) == Err::<int, StatusView>(e@) && final(
                    self)@ == old(self)@,
            },
    {
        let i = match self.locate(subscription) {
            Ok(i) => i,
            Err(e) => {
                return Err(e);
            },
        };
        self.subscription_manager.detach_at(i);
        assert(self@ =~= with_subscription(
            old(self)@,
            i as int,
            state::detached(old(self)@.subscriptions[i as int].state),
        ));
        Ok(())
    }

    /// Creates a topic.
    pub(crate) fn add_topic(&mut self, info: TopicInfo) -> (r: Result<(), CreateTopicError>)
        ensures
            match r {
                Ok(_) => {
                    &&& topic_manager::topic_place(old(self)@.topics, info.name@) is None
                    &&& old(self)@.next_topic < u32::MAX
                    &&& final(self)@ == (ServiceState {
                        topics: old(self)@.topics.push(
                            topic_manager::new_topic(info, old(self)@.next_topic),
                        ),
                        next_topic: (old(self)@.next_topic + 1) as u32,
                        ..old(self)@
                    })
                },
                Err(CreateTopicError::AlreadyExists) => topic_manager::topic_place(
                    old(self)@.topics,
                    info.name@,
                ) is Some && final(self)@ == old(self)@,
                Err(CreateTopicError::IdsExhausted) => topic_manager::topic_place(
                    old(self)@.topics,
                    info.name@,
                ) is None && old(self)@.next_topic == u32::MAX && final(self)@ == old(self)@,
            },
    {
        self.topic_manager.create_topic(info)
    }

    /// Where the topic of the name stands.
    pub(crate) fn place_of_topic(&self, name: &TopicName) -> (place: Option<usize>)
        ensures
            match place {
                Some(i) => i < self@.topics.len() && topic_manager::topic_place(
                    self@.topics,
                    name@,
                ) == Some(i as int),
                None => topic_manager::topic_place(self@.topics, name@) is None,
            },
    {
        self.topic_manager.find(name)
    }

    /// What the topic at the place is configured to do.
    pub(crate) fn topic_info_at(&self, i: usize) -> (info: &TopicInfo)
        requires
            i < self@.topics.len(),
        ensures
            *info == self@.topics[i as int].info,
    {
        self.topic_manager.at(i).get_info()
    }

    /// Changes what the topic at the place is configured to do.
    pub(crate) fn update_topic_at(&mut self, i: usize, update: TopicUpdate)
        requires
            i < old(self)@.topics.len(),
        ensures
            final(self)@ == (ServiceState {
                topics: old(self)@.topics.update(
                    i as int,
                    TopicState {
                        info: topic::updated_topic(old(self)@.topics[i as int].info, update),
                        ..old(self)@.topics[i as int]
                    },
                ),
                ..old(self)@
            }),
    {
        self.topic_manager.update_at(i, update);
    }

    /// Deletes a topic. Its subscriptions stay, and are attached to none.
    pub(crate) fn remove_topic(&mut self, name: &TopicName) -> (r: Result<(), GetTopicError>)
        ensures
            match r {
                Ok(_) => topic_manager::topic_place(old(self)@.topics, name@) matches Some(i)
                    && final(self)@ == (ServiceState {
                    topics: old(self)@.topics.remove(i),
                    subscriptions: subscription_manager::topic_gone(
                        old(self)@.subscriptions,
                        name@,
                    ),
                    ..old(self)@
                }),
                Err(_) => topic_manager::topic_place(old(self)@.topics, name@) is None && final(
                    self)@ == old(self)@,
            },
    {
        match self.topic_manager.delete_topic(name) {
            Ok(_) => {
                self.subscription_manager.topic_deleted(name);
                Ok(())
            },
            Err(e) => Err(e),
        }
    }

    /// Takes back what is overdue of the subscription at the place, forwards the dead letters that
    /// this makes, and ends the waits that are over.
    pub fn tick_at(&mut self, i: usize, now: Instant, wall: SystemTime)
        requires
            i < old(self)@.subscriptions.len(),
        ensures
            is_ticked(old(self)@, final(self)@, i as int, now, wall),
            final(self)@.subscriptions.len() == old(self)@.subscriptions.len(),
    {
        let ghost before = self@;
        let ghost st = before.subscriptions[i as int].state;
        let to = self.dead_letter_topic_at(i);
        let r = self.subscription_manager.expire_at(i, now);
        let ghost expired = self@;
        assert(expired =~= with_subscription(before, i as int, state::expired(st, now@)));
        let ghost letters = r.dead_letters@;
        self.forward_dead_letters(to, r.dead_letters, wall, now);
        let ghost forwarded = self@;
        proof {
            assert(are_forwarded(
                expired,
                forwarded,
                subscription_manager::dead_letter_topic_of(st.info),
                letters,
                wall,
                now,
            ));
            assert(forwarded.subscriptions.len() == before.subscriptions.len());
        }
        let available = self.subscription_manager.retry_at(i, now);
        proof {
            let st2 = forwarded.subscriptions[i as int].state;
            assert(self@ =~= with_subscription(
                forwarded,
                i as int,
                state::retries_ended(st2, now@),
            ));
            assert(is_expired(before, forwarded, i as int, now, wall));
        }
    }

    /// Does what is due at the time for every subscription in turn.
    pub fn tick(&mut self, now: Instant, wall: SystemTime)
        ensures
            exists|trace: Seq<ServiceState>|
                is_tick(old(self)@, final(self)@, trace, now, wall),
    {
        let mut i: usize = 0;
        let count: usize = self.subscription_manager.len();
        let ghost mut trace: Seq<ServiceState> = seq![self@];
        while i < count
            invariant
                i <= count,
                self@.subscriptions.len() == count,
                count == old(self)@.subscriptions.len(),
                trace.len() == i + 1,
                trace[0] == old(self)@,
                trace[i as int] == self@,
                forall|j: int|
                    0 <= j < i ==> is_ticked(#[trigger] trace[j], trace[j + 1], j, now, wall),
            decreases count - i,
        {
            let ghost before = trace;
            self.tick_at(i, now, wall);
            proof {
                trace = before.push(self@);
                assert forall|j: int| 0 <= j < i + 1 implies is_ticked(
                    #[trigger] trace[j],
                    trace[j + 1],
                    j,
                    now,
                    wall,
                ) by {
                    assert(trace[j] == before[j]);
                    if j < i {
                        assert(trace[j + 1] == before[j + 1]);
                    }
                }
            }
            i += 1;
        }
        assert(is_tick(old(self)@, self@, trace, now, wall));
    }

    /// When something is due next.
    pub fn next_wakeup(&self) -> (next: Option<Instant>)
        ensures
            match next {
                Some(t) => is_due(self@, t@) && forall|other: nat|
                    is_due(self@, other) ==> t@ <= other,
                None => forall|other: nat| !is_due(self@, other),
            },
    {
        let mut next: Option<Instant> = None;
        let mut i: usize = 0;
        while i < self.subscription_manager.len()
            invariant
                i <= self@.subscriptions.len(),
                match next {
                    Some(t) => is_due_before(self@, t@, i as int) && forall|other: nat|
                        is_due_before(self@, other, i as int) ==> t@ <= other,
                    None => forall|other: nat| !is_due_before(self@, other, i as int),
                },
            decreases self@.subscriptions.len() - i,
        {
            let due = self.subscription_manager.at(i).next_wakeup();
            let ghost earlier = next;
            next = match (next, due) {
                (Some(a), Some(b)) => if a.reached_by(b) {
                    Some(a)
                } else {
                    Some(b)
                },
                (Some(a), None) => Some(a),
                (None, b) => b,
            };
            proof {
                let st = self@.subscriptions[i as int].state;
                let n: int = i + 1;
                assert forall|t: nat| #[trigger]
                    is_due_before(self@, t, n) implies is_due_before(self@, t, i as int)
                    || state::is_wakeup(st, t) by {
                    let j = choose|j: int|
                        0 <= j < n && state::is_wakeup((#[trigger] self@.subscriptions[j]).state, t);
                    if j < i {
                        assert(is_due_before(self@, t, i as int));
                    }
                }
                if let Some(t) = next {
                    if earlier == next && earlier is Some {
                        let j = choose|j: int|
                            0 <= j < i && state::is_wakeup(
                                (#[trigger] self@.subscriptions[j]).state,
                                t@,
                            );
                        assert(is_due_before(self@, t@, n));
                    } else {
                        assert(state::is_wakeup(self@.subscriptions[i as int].state, t@));
                        assert(is_due_before(self@, t@, n));
                    }
                }
            }
            i += 1;
        }
        next
    }
}

} // verus!
