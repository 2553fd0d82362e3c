//! What requests change on the server, and what they leave.
use std::sync::Arc;
use vstd::prelude::*;

use crate::api::parser;
use crate::api::proto::{
    AcknowledgeRequest, ModifyAckDeadlineRequest, ModifyPushConfigRequest, PubsubMessage, PullRequest,
};
use crate::api::publisher;
use crate::api::request_laws;
use crate::api::round_trip_laws;
use crate::api::service_laws;
use crate::api::status::{Code, StatusView};
use crate::api::subscriber;
use crate::api::subscriber::ServiceState;
use crate::collections;
use crate::subscriptions::ack::{Delivery, Modification};
use crate::subscriptions::dead_letter_laws;
use crate::subscriptions::delivery_laws;
use crate::subscriptions::effect_laws as subscription_effects;
use crate::subscriptions::info;
use crate::subscriptions::info::{InfoView, PushConfig, PushConfigView};
use crate::subscriptions::outstanding;
use crate::subscriptions::retry_queue::Retry;
use crate::subscriptions::state;
use crate::subscriptions::state::SubscriptionState;
use crate::subscriptions::subscription_manager;
use crate::subscriptions::subscription_name;
use crate::subscriptions::timing_laws;
use crate::time::{Instant, SystemTime};
use crate::topics::stats::TopicStats;
use crate::topics::topic;
use crate::topics::topic::TopicState;
use crate::topics::topic_manager;
use crate::topics::topic_message::TopicMessage;
use crate::topics::topic_name;
use crate::topics::topic_name::TopicNameView;

verus! {

/// Whether the letters were published to the topic at the place: it counts as many more messages, each
/// subscription that is attached to it got them, and nothing else changed.
pub open spec fn are_published_to(
    before: ServiceState,
    after: ServiceState,
    t: int,
    letters: Seq<TopicMessage>,
    published: Seq<Arc<TopicMessage>>,
) -> bool {
    &&& published.len() == letters.len()
    &&& after.topics.len() == before.topics.len()
    &&& after.topics[t].next_message_id == before.topics[t].next_message_id + letters.len()
    &&& after.topics[t].info == before.topics[t].info
    &&& after.topics[t].subscriptions == before.topics[t].subscriptions
    &&& after.pushes == before.pushes
    &&& forall|j: int|
        0 <= j < before.topics.len() && j != t ==> #[trigger] after.topics[j] == before.topics[j]
    &&& after.subscriptions.len() == before.subscriptions.len()
    &&& forall|i: int|
        0 <= i < before.subscriptions.len() ==> #[trigger] after.subscriptions[i] == if
        service_laws::is_attached_to(before.subscriptions[i], before.topics[t].info.name@) {
            subscription_manager::with_state(
                before.subscriptions[i],
                state::posted(before.subscriptions[i].state, published),
            )
        } else {
            before.subscriptions[i]
        }
    &&& forall|j: int|
        0 <= j < letters.len() ==> (#[trigger] published[j]).data == letters[j].data
            && published[j].attributes == letters[j].attributes && published[j].ordering_key
            == letters[j].ordering_key
}

/// Publishing does what [`are_published_to`] says.
proof fn lemma_published_to(
    before: ServiceState,
    after: ServiceState,
    t: int,
    letters: Seq<TopicMessage>,
    published: Seq<Arc<TopicMessage>>,
    wall: SystemTime,
    now: Instant,
)
    requires
        service_laws::sound(before),
        0 <= t < before.topics.len(),
        subscriber::is_published(before, after, t, letters, published, wall, now),
    ensures
        are_published_to(before, after, t, letters, published),
{
    assert forall|i: int| 0 <= i < before.subscriptions.len() implies #[trigger]
        after.subscriptions[i] == if service_laws::is_attached_to(
        before.subscriptions[i],
        before.topics[t].info.name@,
    ) {
        subscription_manager::with_state(
            before.subscriptions[i],
            state::posted(before.subscriptions[i].state, published),
        )
    } else {
        before.subscriptions[i]
    } by {
        service_laws::law_publish_reaches_the_attached(before, t, letters, published, i);
    }
    assert forall|j: int| 0 <= j < letters.len() implies (#[trigger] published[j]).data
        == letters[j].data && published[j].attributes == letters[j].attributes
        && published[j].ordering_key == letters[j].ordering_key by {
        assert(topic::is_published(
            *published[j],
            letters[j],
            before.topics[t],
            before.topics[t].next_message_id + j,
            wall,
            now,
        ));
    }
}

/// Dead letters that are forwarded are published to the topic of that name.
proof fn lemma_forwarded(
    before: ServiceState,
    after: ServiceState,
    t: int,
    letters: Seq<TopicMessage>,
    wall: SystemTime,
    now: Instant,
)
    requires
        service_laws::sound(before),
        0 <= t < before.topics.len(),
        before.topics[t].next_message_id + letters.len() <= u32::MAX,
        subscriber::are_forwarded(
            before,
            after,
            Some(before.topics[t].info.name@),
            letters,
            wall,
            now,
        ),
    ensures
        letters.len() == 0 ==> after == before,
        letters.len() > 0 ==> exists|published: Seq<Arc<TopicMessage>>| #[trigger]
            are_published_to(before, after, t, letters, published),
{
    service_laws::lemma_topic_found(before.topics, before.next_topic, t);
    if letters.len() > 0 {
        let published = choose|published: Seq<Arc<TopicMessage>>|
            subscriber::is_published(before, after, t, letters, published, wall, now);
        lemma_published_to(before, after, t, letters, published, wall, now);
    }
}

/// Whether the subscription forwards dead letters to the topic at the place.
pub open spec fn forwards_to(st: ServiceState, i: int, t: int) -> bool {
    &&& 0 <= i < st.subscriptions.len()
    &&& 0 <= t < st.topics.len()
    &&& st.subscriptions[i].state.info.dead_letter_policy matches Some(policy)
        && policy.dead_letter_topic@ == st.topics[t].info.name@
}

/// Messages that a client returns for the last time are published, as dead letters, to the topic that
/// the policy of the subscription names, and to no other.
pub proof fn law_returned_dead_letters_go_to_their_topic(
    before: ServiceState,
    after: ServiceState,
    i: int,
    t: int,
    modifications: Seq<Modification>,
    now: Instant,
    wall: SystemTime,
)
    requires
        service_laws::sound(before),
        forwards_to(before, i, t),
        subscriber::is_modified(before, after, i, modifications, now, wall),
        before.topics[t].next_message_id + subscriber::returned_condemned(
            before.subscriptions[i].state,
            modifications,
            now@,
        ).len() <= u32::MAX,
    ensures
        ({
            let st = before.subscriptions[i].state;
            let condemned = subscriber::returned_condemned(st, modifications, now@);
            let middle = subscriber::with_subscription(
                before,
                i,
                state::modified(st, modifications, now@),
            );
            &&& condemned.len() == 0 ==> after == middle
            &&& condemned.len() > 0 ==> exists|
                letters: Seq<TopicMessage>,
                published: Seq<Arc<TopicMessage>>,
            |
                state::are_dead_letters(letters, st.info, condemned, now@)
                    && #[trigger] are_published_to(middle, after, t, letters, published)
        }),
{
    let st = before.subscriptions[i].state;
    let condemned = subscriber::returned_condemned(st, modifications, now@);
    let s = state::modified(st, modifications, now@);
    let middle = subscriber::with_subscription(before, i, s);
    let letters = choose|letters: Seq<TopicMessage>|
        state::are_dead_letters(letters, st.info, condemned, now@) && subscriber::are_forwarded(
            middle,
            after,
            subscription_manager::dead_letter_topic_of(st.info),
            letters,
            wall,
            now,
        );
    delivery_laws::law_configuration_is_kept(
        st,
        Seq::empty(),
        Set::empty(),
        modifications,
        0,
        0,
        now@,
        0,
    );
    service_laws::lemma_same_state(before, i, s);
    service_laws::law_same_shape_is_sound(before, middle);
    lemma_forwarded(middle, after, t, letters, wall, now);
}

/// Messages whose deadline came for the last time are published, as dead letters, to the topic that
/// the policy of the subscription names, and to no other.
pub proof fn law_overdue_dead_letters_go_to_their_topic(
    before: ServiceState,
    after: ServiceState,
    i: int,
    t: int,
    now: Instant,
    wall: SystemTime,
)
    requires
        service_laws::sound(before),
        forwards_to(before, i, t),
        subscriber::is_expired(before, after, i, now, wall),
        before.topics[t].next_message_id + before.subscriptions[i].state.outstanding.len()
            <= u32::MAX,
    ensures
        ({
            let st = before.subscriptions[i].state;
            let condemned = state::condemned(
                state::overdue_taken(st, now@),
                outstanding::overdue(st.outstanding, now@),
                now@,
            );
            let middle = subscriber::with_subscription(before, i, state::expired(st, now@));
            &&& condemned.len() == 0 ==> after == middle
            &&& condemned.len() > 0 ==> exists|
                letters: Seq<TopicMessage>,
                published: Seq<Arc<TopicMessage>>,
            |
                state::are_dead_letters(letters, st.info, condemned, now@)
                    && #[trigger] are_published_to(middle, after, t, letters, published)
        }),
{
    let st = before.subscriptions[i].state;
    let overdue = outstanding::overdue(st.outstanding, now@);
    let condemned = state::condemned(state::overdue_taken(st, now@), overdue, now@);
    let s = state::expired(st, now@);
    let middle = subscriber::with_subscription(before, i, s);
    let letters = choose|letters: Seq<TopicMessage>|
        state::are_dead_letters(letters, st.info, condemned, now@) && subscriber::are_forwarded(
            middle,
            after,
            subscription_manager::dead_letter_topic_of(st.info),
            letters,
            wall,
            now,
        );
    delivery_laws::law_configuration_is_kept(
        st,
        Seq::empty(),
        Set::empty(),
        Seq::empty(),
        0,
        0,
        now@,
        0,
    );
    if condemned.len() > 0 {
        dead_letter_laws::law_dead_letters_come_from_returns(
            state::overdue_taken(st, now@),
            overdue,
            now@,
            0,
        );
        collections::lemma_selected(
            st.outstanding,
            |d: Delivery| d.deadline <= now@,
            st.outstanding[0],
        );
    }
    service_laws::lemma_same_state(before, i, s);
    service_laws::law_same_shape_is_sound(before, middle);
    lemma_forwarded(middle, after, t, letters, wall, now);
}

/// What a request publishes comes to every subscription that is attached to the topic at that time and
/// to no other, and to no other topic.
pub proof fn law_request_publishes_to_its_topic(
    before: ServiceState,
    after: ServiceState,
    t: int,
    request: Seq<PubsubMessage>,
    ids: Seq<String>,
    wall: SystemTime,
    now: Instant,
)
    requires
        service_laws::sound(before),
        0 <= t < before.topics.len(),
        publisher::is_publication(before, after, t, request, ids, wall, now),
    ensures
        ids.len() == request.len(),
        exists|messages: Seq<TopicMessage>, published: Seq<Arc<TopicMessage>>|
            publisher::are_messages_of(messages, request) && publisher::are_ids_of(ids, published)
                && #[trigger] are_published_to(before, after, t, messages, published),
{
    let (messages, published) = choose|
        messages: Seq<TopicMessage>,
        published: Seq<Arc<TopicMessage>>,
    |
        publisher::are_messages_of(messages, request) && publisher::are_ids_of(ids, published)
            && #[trigger] subscriber::is_published(
            before,
            after,
            t,
            messages,
            published,
            wall,
            now,
        );
    lemma_published_to(before, after, t, messages, published, wall, now);
}

/// Deleting a subscription takes away that one, and leaves every other one what it is, with its
/// messages.
pub proof fn law_delete_leaves_the_other_subscriptions(st: ServiceState, i: int, j: int)
    requires
        service_laws::sound(st),
        0 <= i < st.subscriptions.len(),
        0 <= j < st.subscriptions.len(),
        i != j,
    ensures
        ({
            let after = subscriber::after_deleted(st, i);
            let name = st.subscriptions[j].name();
            &&& after.subscriptions.len() == st.subscriptions.len() - 1
            &&& subscription_manager::subscription_place(
                after.subscriptions,
                st.subscriptions[i].name(),
            ) is None
            &&& subscription_manager::subscription_place(after.subscriptions, name) matches Some(k)
                && after.subscriptions[k] == st.subscriptions[j]
            &&& after.pushes.contains_key(name) == st.pushes.contains_key(name)
            &&& after.topics.len() == st.topics.len()
        }),
{
    let after = subscriber::after_deleted(st, i);
    let name = st.subscriptions[j].name();
    service_laws::law_deleted_subscription_is_sound(st, i);
    service_laws::law_deleted_subscription_does_not_push(st, i, after);
    let k = if j < i {
        j
    } else {
        j - 1
    };
    assert(after.subscriptions[k] == st.subscriptions[j]);
    subscription_manager::lemma_subscription_place(after.subscriptions, name);
    service_laws::lemma_found(after.subscriptions, k);
    if i < j {
        assert(st.subscriptions[i].name() != st.subscriptions[j].name());
    } else {
        assert(st.subscriptions[j].name() != st.subscriptions[i].name());
    }
    if let Some(t) = st.subscriptions[i].topic {
        topic_manager::lemma_topic_place(st.topics, t@);
    }
}

/// Deleting a topic takes away that one, and leaves every other one what it is. Every subscription
/// keeps its configuration and its messages; one that was attached to the topic is attached to none,
/// and any other one to what it was.
pub proof fn law_delete_leaves_the_other_topics(st: ServiceState, t: int, j: int, i: int)
    requires
        service_laws::sound(st),
        0 <= t < st.topics.len(),
        0 <= j < st.topics.len(),
        t != j,
        0 <= i < st.subscriptions.len(),
    ensures
        ({
            let after = service_laws::without_topic(st, t);
            let name = st.topics[j].info.name@;
            &&& topic_manager::topic_place(after.topics, st.topics[t].info.name@) is None
            &&& topic_manager::topic_place(after.topics, name) matches Some(k) && after.topics[k]
                == st.topics[j]
            &&& after.subscriptions.len() == st.subscriptions.len()
            &&& after.subscriptions[i].state == st.subscriptions[i].state
            &&& after.subscriptions[i].number == st.subscriptions[i].number
            &&& service_laws::is_attached_to(st.subscriptions[i], st.topics[t].info.name@)
                ==> after.subscriptions[i].topic is None
            &&& !service_laws::is_attached_to(st.subscriptions[i], st.topics[t].info.name@)
                ==> after.subscriptions[i] == st.subscriptions[i]
        }),
{
    let after = service_laws::without_topic(st, t);
    let name = st.topics[j].info.name@;
    service_laws::law_deleted_topic_is_sound(st, t);
    let k = if j < t {
        j
    } else {
        j - 1
    };
    assert(after.topics[k] == st.topics[j]);
    service_laws::lemma_topic_found(after.topics, after.next_topic, k);
}

/// A request for a push config without an endpoint makes the subscription one that is pulled from, and
/// one with an endpoint gives it that config.
pub proof fn law_push_config_is_set_as_asked(st: ServiceState, request: ModifyPushConfigRequest)
    requires
        subscriber::target(st, request.subscription@) is Ok,
    ensures
        (request.push_config is None) ==> (subscriber::push_asked(st, request) matches Ok((_, c)) && c
            is None),
        (request.push_config matches Some(p) && request_laws::is_blank(p.push_endpoint@)) ==> (
        subscriber::push_asked(st, request) matches Ok((_, c)) && c is None),
        (request.push_config matches Some(p) && p.push_endpoint@.len() > 0
            && request_laws::is_visible(p.push_endpoint@[0]) && request_laws::is_visible(
            p.push_endpoint@.last(),
        )) ==> (subscriber::push_asked(st, request) matches Ok((_, c)) ==> c matches Some(c)
            && c.endpoint == request.push_config->0.push_endpoint@),
{
    if let Some(p) = request.push_config {
        let e = p.push_endpoint@;
        let none = Seq::<char>::empty();
        if request_laws::is_blank(e) {
            request_laws::law_trimming_takes_what_is_around(e, none, none);
            assert(e + none + none =~= e);
        }
        if e.len() > 0 && request_laws::is_visible(e[0]) && request_laws::is_visible(e.last()) {
            request_laws::law_trimming_takes_what_is_around(none, e, none);
            assert(none + e + none =~= e);
        }
    }
}

/// Two requests find the same subscription or topic exactly where they give the same name, and what is
/// not there is not found.
pub proof fn law_names_tell_subscriptions_apart(st: ServiceState, a: Seq<char>, b: Seq<char>)
    requires
        service_laws::sound(st),
    ensures
        subscriber::target(st, a) is Ok && subscriber::target(st, a) == subscriber::target(st, b)
            ==> a == b,
        publisher::topic_target(st, a) is Ok && publisher::topic_target(st, a)
            == publisher::topic_target(st, b) ==> a == b,
        subscriber::target(st, a) matches Ok(i) ==> 0 <= i < st.subscriptions.len() && a
            == subscription_name::subscription_name_text(st.subscriptions[i].name()),
        publisher::topic_target(st, a) matches Ok(i) ==> 0 <= i < st.topics.len() && a
            == topic_name::topic_name_text(st.topics[i].info.name@),
{
    round_trip_laws::law_read_name_writes_back(a);
    round_trip_laws::law_read_name_writes_back(b);
    if let Some(n) = subscription_name::subscription_name_read(a) {
        subscription_manager::lemma_subscription_place(st.subscriptions, n);
    }
    if let Some(n) = subscription_name::subscription_name_read(b) {
        subscription_manager::lemma_subscription_place(st.subscriptions, n);
    }
    if let Some(n) = topic_name::topic_name_read(a) {
        topic_manager::lemma_topic_place(st.topics, n);
    }
    if let Some(n) = topic_name::topic_name_read(b) {
        topic_manager::lemma_topic_place(st.topics, n);
    }
}

/// The figures on a topic are those of the topic: how many subscriptions are attached to it, and how
/// many messages and bytes were published to it.
pub proof fn law_topic_figures_tell_what_is_held(s: TopicStats, t: TopicState)
    requires
        topic_manager::topic_stats_of(s, t),
    ensures
        s.topic_name@ == t.info.name@,
        s.subscription_count == t.subscriptions.len(),
        s.published_count == t.published_count,
        s.published_bytes == t.published_bytes,
        s.message_count == 0,
{
}

/// A request for messages is given as many as it asks for, as far as there are: where no ordering key
/// is free and messages are retained for good, it is the number of messages of the backlog, the number
/// asked for or a thousand, whichever is least, whatever is outstanding already.
pub proof fn law_pull_gives_what_is_asked_for(
    st: SubscriptionState,
    request: PullRequest,
    now: nat,
)
    requires
        !st.deleted,
        !st.info.detached,
        st.info.message_retention_duration is None,
        forall|k: Seq<char>| (#[trigger] st.queues[k]).len() == 0 || st.in_flight.contains(k),
        st.next_ack_id + 1_000 <= u64::MAX,
        0 <= request.max_messages <= 65_535,
    ensures
        subscriber::after_pull(st, request, now).outstanding.len() == st.outstanding.len()
            + subscription_effects::least(
            st.backlog.len() as int,
            request.max_messages as int,
            1_000,
        ),
{
    subscription_effects::law_pull_fills_its_room(st, request.max_messages as u16, 0, now);
}

/// A request moves the deadline of each message that it names by the same seconds, from now on, and by
/// ten minutes at most; with no seconds it returns them.
pub proof fn law_request_moves_each_deadline(
    st: ServiceState,
    request: ModifyAckDeadlineRequest,
    now: nat,
    ids: Seq<u64>,
    i: int,
)
    requires
        request_laws::are_texts_of(request.ack_ids@, ids),
        subscriber::target(st, request.subscription@) == Ok::<int, StatusView>(i),
        now + 600_000_000_000 <= u128::MAX,
        ids.len() > 0,
    ensures
        request.ack_deadline_seconds < 0 ==> request_laws::is_refused(
            subscriber::modify_asked(st, request, now),
        ),
        request.ack_deadline_seconds >= 0 ==> {
            &&& subscriber::modify_asked(st, request, now) matches Ok((at, read))
            &&& at == i
            &&& read.len() == ids.len()
            &&& forall|j: int|
                0 <= j < ids.len() ==> (#[trigger] read[j]).ack_id == ids[j]
                    && read[j].new_deadline == if request.ack_deadline_seconds == 0 {
                    None
                } else if request.ack_deadline_seconds <= 600 {
                    Some((now + request.ack_deadline_seconds * 1_000_000_000) as nat)
                } else {
                    Some((now + 600_000_000_000) as nat)
                }
        },
{
    let seconds = Seq::new(request.ack_ids@.len(), |j: int| request.ack_deadline_seconds);
    request_laws::law_deadlines_are_read_in_turn(
        now,
        request.ack_ids@,
        ids,
        seconds,
        ids.len() as int,
    );
    assert(seconds[0] == request.ack_deadline_seconds);
}

/// A request acknowledges the messages whose ack ids it gives, of the subscription that it names, and
/// no others.
pub proof fn law_request_acknowledges_what_it_names(
    st: ServiceState,
    request: AcknowledgeRequest,
    ids: Seq<u64>,
    i: int,
    d: Delivery,
)
    requires
        request_laws::are_texts_of(request.ack_ids@, ids),
        subscriber::target(st, request.subscription@) == Ok::<int, StatusView>(i),
        !st.subscriptions[i].state.deleted,
    ensures
        subscriber::acknowledge_asked(st, request) matches Ok((at, read)) && at == i && {
            let before = st.subscriptions[i].state;
            let after = state::acknowledged(before, outstanding::id_set(read));
            after.outstanding.contains(d) <==> before.outstanding.contains(d) && !ids.contains(
                d.ack_id,
            )
        },
{
    request_laws::law_ack_ids_are_read_in_turn(request.ack_ids@, ids);
    let read = parser::ack_ids_read(request.ack_ids@)->Ok_0;
    let before = st.subscriptions[i].state;
    let named = outstanding::id_set(read);
    subscription_effects::lemma_acknowledged_fields(before, named);
    collections::lemma_selected(before.outstanding, |x: Delivery| !named.contains(x.ack_id), d);
    if ids.contains(d.ack_id) {
        let j = choose|j: int| 0 <= j < ids.len() && ids[j] == d.ack_id;
        assert(read[j].value == d.ack_id);
    }
    if named.contains(d.ack_id) {
        let j = choose|j: int| 0 <= j < read.len() && #[trigger] read[j].value == d.ack_id;
        assert(ids[j] == d.ack_id);
    }
}

/// Whether nothing of the subscription at the place is due.
pub open spec fn nothing_due(st: ServiceState, i: int, now: nat) -> bool {
    let s = st.subscriptions[i].state;
    &&& forall|j: int| 0 <= j < s.outstanding.len() ==> now < (#[trigger] s.outstanding[j]).deadline
    &&& forall|j: int| 0 <= j < s.retries.len() ==> now < (#[trigger] s.retries[j]).deliver_at
}

/// Dead letters that are forwarded leave what is outstanding and what waits.
proof fn lemma_forward_leaves(
    before: ServiceState,
    after: ServiceState,
    to: Option<TopicNameView>,
    letters: Seq<TopicMessage>,
    wall: SystemTime,
    now: Instant,
    i: int,
)
    requires
        subscriber::are_forwarded(before, after, to, letters, wall, now),
        0 <= i < before.subscriptions.len(),
    ensures
        after.subscriptions.len() == before.subscriptions.len(),
        after.subscriptions[i].state.outstanding == before.subscriptions[i].state.outstanding,
        after.subscriptions[i].state.retries == before.subscriptions[i].state.retries,
{
    if letters.len() > 0 && to is Some {
        if let Some(t) = topic_manager::topic_place(before.topics, to->0) {
            if !subscriber::ids_exhausted(before, t, letters.len()) {
                let published = choose|published: Seq<Arc<TopicMessage>>|
                    subscriber::is_published(before, after, t, letters, published, wall, now);
                subscription_effects::lemma_enqueue_leaves(
                    before.subscriptions[i].state,
                    published,
                );
            }
        }
    }
}

/// What is due of one subscription is done, and the others keep what is outstanding and what waits.
proof fn lemma_ticked(
    before: ServiceState,
    after: ServiceState,
    k: int,
    now: Instant,
    wall: SystemTime,
    i: int,
)
    requires
        subscriber::is_ticked(before, after, k, now, wall),
        0 <= k < before.subscriptions.len(),
        0 <= i < before.subscriptions.len(),
    ensures
        after.subscriptions.len() == before.subscriptions.len(),
        i == k ==> nothing_due(after, i, now@),
        i != k ==> after.subscriptions[i].state.outstanding
            == before.subscriptions[i].state.outstanding && after.subscriptions[i].state.retries
            == before.subscriptions[i].state.retries,
{
    let middle = choose|middle: ServiceState|
        #[trigger] subscriber::is_expired(before, middle, k, now, wall) && after
            == subscriber::with_subscription(
            middle,
            k,
            state::retries_ended(middle.subscriptions[k].state, now@),
        );
    let st = before.subscriptions[k].state;
    let expired = subscriber::with_subscription(before, k, state::expired(st, now@));
    let letters = choose|letters: Seq<TopicMessage>|
        state::are_dead_letters(
            letters,
            st.info,
            state::condemned(
                state::overdue_taken(st, now@),
                outstanding::overdue(st.outstanding, now@),
                now@,
            ),
            now@,
        ) && subscriber::are_forwarded(
            expired,
            middle,
            subscription_manager::dead_letter_topic_of(st.info),
            letters,
            wall,
            now,
        );
    let to = subscription_manager::dead_letter_topic_of(st.info);
    lemma_forward_leaves(expired, middle, to, letters, wall, now, i);
    lemma_forward_leaves(expired, middle, to, letters, wall, now, k);
    if i == k {
        let s = after.subscriptions[k].state;
        let m = middle.subscriptions[k].state;
        assert forall|j: int| 0 <= j < s.outstanding.len() implies now@ < (
        #[trigger] s.outstanding[j]).deadline by {
            let d = s.outstanding[j];
            timing_laws::law_retry_waits_until_its_time(
                m,
                now@,
                Retry { message: d.message, deliver_at: 0 },
            );
            timing_laws::law_delivery_is_outstanding_until_its_deadline(st, now@, d);
            assert(s.outstanding.contains(d));
        }
        assert forall|j: int| 0 <= j < s.retries.len() implies now@ < (
        #[trigger] s.retries[j]).deliver_at by {
            let r = s.retries[j];
            timing_laws::law_retry_waits_until_its_time(m, now@, r);
            assert(s.retries.contains(r));
        }
    }
}

/// Once what was due was done, nothing is due any more at that time, of any subscription.
pub proof fn law_tick_leaves_nothing_due(
    before: ServiceState,
    after: ServiceState,
    trace: Seq<ServiceState>,
    now: Instant,
    wall: SystemTime,
    i: int,
)
    requires
        subscriber::is_tick(before, after, trace, now, wall),
        0 <= i < before.subscriptions.len(),
    ensures
        nothing_due(after, i, now@),
{
    lemma_tick_until(before, after, trace, now, wall, i, before.subscriptions.len() as int);
}

/// Nothing is due any more of the subscriptions that were come to.
proof fn lemma_tick_until(
    before: ServiceState,
    after: ServiceState,
    trace: Seq<ServiceState>,
    now: Instant,
    wall: SystemTime,
    i: int,
    n: int,
)
    requires
        subscriber::is_tick(before, after, trace, now, wall),
        0 <= i < before.subscriptions.len(),
        0 <= n <= before.subscriptions.len(),
    ensures
        trace[n].subscriptions.len() == before.subscriptions.len(),
        i < n ==> nothing_due(trace[n], i, now@),
    decreases n,
{
    if n > 0 {
        lemma_tick_until(before, after, trace, now, wall, i, n - 1);
        assert(subscriber::is_ticked(trace[n - 1], trace[(n - 1) + 1], n - 1, now, wall));
        lemma_ticked(trace[n - 1], trace[n], n - 1, now, wall, i);
    }
}

/// A name that cannot be read is refused as an argument, and one of what is not there as not found.
pub proof fn law_what_is_not_there_is_not_found(st: ServiceState, raw: Seq<char>)
    ensures
        subscriber::target(st, raw) matches Err(e) ==> e.code == if
        subscription_name::subscription_name_read(raw) is None {
            Code::InvalidArgument
        } else {
            Code::NotFound
        },
        publisher::topic_target(st, raw) matches Err(e) ==> e.code == if
        topic_name::topic_name_read(raw) is None {
            Code::InvalidArgument
        } else {
            Code::NotFound
        },
        subscriber::detached_status().code == Code::FailedPrecondition,
        subscriber::conflict().code == Code::FailedPrecondition,
{
}

/// What is outstanding after new deadlines is what they leave, whatever dead letters are forwarded.
pub proof fn lemma_modified_outstanding(
    before: ServiceState,
    after: ServiceState,
    i: int,
    modifications: Seq<Modification>,
    now: Instant,
    wall: SystemTime,
)
    requires
        0 <= i < before.subscriptions.len(),
        !before.subscriptions[i].state.deleted,
        subscriber::is_modified(before, after, i, modifications, now, wall),
    ensures
        after.subscriptions[i].state.outstanding == outstanding::modified(
            before.subscriptions[i].state.outstanding,
            modifications,
        ).0,
        after.subscriptions[i].state.outstanding == state::modified(
            before.subscriptions[i].state,
            modifications,
            now@,
        ).outstanding,
{
    let st = before.subscriptions[i].state;
    let s = state::modified(st, modifications, now@);
    let middle = subscriber::with_subscription(before, i, s);
    let to = subscription_manager::dead_letter_topic_of(st.info);
    let letters = choose|letters: Seq<TopicMessage>|
        state::are_dead_letters(
            letters,
            st.info,
            subscriber::returned_condemned(st, modifications, now@),
            now@,
        ) && subscriber::are_forwarded(middle, after, to, letters, wall, now);
    lemma_forward_leaves(middle, after, to, letters, wall, now, i);
    timing_laws::lemma_requeue_keeps_outstanding(
        state::deadlines_moved(st, modifications),
        outstanding::modified(st.outstanding, modifications).1,
        now@,
    );
}

/// Another push config becomes that of the subscription, which pushes with it, or does not push any
/// more where there is none. Its messages stay, and every other subscription and its pushes stay what
/// they are.
pub proof fn law_push_config_is_that_of_the_subscription(
    before: ServiceState,
    after: ServiceState,
    i: int,
    asked: Option<PushConfigView>,
    j: int,
)
    requires
        service_laws::sound(before),
        0 <= i < before.subscriptions.len(),
        0 <= j < before.subscriptions.len(),
        i != j,
        subscriber::is_repushed(before, after, i, asked),
    ensures
        ({
            let name = before.subscriptions[i].name();
            let other = before.subscriptions[j].name();
            let st = before.subscriptions[i].state;
            let now = after.subscriptions[i].state;
            &&& now.info@ == (InfoView { push_config: asked, ..st.info@ })
            &&& now.backlog == st.backlog
            &&& now.outstanding == st.outstanding
            &&& after.pushes.contains_key(name) <==> asked is Some
            &&& asked matches Some(c) ==> after.pushes[name] == c
            &&& after.subscriptions[j] == before.subscriptions[j]
            &&& after.pushes.contains_key(other) == before.pushes.contains_key(other)
            &&& after.pushes.contains_key(other) ==> after.pushes[other] == before.pushes[other]
            &&& after.topics == before.topics
        }),
{
    let e = before.subscriptions[i];
    let config = choose|config: Option<PushConfig>|
        info::push_view(config) == asked && after == (ServiceState {
            subscriptions: before.subscriptions.update(
                i,
                subscription_manager::with_state(
                    e,
                    #[trigger] state::repushed(e.state, config),
                ),
            ),
            pushes: subscription_manager::pushes_changed(before.pushes, e, config),
            ..before
        });
    assert(!e.state.deleted);
    if i < j {
        assert(before.subscriptions[i].name() != before.subscriptions[j].name());
    } else {
        assert(before.subscriptions[j].name() != before.subscriptions[i].name());
    }
}

} // verus!
