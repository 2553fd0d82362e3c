//! What holds of the server whatever clients do.
use std::sync::Arc;
use vstd::prelude::*;

use crate::api::publisher;
use crate::api::subscriber;
use crate::api::status::StatusView;
use crate::api::subscriber::ServiceState;
use crate::collections;
use crate::subscriptions::ack::Modification;
use crate::subscriptions::delivery_laws;
use crate::subscriptions::info;
use crate::subscriptions::info::{InfoView, PushConfig, SubscriptionUpdate, UpdateView};
use crate::subscriptions::outstanding;
use crate::subscriptions::state;
use crate::subscriptions::state::SubscriptionState;
use crate::subscriptions::subscription_manager;
use crate::subscriptions::subscription_manager::SubscriptionEntry;
use crate::subscriptions::subscription_name;
use crate::subscriptions::subscription_name::SubscriptionNameView;
use crate::time::{Instant, SystemTime};
use crate::topics::topic;
use crate::topics::topic::{TopicInfo, TopicState};
use crate::topics::topic_manager;
use crate::topics::topic_message::TopicMessage;
use crate::topics::topic_name;
use crate::topics::topic_name::TopicNameView;

verus! {

/// Whether no two subscriptions have the same name.
pub open spec fn subscriptions_distinct(entries: Seq<SubscriptionEntry>) -> bool {
    forall|i: int, j: int|
        0 <= i < j < entries.len() ==> (#[trigger] entries[i]).name() != (
        #[trigger] entries[j]).name()
}

/// Whether no subscription that is there was deleted.
pub open spec fn none_deleted(entries: Seq<SubscriptionEntry>) -> bool {
    forall|i: int| 0 <= i < entries.len() ==> !(#[trigger] entries[i]).state.deleted
}

/// Whether the pushes say of a subscription what its configuration says.
pub open spec fn pushes_as_configured(st: ServiceState, e: SubscriptionEntry) -> bool {
    match e.state.info.push_config {
        Some(c) => st.pushes.contains_key(e.name()) && st.pushes[e.name()] == c@,
        None => !st.pushes.contains_key(e.name()),
    }
}

/// Whether the subscriptions that push are those that are configured to, and push where they are
/// configured to.
pub open spec fn pushes_agree(st: ServiceState) -> bool {
    &&& forall|i: int|
        0 <= i < st.subscriptions.len() ==> pushes_as_configured(
            st,
            #[trigger] st.subscriptions[i],
        )
    &&& forall|name: SubscriptionNameView| #[trigger]
        st.pushes.contains_key(name) ==> subscription_manager::subscription_place(
            st.subscriptions,
            name,
        ) is Some
}

/// Whether the topic that the subscription is attached to hands messages to it.
pub open spec fn is_served(topics: Seq<TopicState>, e: SubscriptionEntry) -> bool {
    match e.topic {
        Some(t) => topic_manager::topic_place(topics, t@) matches Some(j)
            && topics[j].subscriptions.contains(e.name()),
        None => true,
    }
}

/// Whether there is a subscription of the name that is attached to the topic.
pub open spec fn is_attached(
    entries: Seq<SubscriptionEntry>,
    name: SubscriptionNameView,
    topic: TopicNameView,
) -> bool {
    subscription_manager::subscription_place(entries, name) matches Some(i)
        && entries[i].topic matches Some(t) && t@ == topic
}

/// Whether topics hand messages to exactly the subscriptions that are attached to them.
pub open spec fn attachments_agree(st: ServiceState) -> bool {
    &&& forall|i: int|
        0 <= i < st.subscriptions.len() ==> is_served(st.topics, #[trigger] st.subscriptions[i])
    &&& forall|j: int, name: SubscriptionNameView|
        0 <= j < st.topics.len() && (#[trigger] st.topics[j].subscriptions.contains(name))
            ==> is_attached(st.subscriptions, name, st.topics[j].info.name@)
}

/// Whether the parts of the server agree.
pub open spec fn sound(st: ServiceState) -> bool {
    &&& topic_manager::topics_distinct(st.topics, st.next_topic)
    &&& subscriptions_distinct(st.subscriptions)
    &&& none_deleted(st.subscriptions)
    &&& pushes_agree(st)
    &&& attachments_agree(st)
}

/// A subscription of distinct ones is found by its name.
pub proof fn lemma_found(entries: Seq<SubscriptionEntry>, i: int)
    requires
        subscriptions_distinct(entries),
        0 <= i < entries.len(),
    ensures
        subscription_manager::subscription_place(entries, entries[i].name()) == Some(i),
{
    subscription_manager::lemma_subscription_place(entries, entries[i].name());
    let place = subscription_manager::subscription_place(entries, entries[i].name());
    if let Some(j) = place {
        if j < i {
            assert(entries[j].name() != entries[i].name());
        } else if i < j {
            assert(entries[i].name() != entries[j].name());
        }
    }
}

/// A topic of distinct ones is found by its name.
pub proof fn lemma_topic_found(topics: Seq<TopicState>, next: u32, i: int)
    requires
        topic_manager::topics_distinct(topics, next),
        0 <= i < topics.len(),
    ensures
        topic_manager::topic_place(topics, topics[i].info.name@) == Some(i),
{
    topic_manager::lemma_topic_place(topics, topics[i].info.name@);
    if let Some(j) = topic_manager::topic_place(topics, topics[i].info.name@) {
        if j < i {
            assert(topics[j].info.name@ != topics[i].info.name@);
        } else if i < j {
            assert(topics[i].info.name@ != topics[j].info.name@);
        }
    }
}

/// Where the names are the same the places are.
proof fn lemma_same_names(
    a: Seq<SubscriptionEntry>,
    b: Seq<SubscriptionEntry>,
    name: SubscriptionNameView,
)
    requires
        a.len() == b.len(),
        forall|i: int| 0 <= i < a.len() ==> (#[trigger] a[i]).name() == b[i].name(),
    ensures
        subscription_manager::subscription_place(a, name)
            == subscription_manager::subscription_place(b, name),
{
    subscription_manager::lemma_subscription_place(a, name);
    subscription_manager::lemma_subscription_place(b, name);
    match (
        subscription_manager::subscription_place(a, name),
        subscription_manager::subscription_place(b, name),
    ) {
        (Some(i), Some(j)) => {
            assert(a[i].name() == b[i].name());
            assert(a[j].name() == b[j].name());
        },
        (Some(i), None) => {
            assert(a[i].name() == b[i].name());
        },
        (None, Some(j)) => {
            assert(a[j].name() == b[j].name());
        },
        (None, None) => {},
    }
}

/// Where the names of topics are the same their places are.
proof fn lemma_same_topic_names(a: Seq<TopicState>, b: Seq<TopicState>, name: TopicNameView)
    requires
        a.len() == b.len(),
        forall|i: int| 0 <= i < a.len() ==> (#[trigger] a[i]).info.name@ == b[i].info.name@,
    ensures
        topic_manager::topic_place(a, name) == topic_manager::topic_place(b, name),
{
    topic_manager::lemma_topic_place(a, name);
    topic_manager::lemma_topic_place(b, name);
    match (topic_manager::topic_place(a, name), topic_manager::topic_place(b, name)) {
        (Some(i), Some(j)) => {
            assert(a[i].info.name@ == b[i].info.name@);
            assert(a[j].info.name@ == b[j].info.name@);
        },
        (Some(i), None) => {
            assert(a[i].info.name@ == b[i].info.name@);
        },
        (None, Some(j)) => {
            assert(a[j].info.name@ == b[j].info.name@);
        },
        (None, None) => {},
    }
}

/// Whether the two servers have the same topics and subscriptions, attached and configured to push
/// in the same way.
pub open spec fn same_shape(a: ServiceState, b: ServiceState) -> bool {
    &&& a.next_topic == b.next_topic
    &&& a.pushes == b.pushes
    &&& a.topics.len() == b.topics.len()
    &&& forall|j: int|
        0 <= j < a.topics.len() ==> (#[trigger] a.topics[j]).info.name@ == b.topics[j].info.name@
            && a.topics[j].internal_id == b.topics[j].internal_id && a.topics[j].subscriptions
            == b.topics[j].subscriptions
    &&& a.subscriptions.len() == b.subscriptions.len()
    &&& forall|i: int|
        0 <= i < a.subscriptions.len() ==> same_entry(
            #[trigger] a.subscriptions[i],
            b.subscriptions[i],
        )
}

/// Whether the subscription is the same one, attached and configured to push in the same way, and
/// deleted or not.
pub open spec fn same_entry(a: SubscriptionEntry, b: SubscriptionEntry) -> bool {
    &&& a.name() == b.name()
    &&& a.topic == b.topic
    &&& a.number == b.number
    &&& a.state.info.push_config == b.state.info.push_config
    &&& a.state.deleted == b.state.deleted
}

/// What leaves the topics and subscriptions what they are leaves the server sound.
pub proof fn law_same_shape_is_sound(a: ServiceState, b: ServiceState)
    requires
        sound(a),
        same_shape(a, b),
    ensures
        sound(b),
{
    assert forall|i: int, j: int| 0 <= i < j < b.topics.len() implies (
    #[trigger] b.topics[i]).info.name@ != (#[trigger] b.topics[j]).info.name@
        && b.topics[i].internal_id != b.topics[j].internal_id by {
        assert(a.topics[i].info.name@ != a.topics[j].info.name@);
    }
    assert forall|i: int| 0 <= i < b.topics.len() implies (#[trigger] b.topics[i]).internal_id
        < b.next_topic by {
        assert(a.topics[i].internal_id < a.next_topic);
    }
    assert forall|i: int, j: int| 0 <= i < j < b.subscriptions.len() implies (
    #[trigger] b.subscriptions[i]).name() != (#[trigger] b.subscriptions[j]).name() by {
        assert(same_entry(a.subscriptions[i], b.subscriptions[i]));
        assert(same_entry(a.subscriptions[j], b.subscriptions[j]));
    }
    assert forall|i: int| 0 <= i < b.subscriptions.len() implies pushes_as_configured(
        b,
        #[trigger] b.subscriptions[i],
    ) && is_served(b.topics, b.subscriptions[i]) && !b.subscriptions[i].state.deleted by {
        assert(same_entry(a.subscriptions[i], b.subscriptions[i]));
        assert(pushes_as_configured(a, a.subscriptions[i]));
        assert(is_served(a.topics, a.subscriptions[i]));
        if a.subscriptions[i].topic is Some {
            let name = a.subscriptions[i].topic->0@;
            lemma_same_topic_names(a.topics, b.topics, name);
            topic_manager::lemma_topic_place(a.topics, name);
        }
    }
    assert forall|name: SubscriptionNameView| #[trigger] b.pushes.contains_key(name) implies
        subscription_manager::subscription_place(b.subscriptions, name) is Some by {
        assert(a.pushes.contains_key(name));
        lemma_entries_same_names(a, b, name);
    }
    assert forall|j: int, name: SubscriptionNameView|
        0 <= j < b.topics.len() && (
        #[trigger] b.topics[j].subscriptions.contains(name)) implies is_attached(
        b.subscriptions,
        name,
        b.topics[j].info.name@,
    ) by {
        assert(a.topics[j].subscriptions == b.topics[j].subscriptions);
        assert(a.topics[j].subscriptions.contains(name));
        assert(is_attached(a.subscriptions, name, a.topics[j].info.name@));
        lemma_entries_same_names(a, b, name);
        subscription_manager::lemma_subscription_place(a.subscriptions, name);
        let i = subscription_manager::subscription_place(a.subscriptions, name)->0;
        assert(same_entry(a.subscriptions[i], b.subscriptions[i]));
    }
}

/// Where the servers have the same shape a subscription stands at the same place.
proof fn lemma_entries_same_names(a: ServiceState, b: ServiceState, name: SubscriptionNameView)
    requires
        same_shape(a, b),
    ensures
        subscription_manager::subscription_place(a.subscriptions, name)
            == subscription_manager::subscription_place(b.subscriptions, name),
{
    assert forall|i: int| 0 <= i < a.subscriptions.len() implies (
    #[trigger] a.subscriptions[i]).name() == b.subscriptions[i].name() by {
        assert(same_entry(a.subscriptions[i], b.subscriptions[i]));
    }
    lemma_same_names(a.subscriptions, b.subscriptions, name);
}

/// A server without topics and subscriptions is sound.
pub proof fn law_empty_is_sound(st: ServiceState)
    requires
        st.topics.len() == 0,
        st.subscriptions.len() == 0,
        st.pushes.is_empty(),
    ensures
        sound(st),
{
}

/// Creating a topic leaves the server sound.
pub proof fn law_created_topic_is_sound(before: ServiceState, after: ServiceState, info: TopicInfo)
    requires
        sound(before),
        before.next_topic < u32::MAX,
        topic_manager::topic_place(before.topics, info.name@) is None,
        after == (ServiceState {
            topics: before.topics.push(topic_manager::new_topic(info, before.next_topic)),
            next_topic: (before.next_topic + 1) as u32,
            ..before
        }),
    ensures
        sound(after),
        topic_manager::topic_place(after.topics, info.name@) == Some(before.topics.len() as int),
{
    topic_manager::law_topics_stay_distinct(before.topics, before.next_topic, info);
    lemma_topic_found(after.topics, after.next_topic, before.topics.len() as int);
    assert forall|i: int| 0 <= i < after.subscriptions.len() implies is_served(
        after.topics,
        #[trigger] after.subscriptions[i],
    ) by {
        assert(is_served(before.topics, before.subscriptions[i]));
        if after.subscriptions[i].topic is Some {
            let name = after.subscriptions[i].topic->0@;
            topic_manager::lemma_topic_place(before.topics, name);
            let j = topic_manager::topic_place(before.topics, name)->0;
            assert(after.topics[j] == before.topics[j]);
            lemma_topic_found(after.topics, after.next_topic, j);
        }
    }
    assert forall|j: int, name: SubscriptionNameView|
        0 <= j < after.topics.len() && (
        #[trigger] after.topics[j].subscriptions.contains(name)) implies is_attached(
        after.subscriptions,
        name,
        after.topics[j].info.name@,
    ) by {
        if j < before.topics.len() {
            assert(after.topics[j] == before.topics[j]);
            assert(before.topics[j].subscriptions.contains(name));
        }
    }
    assert forall|i: int| 0 <= i < after.subscriptions.len() implies pushes_as_configured(
        after,
        #[trigger] after.subscriptions[i],
    ) by {
        assert(pushes_as_configured(before, before.subscriptions[i]));
    }
    assert forall|name: SubscriptionNameView| #[trigger] after.pushes.contains_key(name) implies
        subscription_manager::subscription_place(after.subscriptions, name) is Some by {
        assert(before.pushes.contains_key(name));
    }
}

/// Creating a subscription leaves the server sound, and the subscription is found by its name.
pub proof fn law_created_subscription_is_sound(
    before: ServiceState,
    after: ServiceState,
    topic: TopicNameView,
    info: InfoView,
)
    requires
        sound(before),
        subscription_manager::subscription_place(before.subscriptions, info.name) is None,
        subscriber::is_created(before, after, topic, info),
    ensures
        sound(after),
        subscription_manager::subscription_place(after.subscriptions, info.name) == Some(
            before.subscriptions.len() as int,
        ),
{
    let n: int = before.subscriptions.len() as int;
    let entry = after.subscriptions.last();
    let at = topic_manager::topic_place(before.topics, topic)->0;
    subscription_manager::lemma_subscription_place(before.subscriptions, info.name);
    topic_manager::lemma_topic_place(before.topics, topic);
    assert(!before.topics[at].subscriptions.contains(info.name)) by {
        if before.topics[at].subscriptions.contains(info.name) {
            assert(is_attached(before.subscriptions, info.name, before.topics[at].info.name@));
        }
    }
    assert(!before.pushes.contains_key(info.name));
    assert forall|i: int| 0 <= i < n implies #[trigger] after.subscriptions[i]
        == before.subscriptions[i] by {
        assert(after.subscriptions.drop_last()[i] == before.subscriptions[i]);
    }
    assert(subscriptions_distinct(after.subscriptions));
    lemma_found(after.subscriptions, n);
    assert forall|j: int| 0 <= j < after.topics.len() implies (
    #[trigger] after.topics[j]).info.name@ == before.topics[j].info.name@
        && after.topics[j].internal_id == before.topics[j].internal_id by {}
    assert(topic_manager::topics_distinct(after.topics, after.next_topic)) by {
        assert forall|i: int, j: int| 0 <= i < j < after.topics.len() implies (
        #[trigger] after.topics[i]).info.name@ != (#[trigger] after.topics[j]).info.name@
            && after.topics[i].internal_id != after.topics[j].internal_id by {
            assert(before.topics[i].info.name@ != before.topics[j].info.name@);
        }
        assert forall|i: int| 0 <= i < after.topics.len() implies (
        #[trigger] after.topics[i]).internal_id < after.next_topic by {
            assert(before.topics[i].internal_id < before.next_topic);
        }
    }
    let names = before.topics[at].subscriptions;
    assert(after.topics[at].subscriptions == names.push(info.name));
    assert(names.push(info.name)[names.len() as int] == info.name);
    assert forall|i: int| 0 <= i < after.subscriptions.len() implies pushes_as_configured(
        after,
        #[trigger] after.subscriptions[i],
    ) && is_served(after.topics, after.subscriptions[i]) by {
        if i < n {
            assert(pushes_as_configured(before, before.subscriptions[i]));
            assert(is_served(before.topics, before.subscriptions[i]));
            assert(before.subscriptions[i].name() != info.name);
            if before.subscriptions[i].topic is Some {
                let name = before.subscriptions[i].topic->0@;
                lemma_same_topic_names(after.topics, before.topics, name);
                topic_manager::lemma_topic_place(before.topics, name);
                let j = topic_manager::topic_place(before.topics, name)->0;
                let held = before.topics[j].subscriptions;
                let k = choose|k: int|
                    0 <= k < held.len() && held[k] == before.subscriptions[i].name();
                assert(after.topics[j].subscriptions[k] == held[k]);
            }
        } else {
            lemma_same_topic_names(after.topics, before.topics, topic);
        }
    }
    assert forall|name: SubscriptionNameView| #[trigger] after.pushes.contains_key(name) implies
        subscription_manager::subscription_place(after.subscriptions, name) is Some by {
        if name != info.name {
            assert(before.pushes.contains_key(name));
            subscription_manager::lemma_subscription_place(before.subscriptions, name);
            let i = subscription_manager::subscription_place(before.subscriptions, name)->0;
            assert(after.subscriptions[i] == before.subscriptions[i]);
            lemma_found(after.subscriptions, i);
        }
    }
    assert forall|j: int, name: SubscriptionNameView|
        0 <= j < after.topics.len() && (
        #[trigger] after.topics[j].subscriptions.contains(name)) implies is_attached(
        after.subscriptions,
        name,
        after.topics[j].info.name@,
    ) by {
        if j == at && name == info.name {
        } else {
            let held = after.topics[j].subscriptions;
            let k = choose|k: int| 0 <= k < held.len() && held[k] == name;
            assert(before.topics[j].subscriptions[k] == name);
            assert(before.topics[j].subscriptions.contains(name));
            assert(is_attached(before.subscriptions, name, before.topics[j].info.name@));
            subscription_manager::lemma_subscription_place(before.subscriptions, name);
            let i = subscription_manager::subscription_place(before.subscriptions, name)->0;
            assert(after.subscriptions[i] == before.subscriptions[i]);
            lemma_found(after.subscriptions, i);
        }
    }
}

/// Where a subscription stands once another one was taken out.
spec fn moved_up(k: int, i: int) -> int {
    if k < i {
        k
    } else {
        k - 1
    }
}

/// Deleting a subscription leaves the server sound, and the subscription is not found any more.
pub proof fn law_deleted_subscription_is_sound(st: ServiceState, i: int)
    requires
        sound(st),
        0 <= i < st.subscriptions.len(),
    ensures
        sound(subscriber::after_deleted(st, i)),
        subscription_manager::subscription_place(
            subscriber::after_deleted(st, i).subscriptions,
            st.subscriptions[i].name(),
        ) is None,
{
    let after = subscriber::after_deleted(st, i);
    let gone = st.subscriptions[i].name();
    assert forall|k: int| 0 <= k < st.subscriptions.len() && k != i implies after.subscriptions[
        moved_up(k, i)
    ] == #[trigger] st.subscriptions[k] && st.subscriptions[k].name() != gone by {
        if k < i {
            assert(st.subscriptions[k].name() != st.subscriptions[i].name());
        } else {
            assert(st.subscriptions[i].name() != st.subscriptions[k].name());
        }
    }
    assert forall|k: int| 0 <= k < after.subscriptions.len() implies (
    #[trigger] after.subscriptions[k]) == st.subscriptions[if k < i {
        k
    } else {
        k + 1
    }] && after.subscriptions[k].name() != gone by {
        let from = if k < i {
            k
        } else {
            k + 1
        };
        assert(st.subscriptions[from].name() != gone);
    }
    assert forall|a: int, b: int| 0 <= a < b < after.subscriptions.len() implies (
    #[trigger] after.subscriptions[a]).name() != (#[trigger] after.subscriptions[b]).name() by {
        let x = if a < i {
            a
        } else {
            a + 1
        };
        let y = if b < i {
            b
        } else {
            b + 1
        };
        assert(st.subscriptions[x].name() != st.subscriptions[y].name());
    }
    subscription_manager::lemma_subscription_place(after.subscriptions, gone);
    assert(is_served(st.topics, st.subscriptions[i]));
    if st.subscriptions[i].topic is Some {
        topic_manager::lemma_topic_place(st.topics, st.subscriptions[i].topic->0@);
    }
    assert(after.topics.len() == st.topics.len());
    assert forall|j: int, name: SubscriptionNameView|
        0 <= j < st.topics.len() implies (#[trigger] after.topics[j].subscriptions.contains(name))
        == (st.topics[j].subscriptions.contains(name) && name != gone) by {
        let held = st.topics[j].subscriptions;
        collections::lemma_selected(held, topic::is_not(gone), name);
        if held.contains(gone) {
            assert(is_attached(st.subscriptions, gone, st.topics[j].info.name@));
            lemma_found(st.subscriptions, i);
            lemma_topic_found(st.topics, st.next_topic, j);
        }
    }
    assert forall|j: int| 0 <= j < after.topics.len() implies (
    #[trigger] after.topics[j]).info.name@ == st.topics[j].info.name@ && after.topics[j].internal_id
        == st.topics[j].internal_id by {}
    assert(topic_manager::topics_distinct(after.topics, after.next_topic)) by {
        assert forall|a: int, b: int| 0 <= a < b < after.topics.len() implies (
        #[trigger] after.topics[a]).info.name@ != (#[trigger] after.topics[b]).info.name@
            && after.topics[a].internal_id != after.topics[b].internal_id by {
            assert(st.topics[a].info.name@ != st.topics[b].info.name@);
        }
        assert forall|a: int| 0 <= a < after.topics.len() implies (
        #[trigger] after.topics[a]).internal_id < after.next_topic by {
            assert(st.topics[a].internal_id < st.next_topic);
        }
    }
    assert forall|k: int| 0 <= k < after.subscriptions.len() implies pushes_as_configured(
        after,
        #[trigger] after.subscriptions[k],
    ) && is_served(after.topics, after.subscriptions[k]) by {
        let from = if k < i {
            k
        } else {
            k + 1
        };
        let e = st.subscriptions[from];
        assert(after.subscriptions[k] == e);
        assert(pushes_as_configured(st, e));
        assert(is_served(st.topics, e));
        if e.topic is Some {
            let name = e.topic->0@;
            lemma_same_topic_names(after.topics, st.topics, name);
            topic_manager::lemma_topic_place(st.topics, name);
            let j = topic_manager::topic_place(st.topics, name)->0;
            assert(after.topics[j].subscriptions.contains(e.name()));
        }
    }
    assert forall|name: SubscriptionNameView| #[trigger] after.pushes.contains_key(name) implies
        subscription_manager::subscription_place(after.subscriptions, name) is Some by {
        assert(st.pushes.contains_key(name));
        subscription_manager::lemma_subscription_place(st.subscriptions, name);
        let k = subscription_manager::subscription_place(st.subscriptions, name)->0;
        assert(st.subscriptions[k].name() == name);
        assert(after.subscriptions[moved_up(k, i)] == st.subscriptions[k]);
        lemma_found(after.subscriptions, moved_up(k, i));
    }
    assert forall|j: int, name: SubscriptionNameView|
        0 <= j < after.topics.len() && (
        #[trigger] after.topics[j].subscriptions.contains(name)) implies is_attached(
        after.subscriptions,
        name,
        after.topics[j].info.name@,
    ) by {
        assert(st.topics[j].subscriptions.contains(name));
        assert(is_attached(st.subscriptions, name, st.topics[j].info.name@));
        subscription_manager::lemma_subscription_place(st.subscriptions, name);
        let k = subscription_manager::subscription_place(st.subscriptions, name)->0;
        assert(st.subscriptions[k].name() == name);
        assert(after.subscriptions[moved_up(k, i)] == st.subscriptions[k]);
        lemma_found(after.subscriptions, moved_up(k, i));
    }
}

/// Whether the subscription is attached to the topic.
pub open spec fn is_attached_to(e: SubscriptionEntry, topic: TopicNameView) -> bool {
    e.topic is Some && e.topic->0@ == topic
}

/// The server once a topic was deleted.
pub open spec fn without_topic(st: ServiceState, i: int) -> ServiceState {
    ServiceState {
        topics: st.topics.remove(i),
        subscriptions: subscription_manager::topic_gone(
            st.subscriptions,
            st.topics[i].info.name@,
        ),
        ..st
    }
}

/// Deleting a topic leaves the server sound. The topic is not found any more, and no subscription
/// is attached to it.
pub proof fn law_deleted_topic_is_sound(st: ServiceState, i: int)
    requires
        sound(st),
        0 <= i < st.topics.len(),
    ensures
        sound(without_topic(st, i)),
        topic_manager::topic_place(without_topic(st, i).topics, st.topics[i].info.name@) is None,
        forall|k: int|
            0 <= k < st.subscriptions.len() ==> !is_attached_to(
                #[trigger] without_topic(st, i).subscriptions[k],
                st.topics[i].info.name@,
            ),
{
    let after = without_topic(st, i);
    let gone = st.topics[i].info.name@;
    assert forall|j: int| 0 <= j < after.topics.len() implies (#[trigger] after.topics[j])
        == st.topics[if j < i {
        j
    } else {
        j + 1
    }] && after.topics[j].info.name@ != gone by {
        if j < i {
            assert(st.topics[j].info.name@ != st.topics[i].info.name@);
        } else {
            assert(st.topics[i].info.name@ != st.topics[j + 1].info.name@);
        }
    }
    assert forall|a: int, b: int| 0 <= a < b < after.topics.len() implies (
    #[trigger] after.topics[a]).info.name@ != (#[trigger] after.topics[b]).info.name@
        && after.topics[a].internal_id != after.topics[b].internal_id by {
        let x = if a < i {
            a
        } else {
            a + 1
        };
        let y = if b < i {
            b
        } else {
            b + 1
        };
        assert(st.topics[x].info.name@ != st.topics[y].info.name@);
    }
    assert forall|a: int| 0 <= a < after.topics.len() implies (
    #[trigger] after.topics[a]).internal_id < after.next_topic by {
        let x = if a < i {
            a
        } else {
            a + 1
        };
        assert(st.topics[x].internal_id < st.next_topic);
    }
    topic_manager::lemma_topic_place(after.topics, gone);
    assert forall|k: int| 0 <= k < st.subscriptions.len() implies (
    #[trigger] after.subscriptions[k]).name() == st.subscriptions[k].name() by {}
    assert forall|a: int, b: int| 0 <= a < b < after.subscriptions.len() implies (
    #[trigger] after.subscriptions[a]).name() != (#[trigger] after.subscriptions[b]).name() by {
        assert(st.subscriptions[a].name() != st.subscriptions[b].name());
    }
    assert forall|k: int| 0 <= k < after.subscriptions.len() implies pushes_as_configured(
        after,
        #[trigger] after.subscriptions[k],
    ) && is_served(after.topics, after.subscriptions[k]) by {
        let e = st.subscriptions[k];
        assert(pushes_as_configured(st, e));
        assert(is_served(st.topics, e));
        if after.subscriptions[k].topic is Some {
            let name = e.topic->0@;
            topic_manager::lemma_topic_place(st.topics, name);
            let j = topic_manager::topic_place(st.topics, name)->0;
            assert(st.topics[j].info.name@ == name);
            assert(after.topics[moved_up(j, i)] == st.topics[j]);
            lemma_topic_found(after.topics, after.next_topic, moved_up(j, i));
        }
    }
    assert forall|name: SubscriptionNameView| #[trigger] after.pushes.contains_key(name) implies
        subscription_manager::subscription_place(after.subscriptions, name) is Some by {
        assert(st.pushes.contains_key(name));
        lemma_same_names(after.subscriptions, st.subscriptions, name);
    }
    assert forall|j: int, name: SubscriptionNameView|
        0 <= j < after.topics.len() && (
        #[trigger] after.topics[j].subscriptions.contains(name)) implies is_attached(
        after.subscriptions,
        name,
        after.topics[j].info.name@,
    ) by {
        let x = if j < i {
            j
        } else {
            j + 1
        };
        assert(after.topics[j] == st.topics[x]);
        assert(st.topics[x].subscriptions.contains(name));
        assert(is_attached(st.subscriptions, name, st.topics[x].info.name@));
        lemma_same_names(after.subscriptions, st.subscriptions, name);
        subscription_manager::lemma_subscription_place(st.subscriptions, name);
        let k = subscription_manager::subscription_place(st.subscriptions, name)->0;
        assert(after.subscriptions[k].name() == name);
    }
}

/// The server once a subscription pushes elsewhere, or is pulled from.
pub open spec fn with_push_config(
    st: ServiceState,
    i: int,
    config: Option<PushConfig>,
) -> ServiceState {
    let e = st.subscriptions[i];
    ServiceState {
        subscriptions: st.subscriptions.update(
            i,
            subscription_manager::with_state(e, state::repushed(e.state, config)),
        ),
        pushes: subscription_manager::pushes_changed(st.pushes, e, config),
        ..st
    }
}

/// Another push config leaves the server sound.
pub proof fn law_push_config_is_sound(st: ServiceState, i: int, config: Option<PushConfig>)
    requires
        sound(st),
        0 <= i < st.subscriptions.len(),
    ensures
        sound(with_push_config(st, i, config)),
{
    let after = with_push_config(st, i, config);
    let name = st.subscriptions[i].name();
    assert forall|k: int| 0 <= k < st.subscriptions.len() implies (
    #[trigger] after.subscriptions[k]).name() == st.subscriptions[k].name()
        && after.subscriptions[k].topic == st.subscriptions[k].topic by {}
    assert forall|a: int, b: int| 0 <= a < b < after.subscriptions.len() implies (
    #[trigger] after.subscriptions[a]).name() != (#[trigger] after.subscriptions[b]).name() by {
        assert(st.subscriptions[a].name() != st.subscriptions[b].name());
    }
    assert forall|k: int| 0 <= k < after.subscriptions.len() implies pushes_as_configured(
        after,
        #[trigger] after.subscriptions[k],
    ) && is_served(after.topics, after.subscriptions[k]) by {
        assert(pushes_as_configured(st, st.subscriptions[k]));
        assert(is_served(st.topics, st.subscriptions[k]));
        if k < i {
            assert(st.subscriptions[k].name() != st.subscriptions[i].name());
        } else if i < k {
            assert(st.subscriptions[i].name() != st.subscriptions[k].name());
        }
    }
    assert forall|n: SubscriptionNameView| #[trigger] after.pushes.contains_key(n) implies
        subscription_manager::subscription_place(after.subscriptions, n) is Some by {
        if n == name {
            lemma_found(after.subscriptions, i);
        } else {
            assert(st.pushes.contains_key(n));
            lemma_same_names(after.subscriptions, st.subscriptions, n);
        }
    }
    assert forall|j: int, n: SubscriptionNameView|
        0 <= j < after.topics.len() && (
        #[trigger] after.topics[j].subscriptions.contains(n)) implies is_attached(
        after.subscriptions,
        n,
        after.topics[j].info.name@,
    ) by {
        assert(st.topics[j].subscriptions.contains(n));
        assert(is_attached(st.subscriptions, n, st.topics[j].info.name@));
        lemma_same_names(after.subscriptions, st.subscriptions, n);
        subscription_manager::lemma_subscription_place(st.subscriptions, n);
        let k = subscription_manager::subscription_place(st.subscriptions, n)->0;
        assert(after.subscriptions[k].topic == st.subscriptions[k].topic);
    }
}

/// The subscription after what happened to its messages is the same one.
pub proof fn lemma_same_state(st: ServiceState, i: int, s: SubscriptionState)
    requires
        0 <= i < st.subscriptions.len(),
        s.info == st.subscriptions[i].state.info,
        s.deleted == st.subscriptions[i].state.deleted,
    ensures
        same_shape(st, subscriber::with_subscription(st, i, s)),
{
    let after = subscriber::with_subscription(st, i, s);
    assert forall|k: int| 0 <= k < st.subscriptions.len() implies same_entry(
        #[trigger] st.subscriptions[k],
        after.subscriptions[k],
    ) by {}
}

/// The same shape as the same shape.
proof fn lemma_shape_twice(a: ServiceState, b: ServiceState, c: ServiceState)
    requires
        same_shape(a, b),
        same_shape(b, c),
    ensures
        same_shape(a, c),
{
    assert forall|j: int| 0 <= j < a.topics.len() implies (#[trigger] a.topics[j]).info.name@
        == c.topics[j].info.name@ && a.topics[j].internal_id == c.topics[j].internal_id
        && a.topics[j].subscriptions == c.topics[j].subscriptions by {
        assert(b.topics[j].info.name@ == c.topics[j].info.name@);
    }
    assert forall|i: int| 0 <= i < a.subscriptions.len() implies same_entry(
        #[trigger] a.subscriptions[i],
        c.subscriptions[i],
    ) by {
        assert(same_entry(b.subscriptions[i], c.subscriptions[i]));
    }
}

/// Publishing leaves the topics and subscriptions what they are.
pub proof fn law_publish_keeps_shape(
    st: ServiceState,
    at: int,
    messages: Seq<TopicMessage>,
    published: Seq<Arc<TopicMessage>>,
)
    requires
        0 <= at < st.topics.len(),
    ensures
        same_shape(st, subscriber::after_published(st, at, messages, published)),
{
    let after = subscriber::after_published(st, at, messages, published);
    assert forall|i: int| 0 <= i < st.subscriptions.len() implies same_entry(
        #[trigger] st.subscriptions[i],
        after.subscriptions[i],
    ) by {
        delivery_laws::law_configuration_is_kept(
            st.subscriptions[i].state,
            published,
            Set::empty(),
            Seq::empty(),
            0,
            0,
            0,
            0,
        );
    }
}

/// What is published to a topic comes to every subscription that is attached to it, and to no
/// other.
pub proof fn law_publish_reaches_the_attached(
    st: ServiceState,
    at: int,
    messages: Seq<TopicMessage>,
    published: Seq<Arc<TopicMessage>>,
    i: int,
)
    requires
        sound(st),
        0 <= at < st.topics.len(),
        0 <= i < st.subscriptions.len(),
    ensures
        ({
            let after = subscriber::after_published(st, at, messages, published);
            let e = st.subscriptions[i];
            after.subscriptions[i] == if is_attached_to(e, st.topics[at].info.name@) {
                subscription_manager::with_state(e, state::posted(e.state, published))
            } else {
                e
            }
        }),
{
    let e = st.subscriptions[i];
    assert(is_served(st.topics, e));
    lemma_topic_found(st.topics, st.next_topic, at);
    lemma_found(st.subscriptions, i);
    if st.topics[at].subscriptions.contains(e.name()) {
        assert(is_attached(st.subscriptions, e.name(), st.topics[at].info.name@));
    }
}

/// Dead letters leave the topics and subscriptions what they are.
pub proof fn law_forward_keeps_shape(
    before: ServiceState,
    after: ServiceState,
    to: Option<TopicNameView>,
    letters: Seq<TopicMessage>,
    at: SystemTime,
    now: Instant,
)
    requires
        subscriber::are_forwarded(before, after, to, letters, at, now),
    ensures
        same_shape(before, after),
{
    if letters.len() > 0 && to is Some {
        topic_manager::lemma_topic_place(before.topics, to->0);
        if let Some(t) = topic_manager::topic_place(before.topics, to->0) {
            if !subscriber::ids_exhausted(before, t, letters.len()) {
                let published = choose|published: Seq<Arc<TopicMessage>>|
                    subscriber::is_published(before, after, t, letters, published, at, now);
                law_publish_keeps_shape(before, t, letters, published);
            }
        }
    }
}

/// New deadlines, and the dead letters that they make, leave the topics and subscriptions what they
/// are.
pub proof fn law_modify_keeps_shape(
    before: ServiceState,
    after: ServiceState,
    i: int,
    modifications: Seq<Modification>,
    now: Instant,
    wall: SystemTime,
)
    requires
        0 <= i < before.subscriptions.len(),
        subscriber::is_modified(before, after, i, modifications, now, wall),
    ensures
        same_shape(before, after),
{
    let st = before.subscriptions[i].state;
    let s = state::modified(st, modifications, now@);
    let middle = subscriber::with_subscription(before, i, s);
    delivery_laws::law_configuration_is_kept(
        st,
        Seq::empty(),
        Set::empty(),
        modifications,
        0,
        0,
        now@,
        0,
    );
    lemma_same_state(before, i, s);
    let letters = choose|letters: Seq<TopicMessage>|
        state::are_dead_letters(
            letters,
            st.info,
            subscriber::returned_condemned(st, modifications, now@),
            now@,
        ) && subscriber::are_forwarded(
            middle,
            after,
            subscription_manager::dead_letter_topic_of(st.info),
            letters,
            wall,
            now,
        );
    law_forward_keeps_shape(
        middle,
        after,
        subscription_manager::dead_letter_topic_of(st.info),
        letters,
        wall,
        now,
    );
    lemma_shape_twice(before, middle, after);
}

/// What is due leaves the topics and subscriptions what they are.
pub proof fn law_tick_keeps_shape(
    before: ServiceState,
    after: ServiceState,
    i: int,
    now: Instant,
    wall: SystemTime,
)
    requires
        0 <= i < before.subscriptions.len(),
        subscriber::is_ticked(before, after, i, now, wall),
    ensures
        same_shape(before, after),
{
    let st = before.subscriptions[i].state;
    let s = state::expired(st, now@);
    let expired = subscriber::with_subscription(before, i, s);
    delivery_laws::law_configuration_is_kept(
        st,
        Seq::empty(),
        Set::empty(),
        Seq::empty(),
        0,
        0,
        now@,
        0,
    );
    lemma_same_state(before, i, s);
    let middle = choose|middle: ServiceState|
        #[trigger] subscriber::is_expired(before, middle, i, now, wall) && after
            == subscriber::with_subscription(
            middle,
            i,
            state::retries_ended(middle.subscriptions[i].state, now@),
        );
    let letters = choose|letters: Seq<TopicMessage>|
        state::are_dead_letters(
            letters,
            st.info,
            state::condemned(
                state::overdue_taken(st, now@),
                outstanding::overdue(st.outstanding, now@),
                now@,
            ),
            now@,
        ) && subscriber::are_forwarded(
            expired,
            middle,
            subscription_manager::dead_letter_topic_of(st.info),
            letters,
            wall,
            now,
        );
    law_forward_keeps_shape(
        expired,
        middle,
        subscription_manager::dead_letter_topic_of(st.info),
        letters,
        wall,
        now,
    );
    lemma_shape_twice(before, expired, middle);
    delivery_laws::law_configuration_is_kept(
        middle.subscriptions[i].state,
        Seq::empty(),
        Set::empty(),
        Seq::empty(),
        0,
        0,
        now@,
        0,
    );
    lemma_same_state(
        middle,
        i,
        state::retries_ended(middle.subscriptions[i].state, now@),
    );
    lemma_shape_twice(before, middle, after);
}

/// Pulls, acknowledgements, updates and detachment leave the topics and subscriptions what they
/// are.
pub proof fn law_requests_keep_shape(
    st: ServiceState,
    i: int,
    ids: Set<u64>,
    update: SubscriptionUpdate,
    max_count: u16,
    max_outstanding: u16,
    now: nat,
)
    requires
        0 <= i < st.subscriptions.len(),
    ensures
        ({
            let s = st.subscriptions[i].state;
            &&& same_shape(
                st,
                subscriber::with_subscription(
                    st,
                    i,
                    state::pulled(s, max_count, max_outstanding, now),
                ),
            )
            &&& same_shape(
                st,
                subscriber::with_subscription(st, i, state::acknowledged(s, ids)),
            )
            &&& same_shape(
                st,
                subscriber::with_subscription(st, i, state::reconfigured(s, update)),
            )
            &&& same_shape(st, subscriber::with_subscription(st, i, state::detached(s)))
        }),
{
    let s = st.subscriptions[i].state;
    delivery_laws::law_configuration_is_kept(
        s,
        Seq::empty(),
        ids,
        Seq::empty(),
        max_count,
        max_outstanding,
        now,
        0,
    );
    lemma_same_state(st, i, state::pulled(s, max_count, max_outstanding, now));
    lemma_same_state(st, i, state::acknowledged(s, ids));
    let updated = subscriber::with_subscription(st, i, state::reconfigured(s, update));
    assert forall|k: int| 0 <= k < st.subscriptions.len() implies same_entry(
        #[trigger] st.subscriptions[k],
        updated.subscriptions[k],
    ) by {}
    let cut = subscriber::with_subscription(st, i, state::detached(s));
    assert forall|k: int| 0 <= k < st.subscriptions.len() implies same_entry(
        #[trigger] st.subscriptions[k],
        cut.subscriptions[k],
    ) by {}
}

/// What leaves the topics and subscriptions what they are leaves every name to name what it named.
pub proof fn law_names_keep_their_meaning(a: ServiceState, b: ServiceState, raw: Seq<char>)
    requires
        same_shape(a, b),
    ensures
        subscriber::target(a, raw) == subscriber::target(b, raw),
        publisher::topic_target(a, raw) == publisher::topic_target(b, raw),
{
    if let Some(name) = subscription_name::subscription_name_read(raw) {
        lemma_entries_same_names(a, b, name);
    }
    if let Some(name) = topic_name::topic_name_read(raw) {
        lemma_same_topic_names(a.topics, b.topics, name);
    }
}

/// A subscription that was created is given when it is asked for, as it was asked for; once it was
/// deleted there is none of that name.
pub proof fn law_created_subscription_is_given(
    before: ServiceState,
    after: ServiceState,
    topic: TopicNameView,
    info: InfoView,
    raw: Seq<char>,
)
    requires
        sound(before),
        subscription_manager::subscription_place(before.subscriptions, info.name) is None,
        subscriber::is_created(before, after, topic, info),
        subscription_name::subscription_name_read(raw) == Some(info.name),
    ensures
        ({
            let i = before.subscriptions.len() as int;
            &&& subscriber::target(after, raw) == Ok::<int, StatusView>(i)
            &&& after.subscriptions[i].state.info@ == info
            &&& is_attached_to(after.subscriptions[i], topic)
            &&& subscriber::target(subscriber::after_deleted(after, i), raw) == Err::<
                int,
                StatusView,
            >(subscriber::subscription_not_found(info.name))
        }),
{
    law_created_subscription_is_sound(before, after, topic, info);
    law_deleted_subscription_is_sound(after, before.subscriptions.len() as int);
}

/// A subscription that was changed is given with the change when it is asked for, and else as it
/// was.
pub proof fn law_update_is_given(
    before: ServiceState,
    after: ServiceState,
    i: int,
    asked: UpdateView,
    raw: Seq<char>,
)
    requires
        sound(before),
        subscriber::target(before, raw) == Ok::<int, StatusView>(i),
        subscriber::is_updated(before, after, i, asked),
    ensures
        subscriber::target(after, raw) == Ok::<int, StatusView>(i),
        after.subscriptions[i].state.info@ == info::updated_view(
            before.subscriptions[i].state.info@,
            asked,
        ),
        after.subscriptions[i].topic == before.subscriptions[i].topic,
{
    let name = subscription_name::subscription_name_read(raw)->0;
    subscription_manager::lemma_subscription_place(before.subscriptions, name);
    let update = choose|update: SubscriptionUpdate|
        update@ == asked && after == subscriber::with_subscription(
            before,
            i,
            #[trigger] state::reconfigured(before.subscriptions[i].state, update),
        );
    law_requests_keep_shape(before, i, Set::empty(), update, 0, 0, 0);
    law_names_keep_their_meaning(before, after, raw);
    info::law_update_says_what_it_sets(before.subscriptions[i].state.info, update);
}

/// A subscription that was deleted does not push, and neither does it later on, as long as the
/// parts of the server agree and there is none of its name: no request but the creation of another
/// one brings its entry back.
pub proof fn law_deleted_subscription_does_not_push(st: ServiceState, i: int, later: ServiceState)
    requires
        sound(st),
        0 <= i < st.subscriptions.len(),
        sound(later),
        subscription_manager::subscription_place(later.subscriptions, st.subscriptions[i].name())
            is None,
    ensures
        ({
            let name = st.subscriptions[i].name();
            let after = subscriber::after_deleted(st, i);
            &&& subscription_manager::subscription_place(after.subscriptions, name) is None
            &&& !after.pushes.contains_key(name)
            &&& !later.pushes.contains_key(name)
        }),
{
    let name = st.subscriptions[i].name();
    let after = subscriber::after_deleted(st, i);
    law_deleted_subscription_is_sound(st, i);
    subscription_manager::lemma_subscription_place(after.subscriptions, name);
    if let Some(k) = subscription_manager::subscription_place(after.subscriptions, name) {
        let from = if k < i {
            k
        } else {
            k + 1
        };
        assert(after.subscriptions[k] == st.subscriptions[from]);
        if from < i {
            assert(st.subscriptions[from].name() != st.subscriptions[i].name());
        } else {
            assert(st.subscriptions[i].name() != st.subscriptions[from].name());
        }
    }
}

} // verus!
