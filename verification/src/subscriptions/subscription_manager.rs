//! The subscriptions there are.
use std::sync::Arc;
use vstd::prelude::*;

use crate::paging;
use crate::paging::Paging;
use crate::push::registry::{PushSubscriptionsRegistry, Pushes};
use crate::subscriptions::ack::{AckId, DeadlineModification};
use crate::subscriptions::info::{PushConfig, SubscriptionInfo, SubscriptionUpdate};
use crate::subscriptions::outstanding;
use crate::subscriptions::state;
use crate::subscriptions::state::SubscriptionState;
use crate::subscriptions::stats::SubscriptionStats;
use crate::subscriptions::subscription_actor::{
    Acknowledged, DeadlinesModified, PullMessagesError, PulledBatch, Returned, SubscriptionActor,
};
use crate::subscriptions::subscription_name::{SubscriptionName, SubscriptionNameView};
use crate::time::{Instant, SystemTime};
use crate::text;
use crate::topics::topic;
use crate::topics::topic::TopicState;
use crate::topics::topic_manager;
use crate::topics::topic_manager::TopicManager;
use crate::topics::topic_message::TopicMessage;
use crate::topics::topic_name::{TopicName, TopicNameView};

verus! {

/// Why a subscription could not be created.
#[derive(Debug, PartialEq, Eq, Structural, Copy, Clone)]
pub enum CreateSubscriptionError {
    /// There is a subscription of that name.
    AlreadyExists,
    /// The subscription is not in the project of its topic.
    MustBeInSameProjectAsTopic,
    /// There is no topic of the name given for dead letters.
    DeadLetterTopicDoesNotExist,
    /// There are no numbers left for subscriptions.
    Closed,
}

/// A subscription with the topic that it is attached to and its number.
#[verifier::ext_equal]
pub struct SubscriptionEntry {
    pub state: SubscriptionState,
    /// The topic; none where that was deleted.
    pub topic: Option<TopicName>,
    pub number: u32,
}

impl SubscriptionEntry {
    /// The name of the subscription.
    pub open spec fn name(self) -> SubscriptionNameView {
        self.state.info.name@
    }
}

/// The entry of a subscription.
pub open spec fn entry_of(a: SubscriptionActor) -> SubscriptionEntry {
    SubscriptionEntry { state: a@, topic: a.attached_to(), number: a.number() }
}

/// The entry with the subscription in another state.
pub open spec fn with_state(e: SubscriptionEntry, state: SubscriptionState) -> SubscriptionEntry {
    SubscriptionEntry { state, ..e }
}

/// The entries of subscriptions.
pub open spec fn entries_of(actors: Seq<SubscriptionActor>) -> Seq<SubscriptionEntry> {
    Seq::new(actors.len(), |i: int| entry_of(actors[i]))
}

/// Where the first subscription of a name stands; none where there is no such subscription.
pub open spec fn subscription_place(
    entries: Seq<SubscriptionEntry>,
    name: SubscriptionNameView,
) -> Option<int>
    decreases entries.len(),
{
    if entries.len() == 0 {
        None
    } else {
        match subscription_place(entries.drop_last(), name) {
            Some(i) => Some(i),
            None => if entries.last().name() == name {
                Some(entries.len() - 1)
            } else {
                None
            },
        }
    }
}

/// The place of a subscription is the first one where one of that name stands.
pub proof fn lemma_subscription_place(
    entries: Seq<SubscriptionEntry>,
    name: SubscriptionNameView,
)
    ensures
        match subscription_place(entries, name) {
            Some(i) => 0 <= i < entries.len() && entries[i].name() == name && forall|j: int|
                0 <= j < i ==> (#[trigger] entries[j]).name() != name,
            None => forall|j: int| 0 <= j < entries.len() ==> (#[trigger] entries[j]).name()
                != name,
        },
    decreases entries.len(),
{
    if entries.len() > 0 {
        let front = entries.drop_last();
        lemma_subscription_place(front, name);
        match subscription_place(front, name) {
            Some(i) => {
                assert(front[i] == entries[i]);
                assert forall|j: int| 0 <= j < i implies (#[trigger] entries[j]).name() != name by {
                    assert(front[j] == entries[j]);
                }
            },
            None => {
                assert forall|j: int| 0 <= j < front.len() implies (#[trigger] entries[j]).name()
                    != name by {
                    assert(front[j] == entries[j]);
                }
            },
        }
    }
}

/// Whether the subscription is in the project of the topic.
pub open spec fn same_project(name: SubscriptionNameView, topic: TopicNameView) -> bool {
    topic matches TopicNameView::Named { project_id, topic_id } && project_id == name.project_id
}

/// The topic that dead letters go to.
pub open spec fn dead_letter_topic_of(info: SubscriptionInfo) -> Option<TopicNameView> {
    match info.dead_letter_policy {
        Some(policy) => Some(policy.dead_letter_topic@),
        None => None,
    }
}

/// What comes of creating a subscription: nothing where it can be created, or why not.
pub open spec fn creation_refused(
    entries: Seq<SubscriptionEntry>,
    next_id: u32,
    topics: Seq<TopicState>,
    name: SubscriptionNameView,
    dead_letter_topic: Option<TopicNameView>,
    topic: TopicNameView,
) -> Option<CreateSubscriptionError> {
    if !same_project(name, topic) {
        Some(CreateSubscriptionError::MustBeInSameProjectAsTopic)
    } else if dead_letter_topic is Some && topic_manager::topic_place(
        topics,
        dead_letter_topic->0,
    ) is None {
        Some(CreateSubscriptionError::DeadLetterTopicDoesNotExist)
    } else if subscription_place(entries, name) is Some {
        Some(CreateSubscriptionError::AlreadyExists)
    } else if next_id == u32::MAX {
        Some(CreateSubscriptionError::Closed)
    } else {
        None
    }
}

/// The pushes with what a subscription is configured to push.
pub open spec fn pushes_with(
    pushes: Pushes,
    name: SubscriptionNameView,
    config: Option<PushConfig>,
) -> Pushes {
    match config {
        Some(c) => pushes.insert(name, c@),
        None => pushes.remove(name),
    }
}

/// The pushes once a subscription was given another config; that of a deleted one is not changed.
pub open spec fn pushes_changed(
    pushes: Pushes,
    e: SubscriptionEntry,
    config: Option<PushConfig>,
) -> Pushes {
    if e.state.deleted {
        pushes
    } else {
        pushes_with(pushes, e.name(), config)
    }
}

/// The entries after messages were handed to the subscriptions of these names.
pub open spec fn all_posted(
    entries: Seq<SubscriptionEntry>,
    names: Seq<SubscriptionNameView>,
    messages: Seq<Arc<TopicMessage>>,
) -> Seq<SubscriptionEntry> {
    Seq::new(
        entries.len(),
        |i: int|
            if names.contains(entries[i].name()) {
                with_state(entries[i], state::posted(entries[i].state, messages))
            } else {
                entries[i]
            },
    )
}

/// Whether the subscription takes one of the messages.
pub open spec fn takes_some(e: SubscriptionEntry, messages: Seq<Arc<TopicMessage>>) -> bool {
    !e.state.deleted && exists|j: int|
        0 <= j < messages.len() && state::passes(e.state.filter, *#[trigger] messages[j])
}

/// Whether one of the first `n` subscriptions has one of these names and takes one of the messages.
pub open spec fn some_take(
    entries: Seq<SubscriptionEntry>,
    names: Seq<SubscriptionNameView>,
    messages: Seq<Arc<TopicMessage>>,
    n: int,
) -> bool {
    exists|i: int|
        0 <= i < n && names.contains((#[trigger] entries[i]).name()) && takes_some(
            entries[i],
            messages,
        )
}

/// The entries after a topic was deleted.
pub open spec fn topic_gone(entries: Seq<SubscriptionEntry>, topic: TopicNameView) -> Seq<
    SubscriptionEntry,
> {
    Seq::new(
        entries.len(),
        |i: int|
            if entries[i].topic is Some && entries[i].topic->0@ == topic {
                SubscriptionEntry { topic: None, ..entries[i] }
            } else {
                entries[i]
            },
    )
}

/// The subscriptions there are, and which of them push.
#[derive(Debug)]
pub struct SubscriptionManager {
    subscriptions: Vec<SubscriptionActor>,
    push_registry: PushSubscriptionsRegistry,
    next_id: u32,
}

impl View for SubscriptionManager {
    type V = Seq<SubscriptionEntry>;

    closed spec fn view(&self) -> Seq<SubscriptionEntry> {
        entries_of(self.subscriptions@)
    }
}

impl SubscriptionManager {
    /// Which subscriptions push, and where to.
    pub closed spec fn pushes(&self) -> Pushes {
        self.push_registry@
    }

    /// The number of the next subscription.
    pub closed spec fn next_number(&self) -> u32 {
        self.next_id
    }

    /// No subscriptions yet.
    pub fn new() -> (m: SubscriptionManager)
        ensures
            m@ == Seq::<SubscriptionEntry>::empty(),
            m.pushes() == Pushes::empty(),
            m.next_number() == 1,
    {
        let m = SubscriptionManager {
            subscriptions: Vec::new(),
            push_registry: PushSubscriptionsRegistry::new(),
            next_id: 1,
        };
        assert(m@ =~= Seq::<SubscriptionEntry>::empty());
        m
    }

    /// How many subscriptions there are.
    pub fn len(&self) -> (n: usize)
        ensures
            n == self@.len(),
    {
        self.subscriptions.len()
    }

    /// The subscriptions that push.
    pub fn push_registry(&self) -> (r: &PushSubscriptionsRegistry)
        ensures
            r@ == self.pushes(),
    {
        &self.push_registry
    }

    /// The subscription at the place.
    pub fn at(&self, i: usize) -> (a: &SubscriptionActor)
        requires
            i < self@.len(),
        ensures
            entry_of(*a) == self@[i as int],
    {
        &self.subscriptions[i]
    }

    /// Where the subscription of the name stands.
    pub fn find(&self, name: &SubscriptionName) -> (place: Option<usize>)
        ensures
            match place {
                Some(i) => i < self@.len() && subscription_place(self@, name@) == Some(i as int)
                    && self@[i as int].name() == name@,
                None => subscription_place(self@, name@) is None,
            },
    {
        let mut i: usize = 0;
        while i < self.subscriptions.len()
            invariant
                i <= self.subscriptions@.len(),
                forall|j: int| 0 <= j < i ==> (#[trigger] self@[j]).name() != name@,
            decreases self.subscriptions@.len() - i,
        {
            if self.subscriptions[i].get_info().name.same(name) {
                assert(self@[i as int].name() == name@);
                proof {
                    lemma_subscription_place(self@, name@);
                }
                return Some(i);
            }
            assert(self@[i as int].name() != name@);
            i += 1;
        }
        proof {
            lemma_subscription_place(self@, name@);
        }
        None
    }

    /// Creates a subscription to a topic.
    pub fn create_subscription(
        &mut self,
        info: SubscriptionInfo,
        topic: TopicName,
        topics: &TopicManager,
    ) -> (r: Result<(), CreateSubscriptionError>)
        ensures
            match r {
                Ok(_) => {
                    &&& creation_refused(
                        old(self)@,
                        old(self).next_number(),
                        topics@,
                        info.name@,
                        dead_letter_topic_of(info),
                        topic@,
                    ) is None
                    &&& final(self)@ == old(self)@.push(
                        SubscriptionEntry {
                            state: state::started(info),
                            topic: Some(topic),
                            number: old(self).next_number(),
                        },
                    )
                    &&& final(self).pushes() == (match info.push_config {
                        Some(c) => old(self).pushes().insert(info.name@, c@),
                        None => old(self).pushes(),
                    })
                    &&& final(self).next_number() == old(self).next_number() + 1
                },
                Err(e) => {
                    &&& creation_refused(
                        old(self)@,
                        old(self).next_number(),
                        topics@,
                        info.name@,
                        dead_letter_topic_of(info),
                        topic@,
                    ) == Some(e)
                    &&& *final(self) == *old(self)
                },
            },
    {
        let in_project = match &topic {
            TopicName::Named { project_id, .. } => text::same_text(
                project_id.as_str(),
                info.name.project_id(),
            ),
            TopicName::Deleted => false,
        };
        if !in_project {
            return Err(CreateSubscriptionError::MustBeInSameProjectAsTopic);
        }
        if let Some(policy) = &info.dead_letter_policy {
            if topics.find(&policy.dead_letter_topic).is_none() {
                return Err(CreateSubscriptionError::DeadLetterTopicDoesNotExist);
            }
        }
        if self.find(&info.name).is_some() {
            return Err(CreateSubscriptionError::AlreadyExists);
        }
        if self.next_id == u32::MAX {
            return Err(CreateSubscriptionError::Closed);
        }
        if let Some(config) = &info.push_config {
            self.push_registry.set(info.name.clone(), Some(config.clone()));
        }
        let number: u32 = self.next_id;
        self.next_id = number + 1;
        let actor = SubscriptionActor::start(number, info, topic);
        let ghost entry = entry_of(actor);
        self.subscriptions.push(actor);
        assert(self@ =~= old(self)@.push(entry));
        assert(entry =~= (SubscriptionEntry {
            state: state::started(info),
            topic: Some(topic),
            number,
        }));
        Ok(())
    }

    /// Deletes the subscription at the place.
    pub fn delete_at(&mut self, i: usize)
        requires
            i < old(self)@.len(),
        ensures
            final(self)@ == old(self)@.remove(i as int),
            final(self).pushes() == old(self).pushes().remove(old(self)@[i as int].name()),
            final(self).next_number() == old(self).next_number(),
    {
        let ghost before = self@;
        let mut actor = self.subscriptions.remove(i);
        assert(self@ =~= before.remove(i as int));
        let name = actor.get_info().name.clone();
        let was_there = actor.delete();
        self.push_registry.set(name, None);
    }

    /// Hands messages to the subscriptions of these names. Says whether one of them took one.
    pub fn post(
        &mut self,
        names: &Vec<SubscriptionName>,
        messages: &Vec<Arc<TopicMessage>>,
    ) -> (messages_available: bool)
        ensures
            messages_available == some_take(
                old(self)@,
                topic::name_views(names@),
                messages@,
                old(self)@.len() as int,
            ),
            final(self)@ == all_posted(
                old(self)@,
                topic::name_views(names@),
                messages@,
            ),
            final(self).pushes() == old(self).pushes(),
            final(self).next_number() == old(self).next_number(),
    {
        let ghost before = self@;
        let ghost views = topic::name_views(names@);
        let ghost wanted = all_posted(before, views, messages@);
        let mut messages_available = false;
        let mut i: usize = 0;
        while i < self.subscriptions.len()
            invariant
                i <= self.subscriptions@.len(),
                self@.len() == before.len(),
                views == topic::name_views(names@),
                wanted == all_posted(before, views, messages@),
                self.push_registry == old(self).push_registry,
                self.next_id == old(self).next_id,
                messages_available == some_take(before, views, messages@, i as int),
                forall|j: int| 0 <= j < i ==> self@[j] == #[trigger] wanted[j],
                forall|j: int| i <= j < before.len() ==> #[trigger] self@[j] == before[j],
            decreases self.subscriptions@.len() - i,
        {
            let ghost current = self@;
            assert(self@[i as int] == before[i as int]);
            if is_named(names, &self.subscriptions[i].get_info().name) {
                if self.subscriptions[i].post_messages(messages) {
                    messages_available = true;
                }
                assert(self@ =~= current.update(
                    i as int,
                    with_state(
                        before[i as int],
                        state::posted(before[i as int].state, messages@),
                    ),
                ));
            }
            i += 1;
        }
        assert(self@ =~= wanted);
        messages_available
    }

    /// Delivers messages of the subscription at the place.
    pub fn pull_at(&mut self, i: usize, max_count: u16, max_outstanding: u16, now: Instant) -> (r:
        Result<PulledBatch, PullMessagesError>)
        requires
            i < old(self)@.len(),
        ensures
            final(self)@ == old(self)@.update(
                i as int,
                with_state(
                    old(self)@[i as int],
                    state::pulled(old(self)@[i as int].state, max_count, max_outstanding, now@),
                ),
            ),
            final(self).pushes() == old(self).pushes(),
            final(self).next_number() == old(self).next_number(),
            pull_answered(
                old(self)@[i as int].state,
                final(self)@[i as int].state,
                max_count,
                max_outstanding,
                r,
            ),
    {
        let ghost before = self@;
        let r = self.subscriptions[i].pull_messages(max_count, max_outstanding, now);
        assert(self@ =~= before.update(i as int, entry_of(self.subscriptions@[i as int])));
        r
    }

    /// Acknowledges messages of the subscription at the place.
    pub fn acknowledge_at(&mut self, i: usize, ack_ids: Vec<AckId>) -> (r: Acknowledged)
        requires
            i < old(self)@.len(),
        ensures
            final(self)@ == old(self)@.update(
                i as int,
                with_state(
                    old(self)@[i as int],
                    state::acknowledged(
                        old(self)@[i as int].state,
                        outstanding::id_set(ack_ids@),
                    ),
                ),
            ),
            final(self).pushes() == old(self).pushes(),
            final(self).next_number() == old(self).next_number(),
            ack_answered(old(self)@[i as int].state, ack_ids@, r),
    {
        let ghost before = self@;
        let r = self.subscriptions[i].acknowledge_messages(ack_ids);
        assert(self@ =~= before.update(i as int, entry_of(self.subscriptions@[i as int])));
        r
    }

    /// Moves deadlines of the subscription at the place.
    pub fn modify_at(
        &mut self,
        i: usize,
        modifications: Vec<DeadlineModification>,
        now: Instant,
    ) -> (r: DeadlinesModified)
        requires
            i < old(self)@.len(),
        ensures
            final(self)@ == old(self)@.update(
                i as int,
                with_state(
                    old(self)@[i as int],
                    state::modified(
                        old(self)@[i as int].state,
                        outstanding::modifications_of(modifications@),
                        now@,
                    ),
                ),
            ),
            final(self).pushes() == old(self).pushes(),
            final(self).next_number() == old(self).next_number(),
            modify_answered(old(self)@[i as int].state, modifications@, now@, r),
    {
        let ghost before = self@;
        let r = self.subscriptions[i].modify_deadline(modifications, now);
        assert(self@ =~= before.update(i as int, entry_of(self.subscriptions@[i as int])));
        r
    }

    /// Takes back what is overdue of the subscription at the place.
    pub fn expire_at(&mut self, i: usize, now: Instant) -> (r: Returned)
        requires
            i < old(self)@.len(),
        ensures
            final(self)@ == old(self)@.update(
                i as int,
                with_state(
                    old(self)@[i as int],
                    state::expired(old(self)@[i as int].state, now@),
                ),
            ),
            final(self).pushes() == old(self).pushes(),
            final(self).next_number() == old(self).next_number(),
            state::are_dead_letters(
                r.dead_letters@,
                old(self)@[i as int].state.info,
                state::condemned(
                    state::overdue_taken(old(self)@[i as int].state, now@),
                    outstanding::overdue(old(self)@[i as int].state.outstanding, now@),
                    now@,
                ),
                now@,
            ),
            r.messages_available == state::pullable(final(self)@[i as int].state),
    {
        let ghost before = self@;
        let r = self.subscriptions[i].handle_expired_messages(now);
        assert(self@ =~= before.update(i as int, entry_of(self.subscriptions@[i as int])));
        r
    }

    /// Ends the waits that are over of the subscription at the place.
    pub fn retry_at(&mut self, i: usize, now: Instant) -> (messages_available: bool)
        requires
            i < old(self)@.len(),
        ensures
            final(self)@ == old(self)@.update(
                i as int,
                with_state(
                    old(self)@[i as int],
                    state::retries_ended(old(self)@[i as int].state, now@),
                ),
            ),
            final(self).pushes() == old(self).pushes(),
            final(self).next_number() == old(self).next_number(),
            messages_available == retry_frees(old(self)@[i as int].state, now@),
    {
        let ghost before = self@;
        let r = self.subscriptions[i].handle_retry_ready(now);
        assert(self@ =~= before.update(i as int, entry_of(self.subscriptions@[i as int])));
        r
    }

    /// Changes what the subscription at the place is configured to do.
    pub fn update_at(&mut self, i: usize, update: SubscriptionUpdate)
        requires
            i < old(self)@.len(),
        ensures
            final(self)@ == old(self)@.update(
                i as int,
                with_state(
                    old(self)@[i as int],
                    state::reconfigured(old(self)@[i as int].state, update),
                ),
            ),
            final(self).pushes() == old(self).pushes(),
            final(self).next_number() == old(self).next_number(),
    {
        let ghost before = self@;
        self.subscriptions[i].update_info(update);
        assert(self@ =~= before.update(i as int, entry_of(self.subscriptions@[i as int])));
    }

    /// Sets where the subscription at the place pushes to.
    pub fn modify_push_config_at(&mut self, i: usize, push_config: Option<PushConfig>)
        requires
            i < old(self)@.len(),
        ensures
            final(self)@ == old(self)@.update(
                i as int,
                with_state(
                    old(self)@[i as int],
                    state::repushed(old(self)@[i as int].state, push_config),
                ),
            ),
            final(self).pushes() == pushes_changed(
                old(self).pushes(),
                old(self)@[i as int],
                push_config,
            ),
            final(self).next_number() == old(self).next_number(),
    {
        let ghost before = self@;
        if !self.subscriptions[i].is_deleted() {
            let name = self.subscriptions[i].get_info().name.clone();
            let registered = match &push_config {
                Some(c) => Some(c.clone()),
                None => None,
            };
            self.push_registry.set(name, registered);
        }
        self.subscriptions[i].modify_push_config(push_config);
        assert(self@ =~= before.update(i as int, entry_of(self.subscriptions@[i as int])));
    }

    /// Detaches the subscription at the place from its topic.
    pub fn detach_at(&mut self, i: usize)
        requires
            i < old(self)@.len(),
        ensures
            final(self)@ == old(self)@.update(
                i as int,
                with_state(old(self)@[i as int], state::detached(old(self)@[i as int].state)),
            ),
            final(self).pushes() == old(self).pushes(),
            final(self).next_number() == old(self).next_number(),
    {
        let ghost before = self@;
        self.subscriptions[i].detach();
        assert(self@ =~= before.update(i as int, entry_of(self.subscriptions@[i as int])));
    }

    /// Drops the messages that were published before `time` of the subscription at the place.
    pub fn seek_at(&mut self, i: usize, time: SystemTime) -> (messages_available: bool)
        requires
            i < old(self)@.len(),
        ensures
            final(self)@ == old(self)@.update(
                i as int,
                with_state(old(self)@[i as int], state::sought(old(self)@[i as int].state, time@)),
            ),
            final(self).pushes() == old(self).pushes(),
            final(self).next_number() == old(self).next_number(),
            messages_available == (!old(self)@[i as int].state.deleted && state::pullable(
                final(self)@[i as int].state,
            )),
    {
        let ghost before = self@;
        let r = self.subscriptions[i].seek_to_time(time);
        assert(self@ =~= before.update(i as int, entry_of(self.subscriptions@[i as int])));
        r
    }

    /// A topic was deleted.
    pub fn topic_deleted(&mut self, topic: &TopicName)
        ensures
            final(self)@ == topic_gone(old(self)@, topic@),
            final(self).pushes() == old(self).pushes(),
            final(self).next_number() == old(self).next_number(),
    {
        let ghost before = self@;
        let ghost wanted = topic_gone(before, topic@);
        let mut i: usize = 0;
        while i < self.subscriptions.len()
            invariant
                i <= self.subscriptions@.len(),
                self@.len() == before.len(),
                wanted == topic_gone(before, topic@),
                self.push_registry == old(self).push_registry,
                self.next_id == old(self).next_id,
                forall|j: int| 0 <= j < i ==> self@[j] == #[trigger] wanted[j],
                forall|j: int| i <= j < before.len() ==> #[trigger] self@[j] == before[j],
            decreases self.subscriptions@.len() - i,
        {
            let ghost current = self@;
            assert(self@[i as int] == before[i as int]);
            let gone = match self.subscriptions[i].topic() {
                Some(t) => t.same(topic),
                None => false,
            };
            if gone {
                self.subscriptions[i].topic_deleted();
                assert(self@ =~= current.update(
                    i as int,
                    SubscriptionEntry { topic: None, ..before[i as int] },
                ));
            }
            i += 1;
        }
        assert(self@ =~= wanted);
    }

    /// The figures on every subscription.
    pub fn all_stats(&self, now: Instant) -> (stats: Vec<SubscriptionStats>)
        ensures
            stats@.len() == self@.len(),
            forall|i: int|
                0 <= i < self@.len() ==> subscription_stats_of(
                    #[trigger] stats@[i],
                    self@[i],
                    now@,
                ),
    {
        let mut stats: Vec<SubscriptionStats> = Vec::new();
        let mut i: usize = 0;
        while i < self.subscriptions.len()
            invariant
                i <= self.subscriptions@.len(),
                stats@.len() == i,
                forall|j: int|
                    0 <= j < i ==> subscription_stats_of(#[trigger] stats@[j], self@[j], now@),
            decreases self.subscriptions@.len() - i,
        {
            stats.push(self.subscriptions[i].get_stats(now));
            i += 1;
        }
        stats
    }

    /// The places of the subscriptions of a project, in order.
    pub fn places_in_project(&self, project: &str) -> (places: Vec<usize>)
        ensures
            as_ints(places@) == project_places(self@, project@),
    {
        let mut places: Vec<usize> = Vec::new();
        let mut i: usize = 0;
        assert(self@.take(0) =~= Seq::empty());
        assert(as_ints(places@) =~= Seq::empty());
        while i < self.subscriptions.len()
            invariant
                i <= self.subscriptions@.len(),
                as_ints(places@) == project_places(self@.take(i as int), project@),
            decreases self.subscriptions@.len() - i,
        {
            assert(self@.take(i + 1).drop_last() =~= self@.take(i as int));
            let ghost before = places@;
            if text::same_text(self.subscriptions[i].get_info().name.project_id(), project) {
                places.push(i);
                assert(as_ints(places@) =~= as_ints(before).push(i as int));
            }
            i += 1;
        }
        assert(self@.take(self@.len() as int) =~= self@);
        places
    }

    /// A page of the places of the subscriptions of a project.
    pub fn list_subscriptions_in_project(&self, project: &str, paging: Paging) -> (page: PlacesPage)
        ensures
            ({
                let all = project_places(self@, project@);
                let end = paging::page_end(paging, all.len());
                let start = if paging.start() <= end {
                    paging.start() as int
                } else {
                    end as int
                };
                &&& as_ints(page.places@) == all.subrange(start, end as int)
                &&& match page.offset {
                    Some(o) => o == end && end < all.len(),
                    None => end == all.len(),
                }
            }),
            forall|i: int| 0 <= i < page.places@.len() ==> (#[trigger] page.places@[i]) < self@.len(),
    {
        let all = self.places_in_project(project);
        let (start, end) = paging.range(all.len());
        let mut places: Vec<usize> = Vec::new();
        let mut i: usize = start;
        while i < end
            invariant
                start <= i <= end <= all@.len(),
                as_ints(all@) == project_places(self@, project@),
                as_ints(places@) =~= as_ints(all@).subrange(start as int, i as int),
                forall|j: int| 0 <= j < places@.len() ==> (#[trigger] places@[j]) < self@.len(),
            decreases end - i,
        {
            proof {
                lemma_project_places(self@, project@, i as int);
                assert(as_ints(all@)[i as int] == all@[i as int] as int);
            }
            let ghost before = places@;
            places.push(all[i]);
            assert(as_ints(places@) =~= as_ints(before).push(as_ints(all@)[i as int]));
            i += 1;
        }
        let offset: Option<usize> = if end < all.len() {
            Some(end)
        } else {
            None
        };
        PlacesPage { places, offset }
    }
}

/// A part of the places of subscriptions.
#[derive(Debug)]
pub struct PlacesPage {
    pub places: Vec<usize>,
    /// Where the next page starts, if there is one.
    pub offset: Option<usize>,
}

/// The numbers.
pub open spec fn as_ints(places: Seq<usize>) -> Seq<int> {
    Seq::new(places.len(), |i: int| places[i] as int)
}

/// The places of the subscriptions of a project, in order.
pub open spec fn project_places(entries: Seq<SubscriptionEntry>, project: Seq<char>) -> Seq<int>
    decreases entries.len(),
{
    if entries.len() == 0 {
        Seq::empty()
    } else {
        let front = project_places(entries.drop_last(), project);
        if entries.last().name().project_id == project {
            front.push(entries.len() - 1)
        } else {
            front
        }
    }
}

/// The places of the subscriptions of a project are places of subscriptions of that project.
pub proof fn lemma_project_places(entries: Seq<SubscriptionEntry>, project: Seq<char>, i: int)
    requires
        0 <= i < project_places(entries, project).len(),
    ensures
        0 <= project_places(entries, project)[i] < entries.len(),
        entries[project_places(entries, project)[i]].name().project_id == project,
    decreases entries.len(),
{
    if entries.len() > 0 {
        let front = project_places(entries.drop_last(), project);
        if i < front.len() {
            lemma_project_places(entries.drop_last(), project, i);
        }
    }
}

/// Whether the name is one of the names.
fn is_named(names: &Vec<SubscriptionName>, name: &SubscriptionName) -> (b: bool)
    ensures
        b == topic::name_views(names@).contains(name@),
{
    let ghost views = topic::name_views(names@);
    let mut i: usize = 0;
    while i < names.len()
        invariant
            i <= names@.len(),
            views == topic::name_views(names@),
            forall|j: int| 0 <= j < i ==> views[j] != name@,
        decreases names@.len() - i,
    {
        if names[i].same(name) {
            assert(views[i as int] == name@);
            return true;
        }
        i += 1;
    }
    false
}

/// Whether a pull is answered with what it delivered.
pub open spec fn pull_answered(
    before: SubscriptionState,
    after: SubscriptionState,
    max_count: u16,
    max_outstanding: u16,
    r: Result<PulledBatch, PullMessagesError>,
) -> bool {
    match r {
        Ok(batch) => {
            &&& before.deleted || !before.info.detached
            &&& outstanding::deliveries(batch.messages@) == after.outstanding.skip(
                before.outstanding.len() as int,
            )
            &&& batch.more_available == (!before.deleted && state::pull_room(
                before,
                max_count,
                max_outstanding,
            ) > 0 && state::pullable(after))
        },
        Err(e) => {
            &&& e == PullMessagesError::Detached
            &&& !before.deleted && before.info.detached
        },
    }
}

/// Whether an acknowledgement is answered with what came of it.
pub open spec fn ack_answered(
    before: SubscriptionState,
    ids: Seq<AckId>,
    r: Acknowledged,
) -> bool {
    let gone = outstanding::named(before.outstanding, outstanding::id_set(ids));
    if before.deleted {
        r.outcome.valid@.len() == 0 && r.outcome.invalid@.len() == 0 && !r.outstanding_freed
            && !r.messages_available
    } else {
        &&& r.outcome.valid@ == state::valid_ids(before.outstanding, ids)
        &&& r.outcome.invalid@ == state::invalid_ids(before.outstanding, ids)
        &&& r.outstanding_freed == (gone.len() > 0)
        &&& r.messages_available == exists|i: int|
            0 <= i < gone.len() && state::holds_key(before, *(#[trigger] gone[i]).message)
    }
}

/// Whether a modification of deadlines is answered with what came of it.
pub open spec fn modify_answered(
    before: SubscriptionState,
    modifications: Seq<DeadlineModification>,
    now: nat,
    r: DeadlinesModified,
) -> bool {
    let ids = state::modified_ids(modifications);
    let views = outstanding::modifications_of(modifications);
    if before.deleted {
        r.outcome.valid@.len() == 0 && r.outcome.invalid@.len() == 0
            && r.returned.dead_letters@.len() == 0 && !r.returned.messages_available
    } else {
        &&& r.outcome.valid@ == state::valid_ids(before.outstanding, ids)
        &&& r.outcome.invalid@ == state::invalid_ids(before.outstanding, ids)
        &&& state::are_dead_letters(
            r.returned.dead_letters@,
            before.info,
            state::condemned(
                state::deadlines_moved(before, views),
                outstanding::modified(before.outstanding, views).1,
                now,
            ),
            now,
        )
        &&& r.returned.messages_available == state::pullable(state::modified(before, views, now))
    }
}

/// Whether something can be pulled on account of the waits that are over.
pub open spec fn retry_frees(st: SubscriptionState, now: nat) -> bool {
    exists|i: int|
        0 <= i < state::ready_messages(st, now).len() && state::frees(
            st.info,
            *#[trigger] state::ready_messages(st, now)[i],
            now,
        )
}

/// Whether these are the figures on the subscription.
pub open spec fn subscription_stats_of(
    s: SubscriptionStats,
    e: SubscriptionEntry,
    now: nat,
) -> bool {
    &&& s.subscription_name@ == e.name()
    &&& s.topic_name@ == (match e.topic {
        Some(t) => t@,
        None => TopicNameView::Deleted,
    })
    &&& s.outstanding_messages_count == e.state.outstanding.len()
    &&& s.retry_messages_count == e.state.retries.len()
    &&& s.backlog_messages_count == state::smaller(
        state::backlog_count(e.state) as int,
        usize::MAX as int,
    )
    &&& state::is_oldest_age(e.state, now, s.oldest_unacked_age@)
    &&& s.counters == e.state.counters
}

} // verus!
