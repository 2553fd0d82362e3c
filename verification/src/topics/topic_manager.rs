//! The topics there are.
use std::sync::Arc;
use vstd::prelude::*;

use crate::subscriptions::subscription_name::SubscriptionName;
use crate::time::{Instant, SystemTime};
use crate::topics::stats::TopicStats;
use crate::topics::topic;
use crate::topics::topic::{PublishMessagesError, Topic, TopicInfo, TopicState, TopicUpdate};
use crate::topics::topic_message::TopicMessage;
use crate::topics::topic_name::{TopicName, TopicNameView};

verus! {

/// Why a topic could not be created.
#[derive(Debug, PartialEq, Eq, Structural, Copy, Clone)]
pub enum CreateTopicError {
    /// There is a topic of that name.
    AlreadyExists,
    /// There are no numbers left for topics.
    IdsExhausted,
}

/// Why there is no topic to be had.
#[derive(Debug, PartialEq, Eq, Structural, Copy, Clone)]
pub enum GetTopicError {
    /// There is no topic of that name.
    DoesNotExist,
}

/// Where the first topic of a name stands; none where there is no such topic.
pub open spec fn topic_place(topics: Seq<TopicState>, name: TopicNameView) -> Option<int>
    decreases topics.len(),
{
    if topics.len() == 0 {
        None
    } else {
        match topic_place(topics.drop_last(), name) {
            Some(i) => Some(i),
            None => if topics.last().info.name@ == name {
                Some(topics.len() - 1)
            } else {
                None
            },
        }
    }
}

/// The place of a topic is one where a topic of that name stands.
pub proof fn lemma_topic_place(topics: Seq<TopicState>, name: TopicNameView)
    ensures
        match topic_place(topics, name) {
            Some(i) => 0 <= i < topics.len() && topics[i].info.name@ == name && forall|j: int|
                0 <= j < i ==> (#[trigger] topics[j]).info.name@ != name,
            None => forall|j: int| 0 <= j < topics.len() ==> (#[trigger] topics[j]).info.name@
                != name,
        },
    decreases topics.len(),
{
    if topics.len() > 0 {
        let front = topics.drop_last();
        lemma_topic_place(front, name);
        match topic_place(front, name) {
            Some(i) => {
                assert(front[i] == topics[i]);
                assert forall|j: int| 0 <= j < i implies (#[trigger] topics[j]).info.name@
                    != name by {
                    assert(front[j] == topics[j]);
                }
            },
            None => {
                assert forall|j: int| 0 <= j < front.len() implies (#[trigger] topics[j]).info.name@
                    != name by {
                    assert(front[j] == topics[j]);
                }
            },
        }
    }
}

/// The first place where a topic of a name stands is its place.
pub proof fn lemma_is_topic_place(topics: Seq<TopicState>, name: TopicNameView, i: int)
    requires
        0 <= i < topics.len(),
        topics[i].info.name@ == name,
        forall|j: int| 0 <= j < i ==> (#[trigger] topics[j]).info.name@ != name,
    ensures
        topic_place(topics, name) == Some(i),
{
    lemma_topic_place(topics, name);
}

/// The views of topics.
pub open spec fn topic_states(topics: Seq<Topic>) -> Seq<TopicState> {
    Seq::new(topics.len(), |i: int| topics[i]@)
}

/// Whether no two topics have the same name or number, and later ones get larger numbers.
pub open spec fn topics_distinct(topics: Seq<TopicState>, next_id: u32) -> bool {
    &&& forall|i: int, j: int|
        0 <= i < j < topics.len() ==> (#[trigger] topics[i]).info.name@ != (
        #[trigger] topics[j]).info.name@ && topics[i].internal_id != topics[j].internal_id
    &&& forall|i: int| 0 <= i < topics.len() ==> (#[trigger] topics[i]).internal_id < next_id
}

/// A new topic.
pub open spec fn new_topic(info: TopicInfo, internal_id: u32) -> TopicState {
    TopicState {
        info,
        internal_id,
        next_message_id: 0,
        subscriptions: Seq::empty(),
        published_count: 0,
        published_bytes: 0,
    }
}

/// Creating a topic keeps topics distinct.
pub proof fn law_topics_stay_distinct(topics: Seq<TopicState>, next_id: u32, info: TopicInfo)
    requires
        topics_distinct(topics, next_id),
        next_id < u32::MAX,
        topic_place(topics, info.name@) is None,
    ensures
        topics_distinct(topics.push(new_topic(info, next_id)), (next_id + 1) as u32),
{
    lemma_topic_place(topics, info.name@);
}

/// The topics there are.
#[derive(Debug)]
pub struct TopicManager {
    topics: Vec<Topic>,
    next_id: u32,
}

impl View for TopicManager {
    type V = Seq<TopicState>;

    closed spec fn view(&self) -> Seq<TopicState> {
        topic_states(self.topics@)
    }
}

impl TopicManager {
    /// The number of the next topic.
    pub closed spec fn next_number(&self) -> u32 {
        self.next_id
    }

    /// No topics yet.
    pub fn new() -> (m: TopicManager)
        ensures
            m@ == Seq::<TopicState>::empty(),
            m.next_number() == 1,
    {
        let m = TopicManager { topics: Vec::new(), next_id: 1 };
        assert(m@ =~= Seq::<TopicState>::empty());
        m
    }

    /// How many topics there are.
    pub fn len(&self) -> (n: usize)
        ensures
            n == self@.len(),
    {
        self.topics.len()
    }

    /// Creates a topic.
    pub fn create_topic(&mut self, info: TopicInfo) -> (r: Result<(), CreateTopicError>)
        ensures
            match r {
                Ok(_) => {
                    &&& topic_place(old(self)@, info.name@) is None
                    &&& old(self).next_number() < u32::MAX
                    &&& final(self)@ == old(self)@.push(new_topic(info, old(self).next_number()))
                    &&& final(self).next_number() == old(self).next_number() + 1
                },
                Err(CreateTopicError::AlreadyExists) => {
                    &&& topic_place(old(self)@, info.name@) is Some
                    &&& *final(self) == *old(self)
                },
                Err(CreateTopicError::IdsExhausted) => {
                    &&& topic_place(old(self)@, info.name@) is None
                    &&& old(self).next_number() == u32::MAX
                    &&& *final(self) == *old(self)
                },
            },
    {
        if self.find(&info.name).is_some() {
            return Err(CreateTopicError::AlreadyExists);
        }
        if self.next_id == u32::MAX {
            return Err(CreateTopicError::IdsExhausted);
        }
        let number: u32 = self.next_id;
        self.topics.push(Topic::new(info, number));
        self.next_id = number + 1;
        assert(self@ =~= old(self)@.push(new_topic(info, number)));
        Ok(())
    }

    /// Where the topic of the name stands.
    pub fn find(&self, name: &TopicName) -> (place: Option<usize>)
        ensures
            match place {
                Some(i) => i < self@.len() && topic_place(self@, name@) == Some(i as int),
                None => topic_place(self@, name@) is None,
            },
    {
        let mut i: usize = 0;
        while i < self.topics.len()
            invariant
                i <= self.topics@.len(),
                forall|j: int| 0 <= j < i ==> (#[trigger] self@[j]).info.name@ != name@,
            decreases self.topics@.len() - i,
        {
            if self.topics[i].name().same(name) {
                assert(self@[i as int].info.name@ == name@);
                proof {
                    lemma_is_topic_place(self@, name@, i as int);
                }
                return Some(i);
            }
            assert(self@[i as int].info.name@ != name@);
            i += 1;
        }
        proof {
            lemma_topic_place(self@, name@);
        }
        None
    }

    /// The topic at the place.
    pub fn at(&self, i: usize) -> (t: &Topic)
        requires
            i < self@.len(),
        ensures
            t@ == self@[i as int],
    {
        &self.topics[i]
    }

    /// The topic of the name.
    pub fn get_topic(&self, name: &TopicName) -> (r: Result<&Topic, GetTopicError>)
        ensures
            match r {
                Ok(t) => topic_place(self@, name@) matches Some(i) && t@ == self@[i],
                Err(e) => e == GetTopicError::DoesNotExist && topic_place(self@, name@) is None,
            },
    {
        match self.find(name) {
            Some(i) => Ok(&self.topics[i]),
            None => Err(GetTopicError::DoesNotExist),
        }
    }

    /// Publishes messages to the topic at the place.
    pub fn publish_at(
        &mut self,
        i: usize,
        messages: Vec<TopicMessage>,
        published_at: SystemTime,
        instant: Instant,
    ) -> (r: Result<Vec<Arc<TopicMessage>>, PublishMessagesError>)
        requires
            i < old(self)@.len(),
        ensures
            final(self).next_number() == old(self).next_number(),
            match r {
                Ok(published) => {
                    &&& old(self)@[i as int].next_message_id + messages@.len() <= u32::MAX
                    &&& topic::are_published(
                        published@,
                        messages@,
                        old(self)@[i as int],
                        published_at,
                        instant,
                    )
                    &&& final(self)@ == old(self)@.update(
                        i as int,
                        topic::after_publish(old(self)@[i as int], messages@),
                    )
                },
                Err(e) => {
                    &&& e == PublishMessagesError::IdsExhausted
                    &&& old(self)@[i as int].next_message_id + messages@.len() > u32::MAX
                    &&& final(self)@ == old(self)@
                },
            },
    {
        let ghost before = self@;
        let r = self.topics[i].publish_messages(messages, published_at, instant);
        assert(self@ =~= before.update(i as int, self.topics@[i as int]@));
        r
    }

    /// Changes what the topic at the place is configured to do.
    pub fn update_at(&mut self, i: usize, update: TopicUpdate)
        requires
            i < old(self)@.len(),
        ensures
            final(self).next_number() == old(self).next_number(),
            final(self)@ == old(self)@.update(
                i as int,
                TopicState {
                    info: topic::updated_topic(old(self)@[i as int].info, update),
                    ..old(self)@[i as int]
                },
            ),
    {
        let ghost before = self@;
        self.topics[i].update_info(update);
        assert(self@ =~= before.update(i as int, self.topics@[i as int]@));
    }

    /// Attaches a subscription to the topic at the place.
    pub fn attach_at(&mut self, i: usize, name: SubscriptionName)
        requires
            i < old(self)@.len(),
        ensures
            final(self).next_number() == old(self).next_number(),
            final(self)@ == old(self)@.update(
                i as int,
                topic::attached(old(self)@[i as int], name@),
            ),
    {
        let ghost before = self@;
        self.topics[i].attach_subscription(name);
        assert(self@ =~= before.update(i as int, self.topics@[i as int]@));
    }

    /// Removes a subscription from the topic at the place.
    pub fn remove_at(&mut self, i: usize, name: &SubscriptionName)
        requires
            i < old(self)@.len(),
        ensures
            final(self).next_number() == old(self).next_number(),
            final(self)@ == old(self)@.update(
                i as int,
                topic::removed(old(self)@[i as int], name@),
            ),
    {
        let ghost before = self@;
        self.topics[i].remove_subscription(name);
        assert(self@ =~= before.update(i as int, self.topics@[i as int]@));
    }

    /// Deletes the topic of the name.
    pub fn delete_topic(&mut self, name: &TopicName) -> (r: Result<(), GetTopicError>)
        ensures
            final(self).next_number() == old(self).next_number(),
            match r {
                Ok(_) => topic_place(old(self)@, name@) matches Some(i) && final(self)@
                    == old(self)@.remove(i),
                Err(e) => e == GetTopicError::DoesNotExist && topic_place(old(self)@, name@) is None
                    && final(self)@ == old(self)@,
            },
    {
        match self.find(name) {
            Some(i) => {
                let ghost before = self@;
                let topic = self.topics.remove(i);
                assert(self@ =~= before.remove(i as int));
                Ok(())
            },
            None => Err(GetTopicError::DoesNotExist),
        }
    }

    /// The figures on every topic.
    pub fn all_stats(&self) -> (stats: Vec<TopicStats>)
        ensures
            stats@.len() == self@.len(),
            forall|i: int|
                0 <= i < self@.len() ==> topic_stats_of(#[trigger] stats@[i], self@[i]),
    {
        let mut stats: Vec<TopicStats> = Vec::new();
        let mut i: usize = 0;
        while i < self.topics.len()
            invariant
                i <= self.topics@.len(),
                stats@.len() == i,
                forall|j: int| 0 <= j < i ==> topic_stats_of(#[trigger] stats@[j], self@[j]),
            decreases self.topics@.len() - i,
        {
            stats.push(self.topics[i].get_stats());
            i += 1;
        }
        stats
    }
}

/// Whether these are the figures on the topic.
pub open spec fn topic_stats_of(s: TopicStats, t: TopicState) -> bool {
    &&& s.topic_name == t.info.name
    &&& s.message_count == 0
    &&& s.subscription_count == t.subscriptions.len()
    &&& s.published_count == t.published_count
    &&& s.published_bytes == t.published_bytes
}

} // verus!
