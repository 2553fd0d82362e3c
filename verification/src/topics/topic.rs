//! A topic: takes messages and hands them to the subscriptions attached to it.
use std::sync::Arc;
use vstd::prelude::*;

use crate::collections;
use crate::collections::StringMap;
use crate::message_data;
use crate::message_data::bytes_len;
use crate::paging;
use crate::paging::Paging;
use crate::subscriptions::stats;
use crate::subscriptions::stats::count_up;
use crate::subscriptions::subscription_name::{SubscriptionName, SubscriptionNameView};
use crate::time::{Duration, Instant, SystemTime};
use crate::topics::stats::TopicStats;
use crate::topics::topic_message;
use crate::topics::topic_message::{MessageId, TopicMessage};
use crate::topics::topic_name::TopicName;

verus! {

/// What a topic is configured to do.
#[derive(Debug, Clone)]
pub struct TopicInfo {
    /// The name of the topic.
    pub name: TopicName,
    /// Labels given by the user.
    pub labels: StringMap,
    /// How long messages are retained. Subscriptions have retentions of their own; that of the
    /// topic is kept and not acted on.
    pub message_retention_duration: Option<Duration>,
}

/// A change of a [`TopicInfo`]. What is `None` stays; `Some(None)` takes the retention away.
#[derive(Debug, Clone)]
pub struct TopicUpdate {
    pub labels: Option<StringMap>,
    pub message_retention_duration: Option<Option<Duration>>,
}

impl Default for TopicUpdate {
    fn default() -> (u: TopicUpdate)
        ensures
            u.labels is None,
            u.message_retention_duration is None,
    {
        TopicUpdate { labels: None, message_retention_duration: None }
    }
}

/// A configuration after an update.
pub open spec fn updated_topic(info: TopicInfo, update: TopicUpdate) -> TopicInfo {
    TopicInfo {
        name: info.name,
        labels: match update.labels {
            Some(labels) => labels,
            None => info.labels,
        },
        message_retention_duration: match update.message_retention_duration {
            Some(retention) => retention,
            None => info.message_retention_duration,
        },
    }
}

impl TopicInfo {
    /// A topic without labels or retention.
    pub fn new(name: TopicName) -> (info: TopicInfo)
        ensures
            info.name == name,
            info.labels@ == Map::<Seq<char>, Seq<char>>::empty(),
            info.message_retention_duration is None,
    {
        TopicInfo { name, labels: StringMap::new(), message_retention_duration: None }
    }

    /// Sets what the update names and keeps the rest.
    pub fn apply_update(&mut self, update: TopicUpdate)
        ensures
            *final(self) == updated_topic(*old(self), update),
    {
        if let Some(labels) = update.labels {
            self.labels = labels;
        }
        if let Some(retention) = update.message_retention_duration {
            self.message_retention_duration = retention;
        }
    }
}

/// An update that is made again changes nothing more.
pub proof fn law_topic_update_is_idempotent(info: TopicInfo, update: TopicUpdate)
    ensures
        updated_topic(updated_topic(info, update), update) == updated_topic(info, update),
{
}

/// Why messages could not be published.
#[derive(Debug, PartialEq, Eq, Structural, Copy, Clone)]
pub enum PublishMessagesError {
    /// The topic has no message ids left for them.
    IdsExhausted,
}

/// A part of the subscriptions of a topic.
#[derive(Debug)]
pub struct SubscriptionsPage {
    pub subscriptions: Vec<SubscriptionName>,
    /// Where the next page starts, if there is one.
    pub offset: Option<usize>,
}

/// What a topic holds.
#[verifier::ext_equal]
pub struct TopicState {
    pub info: TopicInfo,
    /// The number of the topic.
    pub internal_id: u32,
    /// The number in the topic of the next message.
    pub next_message_id: u32,
    /// The subscriptions that messages are handed to.
    pub subscriptions: Seq<SubscriptionNameView>,
    /// How many messages were published.
    pub published_count: u64,
    /// How many bytes of message data were published.
    pub published_bytes: u64,
}

/// The views of subscription names.
pub open spec fn name_views(names: Seq<SubscriptionName>) -> Seq<SubscriptionNameView> {
    Seq::new(names.len(), |i: int| names[i]@)
}

/// How many bytes of data the messages carry.
pub open spec fn data_bytes(messages: Seq<TopicMessage>) -> nat
    decreases messages.len(),
{
    if messages.len() == 0 {
        0
    } else {
        data_bytes(messages.drop_last()) + message_data::bytes_held(messages.last().data).len()
    }
}

/// A topic after messages were published.
pub open spec fn after_publish(t: TopicState, messages: Seq<TopicMessage>) -> TopicState {
    TopicState {
        next_message_id: (t.next_message_id + messages.len()) as u32,
        published_count: stats::counted(t.published_count, messages.len()),
        published_bytes: stats::counted(t.published_bytes, data_bytes(messages)),
        ..t
    }
}

/// Whether `p` is the message `m` published with this number in the topic.
pub open spec fn is_published(
    p: TopicMessage,
    m: TopicMessage,
    t: TopicState,
    number: int,
    published_at: SystemTime,
    instant: Instant,
) -> bool {
    &&& p.id.value == topic_message::message_id_value(t.internal_id, number as u32)
    &&& p.published_at == published_at
    &&& p.published_at_instant == instant
    &&& p.data == m.data
    &&& p.attributes == m.attributes
    &&& p.ordering_key == m.ordering_key
}

/// Whether these are the messages published in turn.
pub open spec fn are_published(
    published: Seq<Arc<TopicMessage>>,
    messages: Seq<TopicMessage>,
    t: TopicState,
    published_at: SystemTime,
    instant: Instant,
) -> bool {
    &&& published.len() == messages.len()
    &&& forall|i: int|
        0 <= i < messages.len() ==> is_published(
            *#[trigger] published[i],
            messages[i],
            t,
            t.next_message_id + i,
            published_at,
            instant,
        )
}

/// A topic.
#[derive(Debug)]
pub struct Topic {
    info: TopicInfo,
    internal_id: u32,
    next_message_id: u32,
    subscriptions: Vec<SubscriptionName>,
    published_count: u64,
    published_bytes: u64,
}

impl View for Topic {
    type V = TopicState;

    closed spec fn view(&self) -> TopicState {
        TopicState {
            info: self.info,
            internal_id: self.internal_id,
            next_message_id: self.next_message_id,
            subscriptions: name_views(self.subscriptions@),
            published_count: self.published_count,
            published_bytes: self.published_bytes,
        }
    }
}

impl Topic {
    /// A new topic with this number.
    pub fn new(info: TopicInfo, internal_id: u32) -> (t: Topic)
        ensures
            t@ == (TopicState {
                info,
                internal_id,
                next_message_id: 0,
                subscriptions: Seq::empty(),
                published_count: 0,
                published_bytes: 0,
            }),
    {
        let t = Topic {
            info,
            internal_id,
            next_message_id: 0,
            subscriptions: Vec::new(),
            published_count: 0,
            published_bytes: 0,
        };
        assert(t@.subscriptions =~= Seq::<SubscriptionNameView>::empty());
        t
    }

    /// Publishes messages: each gets the next id of the topic and the time of publication.
    pub fn publish_messages(
        &mut self,
        messages: Vec<TopicMessage>,
        published_at: SystemTime,
        instant: Instant,
    ) -> (r: Result<Vec<Arc<TopicMessage>>, PublishMessagesError>)
        ensures
            match r {
                Ok(published) => {
                    &&& old(self)@.next_message_id + messages@.len() <= u32::MAX
                    &&& are_published(
                        published@,
                        messages@,
                        old(self)@,
                        published_at,
                        instant,
                    )
                    &&& final(self)@ == after_publish(old(self)@, messages@)
                },
                Err(e) => {
                    &&& e == PublishMessagesError::IdsExhausted
                    &&& old(self)@.next_message_id + messages@.len() > u32::MAX
                    &&& final(self)@ == old(self)@
                },
            },
    {
        let ghost start = self@;
        let count: usize = messages.len();
        let ids_left: u32 = u32::MAX - self.next_message_id;
        if count as u64 > ids_left as u64 {
            return Err(PublishMessagesError::IdsExhausted);
        }
        let ghost all = messages@;
        let mut published: Vec<Arc<TopicMessage>> = Vec::new();
        let mut bytes: u64 = self.published_bytes;
        assert(all.take(0) =~= Seq::empty());
        for message in it: messages
            invariant
                it.seq() == all,
                *self == *old(self),
                start == self@,
                start.next_message_id + all.len() <= u32::MAX,
                published@.len() == it.index(),
                bytes == stats::counted(
                    start.published_bytes,
                    data_bytes(all.take(it.index() as int)),
                ),
                forall|j: int|
                    0 <= j < it.index() ==> is_published(
                        *#[trigger] published@[j],
                        all[j],
                        start,
                        start.next_message_id + j,
                        published_at,
                        instant,
                    ),
        {
            let number: u32 = self.next_message_id + published.len() as u32;
            let mut message = message;
            assert(all.take(it.index() + 1).drop_last() =~= all.take(it.index() as int));
            bytes = count_up(bytes, bytes_len(&message.data));
            let id = MessageId::new(self.internal_id, number);
            message.publish(id, published_at, instant);
            published.push(Arc::new(message));
        }
        assert(all.take(all.len() as int) =~= all);
        self.next_message_id = self.next_message_id + count as u32;
        self.published_count = count_up(self.published_count, count);
        self.published_bytes = bytes;
        Ok(published)
    }

    /// The number of the topic.
    pub fn internal_id(&self) -> (id: u32)
        ensures
            id == self@.internal_id,
    {
        self.internal_id
    }

    /// The name of the topic.
    pub fn name(&self) -> (name: &TopicName)
        ensures
            *name == self@.info.name,
    {
        &self.info.name
    }

    /// What the topic is configured to do.
    pub fn get_info(&self) -> (info: &TopicInfo)
        ensures
            *info == self@.info,
    {
        &self.info
    }

    /// Changes what the topic is configured to do.
    pub fn update_info(&mut self, update: TopicUpdate)
        ensures
            final(self)@ == (TopicState {
                info: updated_topic(old(self)@.info, update),
                ..old(self)@
            }),
    {
        self.info.apply_update(update);
    }

    /// Where the subscription stands among the attached ones.
    fn place_of(&self, name: &SubscriptionName) -> (place: Option<usize>)
        ensures
            match place {
                Some(i) => i < self@.subscriptions.len() && self@.subscriptions[i as int] == name@,
                None => !self@.subscriptions.contains(name@),
            },
    {
        let mut i: usize = 0;
        while i < self.subscriptions.len()
            invariant
                i <= self.subscriptions@.len(),
                forall|j: int| 0 <= j < i ==> self@.subscriptions[j] != name@,
            decreases self.subscriptions@.len() - i,
        {
            if self.subscriptions[i].same(name) {
                return Some(i);
            }
            i += 1;
        }
        None
    }

    /// Attaches a subscription, unless it is attached already.
    pub fn attach_subscription(&mut self, name: SubscriptionName)
        ensures
            final(self)@ == attached(old(self)@, name@),
    {
        if self.place_of(&name).is_none() {
            self.subscriptions.push(name);
            assert(self@.subscriptions =~= old(self)@.subscriptions.push(name@));
        }
    }

    /// Hands no more messages to the subscription.
    pub fn remove_subscription(&mut self, name: &SubscriptionName)
        ensures
            final(self)@ == removed(old(self)@, name@),
    {
        let ghost start = self@;
        let mut kept: Vec<SubscriptionName> = Vec::new();
        let mut i: usize = 0;
        assert(start.subscriptions.take(0) =~= Seq::empty());
        assert(name_views(kept@) =~= Seq::empty());
        while i < self.subscriptions.len()
            invariant
                *self == *old(self),
                start == self@,
                i <= self.subscriptions@.len(),
                name_views(kept@) == others(start.subscriptions.take(i as int), name@),
            decreases self.subscriptions@.len() - i,
        {
            proof {
                collections::lemma_select_step(
                    start.subscriptions,
                    is_not(name@),
                    i as int,
                );
            }
            let ghost before = kept@;
            if !self.subscriptions[i].same(name) {
                kept.push(self.subscriptions[i].clone());
                assert(name_views(kept@) =~= name_views(before).push(
                    start.subscriptions[i as int],
                ));
            }
            i += 1;
        }
        assert(start.subscriptions.take(start.subscriptions.len() as int) =~= start.subscriptions);
        self.subscriptions = kept;
    }

    /// The attached subscriptions.
    pub fn all_subscriptions(&self) -> (names: Vec<SubscriptionName>)
        ensures
            name_views(names@) == self@.subscriptions,
    {
        let mut names: Vec<SubscriptionName> = Vec::new();
        let mut i: usize = 0;
        while i < self.subscriptions.len()
            invariant
                i <= self.subscriptions@.len(),
                name_views(names@) =~= self@.subscriptions.take(i as int),
            decreases self.subscriptions@.len() - i,
        {
            let ghost before = names@;
            names.push(self.subscriptions[i].clone());
            assert(name_views(names@) =~= name_views(before).push(self@.subscriptions[i as int]));
            i += 1;
        }
        assert(self@.subscriptions.take(self@.subscriptions.len() as int) =~= self@.subscriptions);
        names
    }

    /// A page of the attached subscriptions.
    pub fn list_subscriptions(&self, paging: Paging) -> (page: SubscriptionsPage)
        ensures
            ({
                let all = self@.subscriptions;
                let end = paging::page_end(paging, all.len());
                let start = if paging.start() <= end {
                    paging.start() as int
                } else {
                    end as int
                };
                &&& name_views(page.subscriptions@) == all.subrange(start, end as int)
                &&& match page.offset {
                    Some(o) => o == end && end < all.len(),
                    None => end == all.len(),
                }
            }),
    {
        let (start, end) = paging.range(self.subscriptions.len());
        let mut subscriptions: Vec<SubscriptionName> = Vec::new();
        let mut i: usize = start;
        while i < end
            invariant
                start <= i <= end <= self.subscriptions@.len(),
                name_views(subscriptions@) =~= self@.subscriptions.subrange(start as int, i as int),
            decreases end - i,
        {
            let ghost before = subscriptions@;
            subscriptions.push(self.subscriptions[i].clone());
            assert(name_views(subscriptions@) =~= name_views(before).push(
                self@.subscriptions[i as int],
            ));
            i += 1;
        }
        let offset: Option<usize> = if end < self.subscriptions.len() {
            Some(end)
        } else {
            None
        };
        SubscriptionsPage { subscriptions, offset }
    }

    /// The figures on the topic. It hands messages on and retains none.
    pub fn get_stats(&self) -> (s: TopicStats)
        ensures
            s == (TopicStats {
                topic_name: self@.info.name,
                message_count: 0,
                subscription_count: self@.subscriptions.len() as usize,
                published_count: self@.published_count,
                published_bytes: self@.published_bytes,
            }),
            s.subscription_count == self@.subscriptions.len(),
    {
        TopicStats::new(
            self.info.name.clone(),
            0,
            self.subscriptions.len(),
            self.published_count,
            self.published_bytes,
        )
    }
}

/// Being another name.
pub open spec fn is_not(name: SubscriptionNameView) -> spec_fn(SubscriptionNameView) -> bool {
    |n: SubscriptionNameView| n != name
}

/// The names but for one.
pub open spec fn others(
    names: Seq<SubscriptionNameView>,
    name: SubscriptionNameView,
) -> Seq<SubscriptionNameView> {
    collections::select(names, is_not(name))
}

/// A topic after a subscription was attached.
pub open spec fn attached(t: TopicState, name: SubscriptionNameView) -> TopicState {
    if t.subscriptions.contains(name) {
        t
    } else {
        TopicState { subscriptions: t.subscriptions.push(name), ..t }
    }
}

/// A topic after a subscription was removed.
pub open spec fn removed(t: TopicState, name: SubscriptionNameView) -> TopicState {
    TopicState { subscriptions: others(t.subscriptions, name), ..t }
}

/// Messages published to a topic one after the other never get the same id.
pub proof fn law_published_ids_differ(
    t: TopicState,
    first: Seq<TopicMessage>,
    published_first: Seq<Arc<TopicMessage>>,
    second: Seq<TopicMessage>,
    published_second: Seq<Arc<TopicMessage>>,
    at: SystemTime,
    instant: Instant,
    later_at: SystemTime,
    later_instant: Instant,
    i: int,
    j: int,
)
    requires
        t.next_message_id + first.len() + second.len() <= u32::MAX,
        are_published(published_first, first, t, at, instant),
        are_published(
            published_second,
            second,
            after_publish(t, first),
            later_at,
            later_instant,
        ),
        0 <= i < first.len(),
        0 <= j < second.len(),
    ensures
        published_first[i].id.value != published_second[j].id.value,
{
    let t2 = after_publish(t, first);
    assert(is_published(
        *published_first[i],
        first[i],
        t,
        t.next_message_id + i,
        at,
        instant,
    ));
    assert(is_published(
        *published_second[j],
        second[j],
        t2,
        t2.next_message_id + j,
        later_at,
        later_instant,
    ));
}

} // verus!
