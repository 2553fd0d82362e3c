//! A subscription at work: holds its messages, delivers them, and takes back what is not
//! acknowledged.
use std::collections::{HashMap, VecDeque};
use std::sync::Arc;
use vstd::prelude::*;

use crate::collections;
use crate::collections::StringMap;
use crate::message_data::bytes_clone;
use crate::subscriptions::ack::{
    AckDeadline, AckId, AckOutcome, DeadlineModification, Delivery, PulledMessage,
};
use crate::subscriptions::filter::Filter;
use crate::subscriptions::info::{PushConfig, SubscriptionInfo, SubscriptionUpdate};
use crate::subscriptions::key_queues;
use crate::subscriptions::key_queues::{KeyQueues, KeySet};
use crate::subscriptions::outstanding;
use crate::subscriptions::outstanding::OutstandingMessageTracker;
use crate::subscriptions::retry_queue;
use crate::subscriptions::retry_queue::RetryQueue;
use crate::subscriptions::state;
use crate::subscriptions::state::{Condemned, SubscriptionState, MAX_PULL_COUNT};
use crate::subscriptions::state_laws;
use crate::subscriptions::stats::{count_up, SubscriptionCounters, SubscriptionStats};
use crate::text;
use crate::time;
use crate::time::{Duration, Instant, SystemTime};
use crate::topics::topic_message::{share, TopicMessage};
use crate::topics::topic_name::{TopicName, TopicNameView};

verus! {

broadcast use vstd::std_specs::hash::group_hash_axioms;

/// Why nothing could be pulled.
#[derive(Debug, PartialEq, Eq, Structural, Copy, Clone)]
pub enum PullMessagesError {
    /// The subscription is gone.
    Closed,
    /// The subscription was detached from its topic.
    Detached,
}

/// What a pull delivered.
#[derive(Debug)]
pub struct PulledBatch {
    pub messages: Vec<PulledMessage>,
    /// Whether there is more to pull.
    pub more_available: bool,
}

/// What came of an acknowledgement.
#[derive(Debug)]
pub struct Acknowledged {
    pub outcome: AckOutcome,
    /// Whether fewer messages are outstanding now.
    pub outstanding_freed: bool,
    /// Whether messages of an ordering key can be pulled that could not before.
    pub messages_available: bool,
}

/// What came of messages that were taken back.
#[derive(Debug)]
pub struct Returned {
    /// Messages to publish to the dead letter topic.
    pub dead_letters: Vec<TopicMessage>,
    /// Whether there is something to pull.
    pub messages_available: bool,
}

/// What came of a modification of deadlines.
#[derive(Debug)]
pub struct DeadlinesModified {
    pub outcome: AckOutcome,
    pub returned: Returned,
}

/// A subscription at work.
#[derive(Debug)]
pub struct SubscriptionActor {
    internal_id: u32,
    /// The topic that the subscription is attached to; none where that was deleted.
    topic: Option<TopicName>,
    info: SubscriptionInfo,
    /// Messages to deliver.
    backlog: VecDeque<Arc<TopicMessage>>,
    /// Messages that were delivered and not acknowledged.
    outstanding: OutstandingMessageTracker,
    next_ack_id: u64,
    deleted: bool,
    /// How often messages were delivered, by message id.
    delivery_attempts: HashMap<u64, u16>,
    /// Messages that wait for their retry.
    retry_queue: RetryQueue,
    compiled_filter: Option<Filter>,
    /// Messages to deliver by ordering key.
    ordered_queues: KeyQueues,
    /// The ordering keys of which a message is delivered or waits for its retry.
    keys_in_flight: KeySet,
    counters: SubscriptionCounters,
}

impl View for SubscriptionActor {
    type V = SubscriptionState;

    closed spec fn view(&self) -> SubscriptionState {
        SubscriptionState {
            info: self.info,
            filter: match self.compiled_filter {
                Some(f) => Some(f@),
                None => None,
            },
            backlog: self.backlog@,
            queues: self.ordered_queues@,
            in_flight: self.keys_in_flight@,
            outstanding: self.outstanding@,
            retries: self.retry_queue@,
            attempts: self.delivery_attempts@,
            next_ack_id: self.next_ack_id,
            deleted: self.deleted,
            counters: self.counters,
        }
    }
}

impl SubscriptionActor {
    /// The topic that the subscription is attached to; none where that was deleted.
    pub closed spec fn attached_to(&self) -> Option<TopicName> {
        self.topic
    }

    /// The number of the subscription.
    pub closed spec fn number(&self) -> u32 {
        self.internal_id
    }

    /// Only finitely many ordering keys have something queued.
    pub proof fn law_finitely_queued(&self)
        ensures
            state_laws::finitely_queued(self@),
    {
        self.ordered_queues.lemma_finite();
    }

    /// A new subscription to the topic. A filter that does not parse is left out.
    pub fn start(internal_id: u32, info: SubscriptionInfo, topic: TopicName) -> (a:
        SubscriptionActor)
        ensures
            a@ == state::started(info),
            a.attached_to() == Some(topic),
            a.number() == internal_id,
    {
        let compiled_filter = match &info.filter {
            Some(raw) => match Filter::parse(raw.as_str()) {
                Ok(f) => Some(f),
                Err(_) => None,
            },
            None => None,
        };
        let a = SubscriptionActor {
            internal_id,
            topic: Some(topic),
            info,
            backlog: VecDeque::new(),
            outstanding: OutstandingMessageTracker::new(),
            next_ack_id: 1,
            deleted: false,
            delivery_attempts: HashMap::new(),
            retry_queue: RetryQueue::new(),
            compiled_filter,
            ordered_queues: KeyQueues::new(),
            keys_in_flight: KeySet::new(),
            counters: SubscriptionCounters::default(),
        };
        assert(a@ =~= state::started(info));
        a
    }

    /// The number of the subscription.
    pub fn internal_id(&self) -> (id: u32)
        ensures
            id == self.number(),
    {
        self.internal_id
    }

    /// The topic that the subscription is attached to; none where that was deleted.
    pub fn topic(&self) -> (topic: &Option<TopicName>)
        ensures
            *topic == self.attached_to(),
    {
        &self.topic
    }

    /// The topic was deleted.
    pub fn topic_deleted(&mut self)
        ensures
            final(self)@ == old(self)@,
            final(self).attached_to() is None,
            final(self).number() == old(self).number(),
    {
        self.topic = None;
    }

    /// What the subscription is configured to do.
    pub fn get_info(&self) -> (info: &SubscriptionInfo)
        ensures
            *info == self@.info,
    {
        &self.info
    }

    /// Whether the subscription was deleted.
    pub fn is_deleted(&self) -> (b: bool)
        ensures
            b == self@.deleted,
    {
        self.deleted
    }

    /// Changes what the subscription is configured to do, unless it was deleted.
    pub fn update_info(&mut self, update: SubscriptionUpdate)
        ensures
            final(self)@ == state::reconfigured(old(self)@, update),
            final(self).attached_to() == old(self).attached_to(),
            final(self).number() == old(self).number(),
    {
        if self.deleted {
            return;
        }
        self.info.apply_update(update);
    }

    /// Sets where messages are pushed, unless the subscription was deleted; none makes it one that is
    /// pulled from.
    pub fn modify_push_config(&mut self, push_config: Option<PushConfig>)
        ensures
            final(self)@ == state::repushed(old(self)@, push_config),
            final(self).attached_to() == old(self).attached_to(),
            final(self).number() == old(self).number(),
    {
        if self.deleted {
            return;
        }
        self.info.push_config = push_config;
    }

    /// Whether the message passes the filter.
    fn passes_filter(&self, message: &TopicMessage) -> (b: bool)
        ensures
            b == state::passes(self@.filter, *message),
    {
        match &self.compiled_filter {
            Some(f) => f.matches(message.attributes.as_ref()),
            None => true,
        }
    }

    /// Takes new messages. Those that do not match the filter are dropped. Says whether one was
    /// taken.
    pub fn post_messages(&mut self, new_messages: &Vec<Arc<TopicMessage>>) -> (messages_available:
        bool)
        ensures
            final(self)@ == state::posted(old(self)@, new_messages@),
            messages_available == (!old(self)@.deleted && exists|i: int|
                0 <= i < new_messages@.len() && state::passes(
                    old(self)@.filter,
                    *#[trigger] new_messages@[i],
                )),
            final(self).attached_to() == old(self).attached_to(),
            final(self).number() == old(self).number(),
    {
        if self.deleted {
            return false;
        }
        let mut had_any = false;
        let mut i: usize = 0;
        assert(new_messages@.take(0) =~= Seq::empty());
        while i < new_messages.len()
            invariant
                i <= new_messages@.len(),
                self@ == state::all_enqueued(old(self)@, new_messages@.take(i as int)),
                self@.filter == old(self)@.filter,
                self@.info == old(self)@.info,
                self.topic == old(self).topic,
                self.internal_id == old(self).internal_id,
                had_any == exists|j: int|
                    0 <= j < i && state::passes(old(self)@.filter, *#[trigger] new_messages@[j]),
            decreases new_messages@.len() - i,
        {
            assert(new_messages@.take(i + 1).drop_last() =~= new_messages@.take(i as int));
            let ghost before = self@;
            if self.passes_filter(&new_messages[i]) {
                let message = share(&new_messages[i]);
                self.enqueue(message);
                had_any = true;
            }
            i += 1;
        }
        assert(new_messages@.take(new_messages@.len() as int) =~= new_messages@);
        had_any
    }

    /// Puts the message at the end of its queue.
    fn enqueue(&mut self, message: Arc<TopicMessage>)
        ensures
            final(self)@ == state::enqueued(old(self)@, message),
            final(self).topic == old(self).topic,
            final(self).internal_id == old(self).internal_id,
    {
        let handle = share(&message);
        match (&handle.ordering_key, self.info.enable_message_ordering) {
            (Some(key), true) => {
                self.ordered_queues.push_back(key.as_str(), message);
            },
            _ => {
                self.backlog.push_back(message);
            },
        }
    }

    /// Whether the message is too old to be delivered.
    fn is_message_expired(&self, message: &TopicMessage, now: Instant) -> (b: bool)
        ensures
            b == state::aged_out(self@.info, *message, now@),
    {
        match self.info.message_retention_duration {
            Some(retention) => {
                let limit: u128 = retention.as_nanos();
                let age: u128 = now.saturating_duration_since(
                    message.published_at_instant,
                ).as_nanos();
                age >= limit
            },
            None => false,
        }
    }

    /// Delivers the message.
    fn deliver(&mut self, message: Arc<TopicMessage>, now: Instant) -> (pulled: PulledMessage)
        requires
            old(self)@.next_ack_id < u64::MAX,
        ensures
            final(self)@ == state::delivered(old(self)@, message, now@),
            pulled@ == state::next_delivery(old(self)@, message, now@),
            final(self).topic == old(self).topic,
            final(self).internal_id == old(self).internal_id,
    {
        let deadline = now.plus(self.info.ack_deadline);
        let ack_id = AckId::new(self.next_ack_id);
        let delivery_attempt: u16 = match self.delivery_attempts.get(&message.id.value) {
            Some(attempt) => *attempt,
            None => 1,
        };
        let pulled = PulledMessage::new(
            message,
            ack_id,
            AckDeadline::new(&deadline),
            delivery_attempt,
        );
        self.next_ack_id = self.next_ack_id + 1;
        self.outstanding.push(pulled.clone());
        self.counters.pulled = count_up(self.counters.pulled, 1);
        pulled
    }

    /// Delivers the first message of the key that is not too old; drops those before it.
    fn pull_key(&mut self, key: &str, now: Instant) -> (pulled: Option<PulledMessage>)
        requires
            old(self)@.next_ack_id < u64::MAX,
        ensures
            final(self)@ == state::key_pulled(old(self)@, key@, now@),
            match pulled {
                Some(p) => final(self)@.outstanding == old(self)@.outstanding.push(p@)
                    && final(self)@.next_ack_id == old(self)@.next_ack_id + 1,
                None => final(self)@.outstanding == old(self)@.outstanding
                    && final(self)@.next_ack_id == old(self)@.next_ack_id,
            },
            final(self)@.info == old(self)@.info,
            final(self)@.deleted == old(self)@.deleted,
            final(self).topic == old(self).topic,
            final(self).internal_id == old(self).internal_id,
    {
        let ghost start = self@;
        loop
            invariant
                start == old(self)@,
                self@.next_ack_id < u64::MAX,
                state::key_pulled(self@, key@, now@) == state::key_pulled(start, key@, now@),
                self@.outstanding == start.outstanding,
                self@.next_ack_id == start.next_ack_id,
                self@.info == start.info,
                self@.deleted == start.deleted,
                self.topic == old(self).topic,
                self.internal_id == old(self).internal_id,
            decreases self@.queues[key@].len(),
        {
            let ghost before = self@;
            match self.ordered_queues.pop_front(key) {
                None => {
                    return None;
                },
                Some(head) => {
                    let ghost rest = SubscriptionState {
                        queues: before.queues.insert(key@, before.queues[key@].drop_first()),
                        ..before
                    };
                    assert(self@ =~= rest);
                    if self.is_message_expired(&head, now) {
                        self.delivery_attempts.remove(&head.id.value);
                        assert(self@ =~= state::forgotten(rest, *head));
                    } else {
                        self.keys_in_flight.insert(key);
                        assert(self@ =~= (SubscriptionState {
                            in_flight: rest.in_flight.insert(key@),
                            ..rest
                        }));
                        let pulled = self.deliver(head, now);
                        return Some(pulled);
                    }
                },
            }
        }
    }

    /// How many messages a pull may deliver.
    fn room_for(&self, max_count: u16, max_outstanding: u16) -> (room: u16)
        ensures
            room == state::pull_room(self@, max_count, max_outstanding),
    {
        let mut room: u16 = if max_count <= MAX_PULL_COUNT {
            max_count
        } else {
            MAX_PULL_COUNT
        };
        let ids_left: u64 = u64::MAX - self.next_ack_id;
        if (room as u64) > ids_left {
            room = ids_left as u16;
        }
        if max_outstanding > 0 {
            let outstanding: usize = self.outstanding.len();
            if outstanding >= max_outstanding as usize {
                return 0;
            }
            let headroom: u16 = max_outstanding - outstanding as u16;
            if room > headroom {
                room = headroom;
            }
        }
        room
    }

    /// Delivers messages; they stay out of reach of other pulls until they come back. With
    /// `max_outstanding` above zero not more than that many are outstanding afterwards on account
    /// of this pull.
    pub fn pull_messages(&mut self, max_count: u16, max_outstanding: u16, now: Instant) -> (r:
        Result<PulledBatch, PullMessagesError>)
        ensures
            final(self)@ == state::pulled(old(self)@, max_count, max_outstanding, now@),
            match r {
                Ok(batch) => {
                    &&& old(self)@.deleted || !old(self)@.info.detached
                    &&& outstanding::deliveries(batch.messages@)
                        == final(self)@.outstanding.skip(old(self)@.outstanding.len() as int)
                    &&& batch.more_available == (!old(self)@.deleted && state::pull_room(
                        old(self)@,
                        max_count,
                        max_outstanding,
                    ) > 0 && state::pullable(final(self)@))
                },
                Err(e) => {
                    &&& e == PullMessagesError::Detached
                    &&& !old(self)@.deleted && old(self)@.info.detached
                },
            },
            final(self).attached_to() == old(self).attached_to(),
            final(self).number() == old(self).number(),
    {
        let ghost start = self@;
        let mut messages: Vec<PulledMessage> = Vec::new();
        assert(outstanding::deliveries(messages@) =~= Seq::<Delivery>::empty());
        assert(start.outstanding.skip(start.outstanding.len() as int) =~= Seq::<Delivery>::empty());
        if self.deleted {
            return Ok(PulledBatch { messages, more_available: false });
        }
        if self.info.detached {
            return Err(PullMessagesError::Detached);
        }
        let room: u16 = self.room_for(max_count, max_outstanding);
        let ghost limit = start.outstanding.len() + room;
        if room == 0 {
            proof {
                let keys = key_queues::listing(state::free_keys(start));
                assert(state::keys_pulled(start, keys, limit as nat, now@) == start);
            }
            return Ok(PulledBatch { messages, more_available: false });
        }
        // The head of each queue whose key is free.
        let keys = self.ordered_queues.waiting(&self.keys_in_flight);
        let ghost listed = key_queues::texts(keys@);
        let mut i: usize = 0;
        assert(listed.skip(0) =~= listed);
        while i < keys.len() && messages.len() < room as usize
            invariant
                i <= keys@.len(),
                listed == key_queues::texts(keys@),
                limit == start.outstanding.len() + room,
                messages@.len() <= room,
                start.next_ack_id + room <= u64::MAX,
                self@.next_ack_id == start.next_ack_id + messages@.len(),
                self@.outstanding == start.outstanding + outstanding::deliveries(messages@),
                self@.info == start.info,
                self@.deleted == start.deleted,
                self.topic == old(self).topic,
                self.internal_id == old(self).internal_id,
                state::keys_pulled(self@, listed.skip(i as int), limit as nat, now@)
                    == state::keys_pulled(start, listed, limit as nat, now@),
            decreases keys@.len() - i,
        {
            assert(listed.skip(i as int)[0] == keys@[i as int]@);
            assert(listed.skip(i as int).drop_first() =~= listed.skip(i + 1));
            let ghost before = messages@;
            if let Some(pulled) = self.pull_key(keys[i].as_str(), now) {
                messages.push(pulled);
                assert(outstanding::deliveries(messages@) =~= outstanding::deliveries(before).push(
                    pulled@,
                ));
                assert(self@.outstanding =~= start.outstanding + outstanding::deliveries(
                    messages@,
                ));
            }
            i += 1;
        }
        proof {
            assert(self@.outstanding.len() == start.outstanding.len() + messages@.len());
            assert(state::keys_pulled(self@, listed.skip(i as int), limit as nat, now@) == self@);
        }
        let ghost middle = self@;
        // Then the backlog, up to what room is left.
        while messages.len() < room as usize && self.backlog.len() > 0
            invariant
                limit == start.outstanding.len() + room,
                messages@.len() <= room,
                start.next_ack_id + room <= u64::MAX,
                self@.next_ack_id == start.next_ack_id + messages@.len(),
                self@.outstanding == start.outstanding + outstanding::deliveries(messages@),
                self.topic == old(self).topic,
                self.internal_id == old(self).internal_id,
                state::backlog_pulled(self@, limit as nat, now@) == state::backlog_pulled(
                    middle,
                    limit as nat,
                    now@,
                ),
            decreases self.backlog@.len(),
        {
            let ghost before = self@;
            let ghost messages_before = messages@;
            if let Some(message) = self.backlog.pop_front() {
                let ghost rest = SubscriptionState { backlog: before.backlog.drop_first(), ..before };
                assert(self@ =~= rest);
                if self.is_message_expired(&message, now) {
                    self.delivery_attempts.remove(&message.id.value);
                    assert(self@ =~= state::forgotten(rest, *message));
                } else {
                    let pulled = self.deliver(message, now);
                    messages.push(pulled);
                    assert(outstanding::deliveries(messages@) =~= outstanding::deliveries(
                        messages_before,
                    ).push(pulled@));
                    assert(self@.outstanding =~= start.outstanding + outstanding::deliveries(
                        messages@,
                    ));
                }
            }
        }
        proof {
            assert(state::backlog_pulled(self@, limit as nat, now@) == self@);
            assert(self@.outstanding.skip(start.outstanding.len() as int)
                =~= outstanding::deliveries(messages@));
        }
        let more_available = self.is_pullable();
        Ok(PulledBatch { messages, more_available })
    }

    /// Whether there is something to pull.
    pub fn is_pullable(&self) -> (b: bool)
        ensures
            b == state::pullable(self@),
    {
        let key_free = self.ordered_queues.any_waiting(&self.keys_in_flight);
        proof {
            let free = state::free_keys(self@);
            assert(free == key_queues::waiting_keys(self.ordered_queues@, self.keys_in_flight@));
            assert(key_free == exists|k: Seq<char>| free.contains(k));
        }
        self.backlog.len() > 0 || key_free
    }

    /// Acknowledges messages.
    pub fn acknowledge_messages(&mut self, ack_ids: Vec<AckId>) -> (r: Acknowledged)
        ensures
            final(self)@ == state::acknowledged(old(self)@, outstanding::id_set(ack_ids@)),
            if old(self)@.deleted {
                r.outcome.valid@.len() == 0 && r.outcome.invalid@.len() == 0
                    && !r.outstanding_freed && !r.messages_available
            } else {
                let gone = outstanding::named(
                    old(self)@.outstanding,
                    outstanding::id_set(ack_ids@),
                );
                &&& r.outcome.valid@ == state::valid_ids(old(self)@.outstanding, ack_ids@)
                &&& r.outcome.invalid@ == state::invalid_ids(old(self)@.outstanding, ack_ids@)
                &&& r.outstanding_freed == (gone.len() > 0)
                &&& r.messages_available == exists|i: int|
                    0 <= i < gone.len() && state::holds_key(old(self)@, *(#[trigger] gone[i]).message)
            },
            final(self).attached_to() == old(self).attached_to(),
            final(self).number() == old(self).number(),
    {
        if self.deleted {
            return Acknowledged {
                outcome: AckOutcome::default(),
                outstanding_freed: false,
                messages_available: false,
            };
        }
        let ghost start = self@;
        let outcome = self.outcome_of(&ack_ids);
        let acked = self.outstanding.remove(&ack_ids);
        let ghost gone = outstanding::deliveries(acked@);
        self.counters.acked = count_up(self.counters.acked, acked.len());
        let ghost taken = self@;
        let mut key_freed = false;
        let mut i: usize = 0;
        assert(gone.take(0) =~= Seq::<Delivery>::empty());
        while i < acked.len()
            invariant
                i <= acked@.len(),
                gone == outstanding::deliveries(acked@),
                taken.info == start.info,
                taken.in_flight == start.in_flight,
                self@ == state::all_gone(taken, gone.take(i as int)),
                self@.info == taken.info,
                self.topic == old(self).topic,
                self.internal_id == old(self).internal_id,
                key_freed == exists|j: int|
                    0 <= j < i && state::holds_key(start, *(#[trigger] gone[j]).message),
                forall|k: Seq<char>| #[trigger]
                    self@.in_flight.contains(k) ==> start.in_flight.contains(k),
                forall|k: Seq<char>|
                    start.in_flight.contains(k) && !#[trigger] self@.in_flight.contains(k)
                        ==> key_freed,
            decreases acked@.len() - i,
        {
            assert(gone.take(i + 1).drop_last() =~= gone.take(i as int));
            let message = acked[i].message();
            assert(gone[i as int].message == *message);
            let ghost before = self@;
            let freed = self.release(message);
            assert(state::holds_key(start, **message) == (freed || key_freed && state::holds_key(
                start,
                **message,
            )));
            key_freed = key_freed || freed;
            i += 1;
        }
        assert(gone.take(gone.len() as int) =~= gone);
        Acknowledged {
            outcome,
            outstanding_freed: acked.len() > 0,
            messages_available: key_freed,
        }
    }

    /// Splits ids into those that name an outstanding message and those that do not.
    fn outcome_of(&self, ack_ids: &Vec<AckId>) -> (outcome: AckOutcome)
        ensures
            outcome.valid@ == state::valid_ids(self@.outstanding, ack_ids@),
            outcome.invalid@ == state::invalid_ids(self@.outstanding, ack_ids@),
    {
        let mut outcome = AckOutcome::default();
        let ghost s = self@.outstanding;
        let mut i: usize = 0;
        assert(ack_ids@.take(0) =~= Seq::<AckId>::empty());
        assert(outcome.valid@ =~= Seq::<AckId>::empty());
        assert(outcome.invalid@ =~= Seq::<AckId>::empty());
        while i < ack_ids.len()
            invariant
                i <= ack_ids@.len(),
                s == self@.outstanding,
                outcome.valid@ == state::valid_ids(s, ack_ids@.take(i as int)),
                outcome.invalid@ == state::invalid_ids(s, ack_ids@.take(i as int)),
            decreases ack_ids@.len() - i,
        {
            proof {
                collections::lemma_select_step(
                    ack_ids@,
                    |id: AckId| outstanding::is_delivered(s, id.value),
                    i as int,
                );
                collections::lemma_select_step(
                    ack_ids@,
                    |id: AckId| !outstanding::is_delivered(s, id.value),
                    i as int,
                );
            }
            let id = ack_ids[i];
            if self.outstanding.contains(&id) {
                outcome.valid.push(id);
            } else {
                outcome.invalid.push(id);
            }
            i += 1;
        }
        assert(ack_ids@.take(ack_ids@.len() as int) =~= ack_ids@);
        outcome
    }

    /// Forgets the attempts of a message and frees its ordering key. Says whether the key was in
    /// flight.
    fn release(&mut self, message: &Arc<TopicMessage>) -> (freed: bool)
        ensures
            final(self)@ == state::key_released(
                state::forgotten(old(self)@, **message),
                **message,
            ),
            freed == state::holds_key(old(self)@, **message),
            final(self).topic == old(self).topic,
            final(self).internal_id == old(self).internal_id,
    {
        self.delivery_attempts.remove(&message.id.value);
        assert(self@ =~= state::forgotten(old(self)@, **message));
        match (&message.ordering_key, self.info.enable_message_ordering) {
            (Some(key), true) => {
                let freed = self.keys_in_flight.remove(key.as_str());
                assert(self@ =~= state::key_released(
                    state::forgotten(old(self)@, **message),
                    **message,
                ));
                freed
            },
            _ => false,
        }
    }

    /// Puts a message back where it is pulled from: the front of the queue of its key, which is
    /// free then, or the end of the backlog.
    fn requeue_one(&mut self, message: Arc<TopicMessage>)
        ensures
            final(self)@ == state::put_back(old(self)@, message),
            final(self).topic == old(self).topic,
            final(self).internal_id == old(self).internal_id,
    {
        let handle = share(&message);
        match (&handle.ordering_key, self.info.enable_message_ordering) {
            (Some(key), true) => {
                self.ordered_queues.push_front(key.as_str(), message);
                let was_in_flight = self.keys_in_flight.remove(key.as_str());
            },
            _ => {
                self.backlog.push_back(message);
            },
        }
        assert(self@ =~= state::put_back(old(self)@, message));
    }

    /// The dead letter of a message whose attempt was refused.
    fn dead_letter(&self, message: &Arc<TopicMessage>, attempt: u16, now: Instant) -> (letter:
        TopicMessage)
        requires
            attempt > 0,
        ensures
            state::is_dead_letter(
                letter,
                self@.info,
                Condemned { message: *message, attempt },
                now@,
            ),
    {
        let mut attributes = match &message.attributes {
            Some(a) => a.clone(),
            None => StringMap::new(),
        };
        attributes.insert(
            "CloudPubSubDeadLetterSourceDeliveryCount".to_owned(),
            text::decimal_string((attempt - 1) as u64),
        );
        attributes.insert(
            "CloudPubSubDeadLetterSourceSubscription".to_owned(),
            self.info.name.subscription_id().to_owned(),
        );
        attributes.insert(
            "CloudPubSubDeadLetterSourceSubscriptionProject".to_owned(),
            self.info.name.project_id().to_owned(),
        );
        let publish_time = time::format_rfc3339(message.published_at);
        let ghost publish_text = publish_time@;
        attributes.insert("CloudPubSubDeadLetterSourceTopicPublishTime".to_owned(), publish_time);
        proof {
            let c = Condemned { message: *message, attempt };
            assert(time::is_rfc3339_of(
                publish_text,
                time::from_epoch_on(c.message.published_at@),
            ));
            assert(attributes@ == state::dead_letter_attributes(self@.info, c, publish_text));
        }
        TopicMessage::new(bytes_clone(&message.data), Some(attributes), now)
    }

    /// Takes back messages that were returned or whose deadline came: each goes to the dead letter
    /// topic, waits for its retry or is put back.
    fn requeue_messages(&mut self, messages: Vec<PulledMessage>, now: Instant) -> (r: Returned)
        ensures
            final(self)@ == state::all_requeued(
                old(self)@,
                outstanding::deliveries(messages@),
                now@,
            ),
            state::are_dead_letters(
                r.dead_letters@,
                old(self)@.info,
                state::condemned(old(self)@, outstanding::deliveries(messages@), now@),
                now@,
            ),
            r.messages_available == state::pullable(final(self)@),
            final(self).topic == old(self).topic,
            final(self).internal_id == old(self).internal_id,
    {
        let ghost start = self@;
        let ghost returned = outstanding::deliveries(messages@);
        let mut dead_letters: Vec<TopicMessage> = Vec::new();
        let mut i: usize = 0;
        assert(returned.take(0) =~= Seq::<Delivery>::empty());
        while i < messages.len()
            invariant
                i <= messages@.len(),
                returned == outstanding::deliveries(messages@),
                self@ == state::all_requeued(start, returned.take(i as int), now@),
                self@.info == start.info,
                self.topic == old(self).topic,
                self.internal_id == old(self).internal_id,
                state::are_dead_letters(
                    dead_letters@,
                    start.info,
                    state::condemned(start, returned.take(i as int), now@),
                    now@,
                ),
            decreases messages@.len() - i,
        {
            assert(returned.take(i + 1).drop_last() =~= returned.take(i as int));
            assert(returned.take(i + 1).last().message == messages@[i as int].message);
            let message = share(messages[i].message());
            if let Some(letter) = self.requeue(message, now) {
                dead_letters.push(letter);
            }
            i += 1;
        }
        assert(returned.take(returned.len() as int) =~= returned);
        let messages_available = self.is_pullable();
        Returned { dead_letters, messages_available }
    }

    /// Takes back one message. Gives its dead letter where it was delivered too often.
    fn requeue(&mut self, message: Arc<TopicMessage>, now: Instant) -> (letter: Option<
        TopicMessage,
    >)
        ensures
            final(self)@ == state::requeued(old(self)@, message, now@),
            match letter {
                Some(l) => {
                    let attempt = state::next_attempt(old(self)@, *message);
                    &&& state::exhausted(old(self)@.info, attempt)
                    &&& state::is_dead_letter(
                        l,
                        old(self)@.info,
                        Condemned { message, attempt },
                        now@,
                    )
                },
                None => !state::exhausted(
                    old(self)@.info,
                    state::next_attempt(old(self)@, *message),
                ),
            },
            final(self).topic == old(self).topic,
            final(self).internal_id == old(self).internal_id,
    {
        let ghost start = self@;
        let attempt: u16 = match self.delivery_attempts.get(&message.id.value) {
            Some(a) => a.saturating_add(1),
            None => 2,
        };
        assert(attempt == state::next_attempt(start, *message));
        let exhausted = match &self.info.dead_letter_policy {
            Some(policy) => attempt as i32 > policy.max_delivery_attempts,
            None => false,
        };
        if exhausted {
            let letter = self.dead_letter(&message, attempt, now);
            self.counters.dead_lettered = count_up(self.counters.dead_lettered, 1);
            let freed = self.release(&message);
            return Some(letter);
        }
        self.delivery_attempts.insert(message.id.value, attempt);
        let ghost tried = SubscriptionState {
            attempts: start.attempts.insert(message.id.value, attempt),
            ..start
        };
        assert(self@ =~= tried);
        match &self.info.retry_policy {
            Some(policy) => {
                let deliver_at = now.plus(policy.calculate_backoff(attempt));
                self.retry_queue.push(message, deliver_at);
            },
            None => {
                self.requeue_one(message);
            },
        }
        None
    }

    /// Moves deadlines, and takes back the messages that are returned.
    pub fn modify_deadline(
        &mut self,
        deadline_modifications: Vec<DeadlineModification>,
        now: Instant,
    ) -> (r: DeadlinesModified)
        ensures
            final(self)@ == state::modified(
                old(self)@,
                outstanding::modifications_of(deadline_modifications@),
                now@,
            ),
            if old(self)@.deleted {
                r.outcome.valid@.len() == 0 && r.outcome.invalid@.len() == 0
                    && r.returned.dead_letters@.len() == 0 && !r.returned.messages_available
            } else {
                let ids = state::modified_ids(deadline_modifications@);
                let modifications = outstanding::modifications_of(deadline_modifications@);
                &&& r.outcome.valid@ == state::valid_ids(old(self)@.outstanding, ids)
                &&& r.outcome.invalid@ == state::invalid_ids(old(self)@.outstanding, ids)
                &&& state::are_dead_letters(
                    r.returned.dead_letters@,
                    old(self)@.info,
                    state::condemned(
                        state::deadlines_moved(old(self)@, modifications),
                        outstanding::modified(old(self)@.outstanding, modifications).1,
                        now@,
                    ),
                    now@,
                )
                &&& r.returned.messages_available == state::pullable(final(self)@)
            },
            final(self).attached_to() == old(self).attached_to(),
            final(self).number() == old(self).number(),
    {
        if self.deleted {
            return DeadlinesModified {
                outcome: AckOutcome::default(),
                returned: Returned { dead_letters: Vec::new(), messages_available: false },
            };
        }
        let ids = ids_of(&deadline_modifications);
        let outcome = self.outcome_of(&ids);
        let nacks = self.outstanding.modify(&deadline_modifications);
        self.counters.nacked = count_up(self.counters.nacked, nacks.len());
        let returned = self.requeue_messages(nacks, now);
        DeadlinesModified { outcome, returned }
    }

    /// Takes back the messages whose deadline has come.
    pub fn handle_expired_messages(&mut self, now: Instant) -> (r: Returned)
        ensures
            final(self)@ == state::expired(old(self)@, now@),
            state::are_dead_letters(
                r.dead_letters@,
                old(self)@.info,
                state::condemned(
                    state::overdue_taken(old(self)@, now@),
                    outstanding::overdue(old(self)@.outstanding, now@),
                    now@,
                ),
                now@,
            ),
            r.messages_available == state::pullable(final(self)@),
            final(self).attached_to() == old(self).attached_to(),
            final(self).number() == old(self).number(),
    {
        let expired = self.outstanding.take_expired(now);
        self.counters.expired = count_up(self.counters.expired, expired.len());
        self.requeue_messages(expired, now)
    }

    /// Puts back the messages whose wait is over, and drops those of them that are too old. Says
    /// whether something can be pulled on that account.
    pub fn handle_retry_ready(&mut self, now: Instant) -> (messages_available: bool)
        ensures
            final(self)@ == state::retries_ended(old(self)@, now@),
            messages_available == exists|i: int|
                0 <= i < state::ready_messages(old(self)@, now@).len() && state::frees(
                    old(self)@.info,
                    *#[trigger] state::ready_messages(old(self)@, now@)[i],
                    now@,
                ),
            final(self).attached_to() == old(self).attached_to(),
            final(self).number() == old(self).number(),
    {
        let ghost start = self@;
        let ready = self.retry_queue.take_ready(now);
        let ghost taken = self@;
        let mut messages_available = false;
        let mut i: usize = 0;
        assert(ready@.take(0) =~= Seq::empty());
        while i < ready.len()
            invariant
                i <= ready@.len(),
                self@ == state::all_retried(taken, ready@.take(i as int), now@),
                self@.info == start.info,
                self.topic == old(self).topic,
                self.internal_id == old(self).internal_id,
                messages_available == exists|j: int|
                    0 <= j < i && state::frees(start.info, *#[trigger] ready@[j], now@),
            decreases ready@.len() - i,
        {
            assert(ready@.take(i + 1).drop_last() =~= ready@.take(i as int));
            let message = share(&ready[i]);
            let ordered = message.ordering_key.is_some() && self.info.enable_message_ordering;
            if self.is_message_expired(&message, now) {
                let freed = self.release(&message);
                messages_available = messages_available || ordered;
            } else {
                self.requeue_one(message);
                messages_available = true;
            }
            i += 1;
        }
        assert(ready@.take(ready@.len() as int) =~= ready@);
        messages_available
    }

    /// When the next deadline comes or the next wait is over.
    pub fn next_wakeup(&self) -> (next: Option<Instant>)
        ensures
            match next {
                Some(t) => state::is_wakeup(self@, t@) && forall|other: nat|
                    state::is_wakeup(self@, other) ==> t@ <= other,
                None => forall|other: nat| !state::is_wakeup(self@, other),
            },
    {
        match (self.outstanding.next_deadline(), self.retry_queue.next_ready()) {
            (Some(a), Some(b)) => if a.reached_by(b) {
                Some(a)
            } else {
                Some(b)
            },
            (Some(a), None) => Some(a),
            (None, b) => b,
        }
    }

    /// Drops every message.
    fn drop_messages(&mut self)
        ensures
            final(self)@ == state::cleared(old(self)@),
            final(self).topic == old(self).topic,
            final(self).internal_id == old(self).internal_id,
    {
        self.outstanding.clear();
        self.backlog.clear();
        self.retry_queue.clear();
        self.delivery_attempts.clear();
        self.ordered_queues.clear();
        self.keys_in_flight.clear();
        assert(self@ =~= state::cleared(old(self)@));
    }

    /// Detaches the subscription from its topic: its messages are dropped and nothing can be
    /// pulled any more, but the subscription stays.
    pub fn detach(&mut self)
        ensures
            final(self)@ == state::detached(old(self)@),
            final(self).attached_to() == old(self).attached_to(),
            final(self).number() == old(self).number(),
    {
        if self.deleted || self.info.detached {
            return;
        }
        self.info.detached = true;
        self.drop_messages();
    }

    /// Deletes the subscription, so that nothing changes it any more. Says whether it was there to
    /// delete.
    pub fn delete(&mut self) -> (was_there: bool)
        ensures
            final(self)@ == state::deleted(old(self)@),
            was_there == !old(self)@.deleted,
            final(self).attached_to() == old(self).attached_to(),
            final(self).number() == old(self).number(),
    {
        if self.deleted {
            return false;
        }
        self.deleted = true;
        self.drop_messages();
        true
    }

    /// Drops the messages that were published before `time`, and makes the rest pullable again.
    /// Says whether there is something to pull.
    pub fn seek_to_time(&mut self, time: SystemTime) -> (messages_available: bool)
        ensures
            final(self)@ == state::sought(old(self)@, time@),
            messages_available == (!old(self)@.deleted && state::pullable(final(self)@)),
            final(self).attached_to() == old(self).attached_to(),
            final(self).number() == old(self).number(),
    {
        if self.deleted {
            return false;
        }
        let ghost start = self@;
        let mut returned: VecDeque<Arc<TopicMessage>> = VecDeque::new();
        let mut i: usize = 0;
        let ghost from_outstanding = state::delivery_messages(start.outstanding);
        let ghost from_retries = retry_queue::retry_messages(start.retries);
        while i < self.outstanding.len()
            invariant
                *self == *old(self),
                i <= self@.outstanding.len(),
                from_outstanding == state::delivery_messages(self@.outstanding),
                returned@ =~= from_outstanding.take(i as int),
            decreases self@.outstanding.len() - i,
        {
            returned.push_back(share(self.outstanding.get(i).message()));
            i += 1;
        }
        let mut i: usize = 0;
        while i < self.retry_queue.len()
            invariant
                *self == *old(self),
                i <= self@.retries.len(),
                from_retries == retry_queue::retry_messages(self@.retries),
                returned@ =~= from_outstanding + from_retries.take(i as int),
            decreases self@.retries.len() - i,
        {
            returned.push_back(share(self.retry_queue.get(i)));
            i += 1;
        }
        assert(returned@ =~= from_outstanding + from_retries);
        let kept = key_queues::kept_since(&returned, time);
        let backlog = key_queues::kept_since(&self.backlog, time);
        self.ordered_queues.keep_since(time);
        self.backlog = backlog;
        self.outstanding.clear();
        self.retry_queue.clear();
        self.delivery_attempts.clear();
        self.keys_in_flight.clear();
        let ghost base = SubscriptionState {
            backlog: key_queues::published_since(start.backlog, time@),
            queues: key_queues::queues_since(start.queues, time@),
            ..state::cleared(start)
        };
        assert(self@ =~= base);
        let mut i: usize = 0;
        assert(kept@.take(0) =~= Seq::empty());
        while i < kept.len()
            invariant
                i <= kept@.len(),
                self@ == state::all_put_back(base, kept@.take(i as int)),
                self.topic == old(self).topic,
                self.internal_id == old(self).internal_id,
            decreases kept@.len() - i,
        {
            assert(kept@.take(i + 1).drop_last() =~= kept@.take(i as int));
            self.requeue_one(share(&kept[i]));
            i += 1;
        }
        assert(kept@.take(kept@.len() as int) =~= kept@);
        self.is_pullable()
    }

    /// The figures on the subscription.
    pub fn get_stats(&self, now: Instant) -> (s: SubscriptionStats)
        ensures
            s.subscription_name@ == self@.info.name@,
            s.topic_name@ == (match self.attached_to() {
                Some(t) => t@,
                None => TopicNameView::Deleted,
            }),
            s.outstanding_messages_count == self@.outstanding.len(),
            s.retry_messages_count == self@.retries.len(),
            s.backlog_messages_count == state::smaller(
                state::backlog_count(self@) as int,
                usize::MAX as int,
            ),
            state::is_oldest_age(self@, now@, s.oldest_unacked_age@),
            s.counters == self@.counters,
    {
        let topic_name = match &self.topic {
            Some(t) => t.clone(),
            None => TopicName::deleted(),
        };
        let oldest_unacked_age = match self.outstanding.oldest_published() {
            Some(published) => now.saturating_duration_since(published),
            None => Duration::from_secs(0),
        };
        let backlog: usize = self.backlog.len();
        SubscriptionStats::new(
            self.info.name.clone(),
            topic_name,
            self.outstanding.len(),
            backlog.saturating_add(self.ordered_queues.count()),
            self.retry_queue.len(),
            oldest_unacked_age,
            self.counters,
        )
    }
}

/// The ids that modifications name.
fn ids_of(modifications: &Vec<DeadlineModification>) -> (ids: Vec<AckId>)
    ensures
        ids@ == state::modified_ids(modifications@),
{
    let mut ids: Vec<AckId> = Vec::new();
    let mut i: usize = 0;
    while i < modifications.len()
        invariant
            i <= modifications@.len(),
            ids@ =~= state::modified_ids(modifications@).take(i as int),
        decreases modifications@.len() - i,
    {
        ids.push(modifications[i].ack_id);
        i += 1;
    }
    ids
}

} // verus!
