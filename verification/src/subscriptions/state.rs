//! The model of a subscription: what it holds, and how each operation changes that.
use std::sync::Arc;
use vstd::prelude::*;

use crate::collections;
use crate::message_data;
use crate::subscriptions::ack::{AckId, DeadlineModification, Delivery, Modification};
use crate::subscriptions::filter;
use crate::subscriptions::filter::ExprView;
use crate::subscriptions::info;
use crate::subscriptions::info::{PushConfig, SubscriptionInfo, SubscriptionUpdate};
use crate::subscriptions::key_queues;
use crate::subscriptions::key_queues::Queues;
use crate::subscriptions::outstanding;
use crate::subscriptions::policies;
use crate::subscriptions::retry_queue;
use crate::subscriptions::retry_queue::Retry;
use crate::subscriptions::stats;
use crate::subscriptions::stats::SubscriptionCounters;
use crate::text;
use crate::time;
use crate::topics::topic_message::TopicMessage;

verus! {

/// The most messages that one pull delivers.
pub const MAX_PULL_COUNT: u16 = 1_000;

/// What a subscription holds.
#[verifier::ext_equal]
pub struct SubscriptionState {
    /// What it is configured to do.
    pub info: SubscriptionInfo,
    /// The filter that messages have to match.
    pub filter: Option<ExprView>,
    /// Messages to deliver, but for those with an ordering key of a subscription with ordering.
    pub backlog: Seq<Arc<TopicMessage>>,
    /// Messages to deliver by ordering key.
    pub queues: Queues,
    /// The ordering keys of which a message is delivered or waits for its retry.
    pub in_flight: Set<Seq<char>>,
    /// Messages that are delivered and not acknowledged.
    pub outstanding: Seq<Delivery>,
    /// Messages that wait for their retry.
    pub retries: Seq<Retry>,
    /// How often messages were delivered that were delivered more than once, by message id.
    pub attempts: Map<u64, u16>,
    /// The ack id of the next delivery.
    pub next_ack_id: u64,
    /// Whether the subscription was deleted.
    pub deleted: bool,
    /// Counts of what happened.
    pub counters: SubscriptionCounters,
}

/// A time of the monotonic clock a span later, as far as the clock goes.
pub open spec fn later(now: nat, span: nat) -> nat {
    if now + span <= u128::MAX {
        now + span
    } else {
        u128::MAX as nat
    }
}

/// The span from a time of the monotonic clock to another one, zero where it is later.
pub open spec fn elapsed(now: nat, since: nat) -> nat {
    if now <= since {
        0
    } else {
        (now - since) as nat
    }
}

/// A new subscription.
pub open spec fn started(info: SubscriptionInfo) -> SubscriptionState {
    SubscriptionState {
        info,
        filter: match info.filter {
            Some(text) => match filter::filter_of(text@) {
                Ok(f) => Some(f),
                Err(_) => None,
            },
            None => None,
        },
        backlog: Seq::empty(),
        queues: key_queues::no_queues(),
        in_flight: Set::empty(),
        outstanding: Seq::empty(),
        retries: Seq::empty(),
        attempts: Map::empty(),
        next_ack_id: 1,
        deleted: false,
        counters: stats::no_counts(),
    }
}

/// The ordering key by which the subscription orders the message.
pub open spec fn ordered_key(info: SubscriptionInfo, m: TopicMessage) -> Option<Seq<char>> {
    if info.enable_message_ordering {
        m.key()
    } else {
        None
    }
}

/// Whether the message passes the filter.
pub open spec fn passes(filter: Option<ExprView>, m: TopicMessage) -> bool {
    match filter {
        Some(f) => filter::satisfies(
            f,
            match m.attributes {
                Some(a) => Some(a@),
                None => None,
            },
        ),
        None => true,
    }
}

/// The message at the end of its queue.
pub open spec fn enqueued(st: SubscriptionState, m: Arc<TopicMessage>) -> SubscriptionState {
    match ordered_key(st.info, *m) {
        Some(k) => SubscriptionState { queues: st.queues.insert(k, st.queues[k].push(m)), ..st },
        None => SubscriptionState { backlog: st.backlog.push(m), ..st },
    }
}

/// The messages that pass the filter at the ends of their queues.
pub open spec fn all_enqueued(
    st: SubscriptionState,
    messages: Seq<Arc<TopicMessage>>,
) -> SubscriptionState
    decreases messages.len(),
{
    if messages.len() == 0 {
        st
    } else {
        let before = all_enqueued(st, messages.drop_last());
        if passes(st.filter, *messages.last()) {
            enqueued(before, messages.last())
        } else {
            before
        }
    }
}

/// After new messages came.
pub open spec fn posted(
    st: SubscriptionState,
    messages: Seq<Arc<TopicMessage>>,
) -> SubscriptionState {
    if st.deleted {
        st
    } else {
        all_enqueued(st, messages)
    }
}

/// Whether the message is too old to be delivered.
pub open spec fn aged_out(info: SubscriptionInfo, m: TopicMessage, now: nat) -> bool {
    match info.message_retention_duration {
        Some(retention) => elapsed(now, m.published_at_instant@) >= retention@,
        None => false,
    }
}

/// Which delivery of the message the next one is.
pub open spec fn attempt_of(st: SubscriptionState, m: TopicMessage) -> u16 {
    if st.attempts.contains_key(m.id.value) {
        st.attempts[m.id.value]
    } else {
        1
    }
}

/// The next delivery.
pub open spec fn next_delivery(st: SubscriptionState, m: Arc<TopicMessage>, now: nat) -> Delivery {
    Delivery {
        message: m,
        ack_id: st.next_ack_id,
        deadline: later(now, st.info.ack_deadline@),
        delivery_attempt: attempt_of(st, *m),
    }
}

/// After the message was delivered.
pub open spec fn delivered(
    st: SubscriptionState,
    m: Arc<TopicMessage>,
    now: nat,
) -> SubscriptionState {
    SubscriptionState {
        outstanding: st.outstanding.push(next_delivery(st, m, now)),
        next_ack_id: (st.next_ack_id + 1) as u64,
        counters: SubscriptionCounters {
            pulled: stats::counted(st.counters.pulled, 1),
            ..st.counters
        },
        ..st
    }
}

/// The message has no attempts any more.
pub open spec fn forgotten(st: SubscriptionState, m: TopicMessage) -> SubscriptionState {
    SubscriptionState { attempts: st.attempts.remove(m.id.value), ..st }
}

/// After the first message of the key that is not too old was delivered, and those before it were
/// dropped.
pub open spec fn key_pulled(st: SubscriptionState, k: Seq<char>, now: nat) -> SubscriptionState
    decreases st.queues[k].len(),
{
    let queue = st.queues[k];
    if queue.len() == 0 {
        st
    } else {
        let rest = SubscriptionState { queues: st.queues.insert(k, queue.drop_first()), ..st };
        if aged_out(st.info, *queue[0], now) {
            key_pulled(forgotten(rest, *queue[0]), k, now)
        } else {
            delivered(
                SubscriptionState { in_flight: rest.in_flight.insert(k), ..rest },
                queue[0],
                now,
            )
        }
    }
}

/// After the keys were pulled from in turn, until `limit` messages are outstanding.
pub open spec fn keys_pulled(
    st: SubscriptionState,
    keys: Seq<Seq<char>>,
    limit: nat,
    now: nat,
) -> SubscriptionState
    decreases keys.len(),
{
    if keys.len() == 0 || st.outstanding.len() >= limit {
        st
    } else {
        keys_pulled(key_pulled(st, keys[0], now), keys.drop_first(), limit, now)
    }
}

/// After messages of the backlog were delivered that are not too old, until `limit` messages are
/// outstanding.
pub open spec fn backlog_pulled(st: SubscriptionState, limit: nat, now: nat) -> SubscriptionState
    decreases st.backlog.len(),
{
    if st.backlog.len() == 0 || st.outstanding.len() >= limit {
        st
    } else {
        let m = st.backlog[0];
        let rest = SubscriptionState { backlog: st.backlog.drop_first(), ..st };
        if aged_out(st.info, *m, now) {
            backlog_pulled(forgotten(rest, *m), limit, now)
        } else {
            backlog_pulled(delivered(rest, m, now), limit, now)
        }
    }
}

/// The smaller of the two.
pub open spec fn smaller(a: int, b: int) -> int {
    if a <= b {
        a
    } else {
        b
    }
}

/// How many messages a pull may deliver: not more than asked for, than the most of one pull, than
/// there are ack ids left, or than the cap on outstanding messages leaves room for. A cap of zero
/// is none.
pub open spec fn pull_room(st: SubscriptionState, max_count: u16, max_outstanding: u16) -> nat {
    let batch = smaller(
        smaller(max_count as int, MAX_PULL_COUNT as int),
        u64::MAX - st.next_ack_id,
    );
    if max_outstanding == 0 {
        batch as nat
    } else if st.outstanding.len() >= max_outstanding {
        0
    } else {
        smaller(batch, max_outstanding - st.outstanding.len()) as nat
    }
}

/// The ordering keys that can be pulled from.
pub open spec fn free_keys(st: SubscriptionState) -> Set<Seq<char>> {
    key_queues::waiting_keys(st.queues, st.in_flight)
}

/// Whether there is something to pull.
pub open spec fn pullable(st: SubscriptionState) -> bool {
    st.backlog.len() > 0 || exists|k: Seq<char>| free_keys(st).contains(k)
}

/// After a pull: the free ordering keys come first, in order, and then the backlog.
pub open spec fn pulled(
    st: SubscriptionState,
    max_count: u16,
    max_outstanding: u16,
    now: nat,
) -> SubscriptionState {
    let limit = st.outstanding.len() + pull_room(st, max_count, max_outstanding);
    if st.deleted || st.info.detached {
        st
    } else {
        backlog_pulled(
            keys_pulled(st, key_queues::listing(free_keys(st)), limit, now),
            limit,
            now,
        )
    }
}

/// The message is not in flight any more.
pub open spec fn key_released(st: SubscriptionState, m: TopicMessage) -> SubscriptionState {
    match ordered_key(st.info, m) {
        Some(k) => SubscriptionState { in_flight: st.in_flight.remove(k), ..st },
        None => st,
    }
}

/// Whether the message holds its ordering key in flight.
pub open spec fn holds_key(st: SubscriptionState, m: TopicMessage) -> bool {
    match ordered_key(st.info, m) {
        Some(k) => st.in_flight.contains(k),
        None => false,
    }
}

/// The messages are gone for good.
pub open spec fn all_gone(st: SubscriptionState, gone: Seq<Delivery>) -> SubscriptionState
    decreases gone.len(),
{
    if gone.len() == 0 {
        st
    } else {
        let m = *gone.last().message;
        key_released(forgotten(all_gone(st, gone.drop_last()), m), m)
    }
}

/// After the messages with these ack ids were acknowledged.
pub open spec fn acknowledged(st: SubscriptionState, ids: Set<u64>) -> SubscriptionState {
    let gone = outstanding::named(st.outstanding, ids);
    if st.deleted {
        st
    } else {
        all_gone(
            SubscriptionState {
                outstanding: outstanding::not_named(st.outstanding, ids),
                counters: SubscriptionCounters {
                    acked: stats::counted(st.counters.acked, gone.len()),
                    ..st.counters
                },
                ..st
            },
            gone,
        )
    }
}

/// The ids of a request that name an outstanding message.
pub open spec fn valid_ids(s: Seq<Delivery>, ids: Seq<AckId>) -> Seq<AckId> {
    collections::select(ids, |id: AckId| outstanding::is_delivered(s, id.value))
}

/// The ids of a request that name no outstanding message.
pub open spec fn invalid_ids(s: Seq<Delivery>, ids: Seq<AckId>) -> Seq<AckId> {
    collections::select(ids, |id: AckId| !outstanding::is_delivered(s, id.value))
}

/// The message back where it is pulled from: the front of the queue of its key, or the end of the
/// backlog.
pub open spec fn put_back(st: SubscriptionState, m: Arc<TopicMessage>) -> SubscriptionState {
    match ordered_key(st.info, *m) {
        Some(k) => SubscriptionState {
            queues: st.queues.insert(k, seq![m] + st.queues[k]),
            in_flight: st.in_flight.remove(k),
            ..st
        },
        None => SubscriptionState { backlog: st.backlog.push(m), ..st },
    }
}

/// Which delivery of a returned message its next one is.
pub open spec fn next_attempt(st: SubscriptionState, m: TopicMessage) -> u16 {
    if st.attempts.contains_key(m.id.value) {
        if st.attempts[m.id.value] < u16::MAX {
            (st.attempts[m.id.value] + 1) as u16
        } else {
            u16::MAX
        }
    } else {
        2
    }
}

/// Whether a message was delivered too often for another attempt.
pub open spec fn exhausted(info: SubscriptionInfo, attempt: u16) -> bool {
    match info.dead_letter_policy {
        Some(policy) => attempt > policy.max_delivery_attempts,
        None => false,
    }
}

/// After a message came back: it goes to the dead letter topic where it was delivered too often,
/// waits for its retry where there is a retry policy, and is put back else.
pub open spec fn requeued(
    st: SubscriptionState,
    m: Arc<TopicMessage>,
    now: nat,
) -> SubscriptionState {
    let attempt = next_attempt(st, *m);
    let tried = SubscriptionState { attempts: st.attempts.insert(m.id.value, attempt), ..st };
    if exhausted(st.info, attempt) {
        key_released(
            forgotten(
                SubscriptionState {
                    counters: SubscriptionCounters {
                        dead_lettered: stats::counted(st.counters.dead_lettered, 1),
                        ..st.counters
                    },
                    ..st
                },
                *m,
            ),
            *m,
        )
    } else {
        match st.info.retry_policy {
            Some(policy) => SubscriptionState {
                retries: tried.retries.push(
                    Retry {
                        message: m,
                        deliver_at: later(
                            now,
                            policies::backoff_nanos(
                                policy.minimum_backoff@,
                                policy.maximum_backoff@,
                                attempt,
                            ),
                        ),
                    },
                ),
                ..tried
            },
            None => put_back(tried, m),
        }
    }
}

/// After messages came back in turn.
pub open spec fn all_requeued(
    st: SubscriptionState,
    returned: Seq<Delivery>,
    now: nat,
) -> SubscriptionState
    decreases returned.len(),
{
    if returned.len() == 0 {
        st
    } else {
        requeued(all_requeued(st, returned.drop_last(), now), returned.last().message, now)
    }
}

/// A message that was delivered too often, and which attempt was refused.
pub struct Condemned {
    pub message: Arc<TopicMessage>,
    pub attempt: u16,
}

/// Which of the messages that came back were delivered too often.
pub open spec fn condemned(
    st: SubscriptionState,
    returned: Seq<Delivery>,
    now: nat,
) -> Seq<Condemned>
    decreases returned.len(),
{
    if returned.len() == 0 {
        Seq::empty()
    } else {
        let before = all_requeued(st, returned.drop_last(), now);
        let m = returned.last().message;
        let attempt = next_attempt(before, *m);
        if exhausted(st.info, attempt) {
            condemned(st, returned.drop_last(), now).push(Condemned { message: m, attempt })
        } else {
            condemned(st, returned.drop_last(), now)
        }
    }
}

/// The attributes of a dead letter: those of the message, how often it was delivered, where it
/// came from and when it was published there.
pub open spec fn dead_letter_attributes(
    info: SubscriptionInfo,
    c: Condemned,
    publish_time: Seq<char>,
) -> Map<Seq<char>, Seq<char>> {
    let base = match c.message.attributes {
        Some(a) => a@,
        None => Map::empty(),
    };
    base.insert(
        "CloudPubSubDeadLetterSourceDeliveryCount"@,
        text::decimal((c.attempt - 1) as nat),
    ).insert("CloudPubSubDeadLetterSourceSubscription"@, info.name@.subscription_id).insert(
        "CloudPubSubDeadLetterSourceSubscriptionProject"@,
        info.name@.project_id,
    ).insert("CloudPubSubDeadLetterSourceTopicPublishTime"@, publish_time)
}

/// Whether `letter` is the dead letter of the message, made at `now`.
pub open spec fn is_dead_letter(
    letter: TopicMessage,
    info: SubscriptionInfo,
    c: Condemned,
    now: nat,
) -> bool {
    &&& message_data::bytes_held(letter.data) == message_data::bytes_held(c.message.data)
    &&& letter.ordering_key is None
    &&& letter.published_at_instant@ == now
    &&& letter.attributes matches Some(a) && exists|publish_time: Seq<char>|
        #![trigger dead_letter_attributes(info, c, publish_time)]
        time::is_rfc3339_of(publish_time, time::from_epoch_on(c.message.published_at@)) && a@
            == dead_letter_attributes(info, c, publish_time)
}

/// Whether the letters are those of the messages, in turn.
pub open spec fn are_dead_letters(
    letters: Seq<TopicMessage>,
    info: SubscriptionInfo,
    condemned: Seq<Condemned>,
    now: nat,
) -> bool {
    &&& letters.len() == condemned.len()
    &&& forall|i: int|
        0 <= i < letters.len() ==> is_dead_letter(#[trigger] letters[i], info, condemned[i], now)
}

/// The ids that modifications name.
pub open spec fn modified_ids(modifications: Seq<DeadlineModification>) -> Seq<AckId> {
    Seq::new(modifications.len(), |i: int| modifications[i].ack_id)
}

/// With what the modifications of deadlines return taken out.
pub open spec fn deadlines_moved(
    st: SubscriptionState,
    modifications: Seq<Modification>,
) -> SubscriptionState {
    let (kept, returned) = outstanding::modified(st.outstanding, modifications);
    SubscriptionState {
        outstanding: kept,
        counters: SubscriptionCounters {
            nacked: stats::counted(st.counters.nacked, returned.len()),
            ..st.counters
        },
        ..st
    }
}

/// After deadlines were modified.
pub open spec fn modified(
    st: SubscriptionState,
    modifications: Seq<Modification>,
    now: nat,
) -> SubscriptionState {
    if st.deleted {
        st
    } else {
        all_requeued(
            deadlines_moved(st, modifications),
            outstanding::modified(st.outstanding, modifications).1,
            now,
        )
    }
}

/// With what is overdue taken out.
pub open spec fn overdue_taken(st: SubscriptionState, now: nat) -> SubscriptionState {
    SubscriptionState {
        outstanding: outstanding::in_time(st.outstanding, now),
        counters: SubscriptionCounters {
            expired: stats::counted(
                st.counters.expired,
                outstanding::overdue(st.outstanding, now).len(),
            ),
            ..st.counters
        },
        ..st
    }
}

/// After what is overdue came back.
pub open spec fn expired(st: SubscriptionState, now: nat) -> SubscriptionState {
    all_requeued(
        overdue_taken(st, now),
        outstanding::overdue(st.outstanding, now),
        now,
    )
}

/// After a wait was over: the message is put back, or dropped where it is too old.
pub open spec fn retried(
    st: SubscriptionState,
    m: Arc<TopicMessage>,
    now: nat,
) -> SubscriptionState {
    if aged_out(st.info, *m, now) {
        key_released(forgotten(st, *m), *m)
    } else {
        put_back(st, m)
    }
}

/// Whether something can be pulled once the wait of the message is over: the message, or the next
/// one of its ordering key.
pub open spec fn frees(info: SubscriptionInfo, m: TopicMessage, now: nat) -> bool {
    !aged_out(info, m, now) || ordered_key(info, m) is Some
}

/// After waits were over in turn.
pub open spec fn all_retried(
    st: SubscriptionState,
    ready: Seq<Arc<TopicMessage>>,
    now: nat,
) -> SubscriptionState
    decreases ready.len(),
{
    if ready.len() == 0 {
        st
    } else {
        retried(all_retried(st, ready.drop_last(), now), ready.last(), now)
    }
}

/// The messages whose wait is over.
pub open spec fn ready_messages(st: SubscriptionState, now: nat) -> Seq<Arc<TopicMessage>> {
    retry_queue::retry_messages(retry_queue::due(st.retries, now))
}

/// After the waits that are over ended.
pub open spec fn retries_ended(st: SubscriptionState, now: nat) -> SubscriptionState {
    all_retried(
        SubscriptionState { retries: retry_queue::not_due(st.retries, now), ..st },
        ready_messages(st, now),
        now,
    )
}

/// Whether a deadline comes or a wait is over at the time.
pub open spec fn is_wakeup(st: SubscriptionState, t: nat) -> bool {
    ||| exists|i: int| 0 <= i < st.outstanding.len() && (#[trigger] st.outstanding[i]).deadline == t
    ||| exists|i: int| 0 <= i < st.retries.len() && (#[trigger] st.retries[i]).deliver_at == t
}

/// How many messages can be delivered.
pub open spec fn backlog_count(st: SubscriptionState) -> nat {
    st.backlog.len() + key_queues::queued_count(st.queues)
}

/// Whether the oldest outstanding message has this age, as far as a span can be; zero without one.
pub open spec fn is_oldest_age(st: SubscriptionState, now: nat, age: nat) -> bool {
    if st.outstanding.len() == 0 {
        age == 0
    } else {
        exists|i: int|
            {
                &&& 0 <= i < st.outstanding.len()
                &&& age == smaller(
                    elapsed(
                        now,
                        (#[trigger] st.outstanding[i]).message.published_at_instant@,
                    ) as int,
                    time::MAX_DURATION_NANOS as int,
                )
                &&& forall|j: int|
                    0 <= j < st.outstanding.len()
                        ==> st.outstanding[i].message.published_at_instant@ <= (
                    #[trigger] st.outstanding[j]).message.published_at_instant@
            }
    }
}

/// Without any message.
pub open spec fn cleared(st: SubscriptionState) -> SubscriptionState {
    SubscriptionState {
        backlog: Seq::empty(),
        queues: key_queues::no_queues(),
        in_flight: Set::empty(),
        outstanding: Seq::empty(),
        retries: Seq::empty(),
        attempts: Map::empty(),
        ..st
    }
}

/// After the subscription was detached from its topic.
pub open spec fn detached(st: SubscriptionState) -> SubscriptionState {
    if st.deleted || st.info.detached {
        st
    } else {
        cleared(
            SubscriptionState { info: SubscriptionInfo { detached: true, ..st.info }, ..st },
        )
    }
}

/// After the subscription was deleted.
pub open spec fn deleted(st: SubscriptionState) -> SubscriptionState {
    if st.deleted {
        st
    } else {
        cleared(SubscriptionState { deleted: true, ..st })
    }
}

/// After the configuration was updated.
pub open spec fn reconfigured(
    st: SubscriptionState,
    update: SubscriptionUpdate,
) -> SubscriptionState {
    if st.deleted {
        st
    } else {
        SubscriptionState { info: info::updated(st.info, update), ..st }
    }
}

/// After another push config was set.
pub open spec fn repushed(
    st: SubscriptionState,
    push_config: Option<PushConfig>,
) -> SubscriptionState {
    if st.deleted {
        st
    } else {
        SubscriptionState { info: SubscriptionInfo { push_config, ..st.info }, ..st }
    }
}

/// The messages of deliveries.
pub open spec fn delivery_messages(s: Seq<Delivery>) -> Seq<Arc<TopicMessage>> {
    Seq::new(s.len(), |i: int| s[i].message)
}

/// The messages put back in turn.
pub open spec fn all_put_back(
    st: SubscriptionState,
    messages: Seq<Arc<TopicMessage>>,
) -> SubscriptionState
    decreases messages.len(),
{
    if messages.len() == 0 {
        st
    } else {
        put_back(all_put_back(st, messages.drop_last()), messages.last())
    }
}

/// After a seek to a time: what was published before is dropped, and the rest can be pulled again.
pub open spec fn sought(st: SubscriptionState, time: int) -> SubscriptionState {
    if st.deleted {
        st
    } else {
        all_put_back(
            SubscriptionState {
                backlog: key_queues::published_since(st.backlog, time),
                queues: key_queues::queues_since(st.queues, time),
                ..cleared(st)
            },
            key_queues::published_since(
                delivery_messages(st.outstanding) + retry_queue::retry_messages(st.retries),
                time,
            ),
        )
    }
}

} // verus!
