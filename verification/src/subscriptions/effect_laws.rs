//! What each operation on a subscription changes, and what it leaves.
use std::sync::Arc;
use vstd::prelude::*;

use crate::collections;
use crate::subscriptions::ack::{Delivery, Modification};
use crate::subscriptions::delivery_laws;
use crate::subscriptions::filter;
use crate::subscriptions::filter::{ErrorView, ExprView};
use crate::subscriptions::info::SubscriptionInfo;
use crate::subscriptions::key_queues;
use crate::subscriptions::outstanding;
use crate::subscriptions::retry_queue;
use crate::subscriptions::retry_queue::Retry;
use crate::subscriptions::state;
use crate::subscriptions::state::SubscriptionState;
use crate::subscriptions::state_laws;
use crate::subscriptions::stats;
use crate::subscriptions::stats::SubscriptionCounters;
use crate::subscriptions::timing_laws;
use crate::topics::topic_message::TopicMessage;

verus! {

/// A new subscription holds no message and gives none, counts nothing, and is there.
pub proof fn law_new_subscription_is_empty(info: SubscriptionInfo, m: Arc<TopicMessage>)
    ensures
        ({
            let st = state::started(info);
            &&& st.info == info
            &&& delivery_laws::copies(st, m) == 0
            &&& !state::pullable(st)
            &&& st.outstanding.len() == 0
            &&& st.retries.len() == 0
            &&& timing_laws::times_delivered(st, m) == 1
            &&& st.next_ack_id == 1
            &&& !st.deleted
            &&& st.counters.pulled == 0 && st.counters.acked == 0 && st.counters.nacked == 0
                && st.counters.expired == 0 && st.counters.dead_lettered == 0
        }),
{
}

/// Whether a message with the id is among the deliveries.
pub open spec fn has_message(s: Seq<Delivery>, id: u64) -> bool {
    exists|i: int| 0 <= i < s.len() && (#[trigger] s[i]).message.id.value == id
}

/// The state with acknowledged deliveries taken out and counted.
pub open spec fn taken_out(st: SubscriptionState, ids: Set<u64>) -> SubscriptionState {
    SubscriptionState {
        outstanding: outstanding::not_named(st.outstanding, ids),
        counters: SubscriptionCounters {
            acked: stats::counted(
                st.counters.acked,
                outstanding::named(st.outstanding, ids).len(),
            ),
            ..st.counters
        },
        ..st
    }
}

/// What is gone for good leaves everything but attempts and the keys in flight.
proof fn lemma_gone(st: SubscriptionState, gone: Seq<Delivery>, id: u64)
    ensures
        ({
            let after = state::all_gone(st, gone);
            &&& after == (SubscriptionState {
                attempts: after.attempts,
                in_flight: after.in_flight,
                ..st
            })
            &&& has_message(gone, id) ==> !after.attempts.contains_key(id)
            &&& !has_message(gone, id) ==> after.attempts.contains_key(id)
                == st.attempts.contains_key(id)
            &&& after.attempts.contains_key(id) ==> after.attempts[id] == st.attempts[id]
        }),
    decreases gone.len(),
{
    if gone.len() > 0 {
        let front = gone.drop_last();
        lemma_gone(st, front, id);
        if has_message(front, id) {
            let i = choose|i: int|
                0 <= i < front.len() && (#[trigger] front[i]).message.id.value == id;
            assert(gone[i].message.id.value == id);
        }
        if has_message(gone, id) && gone.last().message.id.value != id {
            let i = choose|i: int|
                0 <= i < gone.len() && (#[trigger] gone[i]).message.id.value == id;
            assert(front[i].message.id.value == id);
        }
        if gone.last().message.id.value == id {
            assert(gone[gone.len() - 1].message.id.value == id);
        }
    } else {
        assert(state::all_gone(st, gone) =~= (SubscriptionState {
            attempts: st.attempts,
            in_flight: st.in_flight,
            ..st
        }));
    }
}

/// An acknowledgement takes out of what is outstanding the deliveries that it names, and no others.
/// It leaves every message that waits, forgets how often the acknowledged ones were delivered, and no
/// others.
pub proof fn law_acknowledge_leaves_the_rest(
    st: SubscriptionState,
    ids: Set<u64>,
    d: Delivery,
    other: Delivery,
)
    requires
        !st.deleted,
        st.outstanding.contains(d),
        ids.contains(d.ack_id),
        forall|i: int|
            0 <= i < st.outstanding.len() && ids.contains((#[trigger] st.outstanding[i]).ack_id)
                ==> st.outstanding[i].message.id.value != other.message.id.value,
    ensures
        ({
            let after = state::acknowledged(st, ids);
            let id = other.message.id.value;
            &&& !after.outstanding.contains(d)
            &&& !ids.contains(other.ack_id) ==> after.outstanding.contains(other)
                == st.outstanding.contains(other)
            &&& after.backlog == st.backlog
            &&& after.queues == st.queues
            &&& after.retries == st.retries
            &&& after.info == st.info
            &&& after.filter == st.filter
            &&& after.next_ack_id == st.next_ack_id
            &&& !after.attempts.contains_key(d.message.id.value)
            &&& after.attempts.contains_key(id) == st.attempts.contains_key(id)
            &&& after.attempts.contains_key(id) ==> after.attempts[id] == st.attempts[id]
        }),
{
    let gone = outstanding::named(st.outstanding, ids);
    let chosen = |x: Delivery| ids.contains(x.ack_id);
    let left = |x: Delivery| !ids.contains(x.ack_id);
    collections::lemma_selected(st.outstanding, chosen, d);
    collections::lemma_selected(st.outstanding, left, d);
    collections::lemma_selected(st.outstanding, left, other);
    lemma_gone(taken_out(st, ids), gone, d.message.id.value);
    lemma_gone(taken_out(st, ids), gone, other.message.id.value);
    let i = choose|i: int| 0 <= i < gone.len() && gone[i] == d;
    assert(gone[i].message.id.value == d.message.id.value);
    if has_message(gone, other.message.id.value) {
        let j = choose|j: int|
            0 <= j < gone.len() && (#[trigger] gone[j]).message.id.value == other.message.id.value;
        collections::lemma_selected(st.outstanding, chosen, gone[j]);
        assert(gone.contains(gone[j]));
        let l = choose|l: int| 0 <= l < st.outstanding.len() && st.outstanding[l] == gone[j];
        assert(ids.contains(st.outstanding[l].ack_id));
    }
}

/// An acknowledgement leaves what is not outstanding.
pub proof fn lemma_acknowledged_fields(st: SubscriptionState, ids: Set<u64>)
    requires
        !st.deleted,
    ensures
        state::acknowledged(st, ids).outstanding == outstanding::not_named(st.outstanding, ids),
        state::acknowledged(st, ids).backlog == st.backlog,
        state::acknowledged(st, ids).queues == st.queues,
        state::acknowledged(st, ids).retries == st.retries,
        !state::acknowledged(st, ids).deleted,
{
    lemma_gone(taken_out(st, ids), outstanding::named(st.outstanding, ids), 0);
}

/// A message that comes back to a subscription without a retry policy, and is delivered again, can be
/// pulled at once: it stands in front of what is queued for its ordering key, which is free again, or
/// at the end of the backlog where it has none. Its next delivery is one more.
pub proof fn law_returned_message_is_put_back(
    st: SubscriptionState,
    m: Arc<TopicMessage>,
    now: nat,
)
    requires
        st.info.retry_policy is None,
        1 <= timing_laws::times_delivered(st, m) < u16::MAX,
        timing_laws::delivers_again(st, timing_laws::times_delivered(st, m)),
    ensures
        ({
            let after = state::requeued(st, m, now);
            &&& after.retries == st.retries
            &&& after.outstanding == st.outstanding
            &&& after.attempts == st.attempts.insert(
                m.id.value,
                (timing_laws::times_delivered(st, m) + 1) as u16,
            )
            &&& if st.info.enable_message_ordering && m.ordering_key is Some {
                let k = m.ordering_key->0@;
                &&& after.queues[k] == seq![m] + st.queues[k]
                &&& !after.in_flight.contains(k)
                &&& after.backlog == st.backlog
            } else {
                &&& after.backlog == st.backlog.push(m)
                &&& after.queues == st.queues
                &&& after.in_flight == st.in_flight
            }
        }),
{
}

/// A message whose wait is over can be pulled again where less time has passed since its publication
/// than it is retained for; else it is dropped, and its ordering key is free.
pub proof fn law_ended_wait_puts_back_what_is_young(
    st: SubscriptionState,
    m: Arc<TopicMessage>,
    now: nat,
)
    requires
        m.published_at_instant@ <= now,
    ensures
        ({
            let after = state::retried(st, m, now);
            let ordered = st.info.enable_message_ordering && m.ordering_key is Some;
            let k = m.ordering_key->0@;
            &&& ordered ==> !after.in_flight.contains(k) && after.backlog == st.backlog
            &&& ordered && timing_laws::is_young(st, m, now) ==> after.queues[k] == seq![m]
                + st.queues[k]
            &&& !ordered && timing_laws::is_young(st, m, now) ==> after.backlog == st.backlog.push(m)
            &&& !timing_laws::is_young(st, m, now) ==> after.backlog == st.backlog && after.queues
                == st.queues && !after.attempts.contains_key(m.id.value)
            &&& after.outstanding == st.outstanding
        }),
{
}

/// How many deliveries there are is not changed by choosing between them.
proof fn lemma_split_len(
    s: Seq<Delivery>,
    chosen: spec_fn(Delivery) -> bool,
    left: spec_fn(Delivery) -> bool,
)
    requires
        forall|d: Delivery| #[trigger] chosen(d) == !left(d),
    ensures
        collections::select(s, chosen).len() + collections::select(s, left).len() == s.len(),
    decreases s.len(),
{
    if s.len() > 0 {
        lemma_split_len(s.drop_last(), chosen, left);
        assert(chosen(s.last()) == !left(s.last()));
    }
}

/// An acknowledgement takes as many out of what is outstanding as it names.
pub proof fn lemma_acknowledged_len(st: SubscriptionState, ids: Set<u64>)
    requires
        !st.deleted,
    ensures
        state::acknowledged(st, ids).outstanding.len() == st.outstanding.len()
            - outstanding::named(st.outstanding, ids).len(),
{
    lemma_acknowledged_fields(st, ids);
    lemma_split_len(
        st.outstanding,
        |d: Delivery| ids.contains(d.ack_id),
        |d: Delivery| !ids.contains(d.ack_id),
    );
}

/// Expiry takes out of what is outstanding what is overdue.
pub proof fn lemma_expired_len(st: SubscriptionState, now: nat)
    ensures
        state::expired(st, now).outstanding.len() == st.outstanding.len() - outstanding::overdue(
            st.outstanding,
            now,
        ).len(),
{
    lemma_split_len(
        st.outstanding,
        |d: Delivery| d.deadline <= now,
        |d: Delivery| now < d.deadline,
    );
    lemma_requeue_counts(
        state::overdue_taken(st, now),
        outstanding::overdue(st.outstanding, now),
        now,
    );
}

/// Where waits end so many fewer messages wait.
pub proof fn lemma_retried_len(st: SubscriptionState, now: nat)
    ensures
        state::retries_ended(st, now).retries.len() == st.retries.len() - retry_queue::due(
            st.retries,
            now,
        ).len(),
{
    lemma_retry_split_len(st.retries, now);
    lemma_retried_retries(
        SubscriptionState { retries: retry_queue::not_due(st.retries, now), ..st },
        state::ready_messages(st, now),
        now,
    );
}

proof fn lemma_retry_split_len(s: Seq<Retry>, now: nat)
    ensures
        retry_queue::due(s, now).len() + retry_queue::not_due(s, now).len() == s.len(),
    decreases s.len(),
{
    if s.len() > 0 {
        lemma_retry_split_len(s.drop_last(), now);
    }
}

proof fn lemma_retried_retries(st: SubscriptionState, ready: Seq<Arc<TopicMessage>>, now: nat)
    ensures
        state::all_retried(st, ready, now).retries == st.retries,
    decreases ready.len(),
{
    if ready.len() > 0 {
        lemma_retried_retries(st, ready.drop_last(), now);
    }
}

/// What modifications return was outstanding before.
proof fn lemma_modified_len(s: Seq<Delivery>, modifications: Seq<Modification>)
    ensures
        outstanding::modified(s, modifications).0.len() + outstanding::modified(
            s,
            modifications,
        ).1.len() == s.len(),
    decreases modifications.len(),
{
    if modifications.len() > 0 {
        lemma_modified_len(s, modifications.drop_last());
        let (kept, _) = outstanding::modified(s, modifications.drop_last());
        let ids = set![modifications.last().ack_id];
        lemma_split_len(
            kept,
            |d: Delivery| ids.contains(d.ack_id),
            |d: Delivery| !ids.contains(d.ack_id),
        );
    }
}

/// Messages that come back count as dead letters where they become such, and as nothing else.
proof fn lemma_requeue_counts(st: SubscriptionState, returned: Seq<Delivery>, now: nat)
    ensures
        ({
            let after = state::all_requeued(st, returned, now);
            &&& after.outstanding == st.outstanding
            &&& after.info == st.info
            &&& after.counters == (SubscriptionCounters {
                dead_lettered: stats::counted(
                    st.counters.dead_lettered,
                    state::condemned(st, returned, now).len(),
                ),
                ..st.counters
            })
        }),
    decreases returned.len(),
{
    if returned.len() > 0 {
        lemma_requeue_counts(st, returned.drop_last(), now);
    }
}

/// Whether one count is the other and so many more, as far as it can be held.
pub open spec fn is_more_by(after: u64, before: u64, n: int) -> bool {
    before + n <= u64::MAX ==> after == before + n
}

/// Each counter counts what it says, by what is outstanding before and after: acknowledgements those
/// that they took out, new deadlines those that they returned, and expiry those that were overdue.
/// Dead letters are counted as such besides, and no other counter changes.
pub proof fn law_counters_count_what_they_say(
    st: SubscriptionState,
    ids: Set<u64>,
    modifications: Seq<Modification>,
    now: nat,
)
    requires
        !st.deleted,
    ensures
        ({
            let after = state::acknowledged(st, ids);
            &&& is_more_by(
                after.counters.acked,
                st.counters.acked,
                st.outstanding.len() - after.outstanding.len(),
            )
            &&& after.counters == (SubscriptionCounters {
                acked: after.counters.acked,
                ..st.counters
            })
        }),
        ({
            let after = state::modified(st, modifications, now);
            let letters = state::condemned(
                state::deadlines_moved(st, modifications),
                outstanding::modified(st.outstanding, modifications).1,
                now,
            );
            &&& is_more_by(
                after.counters.nacked,
                st.counters.nacked,
                st.outstanding.len() - after.outstanding.len(),
            )
            &&& is_more_by(
                after.counters.dead_lettered,
                st.counters.dead_lettered,
                letters.len() as int,
            )
            &&& after.counters == (SubscriptionCounters {
                nacked: after.counters.nacked,
                dead_lettered: after.counters.dead_lettered,
                ..st.counters
            })
        }),
        ({
            let after = state::expired(st, now);
            let letters = state::condemned(
                state::overdue_taken(st, now),
                outstanding::overdue(st.outstanding, now),
                now,
            );
            &&& is_more_by(
                after.counters.expired,
                st.counters.expired,
                st.outstanding.len() - after.outstanding.len(),
            )
            &&& is_more_by(
                after.counters.dead_lettered,
                st.counters.dead_lettered,
                letters.len() as int,
            )
            &&& after.counters == (SubscriptionCounters {
                expired: after.counters.expired,
                dead_lettered: after.counters.dead_lettered,
                ..st.counters
            })
        }),
{
    let gone = outstanding::named(st.outstanding, ids);
    lemma_split_len(
        st.outstanding,
        |d: Delivery| ids.contains(d.ack_id),
        |d: Delivery| !ids.contains(d.ack_id),
    );
    lemma_gone(taken_out(st, ids), gone, 0);
    lemma_modified_len(st.outstanding, modifications);
    lemma_requeue_counts(
        state::deadlines_moved(st, modifications),
        outstanding::modified(st.outstanding, modifications).1,
        now,
    );
    lemma_split_len(
        st.outstanding,
        |d: Delivery| d.deadline <= now,
        |d: Delivery| now < d.deadline,
    );
    lemma_requeue_counts(
        state::overdue_taken(st, now),
        outstanding::overdue(st.outstanding, now),
        now,
    );
}

/// The state after the first message of the backlog was delivered.
spec fn past_front(st: SubscriptionState, now: nat) -> SubscriptionState {
    state::delivered(
        SubscriptionState { backlog: st.backlog.drop_first(), ..st },
        st.backlog[0],
        now,
    )
}

/// A pull from a backlog in which nothing ages delivers as many messages as it can.
proof fn lemma_backlog_fills(st: SubscriptionState, limit: nat, now: nat)
    requires
        st.info.message_retention_duration is None,
        st.outstanding.len() <= limit,
    ensures
        ({
            let after = state::backlog_pulled(st, limit, now);
            let room = limit - st.outstanding.len();
            after.outstanding.len() == st.outstanding.len() + if st.backlog.len() <= room {
                st.backlog.len() as int
            } else {
                room
            }
        }),
    decreases st.backlog.len(),
{
    if st.backlog.len() > 0 && st.outstanding.len() < limit {
        let next = past_front(st, now);
        assert(!state_laws::is_aged(st, st.backlog[0], now));
        lemma_backlog_fills(next, limit, now);
    }
}

/// The least of the numbers.
pub open spec fn least(a: int, b: int, c: int) -> int {
    if a <= b && a <= c {
        a
    } else if b <= c {
        b
    } else {
        c
    }
}

/// Where no ordering key is free and messages are retained for good, a pull delivers as many messages
/// of the backlog as there are, as were asked for, or a thousand, whichever is least; with a cap on
/// what is outstanding, not more than that leaves room for.
pub proof fn law_pull_fills_its_room(
    st: SubscriptionState,
    max_count: u16,
    max_outstanding: u16,
    now: nat,
)
    requires
        !st.deleted,
        !st.info.detached,
        st.info.message_retention_duration is None,
        forall|k: Seq<char>| (#[trigger] st.queues[k]).len() == 0 || st.in_flight.contains(k),
        st.next_ack_id + 1_000 <= u64::MAX,
    ensures
        ({
            let after = state::pulled(st, max_count, max_outstanding, now);
            let n = least(st.backlog.len() as int, max_count as int, 1_000);
            let free = if max_outstanding == 0 {
                n
            } else if st.outstanding.len() <= max_outstanding {
                max_outstanding - st.outstanding.len()
            } else {
                0
            };
            after.outstanding.len() == st.outstanding.len() + if n <= free {
                n
            } else {
                free
            }
        }),
{
    let free = state::free_keys(st);
    assert(free =~= Set::empty()) by {
        assert forall|k: Seq<char>| !free.contains(k) by {
            assert(st.queues[k].len() == 0 || st.in_flight.contains(k));
        }
    }
    key_queues::lemma_finite_set_has_listing(free);
    let keys = key_queues::listing(free);
    assert(keys.len() == 0) by {
        if keys.len() > 0 {
            assert(keys.contains(keys[0]));
            assert(free.contains(keys[0]));
        }
    }
    let limit: nat = st.outstanding.len() + state::pull_room(st, max_count, max_outstanding);
    lemma_backlog_fills(st, limit, now);
}

/// The attributes of a message.
pub open spec fn attributes_of(m: TopicMessage) -> Option<Map<Seq<char>, Seq<char>>> {
    match m.attributes {
        Some(a) => Some(a@),
        None => None,
    }
}

/// The filter text that a subscription is created with decides which messages it holds: one that comes
/// is held where it matches what the text stands for, and not at all else. Without a filter every
/// message is held.
pub proof fn law_filter_text_decides_what_is_held(
    info: SubscriptionInfo,
    e: ExprView,
    m: Arc<TopicMessage>,
)
    ensures
        ({
            let after = state::posted(state::started(info), seq![m]);
            &&& info.filter matches Some(text) ==> filter::filter_of(text@) == Ok::<
                ExprView,
                ErrorView,
            >(e) ==> delivery_laws::copies(after, m) == (if filter::satisfies(
                e,
                attributes_of(*m),
            ) {
                1nat
            } else {
                0
            })
            &&& info.filter is None ==> delivery_laws::copies(after, m) == 1
        }),
{
    let st = state::started(info);
    let one = seq![m];
    delivery_laws::law_post_holds_what_passes(st, one, m);
    assert(one =~= Seq::<Arc<TopicMessage>>::empty().push(m));
    collections::lemma_tally_push(
        Seq::<Arc<TopicMessage>>::empty(),
        m,
        delivery_laws::is_message(m),
    );
    assert(delivery_laws::copies(st, m) == 0);
}

/// A message that passes the filter stands behind all others: behind those of its ordering key where
/// the subscription orders messages and it has one, and else at the end of the backlog.
pub proof fn law_message_stands_behind_the_others(
    st: SubscriptionState,
    messages: Seq<Arc<TopicMessage>>,
    m: Arc<TopicMessage>,
)
    requires
        !st.deleted,
        st.filter is None,
    ensures
        ({
            let before = state::posted(st, messages);
            let after = state::posted(st, messages.push(m));
            &&& if st.info.enable_message_ordering && m.ordering_key is Some {
                let k = m.ordering_key->0@;
                &&& after.queues[k] == before.queues[k].push(m)
                &&& after.backlog == before.backlog
            } else {
                &&& after.backlog == before.backlog.push(m)
                &&& after.queues == before.queues
            }
            &&& after.in_flight == st.in_flight
            &&& after.outstanding == st.outstanding
            &&& after.retries == st.retries
            &&& after.attempts == st.attempts
            &&& after.counters == st.counters
        }),
{
    assert(messages.push(m).drop_last() =~= messages);
    assert(messages.push(m).last() == m);
    lemma_enqueue_leaves(st, messages);
}

/// New messages leave what is not queued.
pub proof fn lemma_enqueue_leaves(st: SubscriptionState, messages: Seq<Arc<TopicMessage>>)
    ensures
        ({
            let after = state::all_enqueued(st, messages);
            after == (SubscriptionState { backlog: after.backlog, queues: after.queues, ..st })
        }),
    decreases messages.len(),
{
    if messages.len() > 0 {
        lemma_enqueue_leaves(st, messages.drop_last());
    }
}

} // verus!
