//! What holds of a subscription whatever is done with it.
use std::sync::Arc;
use vstd::prelude::*;

use crate::collections;
use crate::subscriptions::ack::{Delivery, Modification};
use crate::subscriptions::info::{PushConfig, SubscriptionInfo, SubscriptionUpdate};
use crate::subscriptions::key_queues;
use crate::subscriptions::outstanding;
use crate::subscriptions::retry_queue;
use crate::subscriptions::retry_queue::Retry;
use crate::subscriptions::state;
use crate::subscriptions::state::SubscriptionState;
use crate::subscriptions::stats;
use crate::subscriptions::stats::SubscriptionCounters;
use crate::text;
use crate::topics::topic_message::TopicMessage;

verus! {

/// Whether a message is ordered by the key.
pub open spec fn has_key(info: SubscriptionInfo, k: Seq<char>) -> spec_fn(
    Arc<TopicMessage>,
) -> bool {
    |m: Arc<TopicMessage>| state::ordered_key(info, *m) == Some(k)
}

/// Whether a predicate holds of the message of a delivery.
pub open spec fn of_delivery(holds: spec_fn(Arc<TopicMessage>) -> bool) -> spec_fn(
    Delivery,
) -> bool {
    |d: Delivery| holds(d.message)
}

/// Whether a predicate holds of the message of a retry.
pub open spec fn of_retry(holds: spec_fn(Arc<TopicMessage>) -> bool) -> spec_fn(Retry) -> bool {
    |r: Retry| holds(r.message)
}

/// How many messages that a predicate holds of are outstanding, wait for their retry or are on
/// their way from the one to the other.
pub open spec fn abroad(
    st: SubscriptionState,
    pending: Seq<Arc<TopicMessage>>,
    holds: spec_fn(Arc<TopicMessage>) -> bool,
) -> nat {
    collections::tally(st.outstanding, of_delivery(holds)) + collections::tally(
        st.retries,
        of_retry(holds),
    ) + collections::tally(pending, holds)
}

/// A key is in flight where one of its messages is abroad; never more than one is.
pub open spec fn key_balanced(
    st: SubscriptionState,
    pending: Seq<Arc<TopicMessage>>,
    k: Seq<char>,
) -> bool {
    abroad(st, pending, has_key(st.info, k)) == if st.in_flight.contains(k) {
        1nat
    } else {
        0
    }
}

/// The messages of the backlog are not ordered.
pub open spec fn backlog_unordered(st: SubscriptionState) -> bool {
    forall|i: int|
        0 <= i < st.backlog.len() ==> state::ordered_key(st.info, *#[trigger] st.backlog[i]) is None
}

/// The messages of a queue are ordered by its key.
pub open spec fn queue_ordered(st: SubscriptionState, k: Seq<char>) -> bool {
    forall|i: int|
        0 <= i < st.queues[k].len() ==> state::ordered_key(
            st.info,
            *#[trigger] st.queues[k][i],
        ) == Some(k)
}

/// Deliveries have ids that go up, and the next one has a larger id than any of them.
pub open spec fn ids_go_up(st: SubscriptionState) -> bool {
    &&& forall|i: int, j: int|
        0 <= i < j < st.outstanding.len() ==> (#[trigger] st.outstanding[i]).ack_id < (
        #[trigger] st.outstanding[j]).ack_id
    &&& forall|i: int|
        0 <= i < st.outstanding.len() ==> (#[trigger] st.outstanding[i]).ack_id < st.next_ack_id
}

/// A subscription in order, with messages on their way.
pub open spec fn orderly_with(st: SubscriptionState, pending: Seq<Arc<TopicMessage>>) -> bool {
    &&& forall|k: Seq<char>| #[trigger] key_balanced(st, pending, k)
    &&& forall|k: Seq<char>| #[trigger] queue_ordered(st, k)
    &&& backlog_unordered(st)
    &&& ids_go_up(st)
}

/// A subscription in order: of each ordering key at most one message is outstanding or waits for
/// its retry, messages stand in the queues that they belong to, and ack ids are given once.
pub open spec fn orderly(st: SubscriptionState) -> bool {
    orderly_with(st, Seq::empty())
}

/// Which delivery of a returned message its next one is.
pub open spec fn attempt_for(st: SubscriptionState, m: Arc<TopicMessage>) -> u16 {
    state::next_attempt(st, *m)
}

/// Whether the message is too old to be delivered.
pub open spec fn is_aged(st: SubscriptionState, m: Arc<TopicMessage>, now: nat) -> bool {
    state::aged_out(st.info, *m, now)
}

/// A new subscription is in order.
pub proof fn law_start_is_orderly(info: SubscriptionInfo)
    ensures
        orderly(state::started(info)),
{
}

/// One more or one less message abroad.
proof fn lemma_abroad_first(
    st: SubscriptionState,
    m: Arc<TopicMessage>,
    rest: Seq<Arc<TopicMessage>>,
    holds: spec_fn(Arc<TopicMessage>) -> bool,
)
    ensures
        abroad(st, seq![m] + rest, holds) == abroad(st, rest, holds) + if holds(m) {
            1nat
        } else {
            0
        },
{
    let all = seq![m] + rest;
    collections::lemma_tally_first(all, holds);
    assert(all.drop_first() =~= rest);
}

/// A message that was on its way and is put back leaves the subscription in order.
pub proof fn lemma_put_back(st: SubscriptionState, m: Arc<TopicMessage>, rest: Seq<Arc<TopicMessage>>)
    requires
        orderly_with(st, seq![m] + rest),
    ensures
        orderly_with(state::put_back(st, m), rest),
{
    let after = state::put_back(st, m);
    assert forall|k: Seq<char>| #[trigger] key_balanced(after, rest, k) by {
        assert(key_balanced(st, seq![m] + rest, k));
        lemma_abroad_first(st, m, rest, has_key(st.info, k));
    }
    assert forall|k: Seq<char>| #[trigger] queue_ordered(after, k) by {
        assert(queue_ordered(st, k));
        assert forall|i: int| 0 <= i < after.queues[k].len() implies state::ordered_key(
            after.info,
            *#[trigger] after.queues[k][i],
        ) == Some(k) by {
            if state::ordered_key(st.info, *m) == Some(k) && i > 0 {
                assert(after.queues[k][i] == st.queues[k][i - 1]);
            }
        }
    }
}

/// A message that was on its way and is gone leaves the subscription in order.
pub proof fn lemma_gone(
    st: SubscriptionState,
    m: Arc<TopicMessage>,
    rest: Seq<Arc<TopicMessage>>,
    after: SubscriptionState,
)
    requires
        orderly_with(st, seq![m] + rest),
        after.info == st.info,
        after.backlog == st.backlog,
        after.queues == st.queues,
        after.outstanding == st.outstanding,
        after.retries == st.retries,
        after.next_ack_id == st.next_ack_id,
        after.in_flight == state::key_released(st, *m).in_flight,
    ensures
        orderly_with(after, rest),
{
    assert forall|k: Seq<char>| #[trigger] key_balanced(after, rest, k) by {
        assert(key_balanced(st, seq![m] + rest, k));
        lemma_abroad_first(st, m, rest, has_key(st.info, k));
    }
    assert forall|k: Seq<char>| #[trigger] queue_ordered(after, k) by {
        assert(queue_ordered(st, k));
    }
}

/// A message that came back leaves the subscription in order.
pub proof fn lemma_requeued(
    st: SubscriptionState,
    m: Arc<TopicMessage>,
    rest: Seq<Arc<TopicMessage>>,
    now: nat,
)
    requires
        orderly_with(st, seq![m] + rest),
    ensures
        orderly_with(state::requeued(st, m, now), rest),
{
    let after = state::requeued(st, m, now);
    let attempt: u16 = attempt_for(st, m);
    if state::exhausted(st.info, attempt) {
        lemma_gone(st, m, rest, after);
    } else {
        let tried = SubscriptionState { attempts: st.attempts.insert(m.id.value, attempt), ..st };
        assert(orderly_with(tried, seq![m] + rest)) by {
            assert forall|k: Seq<char>| #[trigger] key_balanced(tried, seq![m] + rest, k) by {
                assert(key_balanced(st, seq![m] + rest, k));
            }
            assert forall|k: Seq<char>| #[trigger] queue_ordered(tried, k) by {
                assert(queue_ordered(st, k));
            }
        }
        match st.info.retry_policy {
            Some(policy) => {
                assert forall|k: Seq<char>| #[trigger] key_balanced(after, rest, k) by {
                    assert(key_balanced(st, seq![m] + rest, k));
                    let p = has_key(st.info, k);
                    lemma_abroad_first(st, m, rest, p);
                    collections::lemma_tally_push(st.retries, after.retries.last(), of_retry(p));
                    assert(after.retries =~= st.retries.push(after.retries.last()));
                }
                assert forall|k: Seq<char>| #[trigger] queue_ordered(after, k) by {
                    assert(queue_ordered(st, k));
                }
            },
            None => {
                lemma_put_back(tried, m, rest);
            },
        }
    }
}

/// Messages that came back leave the subscription in order.
pub proof fn lemma_all_requeued(
    st: SubscriptionState,
    returned: Seq<Delivery>,
    rest: Seq<Arc<TopicMessage>>,
    now: nat,
)
    requires
        orderly_with(st, state::delivery_messages(returned) + rest),
    ensures
        orderly_with(state::all_requeued(st, returned, now), rest),
    decreases returned.len(),
{
    if returned.len() == 0 {
        assert(state::delivery_messages(returned) + rest =~= rest);
    } else {
        let front = returned.drop_last();
        let m = returned.last().message;
        assert(state::delivery_messages(front) + (seq![m] + rest) =~= state::delivery_messages(
            returned,
        ) + rest);
        lemma_all_requeued(st, front, seq![m] + rest, now);
        lemma_requeued(state::all_requeued(st, front, now), m, rest, now);
    }
}

/// Messages that are gone leave the subscription in order.
pub proof fn lemma_all_gone(
    st: SubscriptionState,
    gone: Seq<Delivery>,
    rest: Seq<Arc<TopicMessage>>,
)
    requires
        orderly_with(st, state::delivery_messages(gone) + rest),
    ensures
        orderly_with(state::all_gone(st, gone), rest),
    decreases gone.len(),
{
    if gone.len() == 0 {
        assert(state::delivery_messages(gone) + rest =~= rest);
    } else {
        let front = gone.drop_last();
        let m = gone.last().message;
        assert(state::delivery_messages(front) + (seq![m] + rest) =~= state::delivery_messages(gone)
            + rest);
        lemma_all_gone(st, front, seq![m] + rest);
        lemma_gone(state::all_gone(st, front), m, rest, state::all_gone(st, gone));
    }
}

/// Messages whose wait is over leave the subscription in order.
pub proof fn lemma_all_retried(
    st: SubscriptionState,
    ready: Seq<Arc<TopicMessage>>,
    rest: Seq<Arc<TopicMessage>>,
    now: nat,
)
    requires
        orderly_with(st, ready + rest),
    ensures
        orderly_with(state::all_retried(st, ready, now), rest),
    decreases ready.len(),
{
    if ready.len() == 0 {
        assert(ready + rest =~= rest);
    } else {
        let front = ready.drop_last();
        let m = ready.last();
        assert(front + (seq![m] + rest) =~= ready + rest);
        lemma_all_retried(st, front, seq![m] + rest, now);
        let before = state::all_retried(st, front, now);
        if is_aged(before, m, now) {
            lemma_gone(before, m, rest, state::retried(before, m, now));
        } else {
            lemma_put_back(before, m, rest);
        }
    }
}

/// Counting deliveries is counting their messages.
pub proof fn lemma_delivery_tally(s: Seq<Delivery>, holds: spec_fn(Arc<TopicMessage>) -> bool)
    ensures
        collections::tally(state::delivery_messages(s), holds) == collections::tally(
            s,
            of_delivery(holds),
        ),
    decreases s.len(),
{
    if s.len() > 0 {
        lemma_delivery_tally(s.drop_last(), holds);
        assert(state::delivery_messages(s).drop_last() =~= state::delivery_messages(s.drop_last()));
    }
}

/// Counting retries is counting their messages.
pub proof fn lemma_retry_tally(s: Seq<Retry>, holds: spec_fn(Arc<TopicMessage>) -> bool)
    ensures
        collections::tally(retry_queue::retry_messages(s), holds) == collections::tally(
            s,
            of_retry(holds),
        ),
    decreases s.len(),
{
    if s.len() > 0 {
        lemma_retry_tally(s.drop_last(), holds);
        assert(retry_queue::retry_messages(s).drop_last() =~= retry_queue::retry_messages(
            s.drop_last(),
        ));
    }
}

/// Taking deliveries out of the outstanding ones leaves the subscription in order.
pub proof fn lemma_taken(
    st: SubscriptionState,
    pending: Seq<Arc<TopicMessage>>,
    chosen: spec_fn(Delivery) -> bool,
    left: spec_fn(Delivery) -> bool,
    after: SubscriptionState,
)
    requires
        orderly_with(st, pending),
        forall|d: Delivery| #[trigger] chosen(d) == !left(d),
        after.info == st.info,
        after.backlog == st.backlog,
        after.queues == st.queues,
        after.in_flight == st.in_flight,
        after.retries == st.retries,
        after.next_ack_id == st.next_ack_id,
        after.outstanding == collections::select(st.outstanding, left),
    ensures
        orderly_with(
            after,
            pending + state::delivery_messages(collections::select(st.outstanding, chosen)),
        ),
{
    let gone = collections::select(st.outstanding, chosen);
    let more = pending + state::delivery_messages(gone);
    assert forall|k: Seq<char>| #[trigger] key_balanced(after, more, k) by {
        assert(key_balanced(st, pending, k));
        let p = has_key(st.info, k);
        collections::lemma_tally_split(st.outstanding, of_delivery(p), chosen, left);
        collections::lemma_tally_add(pending, state::delivery_messages(gone), p);
        lemma_delivery_tally(gone, p);
    }
    assert forall|k: Seq<char>| #[trigger] queue_ordered(after, k) by {
        assert(queue_ordered(st, k));
    }
    let before = |a: Delivery, b: Delivery| a.ack_id < b.ack_id;
    collections::lemma_select_pairwise(st.outstanding, left, before);
    assert forall|i: int, j: int| 0 <= i < j < after.outstanding.len() implies (
    #[trigger] after.outstanding[i]).ack_id < (#[trigger] after.outstanding[j]).ack_id by {
        assert(before(after.outstanding[i], after.outstanding[j]));
    }
    assert forall|i: int| 0 <= i < after.outstanding.len() implies (
    #[trigger] after.outstanding[i]).ack_id < after.next_ack_id by {
        let d = after.outstanding[i];
        assert(after.outstanding.contains(d));
        collections::lemma_selected(st.outstanding, left, d);
        let j = choose|j: int| 0 <= j < st.outstanding.len() && st.outstanding[j] == d;
        assert(st.outstanding[j].ack_id < st.next_ack_id);
    }
}

/// New messages leave the subscription in order.
pub proof fn law_post_keeps_order(st: SubscriptionState, messages: Seq<Arc<TopicMessage>>)
    requires
        orderly(st),
    ensures
        orderly(state::posted(st, messages)),
{
    lemma_all_enqueued(st, messages);
}

proof fn lemma_all_enqueued(st: SubscriptionState, messages: Seq<Arc<TopicMessage>>)
    requires
        orderly(st),
    ensures
        orderly(state::all_enqueued(st, messages)),
    decreases messages.len(),
{
    if messages.len() > 0 {
        let m = messages.last();
        let before = state::all_enqueued(st, messages.drop_last());
        lemma_all_enqueued(st, messages.drop_last());
        let after = state::enqueued(before, m);
        let none = Seq::<Arc<TopicMessage>>::empty();
        assert forall|k: Seq<char>| #[trigger] key_balanced(after, none, k) by {
            assert(key_balanced(before, none, k));
        }
        assert forall|k: Seq<char>| #[trigger] queue_ordered(after, k) by {
            assert(queue_ordered(before, k));
            assert forall|i: int| 0 <= i < after.queues[k].len() implies state::ordered_key(
                after.info,
                *#[trigger] after.queues[k][i],
            ) == Some(k) by {
                if i < before.queues[k].len() {
                    assert(after.queues[k][i] == before.queues[k][i]);
                }
            }
        }
        assert forall|i: int| 0 <= i < after.backlog.len() implies state::ordered_key(
            after.info,
            *#[trigger] after.backlog[i],
        ) is None by {
            if i < before.backlog.len() {
                assert(after.backlog[i] == before.backlog[i]);
            }
        }
    }
}

/// An acknowledgement leaves the subscription in order.
pub proof fn law_acknowledge_keeps_order(st: SubscriptionState, ids: Set<u64>)
    requires
        orderly(st),
    ensures
        orderly(state::acknowledged(st, ids)),
{
    if !st.deleted {
        let none = Seq::<Arc<TopicMessage>>::empty();
        let gone = outstanding::named(st.outstanding, ids);
        let taken = SubscriptionState {
            outstanding: outstanding::not_named(st.outstanding, ids),
            counters: SubscriptionCounters {
                acked: stats::counted(st.counters.acked, gone.len()),
                ..st.counters
            },
            ..st
        };
        lemma_taken(
            st,
            none,
            |d: Delivery| ids.contains(d.ack_id),
            |d: Delivery| !ids.contains(d.ack_id),
            taken,
        );
        assert(none + state::delivery_messages(gone) =~= state::delivery_messages(gone) + none);
        lemma_all_gone(taken, gone, none);
    }
}

/// Whether a subscription is in order does not depend on its counters or attempts.
pub proof fn lemma_counters_do_not_matter(
    a: SubscriptionState,
    b: SubscriptionState,
    pending: Seq<Arc<TopicMessage>>,
)
    requires
        orderly_with(a, pending),
        b.info == a.info,
        b.backlog == a.backlog,
        b.queues == a.queues,
        b.in_flight == a.in_flight,
        b.outstanding == a.outstanding,
        b.retries == a.retries,
        b.next_ack_id == a.next_ack_id,
    ensures
        orderly_with(b, pending),
{
    assert forall|k: Seq<char>| #[trigger] key_balanced(b, pending, k) by {
        assert(key_balanced(a, pending, k));
    }
    assert forall|k: Seq<char>| #[trigger] queue_ordered(b, k) by {
        assert(queue_ordered(a, k));
    }
}

/// The state with other outstanding messages.
pub open spec fn with_outstanding(st: SubscriptionState, s: Seq<Delivery>) -> SubscriptionState {
    SubscriptionState { outstanding: s, ..st }
}

/// Modifications leave the subscription in order, with what they return on its way.
pub proof fn lemma_deadlines_modified(st: SubscriptionState, modifications: Seq<Modification>)
    requires
        orderly(st),
    ensures
        ({
            let (kept, returned) = outstanding::modified(st.outstanding, modifications);
            orderly_with(with_outstanding(st, kept), state::delivery_messages(returned))
        }),
    decreases modifications.len(),
{
    let (kept, returned) = outstanding::modified(st.outstanding, modifications);
    let after = with_outstanding(st, kept);
    if modifications.len() == 0 {
        assert(state::delivery_messages(returned) =~= Seq::empty());
        lemma_counters_do_not_matter(st, after, Seq::empty());
    } else {
        let m = modifications.last();
        lemma_deadlines_modified(st, modifications.drop_last());
        let (kept0, returned0) = outstanding::modified(st.outstanding, modifications.drop_last());
        let before = with_outstanding(st, kept0);
        let pending = state::delivery_messages(returned0);
        match m.new_deadline {
            Some(deadline) => {
                assert forall|k: Seq<char>| #[trigger] key_balanced(after, pending, k) by {
                    assert(key_balanced(before, pending, k));
                    collections::lemma_tally_same(kept0, kept, of_delivery(has_key(st.info, k)));
                }
                assert forall|k: Seq<char>| #[trigger] queue_ordered(after, k) by {
                    assert(queue_ordered(before, k));
                }
                assert forall|i: int, j: int| 0 <= i < j < kept.len() implies (
                #[trigger] kept[i]).ack_id < (#[trigger] kept[j]).ack_id by {
                    assert(kept0[i].ack_id < kept0[j].ack_id);
                }
                assert forall|i: int| 0 <= i < kept.len() implies (#[trigger] kept[i]).ack_id
                    < st.next_ack_id by {
                    assert(kept0[i].ack_id < before.next_ack_id);
                }
            },
            None => {
                let ids = set![m.ack_id];
                lemma_taken(
                    before,
                    pending,
                    |d: Delivery| ids.contains(d.ack_id),
                    |d: Delivery| !ids.contains(d.ack_id),
                    after,
                );
                assert(state::delivery_messages(returned) =~= pending + state::delivery_messages(
                    outstanding::named(kept0, ids),
                ));
            },
        }
    }
}

/// A modification of deadlines leaves the subscription in order.
pub proof fn law_modify_keeps_order(
    st: SubscriptionState,
    modifications: Seq<Modification>,
    now: nat,
)
    requires
        orderly(st),
    ensures
        orderly(state::modified(st, modifications, now)),
{
    if !st.deleted {
        let none = Seq::<Arc<TopicMessage>>::empty();
        let (kept, returned) = outstanding::modified(st.outstanding, modifications);
        lemma_deadlines_modified(st, modifications);
        let moved = state::deadlines_moved(st, modifications);
        assert(state::delivery_messages(returned) + none =~= state::delivery_messages(returned));
        lemma_counters_do_not_matter(
            with_outstanding(st, kept),
            moved,
            state::delivery_messages(returned) + none,
        );
        lemma_all_requeued(moved, returned, none, now);
    }
}

/// Deadlines that come leave the subscription in order.
pub proof fn law_expiry_keeps_order(st: SubscriptionState, now: nat)
    requires
        orderly(st),
    ensures
        orderly(state::expired(st, now)),
{
    let none = Seq::<Arc<TopicMessage>>::empty();
    let gone = outstanding::overdue(st.outstanding, now);
    lemma_taken(
        st,
        none,
        |d: Delivery| d.deadline <= now,
        |d: Delivery| now < d.deadline,
        state::overdue_taken(st, now),
    );
    assert(none + state::delivery_messages(gone) =~= state::delivery_messages(gone) + none);
    lemma_all_requeued(state::overdue_taken(st, now), gone, none, now);
}

/// Retries whose wait is over leave the subscription in order, on their way.
pub proof fn lemma_retries_taken(st: SubscriptionState, now: nat)
    requires
        orderly(st),
    ensures
        orderly_with(
            SubscriptionState { retries: retry_queue::not_due(st.retries, now), ..st },
            state::ready_messages(st, now),
        ),
{
    let none = Seq::<Arc<TopicMessage>>::empty();
    let due = retry_queue::due(st.retries, now);
    let ready = state::ready_messages(st, now);
    let after = SubscriptionState { retries: retry_queue::not_due(st.retries, now), ..st };
    assert forall|k: Seq<char>| #[trigger] key_balanced(after, ready, k) by {
        assert(key_balanced(st, none, k));
        let p = has_key(st.info, k);
        collections::lemma_tally_split(
            st.retries,
            of_retry(p),
            |r: Retry| r.deliver_at <= now,
            |r: Retry| now < r.deliver_at,
        );
        lemma_retry_tally(due, p);
    }
    assert forall|k: Seq<char>| #[trigger] queue_ordered(after, k) by {
        assert(queue_ordered(st, k));
    }
}

/// Waits that are over leave the subscription in order.
pub proof fn law_retry_keeps_order(st: SubscriptionState, now: nat)
    requires
        orderly(st),
    ensures
        orderly(state::retries_ended(st, now)),
{
    let none = Seq::<Arc<TopicMessage>>::empty();
    let ready = state::ready_messages(st, now);
    let after = SubscriptionState { retries: retry_queue::not_due(st.retries, now), ..st };
    lemma_retries_taken(st, now);
    assert(ready + none =~= ready);
    lemma_all_retried(after, ready, none, now);
}

/// Detaching and deleting leave the subscription in order.
pub proof fn law_detach_and_delete_keep_order(st: SubscriptionState)
    requires
        orderly(st),
    ensures
        orderly(state::detached(st)),
        orderly(state::deleted(st)),
{
}

/// Another configuration leaves the subscription in order.
pub proof fn law_update_keeps_order(st: SubscriptionState, update: SubscriptionUpdate)
    requires
        orderly(st),
    ensures
        orderly(state::reconfigured(st, update)),
{
    lemma_info_does_not_matter(st, state::reconfigured(st, update));
}

/// Another push config leaves the subscription in order.
pub proof fn law_push_config_keeps_order(st: SubscriptionState, push_config: Option<PushConfig>)
    requires
        orderly(st),
    ensures
        orderly(state::repushed(st, push_config)),
{
    lemma_info_does_not_matter(st, state::repushed(st, push_config));
}

/// Of the configuration only whether messages are ordered matters for the order.
proof fn lemma_info_does_not_matter(a: SubscriptionState, b: SubscriptionState)
    requires
        orderly(a),
        b.info.enable_message_ordering == a.info.enable_message_ordering,
        b.backlog == a.backlog,
        b.queues == a.queues,
        b.in_flight == a.in_flight,
        b.outstanding == a.outstanding,
        b.retries == a.retries,
        b.next_ack_id == a.next_ack_id,
    ensures
        orderly(b),
{
    let none = Seq::<Arc<TopicMessage>>::empty();
    assert forall|m: TopicMessage| #[trigger] state::ordered_key(b.info, m) == state::ordered_key(
        a.info,
        m,
    ) by {}
    assert forall|k: Seq<char>| #[trigger] key_balanced(b, none, k) by {
        assert(key_balanced(a, none, k));
        assert(has_key(b.info, k) =~= has_key(a.info, k));
    }
    assert forall|k: Seq<char>| #[trigger] queue_ordered(b, k) by {
        assert(queue_ordered(a, k));
    }
}

/// A seek leaves the subscription in order.
pub proof fn law_seek_keeps_order(st: SubscriptionState, time: int)
    requires
        orderly(st),
    ensures
        orderly(state::sought(st, time)),
{
    if !st.deleted {
        let base = SubscriptionState {
            backlog: key_queues::published_since(st.backlog, time),
            queues: key_queues::queues_since(st.queues, time),
            ..state::cleared(st)
        };
        assert forall|k: Seq<char>| #[trigger] queue_ordered(base, k) by {
            assert(queue_ordered(st, k));
            assert forall|i: int| 0 <= i < base.queues[k].len() implies state::ordered_key(
                base.info,
                *#[trigger] base.queues[k][i],
            ) == Some(k) by {
                lemma_published_since(st.queues[k], time, i);
            }
        }
        assert forall|i: int| 0 <= i < base.backlog.len() implies state::ordered_key(
            base.info,
            *#[trigger] base.backlog[i],
        ) is None by {
            lemma_published_since(st.backlog, time, i);
        }
        assert(orderly(base));
        lemma_all_put_back(
            base,
            key_queues::published_since(
                state::delivery_messages(st.outstanding) + retry_queue::retry_messages(st.retries),
                time,
            ),
        );
    }
}

/// What was published since a time is among the messages.
pub proof fn lemma_published_since(messages: Seq<Arc<TopicMessage>>, time: int, i: int)
    requires
        0 <= i < key_queues::published_since(messages, time).len(),
    ensures
        key_queues::published_since(messages, time)[i].published_at@ >= time,
        exists|j: int|
            0 <= j < messages.len() && #[trigger] messages[j] == key_queues::published_since(
                messages,
                time,
            )[i],
    decreases messages.len(),
{
    if messages.len() > 0 {
        let rest = messages.drop_last();
        let front = key_queues::published_since(rest, time);
        if i < front.len() {
            lemma_published_since(rest, time, i);
            let j = choose|j: int| 0 <= j < rest.len() && #[trigger] rest[j] == front[i];
            assert(messages[j] == front[i]);
        } else {
            assert(messages[messages.len() - 1] == key_queues::published_since(messages, time)[i]);
        }
    }
}

/// Putting messages back that were nowhere leaves the subscription in order, with no key in
/// flight.
proof fn lemma_all_put_back(st: SubscriptionState, messages: Seq<Arc<TopicMessage>>)
    requires
        orderly(st),
        st.outstanding.len() == 0,
        st.retries.len() == 0,
    ensures
        orderly(state::all_put_back(st, messages)),
        state::all_put_back(st, messages).outstanding.len() == 0,
        state::all_put_back(st, messages).retries.len() == 0,
    decreases messages.len(),
{
    if messages.len() > 0 {
        let none = Seq::<Arc<TopicMessage>>::empty();
        let before = state::all_put_back(st, messages.drop_last());
        let m = messages.last();
        let after = state::put_back(before, m);
        lemma_all_put_back(st, messages.drop_last());
        assert forall|k: Seq<char>| #[trigger] key_balanced(after, none, k) by {
            assert(key_balanced(before, none, k));
        }
        assert forall|k: Seq<char>| #[trigger] queue_ordered(after, k) by {
            assert(queue_ordered(before, k));
            assert forall|i: int| 0 <= i < after.queues[k].len() implies state::ordered_key(
                after.info,
                *#[trigger] after.queues[k][i],
            ) == Some(k) by {
                if state::ordered_key(before.info, *m) == Some(k) && i > 0 {
                    assert(after.queues[k][i] == before.queues[k][i - 1]);
                }
            }
        }
    }
}

/// How a pull from one key goes: the first `n` messages of its queue are dropped, all of them too
/// old, and the next one is delivered if there is one.
pub open spec fn key_step(
    st: SubscriptionState,
    after: SubscriptionState,
    k: Seq<char>,
    now: nat,
    n: int,
) -> bool {
    let queue = st.queues[k];
    &&& 0 <= n <= queue.len()
    &&& forall|i: int| 0 <= i < n ==> is_aged(st, #[trigger] queue[i], now)
    &&& after.info == st.info
    &&& after.backlog == st.backlog
    &&& after.retries == st.retries
    &&& after.deleted == st.deleted
    &&& forall|j: Seq<char>| j != k ==> #[trigger] after.queues[j] == st.queues[j]
    &&& if n == queue.len() {
        &&& after.queues[k].len() == 0
        &&& after.outstanding == st.outstanding
        &&& after.in_flight == st.in_flight
        &&& after.next_ack_id == st.next_ack_id
    } else {
        &&& !is_aged(st, queue[n], now)
        &&& after.queues[k] == queue.skip(n + 1)
        &&& after.outstanding.len() == st.outstanding.len() + 1
        &&& after.outstanding.drop_last() == st.outstanding
        &&& after.outstanding.last().message == queue[n]
        &&& after.outstanding.last().ack_id == st.next_ack_id
        &&& after.in_flight == st.in_flight.insert(k)
        &&& after.next_ack_id == st.next_ack_id + 1
    }
}

/// How many messages of the queue of the key are dropped by a pull.
pub open spec fn dropped_from(queue: Seq<Arc<TopicMessage>>, st: SubscriptionState, now: nat) -> int
    decreases queue.len(),
{
    if queue.len() > 0 && is_aged(st, queue[0], now) {
        1 + dropped_from(queue.drop_first(), st, now)
    } else {
        0
    }
}

/// A pull from one key goes like that.
pub proof fn law_key_delivers_in_order(st: SubscriptionState, k: Seq<char>, now: nat)
    requires
        st.next_ack_id < u64::MAX,
    ensures
        key_step(
            st,
            state::key_pulled(st, k, now),
            k,
            now,
            dropped_from(st.queues[k], st, now),
        ),
    decreases st.queues[k].len(),
{
    let queue = st.queues[k];
    let after = state::key_pulled(st, k, now);
    if queue.len() > 0 {
        let rest = SubscriptionState { queues: st.queues.insert(k, queue.drop_first()), ..st };
        let n: int = dropped_from(queue, st, now);
        if is_aged(st, queue[0], now) {
            let next = without_attempts(rest, queue[0]);
            law_key_delivers_in_order(next, k, now);
            lemma_dropped_same(queue.drop_first(), st, next, now);
            let n0: int = dropped_from(queue.drop_first(), next, now);
            assert(n == n0 + 1);
            assert forall|i: int| 0 <= i < n implies is_aged(st, #[trigger] queue[i], now) by {
                if i > 0 {
                    assert(queue.drop_first()[i - 1] == queue[i]);
                    assert(is_aged(next, queue.drop_first()[i - 1], now));
                }
            }
            if n < queue.len() {
                assert(queue.drop_first()[n0] == queue[n]);
                assert(!is_aged(next, queue.drop_first()[n0], now));
                assert(queue.drop_first().skip(n0 + 1) =~= queue.skip(n + 1));
            }
        } else {
            assert(queue.drop_first() =~= queue.skip(1));
            assert(after.outstanding.drop_last() =~= st.outstanding);
        }
    }
}

/// The state without the attempts of a message.
spec fn without_attempts(st: SubscriptionState, m: Arc<TopicMessage>) -> SubscriptionState {
    state::forgotten(st, *m)
}

/// What is dropped depends on the configuration alone.
proof fn lemma_dropped_same(
    queue: Seq<Arc<TopicMessage>>,
    a: SubscriptionState,
    b: SubscriptionState,
    now: nat,
)
    requires
        a.info == b.info,
    ensures
        dropped_from(queue, a, now) == dropped_from(queue, b, now),
    decreases queue.len(),
{
    if queue.len() > 0 {
        lemma_dropped_same(queue.drop_first(), a, b, now);
    }
}

/// A pull from a free key leaves the subscription in order.
pub proof fn lemma_key_pulled(st: SubscriptionState, k: Seq<char>, now: nat)
    requires
        orderly(st),
        !st.in_flight.contains(k),
        st.next_ack_id < u64::MAX,
    ensures
        orderly(state::key_pulled(st, k, now)),
{
    let none = Seq::<Arc<TopicMessage>>::empty();
    let after = state::key_pulled(st, k, now);
    let n: int = dropped_from(st.queues[k], st, now);
    law_key_delivers_in_order(st, k, now);
    assert(queue_ordered(st, k));
    assert forall|j: Seq<char>| #[trigger] queue_ordered(after, j) by {
        assert(queue_ordered(st, j));
        if j == k && n < st.queues[k].len() {
            assert forall|i: int| 0 <= i < after.queues[k].len() implies state::ordered_key(
                after.info,
                *#[trigger] after.queues[k][i],
            ) == Some(k) by {
                assert(after.queues[k][i] == st.queues[k][n + 1 + i]);
            }
        }
    }
    assert forall|j: Seq<char>| #[trigger] key_balanced(after, none, j) by {
        assert(key_balanced(st, none, j));
        if n < st.queues[k].len() {
            let d = after.outstanding.last();
            assert(after.outstanding =~= st.outstanding.push(d));
            assert(state::ordered_key(st.info, *st.queues[k][n]) == Some(k));
            collections::lemma_tally_push(st.outstanding, d, of_delivery(has_key(st.info, j)));
        }
    }
    if n < st.queues[k].len() {
        let d = after.outstanding.last();
        assert(after.outstanding =~= st.outstanding.push(d));
    }
}

/// Pulls from free keys leave the subscription in order.
pub proof fn lemma_keys_pulled(st: SubscriptionState, keys: Seq<Seq<char>>, limit: nat, now: nat)
    requires
        orderly(st),
        forall|i: int| 0 <= i < keys.len() ==> !st.in_flight.contains(#[trigger] keys[i]),
        forall|i: int, j: int|
            0 <= i < j < keys.len() ==> #[trigger] keys[i] != #[trigger] keys[j],
        st.outstanding.len() <= limit,
        st.next_ack_id + (limit - st.outstanding.len()) <= u64::MAX,
    ensures
        ({
            let after = state::keys_pulled(st, keys, limit, now);
            &&& orderly(after)
            &&& after.outstanding.len() <= limit
            &&& st.outstanding.len() <= after.outstanding.len()
            &&& after.next_ack_id - st.next_ack_id == after.outstanding.len()
                - st.outstanding.len()
            &&& after.info == st.info
            &&& after.backlog == st.backlog
            &&& after.deleted == st.deleted
            &&& after.retries == st.retries
        }),
    decreases keys.len(),
{
    if keys.len() > 0 && st.outstanding.len() < limit {
        let next = state::key_pulled(st, keys[0], now);
        let rest = keys.drop_first();
        law_key_delivers_in_order(st, keys[0], now);
        lemma_key_pulled(st, keys[0], now);
        assert forall|i: int| 0 <= i < rest.len() implies !next.in_flight.contains(
            #[trigger] rest[i],
        ) by {
            assert(rest[i] == keys[i + 1]);
            assert(keys[0] != keys[i + 1]);
        }
        assert forall|i: int, j: int| 0 <= i < j < rest.len() implies #[trigger] rest[i]
            != #[trigger] rest[j] by {
            assert(rest[i] == keys[i + 1] && rest[j] == keys[j + 1]);
        }
        lemma_keys_pulled(next, rest, limit, now);
    }
}

/// A pull from the backlog leaves the subscription in order.
proof fn lemma_backlog_pulled(st: SubscriptionState, limit: nat, now: nat)
    requires
        orderly(st),
        st.outstanding.len() <= limit,
        st.next_ack_id + (limit - st.outstanding.len()) <= u64::MAX,
    ensures
        ({
            let after = state::backlog_pulled(st, limit, now);
            &&& orderly(after)
            &&& after.outstanding.len() <= limit
            &&& after.next_ack_id - st.next_ack_id == after.outstanding.len()
                - st.outstanding.len()
        }),
    decreases st.backlog.len(),
{
    let none = Seq::<Arc<TopicMessage>>::empty();
    if st.backlog.len() > 0 && st.outstanding.len() < limit {
        let m = st.backlog[0];
        let rest = SubscriptionState { backlog: st.backlog.drop_first(), ..st };
        let next = if is_aged(st, m, now) {
            without_attempts(rest, m)
        } else {
            state::delivered(rest, m, now)
        };
        assert forall|i: int| 0 <= i < next.backlog.len() implies state::ordered_key(
            next.info,
            *#[trigger] next.backlog[i],
        ) is None by {
            assert(next.backlog[i] == st.backlog[i + 1]);
        }
        assert forall|k: Seq<char>| #[trigger] key_balanced(next, none, k) by {
            assert(key_balanced(st, none, k));
            if !is_aged(st, m, now) {
                assert(state::ordered_key(st.info, *st.backlog[0]) is None);
                collections::lemma_tally_push(
                    st.outstanding,
                    next.outstanding.last(),
                    of_delivery(has_key(st.info, k)),
                );
            }
        }
        assert forall|k: Seq<char>| #[trigger] queue_ordered(next, k) by {
            assert(queue_ordered(st, k));
        }
        assert(orderly(next));
        lemma_backlog_pulled(next, limit, now);
    }
}

/// Only finitely many keys have something queued, as in every subscription at work.
pub open spec fn finitely_queued(st: SubscriptionState) -> bool {
    key_queues::waiting_keys(st.queues, Set::empty()).finite()
}

/// The keys that can be pulled from can be listed, each once.
pub proof fn lemma_free_keys_listed(st: SubscriptionState)
    requires
        finitely_queued(st),
    ensures
        ({
            let keys = key_queues::listing(state::free_keys(st));
            &&& key_queues::is_listing(keys, state::free_keys(st))
            &&& forall|i: int|
                0 <= i < keys.len() ==> state::free_keys(st).contains(#[trigger] keys[i])
            &&& forall|i: int, j: int|
                0 <= i < j < keys.len() ==> #[trigger] keys[i] != #[trigger] keys[j]
        }),
{
    let free = state::free_keys(st);
    let keys = key_queues::listing(free);
    let waiting = key_queues::waiting_keys(st.queues, Set::empty());
    assert(free =~= waiting.difference(st.in_flight));
    key_queues::lemma_finite_set_has_listing(free);
    assert forall|i: int| 0 <= i < keys.len() implies free.contains(#[trigger] keys[i]) by {
        assert(keys.contains(keys[i]));
    }
    assert forall|i: int, j: int| 0 <= i < j < keys.len() implies #[trigger] keys[i]
        != #[trigger] keys[j] by {
        text::lemma_precedes_one_way(keys[i], keys[j]);
    }
}

/// A pull leaves the subscription in order.
pub proof fn law_pull_keeps_order(
    st: SubscriptionState,
    max_count: u16,
    max_outstanding: u16,
    now: nat,
)
    requires
        orderly(st),
        finitely_queued(st),
    ensures
        orderly(state::pulled(st, max_count, max_outstanding, now)),
{
    if !st.deleted && !st.info.detached {
        let limit: nat = st.outstanding.len() + state::pull_room(st, max_count, max_outstanding);
        let keys = key_queues::listing(state::free_keys(st));
        lemma_free_keys_listed(st);
        assert forall|i: int| 0 <= i < keys.len() implies !st.in_flight.contains(
            #[trigger] keys[i],
        ) by {
            assert(state::free_keys(st).contains(keys[i]));
        }
        lemma_keys_pulled(st, keys, limit, now);
        lemma_backlog_pulled(state::keys_pulled(st, keys, limit, now), limit, now);
    }
}

/// The ordering key of a delivery.
pub open spec fn delivery_key(info: SubscriptionInfo, d: Delivery) -> Option<Seq<char>> {
    state::ordered_key(info, *d.message)
}

/// Of a subscription in order at most one message of an ordering key is outstanding.
pub proof fn law_one_message_per_key(st: SubscriptionState, i: int, j: int)
    requires
        orderly(st),
        0 <= i < j < st.outstanding.len(),
    ensures
        delivery_key(st.info, st.outstanding[i]) is None || delivery_key(
            st.info,
            st.outstanding[i],
        ) != delivery_key(st.info, st.outstanding[j]),
{
    let key = delivery_key(st.info, st.outstanding[i]);
    if key is Some && key == delivery_key(st.info, st.outstanding[j]) {
        assert(key_balanced(st, Seq::empty(), key->0));
        collections::lemma_tally_two(st.outstanding, of_delivery(has_key(st.info, key->0)), i, j);
    }
}

} // verus!
