//! What deliveries keep to, and where messages go.
use std::sync::Arc;
use vstd::prelude::*;

use crate::collections;
use crate::subscriptions::ack::{AckId, Delivery, Modification};
use crate::subscriptions::info::{PushConfig, SubscriptionUpdate};
use crate::subscriptions::key_queues;
use crate::subscriptions::outstanding;
use crate::subscriptions::retry_queue;
use crate::subscriptions::retry_queue::Retry;
use crate::subscriptions::state;
use crate::subscriptions::state::{Condemned, SubscriptionState};
use crate::subscriptions::state_laws;
use crate::subscriptions::stats;
use crate::subscriptions::stats::SubscriptionCounters;
use crate::topics::topic_message::TopicMessage;

verus! {

/// Deliveries were added behind the outstanding ones, with the next ids and none of them too old.
pub open spec fn grown(st: SubscriptionState, after: SubscriptionState, now: nat) -> bool {
    let before = st.outstanding.len();
    &&& before <= after.outstanding.len()
    &&& forall|i: int|
        0 <= i < before ==> #[trigger] after.outstanding[i] == st.outstanding[i]
    &&& forall|i: int|
        before <= i < after.outstanding.len() ==> !state_laws::is_aged(
            st,
            (#[trigger] after.outstanding[i]).message,
            now,
        ) && after.outstanding[i].ack_id == st.next_ack_id + (i - before)
    &&& after.next_ack_id == st.next_ack_id + (after.outstanding.len() - before)
    &&& after.info == st.info
    &&& after.retries == st.retries
    &&& after.deleted == st.deleted
}

/// Growth in two steps is growth.
proof fn lemma_grown_twice(
    a: SubscriptionState,
    b: SubscriptionState,
    c: SubscriptionState,
    now: nat,
)
    requires
        grown(a, b, now),
        grown(b, c, now),
    ensures
        grown(a, c, now),
{
    let n: int = a.outstanding.len() as int;
    assert forall|i: int| n <= i < c.outstanding.len() implies !state_laws::is_aged(
        a,
        (#[trigger] c.outstanding[i]).message,
        now,
    ) && c.outstanding[i].ack_id == a.next_ack_id + (i - n) by {
        if i < b.outstanding.len() {
            assert(c.outstanding[i] == b.outstanding[i]);
        }
    }
    assert forall|i: int| 0 <= i < n implies #[trigger] c.outstanding[i] == a.outstanding[i] by {
        assert(c.outstanding[i] == b.outstanding[i]);
        assert(b.outstanding[i] == a.outstanding[i]);
    }
}

/// A pull from one key is growth.
proof fn lemma_key_grown(st: SubscriptionState, k: Seq<char>, now: nat)
    requires
        st.next_ack_id < u64::MAX,
    ensures
        grown(st, state::key_pulled(st, k, now), now),
        state::key_pulled(st, k, now).outstanding.len() <= st.outstanding.len() + 1,
{
    let after = state::key_pulled(st, k, now);
    let n: int = state_laws::dropped_from(st.queues[k], st, now);
    state_laws::law_key_delivers_in_order(st, k, now);
    if n < st.queues[k].len() {
        assert(after.outstanding =~= st.outstanding.push(after.outstanding.last()));
        assert(!state_laws::is_aged(st, st.queues[k][n], now));
    }
}

/// Pulls from keys are growth up to the limit.
proof fn lemma_keys_grown(st: SubscriptionState, keys: Seq<Seq<char>>, limit: nat, now: nat)
    requires
        st.outstanding.len() <= limit,
        st.next_ack_id + (limit - st.outstanding.len()) <= u64::MAX,
    ensures
        grown(st, state::keys_pulled(st, keys, limit, now), now),
        state::keys_pulled(st, keys, limit, now).outstanding.len() <= limit,
        state::keys_pulled(st, keys, limit, now).backlog == st.backlog,
    decreases keys.len(),
{
    if keys.len() > 0 && st.outstanding.len() < limit {
        let next = state::key_pulled(st, keys[0], now);
        state_laws::law_key_delivers_in_order(st, keys[0], now);
        lemma_key_grown(st, keys[0], now);
        lemma_keys_grown(next, keys.drop_first(), limit, now);
        lemma_grown_twice(st, next, state::keys_pulled(st, keys, limit, now), now);
    }
}

/// What a pull takes from the backlog: its first `n` messages, of which those that are not too old
/// are delivered in their order.
pub open spec fn backlog_step(
    st: SubscriptionState,
    after: SubscriptionState,
    now: nat,
    n: int,
) -> bool {
    &&& 0 <= n <= st.backlog.len()
    &&& after.backlog == st.backlog.skip(n)
    &&& after.queues == st.queues
    &&& after.in_flight == st.in_flight
    &&& state::delivery_messages(after.outstanding.skip(st.outstanding.len() as int))
        == not_aged(st, st.backlog.take(n), now)
}

/// The messages that are not too old to be delivered.
pub open spec fn not_aged(
    st: SubscriptionState,
    messages: Seq<Arc<TopicMessage>>,
    now: nat,
) -> Seq<Arc<TopicMessage>> {
    collections::select(messages, |m: Arc<TopicMessage>| !state_laws::is_aged(st, m, now))
}

/// How many messages a pull takes from the backlog.
pub open spec fn taken_from_backlog(st: SubscriptionState, limit: nat, now: nat) -> int {
    st.backlog.len() - state::backlog_pulled(st, limit, now).backlog.len()
}

/// A pull from the backlog takes its first messages and delivers, in their order, those that are
/// not too old; where it stops before the end of the backlog the limit is reached.
pub proof fn law_backlog_delivers_in_order(st: SubscriptionState, limit: nat, now: nat)
    requires
        st.outstanding.len() <= limit,
        st.next_ack_id + (limit - st.outstanding.len()) <= u64::MAX,
    ensures
        backlog_step(
            st,
            state::backlog_pulled(st, limit, now),
            now,
            taken_from_backlog(st, limit, now),
        ),
        grown(st, state::backlog_pulled(st, limit, now), now),
        state::backlog_pulled(st, limit, now).outstanding.len() <= limit,
        state::backlog_pulled(st, limit, now).backlog.len() > 0 ==> state::backlog_pulled(
            st,
            limit,
            now,
        ).outstanding.len() == limit,
    decreases st.backlog.len(),
{
    let after = state::backlog_pulled(st, limit, now);
    if st.backlog.len() == 0 || st.outstanding.len() >= limit {
        assert(st.backlog.skip(0) =~= st.backlog);
        assert(st.backlog.take(0) =~= Seq::empty());
        assert(state::delivery_messages(st.outstanding.skip(st.outstanding.len() as int))
            =~= Seq::empty());
    } else {
        let m = st.backlog[0];
        let aged = state_laws::is_aged(st, m, now);
        let next = next_of_backlog(st, now);
        law_backlog_delivers_in_order(next, limit, now);
        let n0: int = taken_from_backlog(next, limit, now);
        let n: int = taken_from_backlog(st, limit, now);
        assert(n == n0 + 1);
        assert(next.backlog.skip(n0) =~= st.backlog.skip(n));
        assert(st.backlog.take(n) =~= seq![m] + next.backlog.take(n0));
        let live = |x: Arc<TopicMessage>| !state_laws::is_aged(st, x, now);
        collections::lemma_select_add(seq![m], next.backlog.take(n0), live);
        collections::lemma_select_one(m, live);
        assert(not_aged(next, next.backlog.take(n0), now) == not_aged(
            st,
            next.backlog.take(n0),
            now,
        )) by {
            assert((|x: Arc<TopicMessage>| !state_laws::is_aged(next, x, now)) =~= live);
        }
        let old_len: int = st.outstanding.len() as int;
        if aged {
            assert(not_aged(st, st.backlog.take(n), now) =~= not_aged(
                next,
                next.backlog.take(n0),
                now,
            ));
        } else {
            assert(next.outstanding.len() == old_len + 1);
            assert(next.outstanding[old_len].message == m);
            assert(after.outstanding[old_len] == next.outstanding[old_len]);
            assert(state::delivery_messages(after.outstanding.skip(old_len)) =~= seq![m]
                + state::delivery_messages(after.outstanding.skip(old_len + 1)));
        }
        assert(grown(st, next, now));
        lemma_grown_twice(st, next, after, now);
    }
}

/// The state after the first message of the backlog was looked at.
spec fn next_of_backlog(st: SubscriptionState, now: nat) -> SubscriptionState {
    let m = st.backlog[0];
    let rest = SubscriptionState { backlog: st.backlog.drop_first(), ..st };
    if state_laws::is_aged(st, m, now) {
        state::forgotten(rest, *m)
    } else {
        state::delivered(rest, m, now)
    }
}

/// The states of a pull: at the start, after the keys, and at the end.
proof fn lemma_pull_phases(
    st: SubscriptionState,
    max_count: u16,
    max_outstanding: u16,
    now: nat,
) -> (middle: SubscriptionState)
    requires
        !st.deleted,
        !st.info.detached,
    ensures
        ({
            let limit = st.outstanding.len() + state::pull_room(st, max_count, max_outstanding);
            &&& middle == state::keys_pulled(
                st,
                key_queues::listing(state::free_keys(st)),
                limit,
                now,
            )
            &&& grown(st, middle, now)
            &&& middle.backlog == st.backlog
            &&& middle.outstanding.len() <= limit
            &&& middle.next_ack_id + (limit - middle.outstanding.len()) <= u64::MAX
            &&& state::pulled(st, max_count, max_outstanding, now) == state::backlog_pulled(
                middle,
                limit,
                now,
            )
        }),
{
    let limit: nat = st.outstanding.len() + state::pull_room(st, max_count, max_outstanding);
    let keys = key_queues::listing(state::free_keys(st));
    lemma_keys_grown(st, keys, limit, now);
    state::keys_pulled(st, keys, limit, now)
}

/// A pull leaves what is outstanding where it is, gives each new delivery an id that was not given
/// before, and delivers no message that is too old.
pub proof fn law_pull_adds_fresh_deliveries(
    st: SubscriptionState,
    max_count: u16,
    max_outstanding: u16,
    now: nat,
)
    ensures
        grown(st, state::pulled(st, max_count, max_outstanding, now), now),
{
    if !st.deleted && !st.info.detached {
        let limit: nat = st.outstanding.len() + state::pull_room(st, max_count, max_outstanding);
        let middle = lemma_pull_phases(st, max_count, max_outstanding, now);
        law_backlog_delivers_in_order(middle, limit, now);
        lemma_grown_twice(
            st,
            middle,
            state::pulled(st, max_count, max_outstanding, now),
            now,
        );
    }
}

/// A pull delivers no more than was asked for, and no more than a thousand messages. With a cap
/// on outstanding messages it never brings their number above the cap.
pub proof fn law_pull_respects_limits(
    st: SubscriptionState,
    max_count: u16,
    max_outstanding: u16,
    now: nat,
)
    ensures
        ({
            let after = state::pulled(st, max_count, max_outstanding, now);
            &&& after.outstanding.len() <= st.outstanding.len() + max_count
            &&& after.outstanding.len() <= st.outstanding.len() + 1_000
            &&& max_outstanding > 0 ==> after.outstanding.len() <= max_outstanding
                || after.outstanding == st.outstanding
        }),
{
    if !st.deleted && !st.info.detached {
        let limit: nat = st.outstanding.len() + state::pull_room(st, max_count, max_outstanding);
        let after = state::pulled(st, max_count, max_outstanding, now);
        let middle = lemma_pull_phases(st, max_count, max_outstanding, now);
        law_backlog_delivers_in_order(middle, limit, now);
        lemma_grown_twice(st, middle, after, now);
        if after.outstanding.len() == st.outstanding.len() {
            assert(after.outstanding =~= st.outstanding);
        }
    }
}

/// A pull that asks for no messages changes nothing, and neither does one with a cap on outstanding
/// messages that is reached.
pub proof fn law_pull_without_room_changes_nothing(
    st: SubscriptionState,
    max_count: u16,
    max_outstanding: u16,
    now: nat,
)
    requires
        max_count == 0 || (max_outstanding > 0 && st.outstanding.len() >= max_outstanding),
    ensures
        state::pulled(st, max_count, max_outstanding, now) == st,
{
}

/// The backlog is delivered in order: a pull takes its first messages and delivers, in their
/// order and behind those with an ordering key, the ones that are not too old.
pub proof fn law_pull_delivers_backlog_in_order(
    st: SubscriptionState,
    max_count: u16,
    max_outstanding: u16,
    now: nat,
)
    requires
        !st.deleted,
        !st.info.detached,
    ensures
        ({
            let after = state::pulled(st, max_count, max_outstanding, now);
            let n = st.backlog.len() - after.backlog.len();
            let live = not_aged(st, st.backlog.take(n), now);
            let delivered = state::delivery_messages(
                after.outstanding.skip(st.outstanding.len() as int),
            );
            &&& 0 <= n
            &&& after.backlog == st.backlog.skip(n)
            &&& live.len() <= delivered.len()
            &&& delivered.skip(delivered.len() - live.len()) == live
        }),
{
    let limit: nat = st.outstanding.len() + state::pull_room(st, max_count, max_outstanding);
    let after = state::pulled(st, max_count, max_outstanding, now);
    let middle = lemma_pull_phases(st, max_count, max_outstanding, now);
    law_backlog_delivers_in_order(middle, limit, now);
    let n: int = taken_from_backlog(middle, limit, now);
    let live = not_aged(st, st.backlog.take(n), now);
    assert((|x: Arc<TopicMessage>| !state_laws::is_aged(middle, x, now)) =~= (|
        x: Arc<TopicMessage>,
    | !state_laws::is_aged(st, x, now)));
    assert(live == not_aged(middle, middle.backlog.take(n), now));
    let delivered = state::delivery_messages(after.outstanding.skip(st.outstanding.len() as int));
    let from_backlog = state::delivery_messages(
        after.outstanding.skip(middle.outstanding.len() as int),
    );
    assert(from_backlog.len() == live.len());
    assert(delivered.skip(delivered.len() - live.len()) =~= from_backlog);
}

/// Pulls from other keys leave the queue of a key alone, and deliver nothing of it.
proof fn lemma_keys_pulled_elsewhere(
    st: SubscriptionState,
    keys: Seq<Seq<char>>,
    limit: nat,
    now: nat,
    k: Seq<char>,
)
    requires
        forall|j: Seq<char>| #[trigger] state_laws::queue_ordered(st, j),
        !keys.contains(k),
        st.outstanding.len() <= limit,
        st.next_ack_id + (limit - st.outstanding.len()) <= u64::MAX,
    ensures
        ({
            let after = state::keys_pulled(st, keys, limit, now);
            &&& after.queues[k] == st.queues[k]
            &&& forall|i: int|
                st.outstanding.len() <= i < after.outstanding.len() ==> state_laws::delivery_key(
                    st.info,
                    #[trigger] after.outstanding[i],
                ) != Some(k)
        }),
    decreases keys.len(),
{
    if keys.len() > 0 && st.outstanding.len() < limit {
        let next = state::key_pulled(st, keys[0], now);
        let rest = keys.drop_first();
        let after = state::keys_pulled(st, keys, limit, now);
        let n: int = state_laws::dropped_from(st.queues[keys[0]], st, now);
        state_laws::law_key_delivers_in_order(st, keys[0], now);
        assert(keys.contains(keys[0]));
        assert(!rest.contains(k)) by {
            if rest.contains(k) {
                let i = choose|i: int| 0 <= i < rest.len() && rest[i] == k;
                assert(keys[i + 1] == k);
            }
        }
        assert forall|j: Seq<char>| #[trigger] state_laws::queue_ordered(next, j) by {
            assert(state_laws::queue_ordered(st, j));
            if j == keys[0] && n < st.queues[j].len() {
                assert forall|i: int| 0 <= i < next.queues[j].len() implies state::ordered_key(
                    next.info,
                    *#[trigger] next.queues[j][i],
                ) == Some(j) by {
                    assert(next.queues[j][i] == st.queues[j][n + 1 + i]);
                }
            }
        }
        lemma_keys_pulled_elsewhere(next, rest, limit, now, k);
        lemma_keys_grown(next, rest, limit, now);
        assert forall|i: int|
            st.outstanding.len() <= i
                < after.outstanding.len() implies state_laws::delivery_key(
            st.info,
            #[trigger] after.outstanding[i],
        ) != Some(k) by {
            if i < next.outstanding.len() {
                assert(after.outstanding[i] == next.outstanding[i]);
                assert(state_laws::queue_ordered(st, keys[0]));
                assert(state::ordered_key(st.info, *st.queues[keys[0]][n]) == Some(keys[0]));
            }
        }
    }
}

/// While a message of an ordering key is outstanding or waits for its retry, a pull delivers no
/// other message of that key.
pub proof fn law_key_in_flight_is_held_back(
    st: SubscriptionState,
    k: Seq<char>,
    max_count: u16,
    max_outstanding: u16,
    now: nat,
)
    requires
        state_laws::orderly(st),
        state_laws::finitely_queued(st),
        st.in_flight.contains(k),
    ensures
        ({
            let after = state::pulled(st, max_count, max_outstanding, now);
            &&& after.queues[k] == st.queues[k]
            &&& forall|i: int|
                st.outstanding.len() <= i < after.outstanding.len() ==> state_laws::delivery_key(
                    st.info,
                    #[trigger] after.outstanding[i],
                ) != Some(k)
        }),
{
    if !st.deleted && !st.info.detached {
        let limit: nat = st.outstanding.len() + state::pull_room(st, max_count, max_outstanding);
        let keys = key_queues::listing(state::free_keys(st));
        let after = state::pulled(st, max_count, max_outstanding, now);
        let middle = lemma_pull_phases(st, max_count, max_outstanding, now);
        state_laws::lemma_free_keys_listed(st);
        assert(!keys.contains(k)) by {
            if keys.contains(k) {
                assert(state::free_keys(st).contains(k));
            }
        }
        lemma_keys_pulled_elsewhere(st, keys, limit, now, k);
        law_backlog_delivers_in_order(middle, limit, now);
        let n: int = taken_from_backlog(middle, limit, now);
        let len: int = middle.outstanding.len() as int;
        assert forall|i: int|
            st.outstanding.len() <= i < after.outstanding.len() implies state_laws::delivery_key(
            st.info,
            #[trigger] after.outstanding[i],
        ) != Some(k) by {
            if i < len {
                assert(after.outstanding[i] == middle.outstanding[i]);
            } else {
                let fresh = state::delivery_messages(after.outstanding.skip(len));
                let m = fresh[i - len];
                assert(m == after.outstanding[i].message);
                assert(fresh.contains(m));
                collections::lemma_selected(
                    middle.backlog.take(n),
                    |x: Arc<TopicMessage>| !state_laws::is_aged(middle, x, now),
                    m,
                );
                let j = choose|j: int|
                    0 <= j < middle.backlog.take(n).len() && middle.backlog.take(n)[j] == m;
                assert(st.backlog[j] == m);
                assert(state::ordered_key(st.info, *st.backlog[j]) is None);
            }
        }
    }
}

/// A message of an ordering key that was put back is the next one of its key to be delivered,
/// unless it is too old.
pub proof fn law_returned_message_comes_first(
    st: SubscriptionState,
    m: Arc<TopicMessage>,
    k: Seq<char>,
    now: nat,
)
    requires
        state::ordered_key(st.info, *m) == Some(k),
        !state_laws::is_aged(st, m, now),
        st.next_ack_id < u64::MAX,
    ensures
        ({
            let back = state::put_back(st, m);
            let after = state::key_pulled(back, k, now);
            &&& !back.in_flight.contains(k)
            &&& after.outstanding == st.outstanding.push(after.outstanding.last())
            &&& after.outstanding.last().message == m
            &&& after.queues[k] == st.queues[k]
        }),
{
    let back = state::put_back(st, m);
    let queue = back.queues[k];
    assert(queue[0] == m);
    assert(queue.drop_first() =~= st.queues[k]);
}

/// Whether a message is this one.
pub open spec fn is_message(m: Arc<TopicMessage>) -> spec_fn(Arc<TopicMessage>) -> bool {
    |x: Arc<TopicMessage>| x == m
}

/// The queue that a message belongs to.
pub open spec fn queue_for(st: SubscriptionState, m: Arc<TopicMessage>) -> Seq<Arc<TopicMessage>> {
    match state::ordered_key(st.info, *m) {
        Some(k) => st.queues[k],
        None => Seq::empty(),
    }
}

/// How often the subscription holds a message, with messages on their way.
pub open spec fn copies_with(
    st: SubscriptionState,
    pending: Seq<Arc<TopicMessage>>,
    m: Arc<TopicMessage>,
) -> nat {
    collections::tally(st.backlog, is_message(m)) + collections::tally(
        queue_for(st, m),
        is_message(m),
    ) + state_laws::abroad(st, pending, is_message(m))
}

/// How often the subscription holds a message.
pub open spec fn copies(st: SubscriptionState, m: Arc<TopicMessage>) -> nat {
    copies_with(st, Seq::empty(), m)
}

/// Messages of a queue whose key is not that of the message are others.
proof fn lemma_not_in_other_queue(st: SubscriptionState, k: Seq<char>, m: Arc<TopicMessage>)
    requires
        state_laws::queue_ordered(st, k),
        state::ordered_key(st.info, *m) != Some(k),
    ensures
        forall|i: int| 0 <= i < st.queues[k].len() ==> #[trigger] st.queues[k][i] != m,
{
}

/// A pull from one key loses no message that is not too old.
proof fn lemma_key_pull_keeps(
    st: SubscriptionState,
    k: Seq<char>,
    now: nat,
    m: Arc<TopicMessage>,
)
    requires
        state_laws::queue_ordered(st, k),
        st.next_ack_id < u64::MAX,
        !state_laws::is_aged(st, m, now),
    ensures
        copies(state::key_pulled(st, k, now), m) == copies(st, m),
{
    let p = is_message(m);
    let after = state::key_pulled(st, k, now);
    let queue = st.queues[k];
    let n: int = state_laws::dropped_from(queue, st, now);
    state_laws::law_key_delivers_in_order(st, k, now);
    if n < queue.len() {
        let d = after.outstanding.last();
        assert(after.outstanding =~= st.outstanding.push(d));
        collections::lemma_tally_push(st.outstanding, d, state_laws::of_delivery(p));
    }
    if state_laws::has_key(st.info, k)(m) {
        let dropped = queue.take(n);
        assert forall|i: int| 0 <= i < dropped.len() implies !p(#[trigger] dropped[i]) by {
            assert(dropped[i] == queue[i]);
            assert(state_laws::is_aged(st, queue[i], now));
        }
        collections::lemma_select_none(dropped, p);
        assert(queue =~= dropped + queue.skip(n));
        collections::lemma_tally_add(dropped, queue.skip(n), p);
        if n < queue.len() {
            collections::lemma_tally_first(queue.skip(n), p);
            assert(queue.skip(n).drop_first() =~= queue.skip(n + 1));
        } else {
            assert(queue.skip(n) =~= Seq::empty());
            assert(after.queues[k] =~= Seq::empty());
        }
    } else {
        lemma_not_in_other_queue(st, k, m);
        assert(queue_for(after, m) == queue_for(st, m));
        if n < queue.len() {
            assert(queue[n] != m);
        }
    }
}

/// Pulls from keys lose no message that is not too old.
proof fn lemma_keys_pull_keeps(
    st: SubscriptionState,
    keys: Seq<Seq<char>>,
    limit: nat,
    now: nat,
    m: Arc<TopicMessage>,
)
    requires
        forall|j: Seq<char>| #[trigger] state_laws::queue_ordered(st, j),
        st.outstanding.len() <= limit,
        st.next_ack_id + (limit - st.outstanding.len()) <= u64::MAX,
        !state_laws::is_aged(st, m, now),
    ensures
        copies(state::keys_pulled(st, keys, limit, now), m) == copies(st, m),
    decreases keys.len(),
{
    if keys.len() > 0 && st.outstanding.len() < limit {
        let k = keys[0];
        let next = state::key_pulled(st, k, now);
        let n: int = state_laws::dropped_from(st.queues[k], st, now);
        state_laws::law_key_delivers_in_order(st, k, now);
        assert(state_laws::queue_ordered(st, k));
        lemma_key_pull_keeps(st, k, now, m);
        assert forall|j: Seq<char>| #[trigger] state_laws::queue_ordered(next, j) by {
            assert(state_laws::queue_ordered(st, j));
            if j == k && n < st.queues[j].len() {
                assert forall|i: int| 0 <= i < next.queues[j].len() implies state::ordered_key(
                    next.info,
                    *#[trigger] next.queues[j][i],
                ) == Some(j) by {
                    assert(next.queues[j][i] == st.queues[j][n + 1 + i]);
                }
            }
        }
        lemma_keys_pull_keeps(next, keys.drop_first(), limit, now, m);
    }
}

/// Pulls from the backlog lose no message that is not too old.
proof fn lemma_backlog_pull_keeps(
    st: SubscriptionState,
    limit: nat,
    now: nat,
    m: Arc<TopicMessage>,
)
    requires
        !state_laws::is_aged(st, m, now),
    ensures
        copies(state::backlog_pulled(st, limit, now), m) == copies(st, m),
    decreases st.backlog.len(),
{
    if st.backlog.len() > 0 && st.outstanding.len() < limit {
        let p = is_message(m);
        let next = next_of_backlog(st, now);
        collections::lemma_tally_first(st.backlog, p);
        if !state_laws::is_aged(st, st.backlog[0], now) {
            collections::lemma_tally_push(
                st.outstanding,
                next.outstanding.last(),
                state_laws::of_delivery(p),
            );
        }
        assert(copies(next, m) == copies(st, m));
        lemma_backlog_pull_keeps(next, limit, now, m);
    }
}

/// A pull loses no message that is not too old, and delivers none twice.
pub proof fn law_pull_loses_no_message(
    st: SubscriptionState,
    max_count: u16,
    max_outstanding: u16,
    now: nat,
    m: Arc<TopicMessage>,
)
    requires
        state_laws::orderly(st),
        !state_laws::is_aged(st, m, now),
    ensures
        copies(state::pulled(st, max_count, max_outstanding, now), m) == copies(st, m),
{
    if !st.deleted && !st.info.detached {
        let limit: nat = st.outstanding.len() + state::pull_room(st, max_count, max_outstanding);
        let keys = key_queues::listing(state::free_keys(st));
        let middle = lemma_pull_phases(st, max_count, max_outstanding, now);
        lemma_keys_pull_keeps(st, keys, limit, now, m);
        lemma_backlog_pull_keeps(middle, limit, now, m);
    }
}

/// A message that is put back is held as often as it was on its way.
proof fn lemma_put_back_keeps(
    st: SubscriptionState,
    x: Arc<TopicMessage>,
    rest: Seq<Arc<TopicMessage>>,
    m: Arc<TopicMessage>,
)
    ensures
        copies_with(state::put_back(st, x), rest, m) == copies_with(st, seq![x] + rest, m),
{
    let p = is_message(m);
    let all = seq![x] + rest;
    let after = state::put_back(st, x);
    collections::lemma_tally_first(all, p);
    assert(all.drop_first() =~= rest);
    collections::lemma_tally_push(st.backlog, x, p);
    let queue = queue_for(st, m);
    let longer = seq![x] + queue;
    collections::lemma_tally_first(longer, p);
    assert(longer.drop_first() =~= queue);
}

/// A message that came back is held as often as it was on its way, but for dead letters.
proof fn lemma_requeue_keeps(
    st: SubscriptionState,
    x: Arc<TopicMessage>,
    rest: Seq<Arc<TopicMessage>>,
    now: nat,
    m: Arc<TopicMessage>,
)
    ensures
        copies_with(st, seq![x] + rest, m) == copies_with(state::requeued(st, x, now), rest, m) + if
        is_condemned(st, x) && x == m {
            1nat
        } else {
            0
        },
{
    let p = is_message(m);
    let after = state::requeued(st, x, now);
    let all = seq![x] + rest;
    collections::lemma_tally_first(all, p);
    assert(all.drop_first() =~= rest);
    if !is_condemned(st, x) {
        let tried = tried_again(st, x);
        match st.info.retry_policy {
            Some(policy) => {
                collections::lemma_tally_push(
                    st.retries,
                    after.retries.last(),
                    state_laws::of_retry(p),
                );
                assert(after.retries =~= st.retries.push(after.retries.last()));
            },
            None => {
                lemma_put_back_keeps(tried, x, rest, m);
            },
        }
    }
}

/// Whether a message that comes back was delivered too often.
pub open spec fn is_condemned(st: SubscriptionState, x: Arc<TopicMessage>) -> bool {
    state::exhausted(st.info, state::next_attempt(st, *x))
}

/// The state with one more attempt of a message.
spec fn tried_again(st: SubscriptionState, x: Arc<TopicMessage>) -> SubscriptionState {
    SubscriptionState {
        attempts: st.attempts.insert(x.id.value, state::next_attempt(st, *x)),
        ..st
    }
}

/// Whether a dead letter is that of the message.
pub open spec fn letter_of(m: Arc<TopicMessage>) -> spec_fn(Condemned) -> bool {
    |c: Condemned| c.message == m
}

/// Messages that came back are held as often as before, but for dead letters.
proof fn lemma_all_requeue_keeps(
    st: SubscriptionState,
    returned: Seq<Delivery>,
    rest: Seq<Arc<TopicMessage>>,
    now: nat,
    m: Arc<TopicMessage>,
)
    ensures
        copies_with(st, state::delivery_messages(returned) + rest, m) == copies_with(
            state::all_requeued(st, returned, now),
            rest,
            m,
        ) + collections::tally(state::condemned(st, returned, now), letter_of(m)),
        state::all_requeued(st, returned, now).info == st.info,
    decreases returned.len(),
{
    if returned.len() == 0 {
        assert(state::delivery_messages(returned) + rest =~= rest);
    } else {
        let front = returned.drop_last();
        let x = returned.last().message;
        let before = state::all_requeued(st, front, now);
        assert(state::delivery_messages(front) + (seq![x] + rest) =~= state::delivery_messages(
            returned,
        ) + rest);
        lemma_all_requeue_keeps(st, front, seq![x] + rest, now, m);
        lemma_requeue_keeps(before, x, rest, now, m);
        let letters = state::condemned(st, front, now);
        if is_condemned(before, x) {
            collections::lemma_tally_push(
                letters,
                state::condemned(st, returned, now).last(),
                letter_of(m),
            );
            assert(state::condemned(st, returned, now) =~= letters.push(
                state::condemned(st, returned, now).last(),
            ));
        }
    }
}

/// Deliveries that are taken out are on their way.
proof fn lemma_taken_keeps(
    st: SubscriptionState,
    pending: Seq<Arc<TopicMessage>>,
    chosen: spec_fn(Delivery) -> bool,
    left: spec_fn(Delivery) -> bool,
    m: Arc<TopicMessage>,
)
    requires
        forall|d: Delivery| #[trigger] chosen(d) == !left(d),
    ensures
        copies_with(st, pending, m) == copies_with(
            SubscriptionState { outstanding: collections::select(st.outstanding, left), ..st },
            pending + state::delivery_messages(collections::select(st.outstanding, chosen)),
            m,
        ),
{
    let p = is_message(m);
    let gone = collections::select(st.outstanding, chosen);
    collections::lemma_tally_split(st.outstanding, state_laws::of_delivery(p), chosen, left);
    collections::lemma_tally_add(pending, state::delivery_messages(gone), p);
    state_laws::lemma_delivery_tally(gone, p);
}

/// Modifications of deadlines lose nothing; what they return is on its way.
proof fn lemma_modifications_keep(
    st: SubscriptionState,
    modifications: Seq<Modification>,
    m: Arc<TopicMessage>,
)
    ensures
        ({
            let (kept, returned) = outstanding::modified(st.outstanding, modifications);
            copies(st, m) == copies_with(
                SubscriptionState { outstanding: kept, ..st },
                state::delivery_messages(returned),
                m,
            )
        }),
    decreases modifications.len(),
{
    let (kept, returned) = outstanding::modified(st.outstanding, modifications);
    if modifications.len() == 0 {
        assert(state::delivery_messages(returned) =~= Seq::empty());
    } else {
        let last = modifications.last();
        lemma_modifications_keep(st, modifications.drop_last(), m);
        let (kept0, returned0) = outstanding::modified(st.outstanding, modifications.drop_last());
        let before = SubscriptionState { outstanding: kept0, ..st };
        match last.new_deadline {
            Some(deadline) => {
                collections::lemma_tally_same(
                    kept0,
                    kept,
                    state_laws::of_delivery(is_message(m)),
                );
            },
            None => {
                let ids = set![last.ack_id];
                lemma_taken_keeps(
                    before,
                    state::delivery_messages(returned0),
                    |d: Delivery| ids.contains(d.ack_id),
                    |d: Delivery| !ids.contains(d.ack_id),
                    m,
                );
                assert(state::delivery_messages(returned) =~= state::delivery_messages(returned0)
                    + state::delivery_messages(outstanding::named(kept0, ids)));
            },
        }
    }
}

/// A modification of deadlines loses no message: those that are returned are held as before, or
/// become dead letters.
pub proof fn law_modify_loses_no_message(
    st: SubscriptionState,
    modifications: Seq<Modification>,
    now: nat,
    m: Arc<TopicMessage>,
)
    requires
        !st.deleted,
    ensures
        copies(st, m) == copies(state::modified(st, modifications, now), m) + collections::tally(
            state::condemned(
                state::deadlines_moved(st, modifications),
                outstanding::modified(st.outstanding, modifications).1,
                now,
            ),
            letter_of(m),
        ),
{
    let none = Seq::<Arc<TopicMessage>>::empty();
    let (kept, returned) = outstanding::modified(st.outstanding, modifications);
    let moved = state::deadlines_moved(st, modifications);
    lemma_modifications_keep(st, modifications, m);
    assert(state::delivery_messages(returned) + none =~= state::delivery_messages(returned));
    lemma_all_requeue_keeps(moved, returned, none, now, m);
}

/// Deadlines that come lose no message: those that were overdue are held as before, or become dead
/// letters.
pub proof fn law_expiry_loses_no_message(st: SubscriptionState, now: nat, m: Arc<TopicMessage>)
    ensures
        copies(st, m) == copies(state::expired(st, now), m) + collections::tally(
            state::condemned(
                state::overdue_taken(st, now),
                outstanding::overdue(st.outstanding, now),
                now,
            ),
            letter_of(m),
        ),
{
    let none = Seq::<Arc<TopicMessage>>::empty();
    let gone = outstanding::overdue(st.outstanding, now);
    lemma_taken_keeps(
        st,
        none,
        |d: Delivery| d.deadline <= now,
        |d: Delivery| now < d.deadline,
        m,
    );
    assert(none + state::delivery_messages(gone) =~= state::delivery_messages(gone) + none);
    lemma_all_requeue_keeps(state::overdue_taken(st, now), gone, none, now, m);
}

/// An acknowledgement takes away the messages with its ids and no others.
pub proof fn law_acknowledge_takes_what_it_names(
    st: SubscriptionState,
    ids: Set<u64>,
    m: Arc<TopicMessage>,
)
    requires
        !st.deleted,
    ensures
        copies(st, m) == copies(state::acknowledged(st, ids), m) + collections::tally(
            outstanding::named(st.outstanding, ids),
            state_laws::of_delivery(is_message(m)),
        ),
{
    let none = Seq::<Arc<TopicMessage>>::empty();
    let gone = outstanding::named(st.outstanding, ids);
    let after = state::acknowledged(st, ids);
    lemma_taken_keeps(
        st,
        none,
        |d: Delivery| ids.contains(d.ack_id),
        |d: Delivery| !ids.contains(d.ack_id),
        m,
    );
    assert(none + state::delivery_messages(gone) =~= state::delivery_messages(gone));
    state_laws::lemma_delivery_tally(gone, is_message(m));
    lemma_all_gone_fields(
        SubscriptionState {
            outstanding: outstanding::not_named(st.outstanding, ids),
            counters: SubscriptionCounters {
                acked: stats::counted(st.counters.acked, gone.len()),
                ..st.counters
            },
            ..st
        },
        gone,
    );
}

/// What is gone changes neither queues nor deliveries.
proof fn lemma_all_gone_fields(st: SubscriptionState, gone: Seq<Delivery>)
    ensures
        ({
            let after = state::all_gone(st, gone);
            &&& after.info == st.info
            &&& after.backlog == st.backlog
            &&& after.queues == st.queues
            &&& after.outstanding == st.outstanding
            &&& after.retries == st.retries
            &&& after.counters == st.counters
            &&& after.next_ack_id == st.next_ack_id
            &&& after.deleted == st.deleted
        }),
    decreases gone.len(),
{
    if gone.len() > 0 {
        lemma_all_gone_fields(st, gone.drop_last());
    }
}

/// Waits that are over lose no message that is not too old.
pub proof fn law_retry_loses_no_message(st: SubscriptionState, now: nat, m: Arc<TopicMessage>)
    requires
        !state_laws::is_aged(st, m, now),
    ensures
        copies(state::retries_ended(st, now), m) == copies(st, m),
{
    let none = Seq::<Arc<TopicMessage>>::empty();
    let p = is_message(m);
    let due = retry_queue::due(st.retries, now);
    let ready = state::ready_messages(st, now);
    let taken = SubscriptionState { retries: retry_queue::not_due(st.retries, now), ..st };
    collections::lemma_tally_split(
        st.retries,
        state_laws::of_retry(p),
        |r: Retry| r.deliver_at <= now,
        |r: Retry| now < r.deliver_at,
    );
    state_laws::lemma_retry_tally(due, p);
    assert(ready + none =~= ready);
    lemma_all_retried_keeps(taken, ready, none, now, m);
}

/// Messages whose wait is over are held as before, but for those that are too old.
proof fn lemma_all_retried_keeps(
    st: SubscriptionState,
    ready: Seq<Arc<TopicMessage>>,
    rest: Seq<Arc<TopicMessage>>,
    now: nat,
    m: Arc<TopicMessage>,
)
    requires
        !state_laws::is_aged(st, m, now),
    ensures
        copies_with(st, ready + rest, m) == copies_with(
            state::all_retried(st, ready, now),
            rest,
            m,
        ),
        state::all_retried(st, ready, now).info == st.info,
    decreases ready.len(),
{
    if ready.len() == 0 {
        assert(ready + rest =~= rest);
    } else {
        let front = ready.drop_last();
        let x = ready.last();
        let before = state::all_retried(st, front, now);
        assert(front + (seq![x] + rest) =~= ready + rest);
        lemma_all_retried_keeps(st, front, seq![x] + rest, now, m);
        if state_laws::is_aged(before, x, now) {
            let all = seq![x] + rest;
            collections::lemma_tally_first(all, is_message(m));
            assert(all.drop_first() =~= rest);
        } else {
            lemma_put_back_keeps(before, x, rest, m);
        }
    }
}

/// New messages are held once more for each time that they came and passed the filter.
pub proof fn law_post_holds_what_passes(
    st: SubscriptionState,
    messages: Seq<Arc<TopicMessage>>,
    m: Arc<TopicMessage>,
)
    requires
        !st.deleted,
    ensures
        copies(state::posted(st, messages), m) == copies(st, m) + if state::passes(st.filter, *m) {
            collections::tally(messages, is_message(m))
        } else {
            0
        },
{
    lemma_all_enqueued_holds(st, messages, m);
}

proof fn lemma_all_enqueued_holds(
    st: SubscriptionState,
    messages: Seq<Arc<TopicMessage>>,
    m: Arc<TopicMessage>,
)
    ensures
        copies(state::all_enqueued(st, messages), m) == copies(st, m) + if state::passes(
            st.filter,
            *m,
        ) {
            collections::tally(messages, is_message(m))
        } else {
            0
        },
        state::all_enqueued(st, messages).info == st.info,
    decreases messages.len(),
{
    if messages.len() > 0 {
        let p = is_message(m);
        let front = messages.drop_last();
        let x = messages.last();
        let before = state::all_enqueued(st, front);
        lemma_all_enqueued_holds(st, front, m);
        assert(messages =~= front.push(x));
        collections::lemma_tally_push(front, x, p);
        collections::lemma_tally_push(before.backlog, x, p);
        collections::lemma_tally_push(queue_for(before, m), x, p);
    }
}

/// An acknowledgement that is made again changes nothing more, and all its ids are invalid then.
pub proof fn law_acknowledge_again_changes_nothing(st: SubscriptionState, ids: Set<u64>, id: u64)
    requires
        ids.contains(id),
        !st.deleted,
    ensures
        !outstanding::is_delivered(state::acknowledged(st, ids).outstanding, id),
        state::acknowledged(state::acknowledged(st, ids), ids) == state::acknowledged(st, ids),
{
    let once = state::acknowledged(st, ids);
    let gone = outstanding::named(st.outstanding, ids);
    let left = |d: Delivery| !ids.contains(d.ack_id);
    let chosen = |d: Delivery| ids.contains(d.ack_id);
    lemma_all_gone_fields(
        SubscriptionState {
            outstanding: outstanding::not_named(st.outstanding, ids),
            counters: SubscriptionCounters {
                acked: stats::counted(st.counters.acked, gone.len()),
                ..st.counters
            },
            ..st
        },
        gone,
    );
    assert forall|i: int| 0 <= i < once.outstanding.len() implies left(
        #[trigger] once.outstanding[i],
    ) by {
        let d = once.outstanding[i];
        assert(once.outstanding.contains(d));
        collections::lemma_selected(st.outstanding, left, d);
    }
    assert forall|i: int| 0 <= i < once.outstanding.len() implies !chosen(
        #[trigger] once.outstanding[i],
    ) by {
        assert(left(once.outstanding[i]));
    }
    collections::lemma_select_all(once.outstanding, left);
    collections::lemma_select_none(once.outstanding, chosen);
    assert(outstanding::named(once.outstanding, ids) =~= Seq::<Delivery>::empty());
    assert(state::acknowledged(once, ids) =~= once);
    if outstanding::is_delivered(once.outstanding, id) {
        let i = choose|i: int|
            0 <= i < once.outstanding.len() && #[trigger] once.outstanding[i].ack_id == id;
        assert(left(once.outstanding[i]));
    }
}

/// Each id of a request is either valid or invalid.
pub proof fn law_ids_are_valid_or_invalid(s: Seq<Delivery>, ids: Seq<AckId>, id: AckId)
    requires
        ids.contains(id),
    ensures
        state::valid_ids(s, ids).contains(id) <==> outstanding::is_delivered(s, id.value),
        state::invalid_ids(s, ids).contains(id) <==> !outstanding::is_delivered(s, id.value),
{
    collections::lemma_selected(ids, |x: AckId| outstanding::is_delivered(s, x.value), id);
    collections::lemma_selected(ids, |x: AckId| !outstanding::is_delivered(s, x.value), id);
}

/// Detaching a subscription that is not deleted drops every message, and detaching again changes
/// nothing. A pull changes nothing then.
pub proof fn law_detach_drops_messages(
    st: SubscriptionState,
    m: Arc<TopicMessage>,
    max_count: u16,
    max_outstanding: u16,
    now: nat,
)
    ensures
        state::detached(state::detached(st)) == state::detached(st),
        !st.deleted ==> state::detached(st).info.detached,
        !st.deleted && !st.info.detached ==> copies(state::detached(st), m) == 0
            && !state::pullable(state::detached(st)),
        state::pulled(state::detached(st), max_count, max_outstanding, now) == state::detached(st),
{
}

/// A deleted subscription holds nothing and nothing changes it any more.
pub proof fn law_deleted_is_final(
    st: SubscriptionState,
    messages: Seq<Arc<TopicMessage>>,
    ids: Set<u64>,
    modifications: Seq<Modification>,
    max_count: u16,
    max_outstanding: u16,
    update: SubscriptionUpdate,
    push_config: Option<PushConfig>,
    now: nat,
    time: int,
)
    requires
        !st.deleted,
    ensures
        ({
            let gone = state::deleted(st);
            &&& !state::pullable(gone)
            &&& gone.outstanding.len() == 0
            &&& gone.retries.len() == 0
            &&& state::posted(gone, messages) == gone
            &&& state::pulled(gone, max_count, max_outstanding, now) == gone
            &&& state::acknowledged(gone, ids) == gone
            &&& state::modified(gone, modifications, now) == gone
            &&& state::expired(gone, now) == gone
            &&& state::retries_ended(gone, now) == gone
            &&& state::reconfigured(gone, update) == gone
            &&& state::repushed(gone, push_config) == gone
            &&& state::detached(gone) == gone
            &&& state::sought(gone, time) == gone
            &&& state::deleted(gone) == gone
        }),
{
    lemma_nothing_due(state::deleted(st), now);
}

/// Where nothing is outstanding nor waits, time changes nothing.
pub proof fn lemma_nothing_due(st: SubscriptionState, now: nat)
    requires
        st.outstanding.len() == 0,
        st.retries.len() == 0,
    ensures
        state::expired(st, now) == st,
        state::retries_ended(st, now) == st,
{
    assert(outstanding::overdue(st.outstanding, now).len() == 0);
    assert(state::overdue_taken(st, now) =~= st);
    assert(retry_queue::not_due(st.retries, now) =~= st.retries);
    assert(state::ready_messages(st, now).len() == 0);
    assert(SubscriptionState { retries: retry_queue::not_due(st.retries, now), ..st } =~= st);
}

/// A seek to a time keeps the messages that were published since, and no others; nothing is
/// outstanding or waits then.
pub proof fn law_seek_keeps_what_came_since(
    st: SubscriptionState,
    time: int,
    m: Arc<TopicMessage>,
)
    requires
        !st.deleted,
    ensures
        copies(state::sought(st, time), m) == if m.published_at@ < time {
            0
        } else {
            copies(st, m)
        },
        state::sought(st, time).outstanding.len() == 0,
        state::sought(st, time).retries.len() == 0,
{
    let none = Seq::<Arc<TopicMessage>>::empty();
    let p = is_message(m);
    let from_outstanding = state::delivery_messages(st.outstanding);
    let from_retries = retry_queue::retry_messages(st.retries);
    let all = from_outstanding + from_retries;
    let base = SubscriptionState {
        backlog: key_queues::published_since(st.backlog, time),
        queues: key_queues::queues_since(st.queues, time),
        ..state::cleared(st)
    };
    let kept = key_queues::published_since(all, time);
    state_laws::lemma_delivery_tally(st.outstanding, p);
    state_laws::lemma_retry_tally(st.retries, p);
    collections::lemma_tally_add(from_outstanding, from_retries, p);
    lemma_since_tally(st.backlog, time, m);
    lemma_since_tally(queue_for(st, m), time, m);
    lemma_since_tally(all, time, m);
    assert(queue_for(base, m) =~= key_queues::published_since(queue_for(st, m), time));
    assert(kept + none =~= kept);
    lemma_all_put_back_keeps(base, kept, none, m);
}

/// What was published since a time holds a message as often as before, or not at all.
proof fn lemma_since_tally(messages: Seq<Arc<TopicMessage>>, time: int, m: Arc<TopicMessage>)
    ensures
        collections::tally(key_queues::published_since(messages, time), is_message(m)) == if
        m.published_at@ < time {
            0
        } else {
            collections::tally(messages, is_message(m))
        },
    decreases messages.len(),
{
    if messages.len() > 0 {
        let front = messages.drop_last();
        lemma_since_tally(front, time, m);
        assert(messages =~= front.push(messages.last()));
        collections::lemma_tally_push(front, messages.last(), is_message(m));
        collections::lemma_tally_push(
            key_queues::published_since(front, time),
            messages.last(),
            is_message(m),
        );
    }
}

/// Messages that are put back are held as often as they were on their way.
proof fn lemma_all_put_back_keeps(
    st: SubscriptionState,
    messages: Seq<Arc<TopicMessage>>,
    rest: Seq<Arc<TopicMessage>>,
    m: Arc<TopicMessage>,
)
    ensures
        copies_with(state::all_put_back(st, messages), rest, m) == copies_with(
            st,
            messages + rest,
            m,
        ),
        state::all_put_back(st, messages).outstanding == st.outstanding,
        state::all_put_back(st, messages).retries == st.retries,
    decreases messages.len(),
{
    if messages.len() == 0 {
        assert(messages + rest =~= rest);
    } else {
        let front = messages.drop_last();
        let x = messages.last();
        assert(front + (seq![x] + rest) =~= messages + rest);
        lemma_all_put_back_keeps(st, front, seq![x] + rest, m);
        lemma_put_back_keeps(state::all_put_back(st, front), x, rest, m);
    }
}

/// No counter is larger in the first state.
pub open spec fn counters_kept(a: SubscriptionState, b: SubscriptionState) -> bool {
    &&& a.counters.pulled <= b.counters.pulled
    &&& a.counters.acked <= b.counters.acked
    &&& a.counters.nacked <= b.counters.nacked
    &&& a.counters.expired <= b.counters.expired
    &&& a.counters.dead_lettered <= b.counters.dead_lettered
}

proof fn lemma_requeue_counts(st: SubscriptionState, returned: Seq<Delivery>, now: nat)
    ensures
        counters_kept(st, state::all_requeued(st, returned, now)),
        state::all_requeued(st, returned, now).info == st.info,
        state::all_requeued(st, returned, now).deleted == st.deleted,
    decreases returned.len(),
{
    if returned.len() > 0 {
        lemma_requeue_counts(st, returned.drop_last(), now);
    }
}

proof fn lemma_retry_counts(st: SubscriptionState, ready: Seq<Arc<TopicMessage>>, now: nat)
    ensures
        counters_kept(st, state::all_retried(st, ready, now)),
        state::all_retried(st, ready, now).info == st.info,
        state::all_retried(st, ready, now).deleted == st.deleted,
    decreases ready.len(),
{
    if ready.len() > 0 {
        lemma_retry_counts(st, ready.drop_last(), now);
    }
}

proof fn lemma_enqueue_counts(st: SubscriptionState, messages: Seq<Arc<TopicMessage>>)
    ensures
        counters_kept(st, state::all_enqueued(st, messages)),
        state::all_enqueued(st, messages).info == st.info,
        state::all_enqueued(st, messages).deleted == st.deleted,
    decreases messages.len(),
{
    if messages.len() > 0 {
        lemma_enqueue_counts(st, messages.drop_last());
    }
}

proof fn lemma_put_back_counts(st: SubscriptionState, messages: Seq<Arc<TopicMessage>>)
    ensures
        counters_kept(st, state::all_put_back(st, messages)),
        state::all_put_back(st, messages).info == st.info,
        state::all_put_back(st, messages).deleted == st.deleted,
    decreases messages.len(),
{
    if messages.len() > 0 {
        lemma_put_back_counts(st, messages.drop_last());
    }
}

proof fn lemma_key_counts(st: SubscriptionState, k: Seq<char>, now: nat)
    ensures
        counters_kept(st, state::key_pulled(st, k, now)),
    decreases st.queues[k].len(),
{
    if st.queues[k].len() > 0 {
        let next = next_of_key(st, k);
        if state_laws::is_aged(st, st.queues[k][0], now) {
            lemma_key_counts(next, k, now);
        }
    }
}

/// The state without the first message of a key.
spec fn next_of_key(st: SubscriptionState, k: Seq<char>) -> SubscriptionState {
    state::forgotten(
        SubscriptionState { queues: st.queues.insert(k, st.queues[k].drop_first()), ..st },
        *st.queues[k][0],
    )
}

proof fn lemma_keys_counts(st: SubscriptionState, keys: Seq<Seq<char>>, limit: nat, now: nat)
    ensures
        counters_kept(st, state::keys_pulled(st, keys, limit, now)),
    decreases keys.len(),
{
    if keys.len() > 0 && st.outstanding.len() < limit {
        lemma_key_counts(st, keys[0], now);
        lemma_keys_counts(state::key_pulled(st, keys[0], now), keys.drop_first(), limit, now);
    }
}

proof fn lemma_backlog_counts(st: SubscriptionState, limit: nat, now: nat)
    ensures
        counters_kept(st, state::backlog_pulled(st, limit, now)),
    decreases st.backlog.len(),
{
    if st.backlog.len() > 0 && st.outstanding.len() < limit {
        lemma_backlog_counts(next_of_backlog(st, now), limit, now);
    }
}

/// Whatever is done, the counters never go down.
pub proof fn law_counters_never_go_down(
    st: SubscriptionState,
    messages: Seq<Arc<TopicMessage>>,
    ids: Set<u64>,
    modifications: Seq<Modification>,
    max_count: u16,
    max_outstanding: u16,
    now: nat,
    time: int,
)
    ensures
        counters_kept(st, state::posted(st, messages)),
        counters_kept(st, state::pulled(st, max_count, max_outstanding, now)),
        counters_kept(st, state::acknowledged(st, ids)),
        counters_kept(st, state::modified(st, modifications, now)),
        counters_kept(st, state::expired(st, now)),
        counters_kept(st, state::retries_ended(st, now)),
        counters_kept(st, state::sought(st, time)),
        counters_kept(st, state::detached(st)),
        counters_kept(st, state::deleted(st)),
{
    let limit: nat = st.outstanding.len() + state::pull_room(st, max_count, max_outstanding);
    let keys = key_queues::listing(state::free_keys(st));
    let gone = outstanding::named(st.outstanding, ids);
    lemma_enqueue_counts(st, messages);
    lemma_keys_counts(st, keys, limit, now);
    lemma_backlog_counts(state::keys_pulled(st, keys, limit, now), limit, now);
    lemma_all_gone_fields(
        SubscriptionState {
            outstanding: outstanding::not_named(st.outstanding, ids),
            counters: SubscriptionCounters {
                acked: stats::counted(st.counters.acked, gone.len()),
                ..st.counters
            },
            ..st
        },
        gone,
    );
    lemma_requeue_counts(
        state::deadlines_moved(st, modifications),
        outstanding::modified(st.outstanding, modifications).1,
        now,
    );
    lemma_requeue_counts(
        state::overdue_taken(st, now),
        outstanding::overdue(st.outstanding, now),
        now,
    );
    lemma_retry_counts(
        SubscriptionState { retries: retry_queue::not_due(st.retries, now), ..st },
        state::ready_messages(st, now),
        now,
    );
    lemma_put_back_counts(
        SubscriptionState {
            backlog: key_queues::published_since(st.backlog, time),
            queues: key_queues::queues_since(st.queues, time),
            ..state::cleared(st)
        },
        key_queues::published_since(
            state::delivery_messages(st.outstanding) + retry_queue::retry_messages(st.retries),
            time,
        ),
    );
}

/// What becomes of messages never changes what the subscription is configured to do, nor whether it
/// is deleted.
pub proof fn law_configuration_is_kept(
    st: SubscriptionState,
    messages: Seq<Arc<TopicMessage>>,
    ids: Set<u64>,
    modifications: Seq<Modification>,
    max_count: u16,
    max_outstanding: u16,
    now: nat,
    time: int,
)
    ensures
        state::posted(st, messages).info == st.info,
        state::pulled(st, max_count, max_outstanding, now).info == st.info,
        state::acknowledged(st, ids).info == st.info,
        state::modified(st, modifications, now).info == st.info,
        state::expired(st, now).info == st.info,
        state::retries_ended(st, now).info == st.info,
        state::sought(st, time).info == st.info,
        state::posted(st, messages).deleted == st.deleted,
        state::pulled(st, max_count, max_outstanding, now).deleted == st.deleted,
        state::acknowledged(st, ids).deleted == st.deleted,
        state::modified(st, modifications, now).deleted == st.deleted,
        state::expired(st, now).deleted == st.deleted,
        state::retries_ended(st, now).deleted == st.deleted,
        state::sought(st, time).deleted == st.deleted,
{
    let gone = outstanding::named(st.outstanding, ids);
    lemma_enqueue_counts(st, messages);
    law_pull_adds_fresh_deliveries(st, max_count, max_outstanding, now);
    lemma_all_gone_fields(
        SubscriptionState {
            outstanding: outstanding::not_named(st.outstanding, ids),
            counters: SubscriptionCounters {
                acked: stats::counted(st.counters.acked, gone.len()),
                ..st.counters
            },
            ..st
        },
        gone,
    );
    lemma_requeue_counts(
        state::deadlines_moved(st, modifications),
        outstanding::modified(st.outstanding, modifications).1,
        now,
    );
    lemma_requeue_counts(
        state::overdue_taken(st, now),
        outstanding::overdue(st.outstanding, now),
        now,
    );
    lemma_retry_counts(
        SubscriptionState { retries: retry_queue::not_due(st.retries, now), ..st },
        state::ready_messages(st, now),
        now,
    );
    lemma_put_back_counts(
        SubscriptionState {
            backlog: key_queues::published_since(st.backlog, time),
            queues: key_queues::queues_since(st.queues, time),
            ..state::cleared(st)
        },
        key_queues::published_since(
            state::delivery_messages(st.outstanding) + retry_queue::retry_messages(st.retries),
            time,
        ),
    );
}

/// A message that comes back becomes a dead letter exactly where there is a dead letter policy and
/// it was delivered as often as that allows. Else its next delivery is one more attempt.
pub proof fn law_dead_letter_after_last_attempt(
    st: SubscriptionState,
    m: Arc<TopicMessage>,
    now: nat,
)
    requires
        state::attempt_of(st, *m) < u16::MAX,
    ensures
        is_condemned(st, m) <==> (st.info.dead_letter_policy matches Some(policy)
            && state::attempt_of(st, *m) >= policy.max_delivery_attempts),
        !is_condemned(st, m) ==> state::attempt_of(state::requeued(st, m, now), *m)
            == state::attempt_of(st, *m) + 1,
        is_condemned(st, m) ==> state::attempt_of(state::requeued(st, m, now), *m) == 1,
{
}

/// Whether the subscription takes the message into its backlog and can deliver it at the time.
pub open spec fn is_taken(st: SubscriptionState, m: Arc<TopicMessage>, now: nat) -> bool {
    &&& state::passes(st.filter, *m)
    &&& state::ordered_key(st.info, *m) is None
    &&& !state_laws::is_aged(st, m, now)
}

/// Messages that are taken into the backlog stand there in their order.
proof fn lemma_taken_into_backlog(
    st: SubscriptionState,
    messages: Seq<Arc<TopicMessage>>,
    now: nat,
)
    requires
        forall|i: int| 0 <= i < messages.len() ==> is_taken(st, #[trigger] messages[i], now),
    ensures
        state::all_enqueued(st, messages) == (SubscriptionState {
            backlog: st.backlog + messages,
            ..st
        }),
    decreases messages.len(),
{
    if messages.len() == 0 {
        assert(st.backlog + messages =~= st.backlog);
    } else {
        let front = messages.drop_last();
        assert forall|i: int| 0 <= i < front.len() implies is_taken(
            st,
            #[trigger] front[i],
            now,
        ) by {
            assert(front[i] == messages[i]);
        }
        lemma_taken_into_backlog(st, front, now);
        assert(is_taken(st, messages[messages.len() - 1], now));
        assert((st.backlog + front).push(messages.last()) =~= st.backlog + messages);
    }
}

/// What came is what is pulled: where nothing else waits and there is room for all, a pull delivers
/// exactly the messages that came, in their order.
pub proof fn law_what_came_is_pulled(
    st: SubscriptionState,
    messages: Seq<Arc<TopicMessage>>,
    max_count: u16,
    max_outstanding: u16,
    now: nat,
)
    requires
        !st.deleted,
        !st.info.detached,
        !state::pullable(st),
        messages.len() <= state::pull_room(st, max_count, max_outstanding),
        forall|i: int| 0 <= i < messages.len() ==> is_taken(st, #[trigger] messages[i], now),
    ensures
        ({
            let after = state::pulled(
                state::posted(st, messages),
                max_count,
                max_outstanding,
                now,
            );
            &&& state::delivery_messages(after.outstanding.skip(st.outstanding.len() as int))
                == messages
            &&& !state::pullable(after)
        }),
{
    let came = state::posted(st, messages);
    lemma_taken_into_backlog(st, messages, now);
    assert(st.backlog + messages =~= messages);
    let free = state::free_keys(came);
    assert(free =~= Set::empty()) by {
        assert forall|k: Seq<char>| !free.contains(k) by {
            assert(!state::free_keys(st).contains(k));
        }
    }
    key_queues::lemma_finite_set_has_listing(free);
    let keys = key_queues::listing(free);
    assert(keys.len() == 0) by {
        if keys.len() > 0 {
            assert(keys.contains(keys[0]));
            assert(free.contains(keys[0]));
        }
    }
    let middle = lemma_pull_phases(came, max_count, max_outstanding, now);
    assert(middle == came);
    let limit: nat = came.outstanding.len() + state::pull_room(came, max_count, max_outstanding);
    law_backlog_delivers_in_order(came, limit, now);
    let after = state::backlog_pulled(came, limit, now);
    let n: int = taken_from_backlog(came, limit, now);
    let live = |x: Arc<TopicMessage>| !state_laws::is_aged(came, x, now);
    let taken = messages.take(n);
    assert forall|i: int| 0 <= i < taken.len() implies live(#[trigger] taken[i]) by {
        assert(is_taken(st, messages[i], now));
    }
    collections::lemma_select_all(taken, live);
    let delivered = state::delivery_messages(after.outstanding.skip(came.outstanding.len() as int));
    assert(delivered == taken);
    assert(delivered.len() == after.outstanding.len() - came.outstanding.len());
    assert(n == messages.len());
    assert(taken =~= messages);
    assert forall|k: Seq<char>| !state::free_keys(after).contains(k) by {
        assert(!free.contains(k));
    }
}

/// What is gone holds its ordering key no more.
proof fn lemma_gone_frees(st: SubscriptionState, gone: Seq<Delivery>, i: int, k: Seq<char>)
    requires
        0 <= i < gone.len(),
        state_laws::delivery_key(st.info, gone[i]) == Some(k),
    ensures
        !state::all_gone(st, gone).in_flight.contains(k),
    decreases gone.len(),
{
    lemma_all_gone_fields(st, gone.drop_last());
    if i < gone.len() - 1 {
        lemma_gone_frees(st, gone.drop_last(), i, k);
    }
}

/// Once the message of an ordering key is acknowledged the key is free, and what is queued for it
/// can be delivered.
pub proof fn law_acknowledge_frees_key(
    st: SubscriptionState,
    ids: Set<u64>,
    i: int,
    k: Seq<char>,
)
    requires
        !st.deleted,
        0 <= i < st.outstanding.len(),
        ids.contains(st.outstanding[i].ack_id),
        state_laws::delivery_key(st.info, st.outstanding[i]) == Some(k),
    ensures
        !state::acknowledged(st, ids).in_flight.contains(k),
        state::acknowledged(st, ids).queues == st.queues,
        st.queues[k].len() > 0 ==> state::free_keys(state::acknowledged(st, ids)).contains(k),
{
    let gone = outstanding::named(st.outstanding, ids);
    let taken = SubscriptionState {
        outstanding: outstanding::not_named(st.outstanding, ids),
        counters: SubscriptionCounters {
            acked: stats::counted(st.counters.acked, gone.len()),
            ..st.counters
        },
        ..st
    };
    collections::lemma_selected(
        st.outstanding,
        |d: Delivery| ids.contains(d.ack_id),
        st.outstanding[i],
    );
    assert(st.outstanding.contains(st.outstanding[i]));
    let j = choose|j: int| 0 <= j < gone.len() && gone[j] == st.outstanding[i];
    lemma_gone_frees(taken, gone, j, k);
    lemma_all_gone_fields(taken, gone);
}

/// Whether the message is among the deliveries from the index on.
pub open spec fn delivered_since(s: Seq<Delivery>, from: int, m: Arc<TopicMessage>) -> bool {
    exists|i: int| from <= i < s.len() && (#[trigger] s[i]).message == m
}

/// A pull from keys in turn delivers the first message of a key that it comes to.
proof fn lemma_key_of_list_delivers(
    st: SubscriptionState,
    keys: Seq<Seq<char>>,
    limit: nat,
    now: nat,
    at: int,
)
    requires
        0 <= at < keys.len(),
        forall|i: int| 0 <= i < at ==> #[trigger] keys[i] != keys[at],
        st.queues[keys[at]].len() > 0,
        !state_laws::is_aged(st, st.queues[keys[at]][0], now),
        st.outstanding.len() + at < limit,
        st.next_ack_id + (limit - st.outstanding.len()) <= u64::MAX,
    ensures
        delivered_since(
            state::keys_pulled(st, keys, limit, now).outstanding,
            st.outstanding.len() as int,
            st.queues[keys[at]][0],
        ),
    decreases keys.len(),
{
    let first = keys[0];
    let rest = keys.drop_first();
    let next = state::key_pulled(st, first, now);
    let after = state::keys_pulled(st, keys, limit, now);
    state_laws::law_key_delivers_in_order(st, first, now);
    lemma_key_grown(st, first, now);
    lemma_keys_grown(next, rest, limit, now);
    if at == 0 {
        assert(state_laws::dropped_from(st.queues[first], st, now) == 0);
        let i: int = st.outstanding.len() as int;
        assert(next.outstanding[i].message == st.queues[first][0]);
        assert(after.outstanding[i] == next.outstanding[i]);
    } else {
        assert(rest[at - 1] == keys[at]);
        assert forall|i: int| 0 <= i < at - 1 implies #[trigger] rest[i] != rest[at - 1] by {
            assert(rest[i] == keys[i + 1]);
        }
        assert(first != keys[at]);
        assert(next.queues[keys[at]] == st.queues[keys[at]]);
        lemma_key_of_list_delivers(next, rest, limit, now, at - 1);
    }
}

/// Ordering keys are delivered side by side: where there is room for all keys that are free, a pull
/// delivers the first message of each, unless it is too old.
pub proof fn law_keys_are_delivered_side_by_side(
    st: SubscriptionState,
    k: Seq<char>,
    max_count: u16,
    max_outstanding: u16,
    now: nat,
)
    requires
        !st.deleted,
        !st.info.detached,
        state_laws::finitely_queued(st),
        state::free_keys(st).contains(k),
        !state_laws::is_aged(st, st.queues[k][0], now),
        key_queues::listing(state::free_keys(st)).len() <= state::pull_room(
            st,
            max_count,
            max_outstanding,
        ),
    ensures
        delivered_since(
            state::pulled(st, max_count, max_outstanding, now).outstanding,
            st.outstanding.len() as int,
            st.queues[k][0],
        ),
{
    let limit: nat = st.outstanding.len() + state::pull_room(st, max_count, max_outstanding);
    let keys = key_queues::listing(state::free_keys(st));
    let after = state::pulled(st, max_count, max_outstanding, now);
    state_laws::lemma_free_keys_listed(st);
    assert(keys.contains(k));
    let at = choose|at: int| 0 <= at < keys.len() && keys[at] == k;
    lemma_key_of_list_delivers(st, keys, limit, now, at);
    let middle = lemma_pull_phases(st, max_count, max_outstanding, now);
    law_backlog_delivers_in_order(middle, limit, now);
    let i = choose|i: int|
        st.outstanding.len() <= i < middle.outstanding.len() && (
        #[trigger] middle.outstanding[i]).message == st.queues[k][0];
    assert(after.outstanding[i] == middle.outstanding[i]);
}

} // verus!
