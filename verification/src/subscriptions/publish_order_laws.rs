//! The messages of an ordering key are delivered in the order in which they were published.
use std::sync::Arc;
use vstd::prelude::*;

use crate::collections;
use crate::subscriptions::ack::{Delivery, Modification};
use crate::subscriptions::info::SubscriptionInfo;
use crate::subscriptions::key_queues;
use crate::subscriptions::outstanding;
use crate::subscriptions::request::SubscriptionRequest;
use crate::subscriptions::retry_queue;
use crate::subscriptions::retry_queue::Retry;
use crate::subscriptions::run_laws;
use crate::subscriptions::run_laws::Event;
use crate::subscriptions::state;
use crate::subscriptions::state::SubscriptionState;
use crate::subscriptions::state_laws;
use crate::subscriptions::stats;
use crate::subscriptions::stats::SubscriptionCounters;
use crate::topics::topic_message::TopicMessage;

verus! {

/// The messages of a key that are outstanding, wait for their retry or are on their way from the
/// one to the other: one at most.
pub open spec fn away(
    st: SubscriptionState,
    pending: Seq<Arc<TopicMessage>>,
    k: Seq<char>,
) -> Seq<Arc<TopicMessage>> {
    let p = state_laws::has_key(st.info, k);
    collections::select(state::delivery_messages(st.outstanding), p) + collections::select(
        retry_queue::retry_messages(st.retries),
        p,
    ) + collections::select(pending, p)
}

/// The messages of a key that are not done with, the next one to be delivered or acknowledged
/// first.
pub open spec fn line_with(
    st: SubscriptionState,
    pending: Seq<Arc<TopicMessage>>,
    k: Seq<char>,
) -> Seq<Arc<TopicMessage>> {
    away(st, pending, k) + st.queues[k]
}

/// The messages of a key that are not done with.
pub open spec fn line(st: SubscriptionState, k: Seq<char>) -> Seq<Arc<TopicMessage>> {
    line_with(st, Seq::empty(), k)
}

/// Whether `b` is what is left of `a` once some of the first elements are gone.
pub open spec fn is_tail<T>(a: Seq<T>, b: Seq<T>) -> bool {
    b.len() <= a.len() && b == a.skip(a.len() - b.len())
}

proof fn lemma_tail_twice<T>(a: Seq<T>, b: Seq<T>, c: Seq<T>)
    requires
        is_tail(a, b),
        is_tail(b, c),
    ensures
        is_tail(a, c),
{
    assert(c =~= a.skip(a.len() - c.len()));
}

proof fn lemma_tail_same<T>(a: Seq<T>)
    ensures
        is_tail(a, a),
{
    assert(a =~= a.skip(0));
}

/// As many messages are away as are counted abroad: one where the key is in flight, and else none.
proof fn lemma_away_len(st: SubscriptionState, pending: Seq<Arc<TopicMessage>>, k: Seq<char>)
    requires
        state_laws::key_balanced(st, pending, k),
    ensures
        away(st, pending, k).len() == if st.in_flight.contains(k) {
            1nat
        } else {
            0
        },
{
    let p = state_laws::has_key(st.info, k);
    state_laws::lemma_delivery_tally(st.outstanding, p);
    state_laws::lemma_retry_tally(st.retries, p);
}

/// Where a message is away.
proof fn lemma_away(
    st: SubscriptionState,
    pending: Seq<Arc<TopicMessage>>,
    k: Seq<char>,
    m: Arc<TopicMessage>,
)
    ensures
        away(st, pending, k).contains(m) <==> state::ordered_key(st.info, *m) == Some(k) && (
        state::delivery_messages(st.outstanding).contains(m) || retry_queue::retry_messages(
            st.retries,
        ).contains(m) || pending.contains(m)),
{
    let p = state_laws::has_key(st.info, k);
    let a = collections::select(state::delivery_messages(st.outstanding), p);
    let b = collections::select(retry_queue::retry_messages(st.retries), p);
    let c = collections::select(pending, p);
    collections::lemma_selected(state::delivery_messages(st.outstanding), p, m);
    collections::lemma_selected(retry_queue::retry_messages(st.retries), p, m);
    collections::lemma_selected(pending, p, m);
    lemma_contains_of_two(a, b, m);
    lemma_contains_of_two(a + b, c, m);
}

proof fn lemma_contains_of_two<T>(a: Seq<T>, b: Seq<T>, x: T)
    ensures
        (a + b).contains(x) <==> a.contains(x) || b.contains(x),
{
    if a.contains(x) {
        let i = choose|i: int| 0 <= i < a.len() && a[i] == x;
        assert((a + b)[i] == x);
    }
    if b.contains(x) {
        let i = choose|i: int| 0 <= i < b.len() && b[i] == x;
        assert((a + b)[a.len() + i] == x);
    }
    if (a + b).contains(x) {
        let i = choose|i: int| 0 <= i < (a + b).len() && (a + b)[i] == x;
        if i < a.len() {
            assert(a[i] == x);
        } else {
            assert(b[i - a.len()] == x);
        }
    }
}

/// Where the same messages are away in two states in order, they are away alike.
proof fn lemma_same_away(
    a: SubscriptionState,
    pending_a: Seq<Arc<TopicMessage>>,
    b: SubscriptionState,
    pending_b: Seq<Arc<TopicMessage>>,
    k: Seq<char>,
)
    requires
        state_laws::key_balanced(a, pending_a, k),
        state_laws::key_balanced(b, pending_b, k),
        a.in_flight.contains(k) == b.in_flight.contains(k),
        forall|m: Arc<TopicMessage>| #[trigger]
            away(a, pending_a, k).contains(m) ==> away(b, pending_b, k).contains(m),
    ensures
        away(a, pending_a, k) == away(b, pending_b, k),
{
    lemma_away_len(a, pending_a, k);
    lemma_away_len(b, pending_b, k);
    let x = away(a, pending_a, k);
    let y = away(b, pending_b, k);
    if x.len() == 1 {
        assert(x.contains(x[0]));
        assert(y.contains(x[0]));
    }
    assert(x =~= y);
}

/// A message on its way is the first of the line of its key, and no other message of it is away.
proof fn lemma_first_of_line(
    st: SubscriptionState,
    m: Arc<TopicMessage>,
    rest: Seq<Arc<TopicMessage>>,
    k: Seq<char>,
)
    requires
        state_laws::key_balanced(st, seq![m] + rest, k),
    ensures
        state::ordered_key(st.info, *m) == Some(k) ==> {
            &&& away(st, seq![m] + rest, k) == seq![m]
            &&& away(st, rest, k).len() == 0
            &&& st.in_flight.contains(k)
        },
        state::ordered_key(st.info, *m) != Some(k) ==> away(st, seq![m] + rest, k) == away(
            st,
            rest,
            k,
        ),
{
    let p = state_laws::has_key(st.info, k);
    lemma_away_len(st, seq![m] + rest, k);
    collections::lemma_select_add(seq![m], rest, p);
    collections::lemma_select_one(m, p);
    let others = away(st, rest, k);
    if state_laws::has_key(st.info, k)(m) {
        let all = away(st, seq![m] + rest, k);
        assert(all.len() == others.len() + 1);
        lemma_away(st, seq![m] + rest, k, m);
        assert((seq![m] + rest)[0] == m);
        assert((seq![m] + rest).contains(m));
        assert(all =~= seq![m]);
    } else {
        assert(away(st, seq![m] + rest, k) =~= others);
    }
}

/// A message that was on its way and is put back stays where it was in its line.
proof fn lemma_put_back_line(
    st: SubscriptionState,
    m: Arc<TopicMessage>,
    rest: Seq<Arc<TopicMessage>>,
    k: Seq<char>,
)
    requires
        state_laws::orderly_with(st, seq![m] + rest),
    ensures
        line_with(state::put_back(st, m), rest, k) == line_with(st, seq![m] + rest, k),
{
    assert(state_laws::key_balanced(st, seq![m] + rest, k));
    lemma_first_of_line(st, m, rest, k);
    let after = state::put_back(st, m);
    assert(line_with(after, rest, k) =~= line_with(st, seq![m] + rest, k));
}

/// A message that was on its way and is gone was the first of its line.
proof fn lemma_gone_line(
    st: SubscriptionState,
    m: Arc<TopicMessage>,
    rest: Seq<Arc<TopicMessage>>,
    after: SubscriptionState,
    k: Seq<char>,
)
    requires
        state_laws::orderly_with(st, seq![m] + rest),
        after.info == st.info,
        after.queues == st.queues,
        after.outstanding == st.outstanding,
        after.retries == st.retries,
    ensures
        is_tail(line_with(st, seq![m] + rest, k), line_with(after, rest, k)),
{
    assert(state_laws::key_balanced(st, seq![m] + rest, k));
    lemma_first_of_line(st, m, rest, k);
    let before = line_with(st, seq![m] + rest, k);
    let left = line_with(after, rest, k);
    assert(away(after, rest, k) == away(st, rest, k));
    if state_laws::has_key(st.info, k)(m) {
        assert(left =~= before.skip(1));
    } else {
        lemma_tail_same(before);
    }
}

/// A message that came back stays where it was in its line, or was the first of it and is gone.
proof fn lemma_requeued_line(
    st: SubscriptionState,
    m: Arc<TopicMessage>,
    rest: Seq<Arc<TopicMessage>>,
    now: nat,
    k: Seq<char>,
)
    requires
        state_laws::orderly_with(st, seq![m] + rest),
    ensures
        is_tail(
            line_with(st, seq![m] + rest, k),
            line_with(state::requeued(st, m, now), rest, k),
        ),
{
    let after = state::requeued(st, m, now);
    let attempt: u16 = state_laws::attempt_for(st, m);
    let before = line_with(st, seq![m] + rest, k);
    lemma_tail_same(before);
    if state::exhausted(st.info, attempt) {
        lemma_gone_line(st, m, rest, after, k);
    } else {
        let tried = SubscriptionState { attempts: st.attempts.insert(m.id.value, attempt), ..st };
        match st.info.retry_policy {
            Some(policy) => {
                let p = state_laws::has_key(st.info, k);
                assert(state_laws::key_balanced(st, seq![m] + rest, k));
                lemma_first_of_line(st, m, rest, k);
                let old = retry_queue::retry_messages(st.retries);
                assert(retry_queue::retry_messages(after.retries) =~= old + seq![m]);
                collections::lemma_select_add(old, seq![m], p);
                collections::lemma_select_one(m, p);
                if state_laws::has_key(st.info, k)(m) {
                    assert(away(after, rest, k) =~= seq![m]);
                } else {
                    assert(away(after, rest, k) =~= away(st, rest, k));
                }
                assert(line_with(after, rest, k) =~= before);
            },
            None => {
                state_laws::lemma_counters_do_not_matter(st, tried, seq![m] + rest);
                lemma_put_back_line(tried, m, rest, k);
            },
        }
    }
}

proof fn lemma_all_requeued_line(
    st: SubscriptionState,
    returned: Seq<Delivery>,
    rest: Seq<Arc<TopicMessage>>,
    now: nat,
    k: Seq<char>,
)
    requires
        state_laws::orderly_with(st, state::delivery_messages(returned) + rest),
    ensures
        is_tail(
            line_with(st, state::delivery_messages(returned) + rest, k),
            line_with(state::all_requeued(st, returned, now), rest, k),
        ),
    decreases returned.len(),
{
    let all = state::delivery_messages(returned) + rest;
    lemma_tail_same(line_with(st, all, k));
    if returned.len() == 0 {
        assert(all =~= rest);
    } else {
        let front = returned.drop_last();
        let m = returned.last().message;
        let before = state::all_requeued(st, front, now);
        assert(state::delivery_messages(front) + (seq![m] + rest) =~= all);
        state_laws::lemma_all_requeued(st, front, seq![m] + rest, now);
        lemma_all_requeued_line(st, front, seq![m] + rest, now, k);
        lemma_requeued_line(before, m, rest, now, k);
        lemma_tail_twice(
            line_with(st, all, k),
            line_with(before, seq![m] + rest, k),
            line_with(state::requeued(before, m, now), rest, k),
        );
    }
}

proof fn lemma_all_gone_line(
    st: SubscriptionState,
    gone: Seq<Delivery>,
    rest: Seq<Arc<TopicMessage>>,
    k: Seq<char>,
)
    requires
        state_laws::orderly_with(st, state::delivery_messages(gone) + rest),
    ensures
        is_tail(
            line_with(st, state::delivery_messages(gone) + rest, k),
            line_with(state::all_gone(st, gone), rest, k),
        ),
    decreases gone.len(),
{
    let all = state::delivery_messages(gone) + rest;
    lemma_tail_same(line_with(st, all, k));
    if gone.len() == 0 {
        assert(all =~= rest);
    } else {
        let front = gone.drop_last();
        let m = gone.last().message;
        let before = state::all_gone(st, front);
        assert(state::delivery_messages(front) + (seq![m] + rest) =~= all);
        state_laws::lemma_all_gone(st, front, seq![m] + rest);
        lemma_all_gone_line(st, front, seq![m] + rest, k);
        lemma_gone_line(before, m, rest, state::all_gone(st, gone), k);
        lemma_tail_twice(
            line_with(st, all, k),
            line_with(before, seq![m] + rest, k),
            line_with(state::all_gone(st, gone), rest, k),
        );
    }
}

proof fn lemma_all_retried_line(
    st: SubscriptionState,
    ready: Seq<Arc<TopicMessage>>,
    rest: Seq<Arc<TopicMessage>>,
    now: nat,
    k: Seq<char>,
)
    requires
        state_laws::orderly_with(st, ready + rest),
    ensures
        is_tail(
            line_with(st, ready + rest, k),
            line_with(state::all_retried(st, ready, now), rest, k),
        ),
    decreases ready.len(),
{
    let all = ready + rest;
    lemma_tail_same(line_with(st, all, k));
    if ready.len() == 0 {
        assert(all =~= rest);
    } else {
        let front = ready.drop_last();
        let m = ready.last();
        let before = state::all_retried(st, front, now);
        let after = state::retried(before, m, now);
        assert(front + (seq![m] + rest) =~= all);
        state_laws::lemma_all_retried(st, front, seq![m] + rest, now);
        lemma_all_retried_line(st, front, seq![m] + rest, now, k);
        if state_laws::is_aged(before, m, now) {
            lemma_gone_line(before, m, rest, after, k);
        } else {
            lemma_put_back_line(before, m, rest, k);
            lemma_tail_same(line_with(before, seq![m] + rest, k));
        }
        lemma_tail_twice(
            line_with(st, all, k),
            line_with(before, seq![m] + rest, k),
            line_with(after, rest, k),
        );
    }
}

/// Taking deliveries out of the outstanding ones, on their way, leaves the lines as they were.
proof fn lemma_taken_line(
    st: SubscriptionState,
    pending: Seq<Arc<TopicMessage>>,
    chosen: spec_fn(Delivery) -> bool,
    left: spec_fn(Delivery) -> bool,
    after: SubscriptionState,
    k: Seq<char>,
)
    requires
        state_laws::orderly_with(st, pending),
        forall|d: Delivery| #[trigger] chosen(d) == !left(d),
        after.info == st.info,
        after.backlog == st.backlog,
        after.queues == st.queues,
        after.in_flight == st.in_flight,
        after.retries == st.retries,
        after.next_ack_id == st.next_ack_id,
        after.outstanding == collections::select(st.outstanding, left),
    ensures
        line_with(
            after,
            pending + state::delivery_messages(collections::select(st.outstanding, chosen)),
            k,
        ) == line_with(st, pending, k),
{
    let gone = collections::select(st.outstanding, chosen);
    let more = pending + state::delivery_messages(gone);
    state_laws::lemma_taken(st, pending, chosen, left, after);
    assert(state_laws::key_balanced(st, pending, k));
    assert(state_laws::key_balanced(after, more, k));
    assert forall|m: Arc<TopicMessage>| #[trigger]
        away(st, pending, k).contains(m) implies away(after, more, k).contains(m) by {
        lemma_away(st, pending, k, m);
        lemma_away(after, more, k, m);
        lemma_contains_of_two(pending, state::delivery_messages(gone), m);
        if state::delivery_messages(st.outstanding).contains(m) {
            let i = choose|i: int|
                0 <= i < st.outstanding.len() && state::delivery_messages(st.outstanding)[i] == m;
            let d = st.outstanding[i];
            assert(st.outstanding.contains(d));
            collections::lemma_selected(st.outstanding, chosen, d);
            collections::lemma_selected(st.outstanding, left, d);
            if chosen(d) {
                let j = choose|j: int| 0 <= j < gone.len() && gone[j] == d;
                assert(state::delivery_messages(gone)[j] == m);
            } else {
                let j = choose|j: int| 0 <= j < after.outstanding.len() && after.outstanding[j] == d;
                assert(state::delivery_messages(after.outstanding)[j] == m);
            }
        }
    }
    lemma_same_away(st, pending, after, more, k);
}

/// Modifications leave the lines as they were, with what they return on its way.
proof fn lemma_deadlines_modified_line(
    st: SubscriptionState,
    modifications: Seq<Modification>,
    k: Seq<char>,
)
    requires
        state_laws::orderly(st),
    ensures
        ({
            let (kept, returned) = outstanding::modified(st.outstanding, modifications);
            line_with(
                state_laws::with_outstanding(st, kept),
                state::delivery_messages(returned),
                k,
            ) == line(st, k)
        }),
    decreases modifications.len(),
{
    let (kept, returned) = outstanding::modified(st.outstanding, modifications);
    let after = state_laws::with_outstanding(st, kept);
    if modifications.len() == 0 {
        assert(state::delivery_messages(returned) =~= Seq::empty());
    } else {
        let m = modifications.last();
        lemma_deadlines_modified_line(st, modifications.drop_last(), k);
        state_laws::lemma_deadlines_modified(st, modifications.drop_last());
        let (kept0, returned0) = outstanding::modified(st.outstanding, modifications.drop_last());
        let before = state_laws::with_outstanding(st, kept0);
        let pending = state::delivery_messages(returned0);
        match m.new_deadline {
            Some(deadline) => {
                assert(state::delivery_messages(kept) =~= state::delivery_messages(kept0));
            },
            None => {
                let ids = set![m.ack_id];
                lemma_taken_line(
                    before,
                    pending,
                    |d: Delivery| ids.contains(d.ack_id),
                    |d: Delivery| !ids.contains(d.ack_id),
                    after,
                    k,
                );
                assert(state::delivery_messages(returned) =~= pending + state::delivery_messages(
                    outstanding::named(kept0, ids),
                ));
            },
        }
    }
}

/// The messages of a key among new ones that pass the filter.
pub open spec fn taken_for(
    st: SubscriptionState,
    messages: Seq<Arc<TopicMessage>>,
    k: Seq<char>,
) -> Seq<Arc<TopicMessage>> {
    collections::select(
        messages,
        |m: Arc<TopicMessage>|
            state::passes(st.filter, *m) && state::ordered_key(st.info, *m) == Some(k),
    )
}

proof fn lemma_enqueued_line(
    st: SubscriptionState,
    messages: Seq<Arc<TopicMessage>>,
    k: Seq<char>,
)
    ensures
        ({
            let after = state::all_enqueued(st, messages);
            &&& line(after, k) == line(st, k) + taken_for(st, messages, k)
            &&& after.info == st.info
            &&& after.outstanding == st.outstanding
            &&& after.retries == st.retries
            &&& after.queues[k] == st.queues[k] + taken_for(st, messages, k)
        }),
    decreases messages.len(),
{
    let after = state::all_enqueued(st, messages);
    let new = taken_for(st, messages, k);
    if messages.len() == 0 {
        assert(new =~= Seq::empty());
        assert(st.queues[k] + new =~= st.queues[k]);
    } else {
        let init = messages.drop_last();
        lemma_enqueued_line(st, init, k);
        let before = state::all_enqueued(st, init);
        assert(after.queues[k] =~= st.queues[k] + new);
    }
    assert(line(after, k) =~= line(st, k) + new);
}

/// A pull from one key: what is too old is gone from the front of its line, and the line of another
/// key stays as it was.
proof fn lemma_key_pulled_line(st: SubscriptionState, j: Seq<char>, now: nat, k: Seq<char>)
    requires
        state_laws::orderly(st),
        !st.in_flight.contains(j),
        st.next_ack_id < u64::MAX,
    ensures
        is_tail(line(st, k), line(state::key_pulled(st, j, now), k)),
{
    let none = Seq::<Arc<TopicMessage>>::empty();
    let after = state::key_pulled(st, j, now);
    let n: int = state_laws::dropped_from(st.queues[j], st, now);
    let p = state_laws::has_key(st.info, k);
    state_laws::law_key_delivers_in_order(st, j, now);
    assert(state_laws::queue_ordered(st, j));
    assert(state_laws::key_balanced(st, none, k));
    lemma_away_len(st, none, k);
    lemma_tail_same(line(st, k));
    let old = state::delivery_messages(st.outstanding);
    if n < st.queues[j].len() {
        let m = st.queues[j][n];
        assert(state::ordered_key(st.info, *m) == Some(j));
        assert(after.outstanding =~= st.outstanding.push(after.outstanding.last()));
        assert(state::delivery_messages(after.outstanding) =~= old + seq![m]);
        collections::lemma_select_add(old, seq![m], p);
        collections::lemma_select_one(m, p);
        if j == k {
            assert(away(st, none, k) =~= Seq::empty());
            assert(away(after, none, k) =~= seq![m]);
            assert(line(after, k) =~= line(st, k).skip(n));
        } else {
            assert(away(after, none, k) =~= away(st, none, k));
        }
    } else if j == k {
        assert(away(st, none, k) =~= Seq::empty());
        assert(away(after, none, k) =~= Seq::empty());
        assert(line(after, k) =~= line(st, k).skip(n));
    }
}

proof fn lemma_keys_pulled_line(
    st: SubscriptionState,
    keys: Seq<Seq<char>>,
    limit: nat,
    now: nat,
    k: Seq<char>,
)
    requires
        state_laws::orderly(st),
        forall|i: int| 0 <= i < keys.len() ==> !st.in_flight.contains(#[trigger] keys[i]),
        forall|i: int, j: int|
            0 <= i < j < keys.len() ==> #[trigger] keys[i] != #[trigger] keys[j],
        st.outstanding.len() <= limit,
        st.next_ack_id + (limit - st.outstanding.len()) <= u64::MAX,
    ensures
        is_tail(line(st, k), line(state::keys_pulled(st, keys, limit, now), k)),
    decreases keys.len(),
{
    lemma_tail_same(line(st, k));
    if keys.len() > 0 && st.outstanding.len() < limit {
        let next = state::key_pulled(st, keys[0], now);
        let rest = keys.drop_first();
        state_laws::law_key_delivers_in_order(st, keys[0], now);
        state_laws::lemma_key_pulled(st, keys[0], now);
        assert forall|i: int| 0 <= i < rest.len() implies !next.in_flight.contains(
            #[trigger] rest[i],
        ) by {
            assert(rest[i] == keys[i + 1]);
            assert(keys[0] != keys[i + 1]);
        }
        assert forall|i: int, j: int| 0 <= i < j < rest.len() implies #[trigger] rest[i]
            != #[trigger] rest[j] by {
            assert(rest[i] == keys[i + 1] && rest[j] == keys[j + 1]);
        }
        lemma_key_pulled_line(st, keys[0], now, k);
        lemma_keys_pulled_line(next, rest, limit, now, k);
        lemma_tail_twice(
            line(st, k),
            line(next, k),
            line(state::keys_pulled(next, rest, limit, now), k),
        );
    }
}

/// The state after the first message of the backlog was delivered, or dropped as too old.
spec fn past_front(st: SubscriptionState, now: nat) -> SubscriptionState {
    let m = st.backlog[0];
    let rest = SubscriptionState { backlog: st.backlog.drop_first(), ..st };
    if state_laws::is_aged(st, m, now) {
        state::forgotten(rest, *m)
    } else {
        state::delivered(rest, m, now)
    }
}

/// A pull from the backlog leaves the lines as they were.
proof fn lemma_backlog_pulled_line(st: SubscriptionState, limit: nat, now: nat, k: Seq<char>)
    requires
        state_laws::backlog_unordered(st),
    ensures
        line(state::backlog_pulled(st, limit, now), k) == line(st, k),
    decreases st.backlog.len(),
{
    if st.backlog.len() > 0 && st.outstanding.len() < limit {
        let m = st.backlog[0];
        let next = past_front(st, now);
        let p = state_laws::has_key(st.info, k);
        assert forall|i: int| 0 <= i < next.backlog.len() implies state::ordered_key(
            next.info,
            *#[trigger] next.backlog[i],
        ) is None by {
            assert(next.backlog[i] == st.backlog[i + 1]);
        }
        lemma_backlog_pulled_line(next, limit, now, k);
        if !state_laws::is_aged(st, m, now) {
            let old = state::delivery_messages(st.outstanding);
            assert(state::ordered_key(st.info, *st.backlog[0]) is None);
            assert(state::delivery_messages(next.outstanding) =~= old + seq![m]);
            collections::lemma_select_add(old, seq![m], p);
            collections::lemma_select_one(m, p);
            assert(collections::select(old + seq![m], p) =~= collections::select(old, p));
        }
        assert(line(next, k) =~= line(st, k));
    }
}

proof fn lemma_pulled_line(
    st: SubscriptionState,
    max_count: u16,
    max_outstanding: u16,
    now: nat,
    k: Seq<char>,
)
    requires
        state_laws::orderly(st),
        state_laws::finitely_queued(st),
    ensures
        is_tail(line(st, k), line(state::pulled(st, max_count, max_outstanding, now), k)),
{
    lemma_tail_same(line(st, k));
    if !st.deleted && !st.info.detached {
        let limit: nat = st.outstanding.len() + state::pull_room(st, max_count, max_outstanding);
        let keys = key_queues::listing(state::free_keys(st));
        state_laws::lemma_free_keys_listed(st);
        assert forall|i: int| 0 <= i < keys.len() implies !st.in_flight.contains(
            #[trigger] keys[i],
        ) by {
            assert(state::free_keys(st).contains(keys[i]));
        }
        let middle = state::keys_pulled(st, keys, limit, now);
        lemma_keys_pulled_line(st, keys, limit, now, k);
        state_laws::lemma_keys_pulled(st, keys, limit, now);
        lemma_backlog_pulled_line(middle, limit, now, k);
    }
}

/// The messages of a key that an event adds.
pub open spec fn added_for(st: SubscriptionState, event: Event, k: Seq<char>) -> Seq<
    Arc<TopicMessage>,
> {
    match event {
        Event::Request { request: SubscriptionRequest::PostMessages { messages }, .. } =>
            if st.deleted {
            Seq::empty()
        } else {
            taken_for(st, messages@, k)
        },
        _ => Seq::empty(),
    }
}

/// Where the configuration orders as before, the lines are as they were.
proof fn lemma_reconfigured_line(a: SubscriptionState, b: SubscriptionState, k: Seq<char>)
    requires
        b.info.enable_message_ordering == a.info.enable_message_ordering,
        b.queues == a.queues,
        b.outstanding == a.outstanding,
        b.retries == a.retries,
    ensures
        line(b, k) == line(a, k),
{
    assert forall|m: TopicMessage| #[trigger] state::ordered_key(b.info, m) == state::ordered_key(
        a.info,
        m,
    ) by {}
    assert(state_laws::has_key(b.info, k) =~= state_laws::has_key(a.info, k));
}

/// The line of a key without messages.
proof fn lemma_cleared_line(st: SubscriptionState, k: Seq<char>)
    ensures
        line(state::cleared(st), k) == Seq::<Arc<TopicMessage>>::empty(),
{
    let c = state::cleared(st);
    assert(state::delivery_messages(c.outstanding) =~= Seq::empty());
    assert(retry_queue::retry_messages(c.retries) =~= Seq::empty());
    assert(line(c, k) =~= Seq::<Arc<TopicMessage>>::empty());
}

/// Whatever happens adds the new messages of a key at the end of its line, or takes messages away at
/// the front.
pub proof fn law_line_moves_on(st: SubscriptionState, event: Event, k: Seq<char>)
    requires
        state_laws::orderly(st),
        state_laws::finitely_queued(st),
    ensures
        is_tail(line(st, k) + added_for(st, event, k), line(run_laws::happened(st, event), k)),
{
    let none = Seq::<Arc<TopicMessage>>::empty();
    let after = run_laws::happened(st, event);
    let old = line(st, k);
    lemma_tail_same(old);
    assert(old + none =~= old);
    match event {
        Event::Request { request, now } => match request {
            SubscriptionRequest::PostMessages { messages } => {
                if !st.deleted {
                    lemma_enqueued_line(st, messages@, k);
                    lemma_tail_same(line(after, k));
                }
            },
            SubscriptionRequest::UpdateInfo { update } => {
                lemma_reconfigured_line(st, after, k);
            },
            SubscriptionRequest::PullMessages { max_count, max_outstanding } => {
                lemma_pulled_line(st, max_count, max_outstanding, now, k);
            },
            SubscriptionRequest::AcknowledgeMessages { ack_ids } => {
                lemma_acknowledged_line(st, outstanding::id_set(ack_ids@), k);
            },
            SubscriptionRequest::ModifyDeadline { deadline_modifications } => {
                lemma_modified_line(
                    st,
                    outstanding::modifications_of(deadline_modifications@),
                    now,
                    k,
                );
            },
            SubscriptionRequest::Delete => {
                if !st.deleted {
                    lemma_cleared_line(SubscriptionState { deleted: true, ..st }, k);
                    assert(line(after, k) =~= old.skip(old.len() as int));
                }
            },
            SubscriptionRequest::Detach => {
                if !st.deleted && !st.info.detached {
                    lemma_cleared_line(
                        SubscriptionState {
                            info: SubscriptionInfo { detached: true, ..st.info },
                            ..st
                        },
                        k,
                    );
                    assert(line(after, k) =~= old.skip(old.len() as int));
                }
            },
            SubscriptionRequest::ModifyPushConfig { push_config } => {
                lemma_reconfigured_line(st, after, k);
            },
            SubscriptionRequest::GetInfo | SubscriptionRequest::GetStats => {},
        },
        Event::Expiry { now } => {
            let gone = outstanding::overdue(st.outstanding, now);
            let taken = state::overdue_taken(st, now);
            let chosen = |d: Delivery| d.deadline <= now;
            let left = |d: Delivery| now < d.deadline;
            lemma_taken_line(st, none, chosen, left, taken, k);
            state_laws::lemma_taken(st, none, chosen, left, taken);
            assert(none + state::delivery_messages(gone) =~= state::delivery_messages(gone) + none);
            lemma_all_requeued_line(taken, gone, none, now, k);
        },
        Event::Retry { now } => {
            lemma_retries_ended_line(st, now, k);
        },
    }
}

proof fn lemma_acknowledged_line(st: SubscriptionState, ids: Set<u64>, k: Seq<char>)
    requires
        state_laws::orderly(st),
    ensures
        is_tail(line(st, k), line(state::acknowledged(st, ids), k)),
{
    lemma_tail_same(line(st, k));
    if !st.deleted {
        let none = Seq::<Arc<TopicMessage>>::empty();
        let gone = outstanding::named(st.outstanding, ids);
        let taken = SubscriptionState {
            outstanding: outstanding::not_named(st.outstanding, ids),
            counters: SubscriptionCounters {
                acked: stats::counted(st.counters.acked, gone.len()),
                ..st.counters
            },
            ..st
        };
        let chosen = |d: Delivery| ids.contains(d.ack_id);
        let left = |d: Delivery| !ids.contains(d.ack_id);
        lemma_taken_line(st, none, chosen, left, taken, k);
        state_laws::lemma_taken(st, none, chosen, left, taken);
        assert(none + state::delivery_messages(gone) =~= state::delivery_messages(gone) + none);
        lemma_all_gone_line(taken, gone, none, k);
    }
}

proof fn lemma_modified_line(
    st: SubscriptionState,
    modifications: Seq<Modification>,
    now: nat,
    k: Seq<char>,
)
    requires
        state_laws::orderly(st),
    ensures
        is_tail(line(st, k), line(state::modified(st, modifications, now), k)),
{
    lemma_tail_same(line(st, k));
    if !st.deleted {
        let none = Seq::<Arc<TopicMessage>>::empty();
        let (kept, returned) = outstanding::modified(st.outstanding, modifications);
        let moved = state::deadlines_moved(st, modifications);
        let base = state_laws::with_outstanding(st, kept);
        let pending = state::delivery_messages(returned);
        state_laws::lemma_deadlines_modified(st, modifications);
        lemma_deadlines_modified_line(st, modifications, k);
        assert(pending + none =~= pending);
        state_laws::lemma_counters_do_not_matter(base, moved, pending + none);
        assert(line_with(moved, pending, k) == line_with(base, pending, k));
        lemma_all_requeued_line(moved, returned, none, now, k);
    }
}

proof fn lemma_retries_ended_line(st: SubscriptionState, now: nat, k: Seq<char>)
    requires
        state_laws::orderly(st),
    ensures
        is_tail(line(st, k), line(state::retries_ended(st, now), k)),
{
    let none = Seq::<Arc<TopicMessage>>::empty();
    let ready = state::ready_messages(st, now);
    let due = retry_queue::due(st.retries, now);
    let after = SubscriptionState { retries: retry_queue::not_due(st.retries, now), ..st };
    state_laws::lemma_retries_taken(st, now);
    assert(ready + none =~= ready);
    assert(state_laws::key_balanced(st, none, k));
    assert(state_laws::key_balanced(after, ready, k));
    assert forall|m: Arc<TopicMessage>| #[trigger]
        away(st, none, k).contains(m) implies away(after, ready, k).contains(m) by {
        lemma_away(st, none, k, m);
        lemma_away(after, ready, k, m);
        if retry_queue::retry_messages(st.retries).contains(m) {
            let i = choose|i: int|
                0 <= i < st.retries.len() && retry_queue::retry_messages(st.retries)[i] == m;
            let r = st.retries[i];
            assert(st.retries.contains(r));
            collections::lemma_selected(st.retries, |r: Retry| r.deliver_at <= now, r);
            collections::lemma_selected(st.retries, |r: Retry| now < r.deliver_at, r);
            if r.deliver_at <= now {
                let j = choose|j: int| 0 <= j < due.len() && due[j] == r;
                assert(ready[j] == m);
            } else {
                let j = choose|j: int| 0 <= j < after.retries.len() && after.retries[j] == r;
                assert(retry_queue::retry_messages(after.retries)[j] == m);
            }
        }
    }
    lemma_same_away(st, none, after, ready, k);
    lemma_all_retried_line(after, ready, none, now, k);
}

/// The messages of a key that the first `t` events added, in the order in which they came.
pub open spec fn published_for(
    states: Seq<SubscriptionState>,
    events: Seq<Event>,
    k: Seq<char>,
    t: int,
) -> Seq<Arc<TopicMessage>>
    decreases t,
{
    if t <= 0 {
        Seq::empty()
    } else {
        published_for(states, events, k, t - 1) + added_for(states[t - 1], events[t - 1], k)
    }
}

/// How many messages of a key are done with after `t` events.
pub open spec fn done_with(
    states: Seq<SubscriptionState>,
    events: Seq<Event>,
    k: Seq<char>,
    t: int,
) -> int {
    published_for(states, events, k, t).len() - line(states[t], k).len()
}

/// The messages of a key that are not done with are always the last ones that came, in the order in
/// which they came, and none comes back that was done with.
pub proof fn law_line_is_in_publish_order(
    info: SubscriptionInfo,
    states: Seq<SubscriptionState>,
    events: Seq<Event>,
    k: Seq<char>,
    t: int,
)
    requires
        run_laws::is_run(info, states, events),
        0 <= t < states.len(),
    ensures
        is_tail(published_for(states, events, k, t), line(states[t], k)),
        t > 0 ==> done_with(states, events, k, t - 1) <= done_with(states, events, k, t),
    decreases t,
{
    let all = published_for(states, events, k, t);
    if t == 0 {
        lemma_cleared_line(state::started(info), k);
        assert(state::cleared(state::started(info)) == state::started(info));
        lemma_tail_same(all);
    } else {
        law_line_is_in_publish_order(info, states, events, k, t - 1);
        run_laws::law_run_keeps_order(info, states, events, t - 1, 0, 0);
        assert(states[(t - 1) + 1] == run_laws::happened(states[t - 1], events[t - 1]));
        law_line_moves_on(states[t - 1], events[t - 1], k);
        let before = published_for(states, events, k, t - 1);
        let new = added_for(states[t - 1], events[t - 1], k);
        let old = line(states[t - 1], k);
        assert(old + new =~= all.skip(all.len() - (old + new).len()));
        lemma_tail_twice(all, old + new, line(states[t], k));
    }
}

/// What was published first stays first.
proof fn lemma_published_grows(
    states: Seq<SubscriptionState>,
    events: Seq<Event>,
    k: Seq<char>,
    t1: int,
    t2: int,
)
    requires
        0 <= t1 <= t2,
    ensures
        published_for(states, events, k, t1).is_prefix_of(published_for(states, events, k, t2)),
    decreases t2,
{
    let a = published_for(states, events, k, t1);
    let b = published_for(states, events, k, t2);
    if t1 < t2 {
        lemma_published_grows(states, events, k, t1, t2 - 1);
        let c = published_for(states, events, k, t2 - 1);
        assert(a =~= b.subrange(0, a.len() as int)) by {
            assert(a =~= c.subrange(0, a.len() as int));
        }
    } else {
        assert(a =~= b.subrange(0, a.len() as int));
    }
}

/// No message of a key is done with again.
proof fn lemma_done_grows(
    info: SubscriptionInfo,
    states: Seq<SubscriptionState>,
    events: Seq<Event>,
    k: Seq<char>,
    t1: int,
    t2: int,
)
    requires
        run_laws::is_run(info, states, events),
        0 <= t1 <= t2 < states.len(),
    ensures
        done_with(states, events, k, t1) <= done_with(states, events, k, t2),
    decreases t2,
{
    if t1 < t2 {
        lemma_done_grows(info, states, events, k, t1, t2 - 1);
        law_line_is_in_publish_order(info, states, events, k, t2);
    }
}

/// An outstanding message of a key is the first one that is not done with.
proof fn lemma_outstanding_is_first(
    info: SubscriptionInfo,
    states: Seq<SubscriptionState>,
    events: Seq<Event>,
    k: Seq<char>,
    t: int,
    i: int,
)
    requires
        run_laws::is_run(info, states, events),
        0 <= t < states.len(),
        0 <= i < states[t].outstanding.len(),
        state_laws::delivery_key(states[t].info, states[t].outstanding[i]) == Some(k),
    ensures
        0 <= done_with(states, events, k, t) < published_for(states, events, k, t).len(),
        states[t].outstanding[i].message == published_for(states, events, k, t)[done_with(
            states,
            events,
            k,
            t,
        )],
{
    let none = Seq::<Arc<TopicMessage>>::empty();
    let st = states[t];
    let m = st.outstanding[i].message;
    law_line_is_in_publish_order(info, states, events, k, t);
    run_laws::law_run_keeps_order(info, states, events, t, 0, 0);
    assert(state_laws::key_balanced(st, none, k));
    lemma_away_len(st, none, k);
    lemma_away(st, none, k, m);
    assert(state::delivery_messages(st.outstanding)[i] == m);
    assert(away(st, none, k).contains(m));
    assert(line(st, k)[0] == m);
    let all = published_for(states, events, k, t);
    assert(all.skip(done_with(states, events, k, t))[0] == all[done_with(states, events, k, t)]);
}

/// Over any run, the messages of an ordering key are delivered in the order in which they came: of
/// two deliveries of a key, at the same time or one later than the other, the later one is of the
/// same message or of one that came later. The message of a delivery is always the first one of its
/// key that is not done with, so one that comes back is delivered again before any later one.
pub proof fn law_key_is_delivered_in_publish_order(
    info: SubscriptionInfo,
    states: Seq<SubscriptionState>,
    events: Seq<Event>,
    k: Seq<char>,
    t1: int,
    i1: int,
    t2: int,
    i2: int,
)
    requires
        run_laws::is_run(info, states, events),
        0 <= t1 <= t2 < states.len(),
        0 <= i1 < states[t1].outstanding.len(),
        0 <= i2 < states[t2].outstanding.len(),
        state_laws::delivery_key(states[t1].info, states[t1].outstanding[i1]) == Some(k),
        state_laws::delivery_key(states[t2].info, states[t2].outstanding[i2]) == Some(k),
    ensures
        ({
            let published = published_for(states, events, k, t2);
            let a = done_with(states, events, k, t1);
            let b = done_with(states, events, k, t2);
            &&& 0 <= a <= b < published.len()
            &&& states[t1].outstanding[i1].message == published[a]
            &&& states[t2].outstanding[i2].message == published[b]
        }),
{
    lemma_outstanding_is_first(info, states, events, k, t1, i1);
    lemma_outstanding_is_first(info, states, events, k, t2, i2);
    lemma_done_grows(info, states, events, k, t1, t2);
    lemma_published_grows(states, events, k, t1, t2);
}

/// What was published since a time of two sequences together.
proof fn lemma_since_add(a: Seq<Arc<TopicMessage>>, b: Seq<Arc<TopicMessage>>, time: int)
    ensures
        key_queues::published_since(a + b, time) == key_queues::published_since(a, time)
            + key_queues::published_since(b, time),
    decreases b.len(),
{
    if b.len() == 0 {
        assert(a + b =~= a);
        assert(key_queues::published_since(a, time) + key_queues::published_since(b, time)
            =~= key_queues::published_since(a, time));
    } else {
        lemma_since_add(a, b.drop_last(), time);
        assert((a + b).drop_last() =~= a + b.drop_last());
        assert((a + b).last() == b.last());
        assert(key_queues::published_since(a + b, time) =~= key_queues::published_since(a, time)
            + key_queues::published_since(b, time));
    }
}

/// What was published since a time, of the messages of a key.
proof fn lemma_since_select(
    messages: Seq<Arc<TopicMessage>>,
    p: spec_fn(Arc<TopicMessage>) -> bool,
    time: int,
)
    ensures
        collections::select(key_queues::published_since(messages, time), p)
            == key_queues::published_since(collections::select(messages, p), time),
        key_queues::published_since(messages, time).len() <= messages.len(),
    decreases messages.len(),
{
    if messages.len() > 0 {
        let front = messages.drop_last();
        let m = messages.last();
        lemma_since_select(front, p, time);
        let kept = key_queues::published_since(front, time);
        let chosen = collections::select(front, p);
        assert(kept.push(m).drop_last() =~= kept);
        assert(chosen.push(m).drop_last() =~= chosen);
    }
}

/// Messages of which one at most has the key come to stand in front of its queue.
proof fn lemma_put_back_queue(
    st: SubscriptionState,
    messages: Seq<Arc<TopicMessage>>,
    k: Seq<char>,
)
    requires
        collections::select(messages, state_laws::has_key(st.info, k)).len() <= 1,
    ensures
        ({
            let after = state::all_put_back(st, messages);
            &&& after.queues[k] == collections::select(
                messages,
                state_laws::has_key(st.info, k),
            ) + st.queues[k]
            &&& after.info == st.info
            &&& after.outstanding == st.outstanding
            &&& after.retries == st.retries
            &&& st.backlog.is_prefix_of(after.backlog)
        }),
    decreases messages.len(),
{
    let p = state_laws::has_key(st.info, k);
    let chosen = collections::select(messages, p);
    if messages.len() == 0 {
        assert(chosen + st.queues[k] =~= st.queues[k]);
    } else {
        let front = messages.drop_last();
        let m = messages.last();
        lemma_put_back_queue(st, front, k);
        if p(m) {
            let none = collections::select(front, p);
            assert(none.len() == 0);
            assert(chosen =~= seq![m]);
            assert(none + st.queues[k] =~= st.queues[k]);
        }
    }
}

/// A seek keeps the messages of an ordering key that were published since, in the order in which they
/// were, also where one of them was outstanding or waited; and those of the backlog stay in front of
/// what comes back to it.
pub proof fn law_seek_keeps_the_order(st: SubscriptionState, time: int, k: Seq<char>)
    requires
        state_laws::orderly(st),
        !st.deleted,
    ensures
        line(state::sought(st, time), k) == key_queues::published_since(line(st, k), time),
        key_queues::published_since(st.backlog, time).is_prefix_of(
            state::sought(st, time).backlog,
        ),
{
    let none = Seq::<Arc<TopicMessage>>::empty();
    let p = state_laws::has_key(st.info, k);
    let from_outstanding = state::delivery_messages(st.outstanding);
    let from_retries = retry_queue::retry_messages(st.retries);
    let all = from_outstanding + from_retries;
    let kept = key_queues::published_since(all, time);
    let base = SubscriptionState {
        backlog: key_queues::published_since(st.backlog, time),
        queues: key_queues::queues_since(st.queues, time),
        ..state::cleared(st)
    };
    let gone = away(st, none, k);
    let after = state::sought(st, time);
    lemma_away_len(st, none, k);
    collections::lemma_select_add(from_outstanding, from_retries, p);
    assert(collections::select(none, p) =~= none);
    assert(gone =~= collections::select(all, p));
    lemma_since_select(all, p, time);
    lemma_since_select(gone, p, time);
    lemma_put_back_queue(base, kept, k);
    lemma_since_add(gone, st.queues[k], time);
    assert(base.queues[k] == key_queues::published_since(st.queues[k], time));
    assert(state::delivery_messages(after.outstanding) =~= none);
    assert(retry_queue::retry_messages(after.retries) =~= none);
    assert(away(after, none, k) =~= none);
    assert(line(after, k) =~= key_queues::published_since(line(st, k), time));
}

} // verus!
