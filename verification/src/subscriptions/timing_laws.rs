//! When messages come back, how long they wait, and how old they get.
use std::sync::Arc;
use vstd::arithmetic::power2;
use vstd::prelude::*;

use crate::collections;
use crate::subscriptions::ack::{Delivery, Modification};
use crate::subscriptions::delivery_laws;
use crate::subscriptions::key_queues;
use crate::subscriptions::outstanding;
use crate::subscriptions::policies;
use crate::subscriptions::policies::RetryPolicy;
use crate::subscriptions::retry_queue;
use crate::subscriptions::retry_queue::Retry;
use crate::subscriptions::state;
use crate::subscriptions::state::SubscriptionState;
use crate::subscriptions::state_laws;
use crate::topics::topic_message::TopicMessage;

verus! {

/// How often a message was delivered when it is outstanding: once, unless more is noted.
pub open spec fn times_delivered(st: SubscriptionState, m: Arc<TopicMessage>) -> int {
    if st.attempts.contains_key(m.id.value) {
        st.attempts[m.id.value] as int
    } else {
        1
    }
}

/// Whether all deliveries that were added have the deadline, and tell how often their message was
/// delivered with them.
spec fn added_alike(a: SubscriptionState, b: SubscriptionState, now: nat) -> bool {
    let n = a.outstanding.len();
    &&& n <= b.outstanding.len()
    &&& forall|i: int| 0 <= i < n ==> #[trigger] b.outstanding[i] == a.outstanding[i]
    &&& a.info == b.info
    &&& a.deleted == b.deleted
    &&& b.attempts.submap_of(a.attempts)
    &&& forall|i: int|
        n <= i < b.outstanding.len() ==> is_added(a, b, #[trigger] b.outstanding[i], now)
}

/// Whether the delivery was added with its deadline and attempt.
spec fn is_added(a: SubscriptionState, b: SubscriptionState, d: Delivery, now: nat) -> bool {
    let id = d.message.id.value;
    &&& now + a.info.ack_deadline@ <= u128::MAX ==> d.deadline == now + a.info.ack_deadline@
    &&& !a.attempts.contains_key(id) ==> d.delivery_attempt == 1
    &&& b.attempts.contains_key(id) ==> d.delivery_attempt == a.attempts[id]
}

proof fn lemma_added_twice(
    a: SubscriptionState,
    b: SubscriptionState,
    c: SubscriptionState,
    now: nat,
)
    requires
        added_alike(a, b, now),
        added_alike(b, c, now),
    ensures
        added_alike(a, c, now),
{
    let n: int = a.outstanding.len() as int;
    assert forall|i: int| n <= i < c.outstanding.len() implies is_added(
        a,
        c,
        #[trigger] c.outstanding[i],
        now,
    ) by {
        let id = c.outstanding[i].message.id.value;
        assert(b.attempts.dom().contains(id) ==> a.attempts.dom().contains(id) && b.attempts[id]
            == a.attempts[id]);
        assert(c.attempts.dom().contains(id) ==> b.attempts.dom().contains(id));
        if i < b.outstanding.len() {
            assert(c.outstanding[i] == b.outstanding[i]);
            assert(is_added(a, b, b.outstanding[i], now));
        } else {
            assert(is_added(b, c, c.outstanding[i], now));
        }
    }
    assert forall|id: u64| #[trigger] c.attempts.dom().contains(id) implies a.attempts.dom().contains(
        id,
    ) && c.attempts[id] == a.attempts[id] by {
        assert(b.attempts.dom().contains(id));
    }
    assert forall|i: int| 0 <= i < n implies #[trigger] c.outstanding[i] == a.outstanding[i] by {
        assert(c.outstanding[i] == b.outstanding[i]);
    }
}

/// The state without the first message of a key.
spec fn past_first(st: SubscriptionState, k: Seq<char>) -> SubscriptionState {
    state::forgotten(
        SubscriptionState { queues: st.queues.insert(k, st.queues[k].drop_first()), ..st },
        *st.queues[k][0],
    )
}

proof fn lemma_key_adds(st: SubscriptionState, k: Seq<char>, now: nat)
    ensures
        added_alike(st, state::key_pulled(st, k, now), now),
    decreases st.queues[k].len(),
{
    if st.queues[k].len() > 0 && state_laws::is_aged(st, st.queues[k][0], now) {
        let next = past_first(st, k);
        lemma_key_adds(next, k, now);
        lemma_added_twice(st, next, state::key_pulled(next, k, now), now);
    }
}

proof fn lemma_keys_add(st: SubscriptionState, keys: Seq<Seq<char>>, limit: nat, now: nat)
    ensures
        added_alike(st, state::keys_pulled(st, keys, limit, now), now),
    decreases keys.len(),
{
    if keys.len() > 0 && st.outstanding.len() < limit {
        let next = state::key_pulled(st, keys[0], now);
        lemma_key_adds(st, keys[0], now);
        lemma_keys_add(next, keys.drop_first(), limit, now);
        lemma_added_twice(st, next, state::keys_pulled(next, keys.drop_first(), limit, now), now);
    }
}

/// The state after the first message of the backlog was delivered, or dropped as too old.
spec fn past_front(st: SubscriptionState, now: nat) -> SubscriptionState {
    let m = st.backlog[0];
    let rest = SubscriptionState { backlog: st.backlog.drop_first(), ..st };
    if state_laws::is_aged(st, m, now) {
        state::forgotten(rest, *m)
    } else {
        state::delivered(rest, m, now)
    }
}

proof fn lemma_backlog_adds(st: SubscriptionState, limit: nat, now: nat)
    ensures
        added_alike(st, state::backlog_pulled(st, limit, now), now),
    decreases st.backlog.len(),
{
    if st.backlog.len() > 0 && st.outstanding.len() < limit {
        let next = past_front(st, now);
        lemma_backlog_adds(next, limit, now);
        lemma_added_twice(st, next, state::backlog_pulled(next, limit, now), now);
    }
}

proof fn lemma_pull_adds(st: SubscriptionState, max_count: u16, max_outstanding: u16, now: nat)
    ensures
        added_alike(st, state::pulled(st, max_count, max_outstanding, now), now),
{
    if !st.deleted && !st.info.detached {
        let limit: nat = st.outstanding.len() + state::pull_room(st, max_count, max_outstanding);
        let keys = key_queues::listing(state::free_keys(st));
        let middle = state::keys_pulled(st, keys, limit, now);
        lemma_keys_add(st, keys, limit, now);
        lemma_backlog_adds(middle, limit, now);
        lemma_added_twice(st, middle, state::backlog_pulled(middle, limit, now), now);
    }
}

/// Messages that come back leave what is outstanding, and the configuration.
pub proof fn lemma_requeue_keeps_outstanding(st: SubscriptionState, returned: Seq<Delivery>, now: nat)
    ensures
        state::all_requeued(st, returned, now).outstanding == st.outstanding,
        state::all_requeued(st, returned, now).info == st.info,
    decreases returned.len(),
{
    if returned.len() > 0 {
        lemma_requeue_keeps_outstanding(st, returned.drop_last(), now);
    }
}

/// Once time has come so far, exactly those deliveries are still outstanding whose deadline is still
/// to come.
pub proof fn law_delivery_is_outstanding_until_its_deadline(
    st: SubscriptionState,
    now: nat,
    d: Delivery,
)
    ensures
        state::expired(st, now).outstanding.contains(d) <==> st.outstanding.contains(d) && now
            < d.deadline,
{
    lemma_requeue_keeps_outstanding(
        state::overdue_taken(st, now),
        outstanding::overdue(st.outstanding, now),
        now,
    );
    collections::lemma_selected(st.outstanding, |d: Delivery| now < d.deadline, d);
}

/// A message that is pulled stays outstanding for as long as the subscription's ack deadline is, and
/// no longer: at any time before the pull's plus the deadline it is still outstanding, and from then
/// on it is not.
pub proof fn law_ack_deadline_runs_from_the_pull(
    st: SubscriptionState,
    max_count: u16,
    max_outstanding: u16,
    now: nat,
    i: int,
    t: nat,
)
    requires
        now + st.info.ack_deadline@ <= u128::MAX,
        st.outstanding.len() <= i < state::pulled(
            st,
            max_count,
            max_outstanding,
            now,
        ).outstanding.len(),
    ensures
        ({
            let after = state::pulled(st, max_count, max_outstanding, now);
            let d = after.outstanding[i];
            state::expired(after, t).outstanding.contains(d) <==> t < now + st.info.ack_deadline@
        }),
{
    let after = state::pulled(st, max_count, max_outstanding, now);
    let d = after.outstanding[i];
    lemma_pull_adds(st, max_count, max_outstanding, now);
    assert(is_added(st, after, d, now));
    assert(after.outstanding.contains(d));
    law_delivery_is_outstanding_until_its_deadline(after, t, d);
}

/// The first delivery of a message says that it is the first, and a later one which it is.
pub proof fn law_delivery_tells_its_attempt(
    st: SubscriptionState,
    max_count: u16,
    max_outstanding: u16,
    now: nat,
    i: int,
)
    requires
        st.outstanding.len() <= i < state::pulled(
            st,
            max_count,
            max_outstanding,
            now,
        ).outstanding.len(),
    ensures
        ({
            let after = state::pulled(st, max_count, max_outstanding, now);
            let d = after.outstanding[i];
            let id = d.message.id.value;
            &&& !st.attempts.contains_key(id) ==> d.delivery_attempt == 1
            &&& after.attempts.contains_key(id) ==> d.delivery_attempt == st.attempts[id]
            &&& after.attempts.contains_key(id) ==> after.attempts[id] == st.attempts[id]
        }),
{
    let after = state::pulled(st, max_count, max_outstanding, now);
    lemma_pull_adds(st, max_count, max_outstanding, now);
    assert(is_added(st, after, after.outstanding[i], now));
}

/// Two to a power is the same whichever way it is written.
proof fn lemma_power(n: nat)
    ensures
        policies::power_of_two(n) == power2::pow2(n),
    decreases n,
{
    if n == 0 {
        power2::lemma2_to64();
    } else {
        lemma_power((n - 1) as nat);
        power2::lemma_pow2_unfold(n);
    }
}

/// Whether the subscription would deliver a message once more that was delivered `n` times.
pub open spec fn delivers_again(st: SubscriptionState, n: int) -> bool {
    st.info.dead_letter_policy matches Some(policy) ==> n < policy.max_delivery_attempts
}

/// A message that was delivered `n` times and comes back to a subscription with a retry policy waits
/// for the shortest wait times two to the power of `n`, and for the longest wait at most; from twenty
/// deliveries on the wait does not grow any more. Nothing else that can be pulled changes meanwhile,
/// and it is noted that the next delivery is one more.
pub proof fn law_returned_message_waits(
    st: SubscriptionState,
    m: Arc<TopicMessage>,
    policy: RetryPolicy,
    now: nat,
)
    requires
        st.info.retry_policy == Some(policy),
        1 <= times_delivered(st, m) < u16::MAX,
        delivers_again(st, times_delivered(st, m)),
        now + policy.maximum_backoff@ <= u128::MAX,
    ensures
        ({
            let after = state::requeued(st, m, now);
            let n = times_delivered(st, m);
            let power = power2::pow2(
                if n <= 20 {
                    n as nat
                } else {
                    20
                },
            );
            let wait = policy.minimum_backoff@ * power;
            &&& after.retries.len() == st.retries.len() + 1
            &&& after.retries.drop_last() == st.retries
            &&& after.retries.last().message == m
            &&& wait <= policy.maximum_backoff@ ==> after.retries.last().deliver_at == now + wait
            &&& wait >= policy.maximum_backoff@ ==> after.retries.last().deliver_at == now
                + policy.maximum_backoff@
            &&& after.backlog == st.backlog
            &&& after.queues == st.queues
            &&& after.in_flight == st.in_flight
            &&& after.outstanding == st.outstanding
            &&& after.attempts == st.attempts.insert(m.id.value, (n + 1) as u16)
        }),
{
    let after = state::requeued(st, m, now);
    let n = times_delivered(st, m);
    let exponent: nat = if n <= 20 {
        n as nat
    } else {
        20
    };
    lemma_power(exponent);
    let attempt: u16 = state_laws::attempt_for(st, m);
    assert(attempt == n + 1);
    assert(policies::doublings(attempt) == exponent);
    assert(after.retries.drop_last() =~= st.retries);
}

/// Of two returns of a message in a row the second one waits twice as long as the first one, unless
/// it waits as long as any does.
pub proof fn law_second_return_waits_twice_as_long(
    first: SubscriptionState,
    at_first: nat,
    second: SubscriptionState,
    at_second: nat,
    m: Arc<TopicMessage>,
    policy: RetryPolicy,
)
    requires
        first.info.retry_policy == Some(policy),
        second.info.retry_policy == Some(policy),
        policy.minimum_backoff@ <= policy.maximum_backoff@,
        1 <= times_delivered(first, m) < 20,
        delivers_again(first, times_delivered(first, m)),
        delivers_again(second, times_delivered(second, m)),
        second.attempts.contains_key(m.id.value),
        second.attempts[m.id.value] == state::requeued(first, m, at_first).attempts[m.id.value],
        at_first + policy.maximum_backoff@ <= u128::MAX,
        at_second + policy.maximum_backoff@ <= u128::MAX,
    ensures
        ({
            let one = state::requeued(first, m, at_first).retries.last().deliver_at - at_first;
            let two = state::requeued(second, m, at_second).retries.last().deliver_at - at_second;
            &&& two == 2 * one || two == policy.maximum_backoff@
            &&& two <= 2 * one
            &&& two >= one
        }),
{
    law_returned_message_waits(first, m, policy, at_first);
    law_returned_message_waits(second, m, policy, at_second);
    let n: nat = times_delivered(first, m) as nat;
    power2::lemma_pow2_unfold(n + 1);
    let p = power2::pow2(n);
    let low = policy.minimum_backoff@;
    assert(power2::pow2(n + 1) == 2 * p);
    assert(low * (2 * p) == 2 * (low * p)) by (nonlinear_arith);
}

/// The retries after waits ended are those whose time is still to come.
proof fn lemma_retried_keeps_retries(
    st: SubscriptionState,
    ready: Seq<Arc<TopicMessage>>,
    now: nat,
)
    ensures
        state::all_retried(st, ready, now).retries == st.retries,
        state::all_retried(st, ready, now).outstanding == st.outstanding,
        state::all_retried(st, ready, now).info == st.info,
    decreases ready.len(),
{
    if ready.len() > 0 {
        lemma_retried_keeps_retries(st, ready.drop_last(), now);
    }
}

/// A message waits for its retry until the time comes that it waits for, and no longer.
pub proof fn law_retry_waits_until_its_time(st: SubscriptionState, now: nat, r: Retry)
    ensures
        state::retries_ended(st, now).retries.contains(r) <==> st.retries.contains(r) && now
            < r.deliver_at,
        state::retries_ended(st, now).outstanding == st.outstanding,
{
    lemma_retried_keeps_retries(
        SubscriptionState { retries: retry_queue::not_due(st.retries, now), ..st },
        state::ready_messages(st, now),
        now,
    );
    collections::lemma_selected(st.retries, |r: Retry| now < r.deliver_at, r);
}

/// Whether the message can still be delivered at the time by the retention of the subscription: less
/// time than that has passed since it was published.
pub open spec fn is_young(st: SubscriptionState, m: Arc<TopicMessage>, now: nat) -> bool {
    st.info.message_retention_duration matches Some(retention) ==> now
        < m.published_at_instant@ + retention@
}

/// A pull delivers a message only where less time has passed since its publication than it is
/// retained for, and drops none of which that holds: it is held as often as before.
pub proof fn law_messages_are_retained(
    st: SubscriptionState,
    max_count: u16,
    max_outstanding: u16,
    now: nat,
    m: Arc<TopicMessage>,
    i: int,
)
    requires
        state_laws::orderly(st),
        state_laws::finitely_queued(st),
        m.published_at_instant@ <= now,
    ensures
        ({
            let after = state::pulled(st, max_count, max_outstanding, now);
            &&& st.outstanding.len() <= i < after.outstanding.len() ==> is_young(
                st,
                after.outstanding[i].message,
                now,
            )
            &&& is_young(st, m, now) ==> delivery_laws::copies(after, m) == delivery_laws::copies(
                st,
                m,
            )
        }),
{
    delivery_laws::law_pull_adds_fresh_deliveries(st, max_count, max_outstanding, now);
    let after = state::pulled(st, max_count, max_outstanding, now);
    if st.outstanding.len() <= i < after.outstanding.len() {
        assert(!state_laws::is_aged(st, after.outstanding[i].message, now));
    }
    if is_young(st, m, now) {
        assert(!state_laws::is_aged(st, m, now));
        delivery_laws::law_pull_loses_no_message(st, max_count, max_outstanding, now, m);
    }
}

/// Whether one of the modifications names the id.
pub open spec fn is_named(modifications: Seq<Modification>, id: u64) -> bool {
    exists|j: int| 0 <= j < modifications.len() && (#[trigger] modifications[j]).ack_id == id
}

/// Whether the modification at the place is the last one that names the id.
pub open spec fn names_last(modifications: Seq<Modification>, j: int, id: u64) -> bool {
    &&& 0 <= j < modifications.len()
    &&& modifications[j].ack_id == id
    &&& forall|l: int| j < l < modifications.len() ==> (#[trigger] modifications[l]).ack_id != id
}

/// Whether one of the modifications returns the message with the id.
pub open spec fn is_returned(modifications: Seq<Modification>, id: u64) -> bool {
    exists|j: int|
        0 <= j < modifications.len() && (#[trigger] modifications[j]).ack_id == id
            && modifications[j].new_deadline is None
}

/// A delivery that no modification returns is still there, with the deadline of the last one that
/// names it, or the one that it had.
proof fn lemma_deadline_moved(s: Seq<Delivery>, modifications: Seq<Modification>, d: Delivery) -> (
    t: nat)
    requires
        s.contains(d),
        !is_returned(modifications, d.ack_id),
    ensures
        outstanding::modified(s, modifications).0.contains(Delivery { deadline: t, ..d }),
        !is_named(modifications, d.ack_id) ==> t == d.deadline,
        forall|j: int| #[trigger]
            names_last(modifications, j, d.ack_id) ==> modifications[j].new_deadline == Some(t),
    decreases modifications.len(),
{
    if modifications.len() == 0 {
        assert(Delivery { deadline: d.deadline, ..d } == d);
        d.deadline
    } else {
        let init = modifications.drop_last();
        let m = modifications.last();
        let last: int = modifications.len() - 1;
        assert(!is_returned(init, d.ack_id)) by {
            if is_returned(init, d.ack_id) {
                let j = choose|j: int|
                    0 <= j < init.len() && (#[trigger] init[j]).ack_id == d.ack_id
                        && init[j].new_deadline is None;
                assert(modifications[j] == init[j]);
            }
        }
        let t0 = lemma_deadline_moved(s, init, d);
        let kept0 = outstanding::modified(s, init).0;
        let kept = outstanding::modified(s, modifications).0;
        let x = Delivery { deadline: t0, ..d };
        let p = choose|p: int| 0 <= p < kept0.len() && kept0[p] == x;
        assert(modifications[last] == m);
        if m.ack_id == d.ack_id {
            let t = m.new_deadline->0;
            assert(m.new_deadline is Some);
            assert(kept[p] == Delivery { deadline: t, ..d });
            assert forall|j: int| #[trigger] names_last(
                modifications,
                j,
                d.ack_id,
            ) implies modifications[j].new_deadline == Some(t) by {
                if j < last {
                    assert(modifications[last].ack_id == d.ack_id);
                }
            }
            assert(is_named(modifications, d.ack_id));
            t
        } else {
            match m.new_deadline {
                Some(_) => {
                    assert(kept[p] == x);
                },
                None => {
                    let ids = set![m.ack_id];
                    collections::lemma_selected(kept0, |e: Delivery| !ids.contains(e.ack_id), x);
                },
            }
            assert(kept.contains(x));
            if is_named(init, d.ack_id) {
                let j = choose|j: int|
                    0 <= j < init.len() && (#[trigger] init[j]).ack_id == d.ack_id;
                assert(modifications[j].ack_id == d.ack_id);
                assert(is_named(modifications, d.ack_id));
            }
            assert forall|j: int| #[trigger] names_last(
                modifications,
                j,
                d.ack_id,
            ) implies modifications[j].new_deadline == Some(t0) by {
                assert(j < last);
                assert forall|l: int| j < l < init.len() implies (#[trigger] init[l]).ack_id
                    != d.ack_id by {
                    assert(modifications[l] == init[l]);
                }
                assert(init[j] == modifications[j]);
                assert(names_last(init, j, d.ack_id));
            }
            t0
        }
    }
}

/// What is still there was there before, with another deadline at most, and is not returned.
pub proof fn lemma_what_is_kept(s: Seq<Delivery>, modifications: Seq<Modification>, x: Delivery) -> (d:
    Delivery)
    requires
        outstanding::modified(s, modifications).0.contains(x),
    ensures
        s.contains(d),
        x == (Delivery { deadline: x.deadline, ..d }),
        !is_returned(modifications, x.ack_id),
    decreases modifications.len(),
{
    if modifications.len() == 0 {
        x
    } else {
        let init = modifications.drop_last();
        let m = modifications.last();
        let kept0 = outstanding::modified(s, init).0;
        let kept = outstanding::modified(s, modifications).0;
        let p = choose|p: int| 0 <= p < kept.len() && kept[p] == x;
        let before = match m.new_deadline {
            Some(_) => kept0[p],
            None => x,
        };
        match m.new_deadline {
            Some(_) => {
                assert(kept0.contains(kept0[p]));
            },
            None => {
                let ids = set![m.ack_id];
                collections::lemma_selected(kept0, |e: Delivery| !ids.contains(e.ack_id), x);
            },
        }
        let d = lemma_what_is_kept(s, init, before);
        if is_returned(modifications, x.ack_id) {
            let j = choose|j: int|
                0 <= j < modifications.len() && (#[trigger] modifications[j]).ack_id == x.ack_id
                    && modifications[j].new_deadline is None;
            if j < init.len() {
                assert(init[j] == modifications[j]);
                assert(is_returned(init, before.ack_id));
            }
        }
        d
    }
}

/// Modifications move the deadlines of the messages that they name and of no others: a delivery that
/// none names stays as it was, one that is named and not returned has the deadline that the last one
/// sets, and one that is returned is not outstanding any more. Nothing becomes outstanding.
pub proof fn law_modification_moves_what_it_names(
    st: SubscriptionState,
    modifications: Seq<Modification>,
    now: nat,
    d: Delivery,
    j: int,
    x: Delivery,
)
    requires
        !st.deleted,
        st.outstanding.contains(d),
    ensures
        ({
            let after = state::modified(st, modifications, now);
            &&& !is_named(modifications, d.ack_id) ==> after.outstanding.contains(d)
            &&& names_last(modifications, j, d.ack_id) && !is_returned(modifications, d.ack_id)
                ==> modifications[j].new_deadline is Some && after.outstanding.contains(
                Delivery { deadline: modifications[j].new_deadline->0, ..d },
            )
            &&& after.outstanding.contains(x) ==> !is_returned(modifications, x.ack_id)
            &&& after.outstanding.contains(x) ==> exists|e: Delivery| #[trigger]
                st.outstanding.contains(e) && x == (Delivery { deadline: x.deadline, ..e })
        }),
{
    let after = state::modified(st, modifications, now);
    let (kept, returned) = outstanding::modified(st.outstanding, modifications);
    lemma_requeue_keeps_outstanding(state::deadlines_moved(st, modifications), returned, now);
    assert(after.outstanding == kept);
    if !is_returned(modifications, d.ack_id) {
        let t = lemma_deadline_moved(st.outstanding, modifications, d);
        if !is_named(modifications, d.ack_id) {
            assert(Delivery { deadline: t, ..d } == d);
        }
    }
    if is_returned(modifications, d.ack_id) && !is_named(modifications, d.ack_id) {
        let l = choose|l: int|
            0 <= l < modifications.len() && (#[trigger] modifications[l]).ack_id == d.ack_id
                && modifications[l].new_deadline is None;
        assert(modifications[l].ack_id == d.ack_id);
    }
    if kept.contains(x) {
        let e = lemma_what_is_kept(st.outstanding, modifications, x);
        assert(st.outstanding.contains(e));
    }
}

/// Where one element alone is chosen the choice is that one.
proof fn lemma_select_one(s: Seq<Delivery>, holds: spec_fn(Delivery) -> bool, i: int)
    requires
        0 <= i < s.len(),
        holds(s[i]),
        forall|j: int| 0 <= j < s.len() && j != i ==> !holds(#[trigger] s[j]),
    ensures
        collections::select(s, holds) == seq![s[i]],
    decreases s.len(),
{
    let front = s.drop_last();
    if i == s.len() - 1 {
        assert forall|j: int| 0 <= j < front.len() implies !holds(#[trigger] front[j]) by {
            assert(front[j] == s[j]);
        }
        collections::lemma_select_none(front, holds);
        assert(collections::select(s, holds) =~= seq![s[i]]);
    } else {
        assert forall|j: int| 0 <= j < front.len() && j != i implies !holds(#[trigger] front[j]) by {
            assert(front[j] == s[j]);
        }
        lemma_select_one(front, holds, i);
        assert(!holds(s[s.len() - 1]));
    }
}

/// Whether the state has one more message that waits, from the time on for as long as the policy says
/// for one that was delivered `n` times.
pub open spec fn waits_since(
    before: SubscriptionState,
    after: SubscriptionState,
    m: Arc<TopicMessage>,
    policy: RetryPolicy,
    n: int,
    now: nat,
) -> bool {
    let power = power2::pow2(
        if n <= 20 {
            n as nat
        } else {
            20
        },
    );
    let wait = policy.minimum_backoff@ * power;
    &&& after.retries.len() == before.retries.len() + 1
    &&& after.retries.drop_last() == before.retries
    &&& after.retries.last().message == m
    &&& after.retries.last().deliver_at == now + if wait <= policy.maximum_backoff@ {
        wait
    } else {
        policy.maximum_backoff@
    }
}

/// A message that a client returns, or whose deadline came, waits from that time on, for as long as the
/// policy says for a message that was delivered so often.
pub proof fn law_wait_runs_from_the_return(
    st: SubscriptionState,
    i: int,
    policy: RetryPolicy,
    now: nat,
)
    requires
        !st.deleted,
        state_laws::orderly(st),
        0 <= i < st.outstanding.len(),
        st.info.retry_policy == Some(policy),
        1 <= times_delivered(st, st.outstanding[i].message) < u16::MAX,
        delivers_again(st, times_delivered(st, st.outstanding[i].message)),
        now + policy.maximum_backoff@ <= u128::MAX,
    ensures
        ({
            let d = st.outstanding[i];
            let n = times_delivered(st, d.message);
            let refusal = seq![Modification { ack_id: d.ack_id, new_deadline: None }];
            &&& waits_since(st, state::modified(st, refusal, now), d.message, policy, n, now)
            &&& (forall|j: int|
                0 <= j < st.outstanding.len() ==> (now < (#[trigger] st.outstanding[j]).deadline <==> j
                    != i)) ==> waits_since(
                st,
                state::expired(st, now),
                d.message,
                policy,
                n,
                now,
            )
        }),
{
    let d = st.outstanding[i];
    let m = d.message;
    let one = Modification { ack_id: d.ack_id, new_deadline: None };
    let refusal = seq![one];
    let ids = set![d.ack_id];
    let chosen = |x: Delivery| ids.contains(x.ack_id);
    assert forall|j: int| 0 <= j < st.outstanding.len() && j != i implies !chosen(
        #[trigger] st.outstanding[j],
    ) by {
        if j < i {
            assert(st.outstanding[j].ack_id < st.outstanding[i].ack_id);
        } else {
            assert(st.outstanding[i].ack_id < st.outstanding[j].ack_id);
        }
    }
    lemma_select_one(st.outstanding, chosen, i);
    reveal_with_fuel(outstanding::modified, 2);
    assert(refusal.drop_last() =~= Seq::<Modification>::empty());
    assert(refusal.last() == one);
    let returned = outstanding::modified(st.outstanding, refusal).1;
    assert(returned =~= seq![d]);
    let moved = state::deadlines_moved(st, refusal);
    lemma_one_requeued(moved, d, now);
    law_returned_message_waits(moved, m, policy, now);
    if forall|j: int|
        0 <= j < st.outstanding.len() ==> (now < (#[trigger] st.outstanding[j]).deadline <==> j != i) {
        let late = |x: Delivery| x.deadline <= now;
        assert(late(st.outstanding[i]));
        lemma_select_one(st.outstanding, late, i);
        let taken = state::overdue_taken(st, now);
        lemma_one_requeued(taken, d, now);
        law_returned_message_waits(taken, m, policy, now);
    }
}

/// One delivery that comes back is one message that does.
proof fn lemma_one_requeued(st: SubscriptionState, d: Delivery, now: nat)
    ensures
        state::all_requeued(st, seq![d], now) == state::requeued(st, d.message, now),
{
    reveal_with_fuel(state::all_requeued, 2);
    assert(seq![d].drop_last() =~= Seq::<Delivery>::empty());
    assert(seq![d].last() == d);
}

/// Waits that end bring a message that is too old neither to the backlog nor to a queue.
proof fn lemma_old_is_not_put_back(
    st: SubscriptionState,
    ready: Seq<Arc<TopicMessage>>,
    now: nat,
    m: Arc<TopicMessage>,
)
    requires
        state_laws::is_aged(st, m, now),
    ensures
        ({
            let after = state::all_retried(st, ready, now);
            let p = delivery_laws::is_message(m);
            &&& after.info == st.info
            &&& collections::tally(after.backlog, p) == collections::tally(st.backlog, p)
            &&& collections::tally(delivery_laws::queue_for(after, m), p) == collections::tally(
                delivery_laws::queue_for(st, m),
                p,
            )
        }),
    decreases ready.len(),
{
    if ready.len() > 0 {
        let p = delivery_laws::is_message(m);
        let x = ready.last();
        let before = state::all_retried(st, ready.drop_last(), now);
        lemma_old_is_not_put_back(st, ready.drop_last(), now, m);
        if !state_laws::is_aged(before, x, now) {
            collections::lemma_tally_push(before.backlog, x, p);
            let queue = delivery_laws::queue_for(before, m);
            let longer = seq![x] + queue;
            collections::lemma_tally_first(longer, p);
            assert(longer.drop_first() =~= queue);
        }
    }
}

/// When waits end a message is held as often as before where less time has passed since its publication
/// than it is retained for, and can be pulled no more often than before where not.
pub proof fn law_ended_waits_go_by_the_retention(
    st: SubscriptionState,
    now: nat,
    m: Arc<TopicMessage>,
)
    requires
        m.published_at_instant@ <= now,
    ensures
        ({
            let after = state::retries_ended(st, now);
            let p = delivery_laws::is_message(m);
            &&& is_young(st, m, now) ==> delivery_laws::copies(after, m) == delivery_laws::copies(
                st,
                m,
            )
            &&& !is_young(st, m, now) ==> collections::tally(after.backlog, p)
                == collections::tally(st.backlog, p) && collections::tally(
                delivery_laws::queue_for(after, m),
                p,
            ) == collections::tally(delivery_laws::queue_for(st, m), p)
        }),
{
    if is_young(st, m, now) {
        assert(!state_laws::is_aged(st, m, now));
        delivery_laws::law_retry_loses_no_message(st, now, m);
    } else {
        assert(state_laws::is_aged(st, m, now));
        lemma_old_is_not_put_back(
            SubscriptionState { retries: retry_queue::not_due(st.retries, now), ..st },
            state::ready_messages(st, now),
            now,
            m,
        );
    }
}

} // verus!
