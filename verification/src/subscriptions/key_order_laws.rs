//! In which order one pull delivers.
use vstd::prelude::*;

use crate::subscriptions::key_queues;
use crate::subscriptions::state;
use crate::subscriptions::state::SubscriptionState;
use crate::subscriptions::state_laws;
use crate::text;

verus! {

/// Whether every queue holds messages of its key alone.
spec fn sorted_by_key(st: SubscriptionState) -> bool {
    forall|k: Seq<char>| #[trigger] state_laws::queue_ordered(st, k)
}

/// Whether one delivery of the key was added at most, and nothing else that matters here changed.
spec fn one_more(a: SubscriptionState, b: SubscriptionState, k: Seq<char>) -> bool {
    let n = a.outstanding.len();
    &&& n <= b.outstanding.len() <= n + 1
    &&& forall|i: int| 0 <= i < n ==> #[trigger] b.outstanding[i] == a.outstanding[i]
    &&& b.outstanding.len() > n ==> state_laws::delivery_key(a.info, b.outstanding[n as int])
        == Some(k)
    &&& a.info == b.info
    &&& a.backlog == b.backlog
    &&& sorted_by_key(b)
}

/// The state without the first message of a key.
spec fn past_first(st: SubscriptionState, k: Seq<char>) -> SubscriptionState {
    state::forgotten(
        SubscriptionState { queues: st.queues.insert(k, st.queues[k].drop_first()), ..st },
        *st.queues[k][0],
    )
}

proof fn lemma_shorter_queue(st: SubscriptionState, k: Seq<char>, after: SubscriptionState)
    requires
        sorted_by_key(st),
        st.queues[k].len() > 0,
        after.info == st.info,
        after.queues == st.queues.insert(k, st.queues[k].drop_first()),
    ensures
        sorted_by_key(after),
{
    assert forall|j: Seq<char>| #[trigger] state_laws::queue_ordered(after, j) by {
        assert(state_laws::queue_ordered(st, j));
        if j == k {
            assert forall|i: int| 0 <= i < after.queues[j].len() implies state::ordered_key(
                after.info,
                *#[trigger] after.queues[j][i],
            ) == Some(j) by {
                assert(after.queues[j][i] == st.queues[j][i + 1]);
            }
        }
    }
}

proof fn lemma_key_adds_one(st: SubscriptionState, k: Seq<char>, now: nat)
    requires
        sorted_by_key(st),
    ensures
        one_more(st, state::key_pulled(st, k, now), k),
    decreases st.queues[k].len(),
{
    let queue = st.queues[k];
    let after = state::key_pulled(st, k, now);
    if queue.len() > 0 {
        assert(state_laws::queue_ordered(st, k));
        if state_laws::is_aged(st, queue[0], now) {
            let next = past_first(st, k);
            lemma_shorter_queue(st, k, next);
            lemma_key_adds_one(next, k, now);
        } else {
            lemma_shorter_queue(st, k, after);
        }
    }
}

/// Whether the deliveries from the place on are of some of the keys, in their order.
spec fn in_key_order(st: SubscriptionState, from: int, keys: Seq<Seq<char>>) -> bool {
    &&& forall|i: int|
        from <= i < st.outstanding.len() ==> (state_laws::delivery_key(
            st.info,
            #[trigger] st.outstanding[i],
        ) matches Some(k) && keys.contains(k))
    &&& forall|i: int, j: int|
        from <= i < j < st.outstanding.len() ==> text::precedes(
            state_laws::delivery_key(st.info, #[trigger] st.outstanding[i])->0,
            state_laws::delivery_key(st.info, #[trigger] st.outstanding[j])->0,
        )
}

proof fn lemma_keys_in_order(st: SubscriptionState, keys: Seq<Seq<char>>, limit: nat, now: nat)
    requires
        sorted_by_key(st),
        forall|i: int, j: int|
            0 <= i < j < keys.len() ==> text::precedes(#[trigger] keys[i], #[trigger] keys[j]),
    ensures
        ({
            let after = state::keys_pulled(st, keys, limit, now);
            let n = st.outstanding.len();
            &&& n <= after.outstanding.len()
            &&& forall|i: int| 0 <= i < n ==> #[trigger] after.outstanding[i] == st.outstanding[i]
            &&& after.info == st.info
            &&& after.backlog == st.backlog
            &&& in_key_order(after, n as int, keys)
        }),
    decreases keys.len(),
{
    if keys.len() > 0 && st.outstanding.len() < limit {
        let first = keys[0];
        let rest = keys.drop_first();
        let n = st.outstanding.len() as int;
        let next = state::key_pulled(st, first, now);
        let m = next.outstanding.len() as int;
        let after = state::keys_pulled(st, keys, limit, now);
        lemma_key_adds_one(st, first, now);
        assert forall|i: int, j: int| 0 <= i < j < rest.len() implies text::precedes(
            #[trigger] rest[i],
            #[trigger] rest[j],
        ) by {
            assert(rest[i] == keys[i + 1] && rest[j] == keys[j + 1]);
        }
        lemma_keys_in_order(next, rest, limit, now);
        assert forall|i: int| 0 <= i < n implies #[trigger] after.outstanding[i]
            == st.outstanding[i] by {
            assert(after.outstanding[i] == next.outstanding[i]);
        }
        assert forall|i: int| n <= i < after.outstanding.len() implies (state_laws::delivery_key(
            after.info,
            #[trigger] after.outstanding[i],
        ) matches Some(k) && keys.contains(k)) by {
            if i < m {
                assert(after.outstanding[i] == next.outstanding[i]);
                assert(keys[0] == first);
            } else {
                let k = state_laws::delivery_key(after.info, after.outstanding[i])->0;
                assert(rest.contains(k));
                let a = choose|a: int| 0 <= a < rest.len() && rest[a] == k;
                assert(keys[a + 1] == k);
            }
        }
        assert forall|i: int, j: int| n <= i < j < after.outstanding.len() implies text::precedes(
            state_laws::delivery_key(after.info, #[trigger] after.outstanding[i])->0,
            state_laws::delivery_key(after.info, #[trigger] after.outstanding[j])->0,
        ) by {
            if i < m {
                assert(after.outstanding[i] == next.outstanding[i]);
                let k = state_laws::delivery_key(after.info, after.outstanding[j])->0;
                assert(rest.contains(k));
                let a = choose|a: int| 0 <= a < rest.len() && rest[a] == k;
                assert(keys[a + 1] == k);
                assert(text::precedes(keys[0], keys[a + 1]));
            }
        }
    }
}

/// The state after the first message of the backlog was delivered, or dropped as too old.
spec fn past_front(st: SubscriptionState, now: nat) -> SubscriptionState {
    let m = st.backlog[0];
    let rest = SubscriptionState { backlog: st.backlog.drop_first(), ..st };
    if state_laws::is_aged(st, m, now) {
        state::forgotten(rest, *m)
    } else {
        state::delivered(rest, m, now)
    }
}

proof fn lemma_backlog_without_keys(st: SubscriptionState, limit: nat, now: nat)
    requires
        state_laws::backlog_unordered(st),
    ensures
        ({
            let after = state::backlog_pulled(st, limit, now);
            let n = st.outstanding.len();
            &&& n <= after.outstanding.len()
            &&& forall|i: int| 0 <= i < n ==> #[trigger] after.outstanding[i] == st.outstanding[i]
            &&& after.info == st.info
            &&& forall|i: int|
                n <= i < after.outstanding.len() ==> state_laws::delivery_key(
                    st.info,
                    #[trigger] after.outstanding[i],
                ) is None
        }),
    decreases st.backlog.len(),
{
    if st.backlog.len() > 0 && st.outstanding.len() < limit {
        let next = past_front(st, now);
        let after = state::backlog_pulled(st, limit, now);
        let n = st.outstanding.len() as int;
        assert(state::ordered_key(st.info, *st.backlog[0]) is None);
        assert forall|i: int| 0 <= i < next.backlog.len() implies state::ordered_key(
            next.info,
            *#[trigger] next.backlog[i],
        ) is None by {
            assert(next.backlog[i] == st.backlog[i + 1]);
        }
        lemma_backlog_without_keys(next, limit, now);
        assert forall|i: int| n <= i < after.outstanding.len() implies state_laws::delivery_key(
            st.info,
            #[trigger] after.outstanding[i],
        ) is None by {
            if i < next.outstanding.len() {
                assert(after.outstanding[i] == next.outstanding[i]);
            }
        }
        assert forall|i: int| 0 <= i < n implies #[trigger] after.outstanding[i]
            == st.outstanding[i] by {
            assert(after.outstanding[i] == next.outstanding[i]);
        }
    }
}

/// One pull delivers messages of ordering keys first, in the order of the keys by code points and one
/// of each key at most, and messages without one behind them.
pub proof fn law_keys_are_pulled_in_order(
    st: SubscriptionState,
    max_count: u16,
    max_outstanding: u16,
    now: nat,
    i: int,
    j: int,
)
    requires
        state_laws::orderly(st),
        state_laws::finitely_queued(st),
        st.outstanding.len() <= i < j < state::pulled(
            st,
            max_count,
            max_outstanding,
            now,
        ).outstanding.len(),
    ensures
        ({
            let after = state::pulled(st, max_count, max_outstanding, now);
            let a = state_laws::delivery_key(st.info, after.outstanding[i]);
            let b = state_laws::delivery_key(st.info, after.outstanding[j]);
            &&& b is Some ==> a is Some && text::precedes(a->0, b->0)
            &&& a is None ==> b is None
        }),
{
    let limit: nat = st.outstanding.len() + state::pull_room(st, max_count, max_outstanding);
    let keys = key_queues::listing(state::free_keys(st));
    let middle = state::keys_pulled(st, keys, limit, now);
    let after = state::pulled(st, max_count, max_outstanding, now);
    state_laws::lemma_free_keys_listed(st);
    lemma_keys_in_order(st, keys, limit, now);
    lemma_backlog_without_keys(middle, limit, now);
    if i < middle.outstanding.len() {
        assert(after.outstanding[i] == middle.outstanding[i]);
    }
    if j < middle.outstanding.len() {
        assert(after.outstanding[j] == middle.outstanding[j]);
    }
}

} // verus!
