//! What the figures on a subscription tell.
use std::sync::Arc;
use vstd::prelude::*;

use crate::subscriptions::key_queues;
use crate::subscriptions::key_queues::Queues;
use crate::subscriptions::state;
use crate::subscriptions::state::SubscriptionState;
use crate::subscriptions::state_laws;
use crate::subscriptions::stats::SubscriptionStats;
use crate::subscriptions::subscription_manager;
use crate::subscriptions::subscription_manager::SubscriptionEntry;
use crate::text;
use crate::time;
use crate::topics::topic_message::TopicMessage;

verus! {

/// One key counts with the messages of its queue.
proof fn lemma_count_without(queues: Queues, keys: Seq<Seq<char>>, i: int)
    requires
        0 <= i < keys.len(),
    ensures
        key_queues::queued_under(queues, keys) == key_queues::queued_under(queues, keys.remove(i))
            + queues[keys[i]].len(),
    decreases keys.len(),
{
    let rest = keys.remove(i);
    if i == keys.len() - 1 {
        assert(rest =~= keys.drop_last());
    } else {
        lemma_count_without(queues, keys.drop_last(), i);
        assert(rest.drop_last() =~= keys.drop_last().remove(i));
        assert(rest.last() == keys.last());
    }
}

/// Queues that are the same for the keys count the same.
proof fn lemma_count_same(a: Queues, b: Queues, keys: Seq<Seq<char>>)
    requires
        forall|i: int| 0 <= i < keys.len() ==> a[#[trigger] keys[i]] == b[keys[i]],
    ensures
        key_queues::queued_under(a, keys) == key_queues::queued_under(b, keys),
    decreases keys.len(),
{
    if keys.len() > 0 {
        assert forall|i: int| 0 <= i < keys.drop_last().len() implies a[
            #[trigger] keys.drop_last()[i]
        ] == b[keys.drop_last()[i]] by {
            assert(keys.drop_last()[i] == keys[i]);
        }
        lemma_count_same(a, b, keys.drop_last());
        assert(a[keys[keys.len() - 1]] == b[keys[keys.len() - 1]]);
    }
}

/// A listing without one key lists the other keys.
proof fn lemma_listing_without(keys: Seq<Seq<char>>, of: Set<Seq<char>>, i: int)
    requires
        key_queues::is_listing(keys, of),
        0 <= i < keys.len(),
    ensures
        key_queues::is_listing(keys.remove(i), of.remove(keys[i])),
        forall|j: int| 0 <= j < keys.remove(i).len() ==> #[trigger] keys.remove(i)[j] != keys[i],
{
    let rest = keys.remove(i);
    let k = keys[i];
    assert forall|a: int, b: int| 0 <= a < b < rest.len() implies text::precedes(
        rest[a],
        rest[b],
    ) by {
        let x = if a < i {
            a
        } else {
            a + 1
        };
        let y = if b < i {
            b
        } else {
            b + 1
        };
        assert(rest[a] == keys[x] && rest[b] == keys[y]);
    }
    assert forall|j: int| 0 <= j < rest.len() implies #[trigger] rest[j] != k by {
        let x = if j < i {
            j
        } else {
            j + 1
        };
        assert(rest[j] == keys[x]);
        if x < i {
            assert(text::precedes(keys[x], keys[i]));
            text::lemma_precedes_one_way(keys[x], keys[i]);
        } else {
            assert(text::precedes(keys[i], keys[x]));
            text::lemma_precedes_one_way(keys[i], keys[x]);
        }
    }
    assert forall|x: Seq<char>| #[trigger] of.remove(k).contains(x) <==> rest.contains(x) by {
        if of.remove(k).contains(x) {
            assert(of.contains(x));
            assert(keys.contains(x));
            let j = choose|j: int| 0 <= j < keys.len() && keys[j] == x;
            if j < i {
                assert(rest[j] == x);
            } else {
                assert(rest[j - 1] == x);
            }
        }
        if rest.contains(x) {
            let j = choose|j: int| 0 <= j < rest.len() && rest[j] == x;
            assert(rest[j] != k);
            let y = if j < i {
                j
            } else {
                j + 1
            };
            assert(keys[y] == x);
            assert(keys.contains(x));
            assert(of.contains(x));
        }
    }
}

/// A key can be listed with the others, whether it has something queued or not.
proof fn lemma_count_with(queues: Queues, k: Seq<char>) -> (i: int)
    requires
        key_queues::waiting_keys(queues, Set::empty()).finite(),
    ensures
        ({
            let of = key_queues::waiting_keys(queues, Set::empty()).insert(k);
            let keys = key_queues::listing(of);
            &&& key_queues::is_listing(keys, of)
            &&& 0 <= i < keys.len()
            &&& keys[i] == k
            &&& key_queues::queued_count(queues) == key_queues::queued_under(
                queues,
                keys.remove(i),
            ) + queues[k].len()
        }),
{
    let waiting = key_queues::waiting_keys(queues, Set::empty());
    let of = waiting.insert(k);
    let keys = key_queues::listing(of);
    key_queues::lemma_finite_set_has_listing(of);
    assert(of.contains(k));
    assert(keys.contains(k));
    let i = choose|i: int| 0 <= i < keys.len() && keys[i] == k;
    lemma_count_without(queues, keys, i);
    if waiting.contains(k) {
        assert(of =~= waiting);
    } else {
        lemma_listing_without(keys, of, i);
        assert(of.remove(k) =~= waiting);
        key_queues::lemma_is_listing(keys.remove(i), waiting);
        assert(queues[k].len() == 0);
    }
    i
}

/// Where one queue changes the count changes by as much as the queue does.
proof fn lemma_count_changed(queues: Queues, k: Seq<char>, queue: Seq<Arc<TopicMessage>>)
    requires
        key_queues::waiting_keys(queues, Set::empty()).finite(),
    ensures
        key_queues::queued_count(queues.insert(k, queue)) + queues[k].len()
            == key_queues::queued_count(queues) + queue.len(),
        key_queues::waiting_keys(queues.insert(k, queue), Set::empty()).finite(),
{
    let after = queues.insert(k, queue);
    let before_keys = key_queues::waiting_keys(queues, Set::empty());
    let after_keys = key_queues::waiting_keys(after, Set::empty());
    let of = before_keys.insert(k);
    assert(after_keys.insert(k) =~= of);
    assert(after_keys.subset_of(of));
    vstd::set_lib::lemma_len_subset(after_keys, of);
    let i = lemma_count_with(queues, k);
    let j = lemma_count_with(after, k);
    let keys = key_queues::listing(of);
    lemma_listing_without(keys, of, i);
    assert(i == j) by {
        if i < j {
            assert(keys.remove(i)[j - 1] == keys[j]);
        }
        if j < i {
            assert(keys.remove(i)[j] == keys[j]);
        }
    }
    lemma_count_same(queues, after, keys.remove(i));
}

/// The ordering key by which the subscription orders the message.
spec fn key_for(st: SubscriptionState, m: Arc<TopicMessage>) -> Option<Seq<char>> {
    state::ordered_key(st.info, *m)
}

/// A new subscription has nothing to deliver, and each message that comes, where there is no filter,
/// makes one more.
pub proof fn law_backlog_counts_what_comes(st: SubscriptionState, m: Arc<TopicMessage>)
    requires
        !st.deleted,
        st.filter is None,
        state_laws::finitely_queued(st),
    ensures
        state::backlog_count(state::started(st.info)) == 0,
        state::backlog_count(state::posted(st, seq![m])) == state::backlog_count(st) + 1,
{
    reveal_with_fuel(state::all_enqueued, 2);
    let one = seq![m];
    assert(one.drop_last() =~= Seq::<Arc<TopicMessage>>::empty());
    assert(one.last() == m);
    if let Some(k) = key_for(st, m) {
        lemma_count_changed(st.queues, k, st.queues[k].push(m));
    }
    let none = key_queues::waiting_keys(key_queues::no_queues(), Set::empty());
    assert(none =~= Set::empty());
    key_queues::lemma_finite_set_has_listing(none);
    let keys = key_queues::listing(none);
    if keys.len() > 0 {
        assert(keys.contains(keys[0]));
        assert(none.contains(keys[0]));
    }
}

/// Whether what is delivered was counted as to deliver before.
spec fn moved_over(a: SubscriptionState, b: SubscriptionState) -> bool {
    &&& state_laws::finitely_queued(b)
    &&& a.info == b.info
    &&& state::backlog_count(b) + b.outstanding.len() == state::backlog_count(a)
        + a.outstanding.len()
}

proof fn lemma_key_moves(st: SubscriptionState, k: Seq<char>, now: nat)
    requires
        state_laws::finitely_queued(st),
        st.info.message_retention_duration is None,
    ensures
        moved_over(st, state::key_pulled(st, k, now)),
{
    let queue = st.queues[k];
    if queue.len() > 0 {
        assert(!state_laws::is_aged(st, queue[0], now));
        lemma_count_changed(st.queues, k, queue.drop_first());
    }
}

proof fn lemma_keys_move(st: SubscriptionState, keys: Seq<Seq<char>>, limit: nat, now: nat)
    requires
        state_laws::finitely_queued(st),
        st.info.message_retention_duration is None,
    ensures
        moved_over(st, state::keys_pulled(st, keys, limit, now)),
    decreases keys.len(),
{
    if keys.len() > 0 && st.outstanding.len() < limit {
        lemma_key_moves(st, keys[0], now);
        lemma_keys_move(state::key_pulled(st, keys[0], now), keys.drop_first(), limit, now);
    }
}

/// The state after the first message of the backlog was delivered.
spec fn past_front(st: SubscriptionState, now: nat) -> SubscriptionState {
    state::delivered(
        SubscriptionState { backlog: st.backlog.drop_first(), ..st },
        st.backlog[0],
        now,
    )
}

proof fn lemma_backlog_moves(st: SubscriptionState, limit: nat, now: nat)
    requires
        state_laws::finitely_queued(st),
        st.info.message_retention_duration is None,
    ensures
        moved_over(st, state::backlog_pulled(st, limit, now)),
    decreases st.backlog.len(),
{
    if st.backlog.len() > 0 && st.outstanding.len() < limit {
        assert(!state_laws::is_aged(st, st.backlog[0], now));
        lemma_backlog_moves(past_front(st, now), limit, now);
    }
}

/// Where messages are retained for good, a pull makes as many fewer messages to deliver as it makes
/// more outstanding.
pub proof fn law_pull_moves_from_backlog_to_outstanding(
    st: SubscriptionState,
    max_count: u16,
    max_outstanding: u16,
    now: nat,
)
    requires
        state_laws::finitely_queued(st),
        st.info.message_retention_duration is None,
    ensures
        ({
            let after = state::pulled(st, max_count, max_outstanding, now);
            state::backlog_count(after) + after.outstanding.len() == state::backlog_count(st)
                + st.outstanding.len()
        }),
{
    if !st.deleted && !st.info.detached {
        let limit: nat = st.outstanding.len() + state::pull_room(st, max_count, max_outstanding);
        let keys = key_queues::listing(state::free_keys(st));
        lemma_keys_move(st, keys, limit, now);
        lemma_backlog_moves(state::keys_pulled(st, keys, limit, now), limit, now);
    }
}

/// The figures on a subscription are those of what it holds: how many messages are outstanding, wait
/// and can be delivered, and each counter. The age is that of the outstanding message that was
/// published first, so no outstanding message is older.
pub proof fn law_figures_tell_what_is_held(
    s: SubscriptionStats,
    e: SubscriptionEntry,
    now: nat,
    i: int,
)
    requires
        subscription_manager::subscription_stats_of(s, e, now),
        0 <= i < e.state.outstanding.len(),
        forall|j: int|
            0 <= j < e.state.outstanding.len() ==> (
            #[trigger] e.state.outstanding[j]).message.published_at_instant@ <= now,
        now <= u64::MAX * 1_000_000_000,
    ensures
        s.subscription_name@ == e.state.info.name@,
        s.outstanding_messages_count == e.state.outstanding.len(),
        s.retry_messages_count == e.state.retries.len(),
        state::backlog_count(e.state) <= usize::MAX ==> s.backlog_messages_count
            == state::backlog_count(e.state),
        s.counters.pulled == e.state.counters.pulled,
        s.counters.acked == e.state.counters.acked,
        s.counters.nacked == e.state.counters.nacked,
        s.counters.expired == e.state.counters.expired,
        s.counters.dead_lettered == e.state.counters.dead_lettered,
        s.oldest_unacked_age@ >= now - e.state.outstanding[i].message.published_at_instant@,
        exists|j: int|
            0 <= j < e.state.outstanding.len() && s.oldest_unacked_age@ == now - (
            #[trigger] e.state.outstanding[j]).message.published_at_instant@,
{
    let outstanding = e.state.outstanding;
    let k = choose|k: int|
        {
            &&& 0 <= k < outstanding.len()
            &&& s.oldest_unacked_age@ == state::smaller(
                state::elapsed(
                    now,
                    (#[trigger] outstanding[k]).message.published_at_instant@,
                ) as int,
                time::MAX_DURATION_NANOS as int,
            )
            &&& forall|j: int|
                0 <= j < outstanding.len() ==> outstanding[k].message.published_at_instant@ <= (
                #[trigger] outstanding[j]).message.published_at_instant@
        };
    assert(outstanding[k].message.published_at_instant@
        <= outstanding[i].message.published_at_instant@);
    assert(s.oldest_unacked_age@ == now - outstanding[k].message.published_at_instant@);
}

} // verus!
