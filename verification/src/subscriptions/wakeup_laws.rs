//! Who waits for messages is told of them, and nothing is due before the time that is told.
use std::sync::Arc;
use vstd::prelude::*;

use crate::collections;
use crate::subscriptions::ack::{AckId, DeadlineModification, Delivery};
use crate::subscriptions::delivery_laws;
use crate::subscriptions::effect_laws;
use crate::subscriptions::outstanding;
use crate::subscriptions::request;
use crate::subscriptions::request::{SubscriptionReply, SubscriptionRequest};
use crate::subscriptions::retry_queue;
use crate::subscriptions::retry_queue::Retry;
use crate::subscriptions::state;
use crate::subscriptions::state::SubscriptionState;
use crate::subscriptions::state_laws;
use crate::subscriptions::subscription_actor::{
    Acknowledged, DeadlinesModified, PulledBatch, SubscriptionActor,
};
use crate::subscriptions::subscription_manager;
use crate::subscriptions::subscription_manager::SubscriptionEntry;
use crate::subscriptions::subscription_name::SubscriptionNameView;
use crate::topics::topic_message::TopicMessage;

verus! {

/// Until the first time that is told nothing is overdue and no wait is over, so nothing changes. At
/// each such time something is.
pub proof fn law_nothing_is_due_before_the_next_wakeup(st: SubscriptionState, now: nat)
    ensures
        (forall|t: nat| #[trigger] state::is_wakeup(st, t) ==> now < t) ==> state::expired(st, now)
            == st && state::retries_ended(st, now) == st,
        state::is_wakeup(st, now) ==> state::expired(st, now).outstanding.len()
            < st.outstanding.len() || state::retries_ended(st, now).retries.len()
            < st.retries.len(),
{
    let late = |d: Delivery| d.deadline <= now;
    let early = |d: Delivery| now < d.deadline;
    let over = |r: Retry| r.deliver_at <= now;
    let ahead = |r: Retry| now < r.deliver_at;
    if forall|t: nat| #[trigger] state::is_wakeup(st, t) ==> now < t {
        assert forall|i: int| 0 <= i < st.outstanding.len() implies early(
            #[trigger] st.outstanding[i],
        ) && !late(st.outstanding[i]) by {
            assert(state::is_wakeup(st, st.outstanding[i].deadline));
        }
        assert forall|i: int| 0 <= i < st.retries.len() implies ahead(#[trigger] st.retries[i])
            && !over(st.retries[i]) by {
            assert(state::is_wakeup(st, st.retries[i].deliver_at));
        }
        collections::lemma_select_all(st.outstanding, early);
        collections::lemma_select_none(st.outstanding, late);
        collections::lemma_select_all(st.retries, ahead);
        collections::lemma_select_none(st.retries, over);
        assert(outstanding::overdue(st.outstanding, now).len() == 0);
        assert(state::overdue_taken(st, now) =~= st);
        assert(state::ready_messages(st, now).len() == 0);
        assert(SubscriptionState { retries: retry_queue::not_due(st.retries, now), ..st } =~= st);
    }
    if state::is_wakeup(st, now) {
        effect_laws::lemma_expired_len(st, now);
        effect_laws::lemma_retried_len(st, now);
        if exists|i: int|
            0 <= i < st.outstanding.len() && (#[trigger] st.outstanding[i]).deadline == now {
            let i = choose|i: int|
                0 <= i < st.outstanding.len() && (#[trigger] st.outstanding[i]).deadline == now;
            collections::lemma_selected(st.outstanding, late, st.outstanding[i]);
            assert(st.outstanding.contains(st.outstanding[i]));
        } else {
            let i = choose|i: int|
                0 <= i < st.retries.len() && (#[trigger] st.retries[i]).deliver_at == now;
            collections::lemma_selected(st.retries, over, st.retries[i]);
            assert(st.retries.contains(st.retries[i]));
        }
    }
}

/// Whether the message passes the filter of the subscription.
pub open spec fn is_let_through(st: SubscriptionState, m: Arc<TopicMessage>) -> bool {
    state::passes(st.filter, *m)
}

/// Messages that do not pass the filter change nothing.
proof fn lemma_nothing_passes(st: SubscriptionState, messages: Seq<Arc<TopicMessage>>)
    requires
        forall|i: int| 0 <= i < messages.len() ==> !is_let_through(st, #[trigger] messages[i]),
    ensures
        state::all_enqueued(st, messages) == st,
    decreases messages.len(),
{
    if messages.len() > 0 {
        let front = messages.drop_last();
        assert forall|i: int| 0 <= i < front.len() implies !is_let_through(
            st,
            #[trigger] front[i],
        ) by {
            assert(front[i] == messages[i]);
        }
        lemma_nothing_passes(st, front);
        assert(!is_let_through(st, messages[messages.len() - 1]));
    }
}

/// Where nothing could be pulled before new messages came and something can after, one of them passed
/// the filter: whoever waits is told.
pub proof fn law_new_messages_are_told_of(st: SubscriptionState, messages: Seq<Arc<TopicMessage>>)
    requires
        !state::pullable(st),
        state::pullable(state::posted(st, messages)),
    ensures
        !st.deleted,
        exists|i: int| 0 <= i < messages.len() && is_let_through(st, #[trigger] messages[i]),
{
    if forall|i: int| 0 <= i < messages.len() ==> !is_let_through(st, #[trigger] messages[i]) {
        lemma_nothing_passes(st, messages);
    }
}

/// The reply to new messages tells that something can be pulled where nothing could be before and
/// something can be after.
pub proof fn law_reply_tells_of_new_messages(
    before: SubscriptionActor,
    messages: Vec<Arc<TopicMessage>>,
    now: nat,
    reply: SubscriptionReply,
)
    requires
        request::is_reply(before, SubscriptionRequest::PostMessages { messages }, now, reply),
        !state::pullable(before@),
        state::pullable(state::posted(before@, messages@)),
    ensures
        reply matches SubscriptionReply::Posted { messages_available } && messages_available,
{
    law_new_messages_are_told_of(before@, messages@);
    let i = choose|i: int|
        0 <= i < messages@.len() && is_let_through(before@, #[trigger] messages@[i]);
    assert(state::passes(before@.filter, *messages@[i]));
}

/// Where messages that are handed to subscriptions make something to pull for one of them that had
/// nothing, whoever waits is told.
pub proof fn law_handed_messages_are_told_of(
    entries: Seq<SubscriptionEntry>,
    names: Seq<SubscriptionNameView>,
    messages: Seq<Arc<TopicMessage>>,
    i: int,
)
    requires
        0 <= i < entries.len(),
        !state::pullable(entries[i].state),
        state::pullable(
            subscription_manager::all_posted(entries, names, messages)[i].state,
        ),
    ensures
        subscription_manager::some_take(entries, names, messages, entries.len() as int),
{
    let e = entries[i];
    law_new_messages_are_told_of(e.state, messages);
    let j = choose|j: int| 0 <= j < messages.len() && is_let_through(e.state, #[trigger] messages[j]);
    assert(state::passes(e.state.filter, *messages[j]));
    assert(subscription_manager::takes_some(entries[i], messages));
}

/// Whether the delivery holds its ordering key.
pub open spec fn keeps_key(st: SubscriptionState, d: Delivery) -> bool {
    state::holds_key(st, *d.message)
}

/// Deliveries that hold no key free none.
proof fn lemma_nothing_freed(st: SubscriptionState, gone: Seq<Delivery>)
    requires
        forall|i: int| 0 <= i < gone.len() ==> !keeps_key(st, #[trigger] gone[i]),
    ensures
        state::all_gone(st, gone).in_flight == st.in_flight,
        state::all_gone(st, gone).info == st.info,
    decreases gone.len(),
{
    if gone.len() > 0 {
        let front = gone.drop_last();
        assert forall|i: int| 0 <= i < front.len() implies !keeps_key(st, #[trigger] front[i]) by {
            assert(front[i] == gone[i]);
        }
        lemma_nothing_freed(st, front);
        let last = gone[gone.len() - 1];
        assert(!keeps_key(st, last));
        if let Some(k) = state_laws::delivery_key(st.info, last) {
            assert(st.in_flight.remove(k) =~= st.in_flight);
        }
    }
}

/// Where nothing could be pulled before an acknowledgement and something can after, it took out a
/// message that held its ordering key: whoever waits is told.
pub proof fn law_freed_keys_are_told_of(st: SubscriptionState, ids: Set<u64>)
    requires
        !state::pullable(st),
        state::pullable(state::acknowledged(st, ids)),
    ensures
        !st.deleted,
        exists|i: int|
            0 <= i < st.outstanding.len() && ids.contains((#[trigger] st.outstanding[i]).ack_id)
                && keeps_key(st, st.outstanding[i]),
{
    let gone = outstanding::named(st.outstanding, ids);
    let chosen = |d: Delivery| ids.contains(d.ack_id);
    let taken = effect_laws::taken_out(st, ids);
    let after = state::acknowledged(st, ids);
    effect_laws::lemma_acknowledged_fields(st, ids);
    if forall|i: int| 0 <= i < gone.len() ==> !keeps_key(taken, #[trigger] gone[i]) {
        lemma_nothing_freed(taken, gone);
        let k = choose|k: Seq<char>| state::free_keys(after).contains(k);
        assert(state::free_keys(st).contains(k));
    } else {
        let i = choose|i: int| 0 <= i < gone.len() && keeps_key(taken, #[trigger] gone[i]);
        collections::lemma_selected(st.outstanding, chosen, gone[i]);
        assert(gone.contains(gone[i]));
        let j = choose|j: int| 0 <= j < st.outstanding.len() && st.outstanding[j] == gone[i];
        assert(keeps_key(st, st.outstanding[j]));
    }
}

/// Whether something may be pulled once the wait of the message is over.
spec fn may_free(st: SubscriptionState, m: Arc<TopicMessage>, now: nat) -> bool {
    state::frees(st.info, *m, now)
}

/// Waits that free nothing change nothing that can be pulled.
proof fn lemma_nothing_ready(
    st: SubscriptionState,
    ready: Seq<Arc<TopicMessage>>,
    now: nat,
)
    requires
        forall|i: int| 0 <= i < ready.len() ==> !may_free(st, #[trigger] ready[i], now),
    ensures
        ({
            let after = state::all_retried(st, ready, now);
            &&& after.info == st.info
            &&& after.backlog == st.backlog
            &&& after.queues == st.queues
            &&& after.in_flight == st.in_flight
        }),
    decreases ready.len(),
{
    if ready.len() > 0 {
        let front = ready.drop_last();
        assert forall|i: int| 0 <= i < front.len() implies !may_free(
            st,
            #[trigger] front[i],
            now,
        ) by {
            assert(front[i] == ready[i]);
        }
        lemma_nothing_ready(st, front, now);
        assert(!may_free(st, ready[ready.len() - 1], now));
    }
}

/// Where nothing could be pulled before waits ended and something can after, one of the messages that
/// waited can be pulled again, or the next one of its ordering key: whoever waits is told.
pub proof fn law_ended_waits_are_told_of(st: SubscriptionState, now: nat)
    requires
        !state::pullable(st),
        state::pullable(state::retries_ended(st, now)),
    ensures
        subscription_manager::retry_frees(st, now),
{
    let ready = state::ready_messages(st, now);
    let taken = SubscriptionState { retries: retry_queue::not_due(st.retries, now), ..st };
    let after = state::retries_ended(st, now);
    if forall|i: int| 0 <= i < ready.len() ==> !may_free(taken, #[trigger] ready[i], now) {
        lemma_nothing_ready(taken, ready, now);
        let k = choose|k: Seq<char>| state::free_keys(after).contains(k);
        assert(state::free_keys(st).contains(k));
    } else {
        let i = choose|i: int| 0 <= i < ready.len() && may_free(taken, #[trigger] ready[i], now);
        assert(state::frees(st.info, *state::ready_messages(st, now)[i], now));
    }
}

/// A subscription can be pulled from exactly where a message stands in its backlog, or in the queue of
/// an ordering key of which none is delivered or waits.
pub proof fn law_pullable_is_where_messages_are(st: SubscriptionState)
    ensures
        state::pullable(st) <==> st.backlog.len() > 0 || exists|k: Seq<char>|
            (#[trigger] st.queues[k]).len() > 0 && !st.in_flight.contains(k),
{
    if exists|k: Seq<char>| state::free_keys(st).contains(k) {
        let k = choose|k: Seq<char>| state::free_keys(st).contains(k);
        assert(st.queues[k].len() > 0);
    }
    if exists|k: Seq<char>| (#[trigger] st.queues[k]).len() > 0 && !st.in_flight.contains(k) {
        let k = choose|k: Seq<char>|
            (#[trigger] st.queues[k]).len() > 0 && !st.in_flight.contains(k);
        assert(state::free_keys(st).contains(k));
    }
}

/// The answer to an acknowledgement tells that something can be pulled where nothing could be before and
/// something can be after; and that there is room again where fewer messages are outstanding. It gives
/// each id once, as good where a message was outstanding with it and as invalid where none was.
pub proof fn law_acknowledgement_tells_what_came_of_it(
    st: SubscriptionState,
    ids: Seq<AckId>,
    r: Acknowledged,
    id: AckId,
)
    requires
        !st.deleted,
        subscription_manager::ack_answered(st, ids, r),
    ensures
        ({
            let after = state::acknowledged(st, outstanding::id_set(ids));
            &&& !state::pullable(st) && state::pullable(after) ==> r.messages_available
            &&& r.outstanding_freed <==> after.outstanding.len() < st.outstanding.len()
            &&& r.outcome.valid@.contains(id) <==> ids.contains(id) && exists|i: int|
                0 <= i < st.outstanding.len() && (#[trigger] st.outstanding[i]).ack_id == id.value
            &&& r.outcome.invalid@.contains(id) <==> ids.contains(id) && !exists|i: int|
                0 <= i < st.outstanding.len() && (#[trigger] st.outstanding[i]).ack_id == id.value
        }),
{
    let set = outstanding::id_set(ids);
    let gone = outstanding::named(st.outstanding, set);
    let after = state::acknowledged(st, set);
    let good = |x: AckId| outstanding::is_delivered(st.outstanding, x.value);
    let bad = |x: AckId| !outstanding::is_delivered(st.outstanding, x.value);
    collections::lemma_selected(ids, good, id);
    collections::lemma_selected(ids, bad, id);
    effect_laws::lemma_acknowledged_len(st, set);
    if outstanding::is_delivered(st.outstanding, id.value) {
        let i = choose|i: int|
            0 <= i < st.outstanding.len() && #[trigger] st.outstanding[i].ack_id == id.value;
        assert(st.outstanding[i].ack_id == id.value);
    }
    if !state::pullable(st) && state::pullable(after) {
        law_freed_keys_are_told_of(st, set);
        let i = choose|i: int|
            0 <= i < st.outstanding.len() && set.contains((#[trigger] st.outstanding[i]).ack_id)
                && keeps_key(st, st.outstanding[i]);
        collections::lemma_selected(
            st.outstanding,
            |d: Delivery| set.contains(d.ack_id),
            st.outstanding[i],
        );
        assert(st.outstanding.contains(st.outstanding[i]));
        let j = choose|j: int| 0 <= j < gone.len() && gone[j] == st.outstanding[i];
        assert(state::holds_key(st, *gone[j].message));
    }
}

/// The answer to a pull gives exactly the deliveries that it added, in their order, and tells that
/// there is more where there was room for something and messages can still be pulled.
pub proof fn law_pull_tells_what_it_delivered(
    st: SubscriptionState,
    max_count: u16,
    max_outstanding: u16,
    now: nat,
    batch: PulledBatch,
    i: int,
)
    requires
        subscription_manager::pull_answered(
            st,
            state::pulled(st, max_count, max_outstanding, now),
            max_count,
            max_outstanding,
            Ok(batch),
        ),
        0 <= i < batch.messages@.len(),
    ensures
        ({
            let after = state::pulled(st, max_count, max_outstanding, now);
            let n = st.outstanding.len();
            &&& after.outstanding.len() == n + batch.messages@.len()
            &&& batch.messages@[i]@ == after.outstanding[n + i]
            &&& !st.deleted && state::pullable(after) ==> batch.more_available
            &&& batch.more_available ==> state::pullable(after)
        }),
{
    let after = state::pulled(st, max_count, max_outstanding, now);
    let n = st.outstanding.len();
    delivery_laws::law_pull_adds_fresh_deliveries(st, max_count, max_outstanding, now);
    let new = after.outstanding.skip(n as int);
    assert(outstanding::deliveries(batch.messages@)[i] == new[i]);
    assert(new.len() == batch.messages@.len());
}

/// The answer to new deadlines tells that something can be pulled exactly where it can, and holds one
/// dead letter for each message that was returned for the last time.
pub proof fn law_new_deadlines_tell_what_came_of_them(
    st: SubscriptionState,
    modifications: Seq<DeadlineModification>,
    now: nat,
    r: DeadlinesModified,
    i: int,
)
    requires
        !st.deleted,
        subscription_manager::modify_answered(st, modifications, now, r),
        0 <= i < modifications.len(),
    ensures
        ({
            let views = outstanding::modifications_of(modifications);
            let after = state::modified(st, views, now);
            let id = modifications[i].ack_id;
            let known = exists|j: int|
                0 <= j < st.outstanding.len() && (#[trigger] st.outstanding[j]).ack_id == id.value;
            &&& r.returned.messages_available <==> state::pullable(after)
            &&& known ==> r.outcome.valid@.contains(id)
            &&& !known ==> r.outcome.invalid@.contains(id)
        }),
{
    let ids = state::modified_ids(modifications);
    let id = modifications[i].ack_id;
    assert(ids[i] == id);
    assert(ids.contains(id));
    collections::lemma_selected(
        ids,
        |x: AckId| outstanding::is_delivered(st.outstanding, x.value),
        id,
    );
    collections::lemma_selected(
        ids,
        |x: AckId| !outstanding::is_delivered(st.outstanding, x.value),
        id,
    );
    if outstanding::is_delivered(st.outstanding, id.value) {
        let j = choose|j: int|
            0 <= j < st.outstanding.len() && #[trigger] st.outstanding[j].ack_id == id.value;
        assert(st.outstanding[j].ack_id == id.value);
    }
}

} // verus!
