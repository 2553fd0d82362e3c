//! What holds of a subscription over any run of requests.
use std::sync::Arc;
use vstd::prelude::*;

use crate::subscriptions::ack::{AckId, DeadlineModification, Delivery};
use crate::subscriptions::delivery_laws;
use crate::subscriptions::info;
use crate::subscriptions::info::{PushConfig, SubscriptionInfo, SubscriptionUpdate};
use crate::subscriptions::key_queues;
use crate::subscriptions::outstanding;
use crate::subscriptions::request;
use crate::subscriptions::request::SubscriptionRequest;
use crate::subscriptions::retry_queue;
use crate::subscriptions::state;
use crate::subscriptions::state::SubscriptionState;
use crate::subscriptions::state_laws;
use crate::subscriptions::stats;
use crate::subscriptions::stats::SubscriptionCounters;
use crate::topics::topic_message::TopicMessage;

verus! {

/// What can happen to a subscription.
pub enum Event {
    /// It gets a request.
    Request { request: SubscriptionRequest, now: nat },
    /// Deadlines of deliveries come.
    Expiry { now: nat },
    /// Waits for a retry are over.
    Retry { now: nat },
}

/// A subscription after something happened to it.
pub open spec fn happened(st: SubscriptionState, event: Event) -> SubscriptionState {
    match event {
        Event::Request { request, now } => request::received(st, request, now),
        Event::Expiry { now } => state::expired(st, now),
        Event::Retry { now } => state::retries_ended(st, now),
    }
}

/// Whether the states are those of a subscription, from its start on, to which the events happened
/// in turn.
pub open spec fn is_run(
    info: SubscriptionInfo,
    states: Seq<SubscriptionState>,
    events: Seq<Event>,
) -> bool {
    &&& states.len() == events.len() + 1
    &&& states[0] == state::started(info)
    &&& forall|t: int|
        0 <= t < events.len() ==> #[trigger] states[t + 1] == happened(states[t], events[t])
    &&& forall|t: int|
        0 <= t < states.len() ==> state_laws::finitely_queued(#[trigger] states[t])
}

/// Whatever happens leaves the subscription in order.
pub proof fn law_event_keeps_order(st: SubscriptionState, event: Event)
    requires
        state_laws::orderly(st),
        state_laws::finitely_queued(st),
    ensures
        state_laws::orderly(happened(st, event)),
{
    match event {
        Event::Request { request, now } => match request {
            SubscriptionRequest::PostMessages { messages } => {
                state_laws::law_post_keeps_order(st, messages@);
            },
            SubscriptionRequest::UpdateInfo { update } => {
                state_laws::law_update_keeps_order(st, update);
            },
            SubscriptionRequest::PullMessages { max_count, max_outstanding } => {
                state_laws::law_pull_keeps_order(st, max_count, max_outstanding, now);
            },
            SubscriptionRequest::AcknowledgeMessages { ack_ids } => {
                state_laws::law_acknowledge_keeps_order(st, outstanding::id_set(ack_ids@));
            },
            SubscriptionRequest::ModifyDeadline { deadline_modifications } => {
                state_laws::law_modify_keeps_order(
                    st,
                    outstanding::modifications_of(deadline_modifications@),
                    now,
                );
            },
            SubscriptionRequest::Delete | SubscriptionRequest::Detach => {
                state_laws::law_detach_and_delete_keep_order(st);
            },
            SubscriptionRequest::ModifyPushConfig { push_config } => {
                state_laws::law_push_config_keeps_order(st, push_config);
            },
            SubscriptionRequest::GetInfo | SubscriptionRequest::GetStats => {},
        },
        Event::Expiry { now } => {
            state_laws::law_expiry_keeps_order(st, now);
        },
        Event::Retry { now } => {
            state_laws::law_retry_keeps_order(st, now);
        },
    }
}

/// In every state of a run the subscription is in order, so never more than one message of an
/// ordering key is outstanding.
pub proof fn law_run_keeps_order(
    info: SubscriptionInfo,
    states: Seq<SubscriptionState>,
    events: Seq<Event>,
    t: int,
    i: int,
    j: int,
)
    requires
        is_run(info, states, events),
        0 <= t < states.len(),
    ensures
        state_laws::orderly(states[t]),
        0 <= i < j < states[t].outstanding.len() ==> state_laws::delivery_key(
            states[t].info,
            states[t].outstanding[i],
        ) is None || state_laws::delivery_key(states[t].info, states[t].outstanding[i])
            != state_laws::delivery_key(states[t].info, states[t].outstanding[j]),
    decreases t,
{
    if t == 0 {
        state_laws::law_start_is_orderly(info);
    } else {
        law_run_keeps_order(info, states, events, t - 1, 0, 0);
        assert(states[(t - 1) + 1] == happened(states[t - 1], events[t - 1]));
        law_event_keeps_order(states[t - 1], events[t - 1]);
    }
    if 0 <= i < j < states[t].outstanding.len() {
        state_laws::law_one_message_per_key(states[t], i, j);
    }
}

/// Once a subscription was deleted nothing that happens changes it any more.
pub proof fn law_nothing_happens_after_deletion(st: SubscriptionState, event: Event)
    requires
        !st.deleted,
    ensures
        happened(state::deleted(st), event) == state::deleted(st),
{
    let gone = state::deleted(st);
    match event {
        Event::Request { .. } => {},
        Event::Expiry { now } | Event::Retry { now } => {
            delivery_laws::lemma_nothing_due(gone, now);
        },
    }
}

/// A request that only asks changes nothing, one to delete or detach a subscription that is there does
/// that, and each other one does what it is named after with what it is given.
pub proof fn law_request_does_what_it_says(
    st: SubscriptionState,
    messages: Vec<Arc<TopicMessage>>,
    max_count: u16,
    max_outstanding: u16,
    ack_ids: Vec<AckId>,
    modifications: Vec<DeadlineModification>,
    update: SubscriptionUpdate,
    push_config: Option<PushConfig>,
    now: nat,
)
    requires
        !st.deleted,
    ensures
        request::received(st, SubscriptionRequest::GetInfo, now) == st,
        request::received(st, SubscriptionRequest::GetStats, now) == st,
        request::received(st, SubscriptionRequest::Delete, now).deleted,
        request::received(st, SubscriptionRequest::Detach, now).info.detached,
        !request::received(st, SubscriptionRequest::Detach, now).deleted,
        request::received(st, SubscriptionRequest::PostMessages { messages }, now) == state::posted(
            st,
            messages@,
        ),
        request::received(
            st,
            SubscriptionRequest::PullMessages { max_count, max_outstanding },
            now,
        ) == state::pulled(st, max_count, max_outstanding, now),
        request::received(st, SubscriptionRequest::AcknowledgeMessages { ack_ids }, now)
            == state::acknowledged(st, outstanding::id_set(ack_ids@)),
        request::received(
            st,
            SubscriptionRequest::ModifyDeadline { deadline_modifications: modifications },
            now,
        ) == state::modified(st, outstanding::modifications_of(modifications@), now),
        request::received(st, SubscriptionRequest::UpdateInfo { update }, now).info
            == info::updated(st.info, update),
        request::received(st, SubscriptionRequest::ModifyPushConfig { push_config }, now).info
            == (SubscriptionInfo { push_config, ..st.info }),
{
}

/// How many messages something that happens delivers.
pub open spec fn delivered_by(st: SubscriptionState, event: Event) -> nat {
    match event {
        Event::Request { request: SubscriptionRequest::PullMessages { .. }, .. } => (happened(
            st,
            event,
        ).outstanding.len() - st.outstanding.len()) as nat,
        _ => 0,
    }
}

/// How many messages something that happens acknowledges.
pub open spec fn acknowledged_by(st: SubscriptionState, event: Event) -> nat {
    match event {
        Event::Request { request: SubscriptionRequest::AcknowledgeMessages { ack_ids }, .. } =>
            if st.deleted {
            0
        } else {
            outstanding::named(st.outstanding, outstanding::id_set(ack_ids@)).len()
        },
        _ => 0,
    }
}

/// How many messages the first `t` events delivered.
pub open spec fn delivered_until(
    states: Seq<SubscriptionState>,
    events: Seq<Event>,
    t: int,
) -> nat
    decreases t,
{
    if t <= 0 {
        0
    } else {
        delivered_until(states, events, t - 1) + delivered_by(states[t - 1], events[t - 1])
    }
}

/// How many messages the first `t` events acknowledged.
pub open spec fn acknowledged_until(
    states: Seq<SubscriptionState>,
    events: Seq<Event>,
    t: int,
) -> nat
    decreases t,
{
    if t <= 0 {
        0
    } else {
        acknowledged_until(states, events, t - 1) + acknowledged_by(states[t - 1], events[t - 1])
    }
}

/// Whether neither deliveries nor acknowledgements were counted.
spec fn uncounted(a: SubscriptionState, b: SubscriptionState) -> bool {
    b.counters.pulled == a.counters.pulled && b.counters.acked == a.counters.acked
}

proof fn lemma_requeue_uncounted(st: SubscriptionState, returned: Seq<Delivery>, now: nat)
    ensures
        uncounted(st, state::all_requeued(st, returned, now)),
    decreases returned.len(),
{
    if returned.len() > 0 {
        lemma_requeue_uncounted(st, returned.drop_last(), now);
    }
}

proof fn lemma_retry_uncounted(st: SubscriptionState, ready: Seq<Arc<TopicMessage>>, now: nat)
    ensures
        uncounted(st, state::all_retried(st, ready, now)),
    decreases ready.len(),
{
    if ready.len() > 0 {
        lemma_retry_uncounted(st, ready.drop_last(), now);
    }
}

proof fn lemma_enqueue_uncounted(st: SubscriptionState, messages: Seq<Arc<TopicMessage>>)
    ensures
        uncounted(st, state::all_enqueued(st, messages)),
    decreases messages.len(),
{
    if messages.len() > 0 {
        lemma_enqueue_uncounted(st, messages.drop_last());
    }
}

proof fn lemma_gone_uncounted(st: SubscriptionState, gone: Seq<Delivery>)
    ensures
        uncounted(st, state::all_gone(st, gone)),
    decreases gone.len(),
{
    if gone.len() > 0 {
        lemma_gone_uncounted(st, gone.drop_last());
    }
}

/// Whether exactly the new deliveries were counted.
spec fn pull_counted(a: SubscriptionState, b: SubscriptionState) -> bool {
    &&& a.outstanding.len() <= b.outstanding.len()
    &&& b.counters.pulled == stats::counted(
        a.counters.pulled,
        (b.outstanding.len() - a.outstanding.len()) as nat,
    )
    &&& b.counters.acked == a.counters.acked
}

/// The state without the first message of a key.
spec fn past_first(st: SubscriptionState, k: Seq<char>) -> SubscriptionState {
    state::forgotten(
        SubscriptionState { queues: st.queues.insert(k, st.queues[k].drop_first()), ..st },
        *st.queues[k][0],
    )
}

proof fn lemma_key_pull_counted(st: SubscriptionState, k: Seq<char>, now: nat)
    ensures
        pull_counted(st, state::key_pulled(st, k, now)),
    decreases st.queues[k].len(),
{
    if st.queues[k].len() > 0 && state_laws::is_aged(st, st.queues[k][0], now) {
        lemma_key_pull_counted(past_first(st, k), k, now);
    }
}

proof fn lemma_keys_pull_counted(st: SubscriptionState, keys: Seq<Seq<char>>, limit: nat, now: nat)
    ensures
        pull_counted(st, state::keys_pulled(st, keys, limit, now)),
    decreases keys.len(),
{
    if keys.len() > 0 && st.outstanding.len() < limit {
        lemma_key_pull_counted(st, keys[0], now);
        lemma_keys_pull_counted(state::key_pulled(st, keys[0], now), keys.drop_first(), limit, now);
    }
}

/// The state after the first message of the backlog was delivered, or dropped as too old.
spec fn past_front(st: SubscriptionState, now: nat) -> SubscriptionState {
    let m = st.backlog[0];
    let rest = SubscriptionState { backlog: st.backlog.drop_first(), ..st };
    if state_laws::is_aged(st, m, now) {
        state::forgotten(rest, *m)
    } else {
        state::delivered(rest, m, now)
    }
}

proof fn lemma_backlog_pull_counted(st: SubscriptionState, limit: nat, now: nat)
    ensures
        pull_counted(st, state::backlog_pulled(st, limit, now)),
    decreases st.backlog.len(),
{
    if st.backlog.len() > 0 && st.outstanding.len() < limit {
        lemma_backlog_pull_counted(past_front(st, now), limit, now);
    }
}

/// What happens counts the messages that it delivers and acknowledges, and no others.
proof fn lemma_event_counted(st: SubscriptionState, event: Event)
    ensures
        happened(st, event).counters.pulled == stats::counted(
            st.counters.pulled,
            delivered_by(st, event),
        ),
        happened(st, event).counters.acked == stats::counted(
            st.counters.acked,
            acknowledged_by(st, event),
        ),
{
    match event {
        Event::Request { request, now } => match request {
            SubscriptionRequest::PostMessages { messages } => {
                lemma_enqueue_uncounted(st, messages@);
            },
            SubscriptionRequest::PullMessages { max_count, max_outstanding } => {
                if !st.deleted && !st.info.detached {
                    let limit: nat = st.outstanding.len() + state::pull_room(
                        st,
                        max_count,
                        max_outstanding,
                    );
                    let keys = key_queues::listing(state::free_keys(st));
                    lemma_keys_pull_counted(st, keys, limit, now);
                    lemma_backlog_pull_counted(
                        state::keys_pulled(st, keys, limit, now),
                        limit,
                        now,
                    );
                }
            },
            SubscriptionRequest::AcknowledgeMessages { ack_ids } => {
                let ids = outstanding::id_set(ack_ids@);
                let gone = outstanding::named(st.outstanding, ids);
                lemma_gone_uncounted(
                    SubscriptionState {
                        outstanding: outstanding::not_named(st.outstanding, ids),
                        counters: SubscriptionCounters {
                            acked: stats::counted(st.counters.acked, gone.len()),
                            ..st.counters
                        },
                        ..st
                    },
                    gone,
                );
            },
            SubscriptionRequest::ModifyDeadline { deadline_modifications } => {
                let modifications = outstanding::modifications_of(deadline_modifications@);
                lemma_requeue_uncounted(
                    state::deadlines_moved(st, modifications),
                    outstanding::modified(st.outstanding, modifications).1,
                    now,
                );
            },
            _ => {},
        },
        Event::Expiry { now } => {
            lemma_requeue_uncounted(
                state::overdue_taken(st, now),
                outstanding::overdue(st.outstanding, now),
                now,
            );
        },
        Event::Retry { now } => {
            lemma_retry_uncounted(
                SubscriptionState { retries: retry_queue::not_due(st.retries, now), ..st },
                state::ready_messages(st, now),
                now,
            );
        },
    }
}

/// The counters are the numbers of messages ever delivered and acknowledged, as far as they can be
/// held.
pub proof fn law_counters_are_totals(
    info: SubscriptionInfo,
    states: Seq<SubscriptionState>,
    events: Seq<Event>,
    t: int,
)
    requires
        is_run(info, states, events),
        0 <= t < states.len(),
    ensures
        states[t].counters.pulled == stats::counted(0, delivered_until(states, events, t)),
        states[t].counters.acked == stats::counted(0, acknowledged_until(states, events, t)),
    decreases t,
{
    if t > 0 {
        law_counters_are_totals(info, states, events, t - 1);
        assert(states[(t - 1) + 1] == happened(states[t - 1], events[t - 1]));
        lemma_event_counted(states[t - 1], events[t - 1]);
    }
}

} // verus!
