//! What holds of streams of messages.
use vstd::prelude::*;

use crate::api::effect_laws as service_effects;
use crate::api::proto::{
    AcknowledgeConfirmation, ModifyAckDeadlineConfirmation, StreamingPullRequest,
    StreamingPullResponse,
};
use crate::api::request_laws;
use crate::api::service_laws;
use crate::api::status::{Code, StatusView};
use crate::api::streaming;
use crate::api::streaming::PullStream;
use crate::api::subscriber;
use crate::api::subscriber::ServiceState;
use crate::collections;
use crate::subscriptions::ack::Delivery;
use crate::subscriptions::delivery_laws;
use crate::subscriptions::effect_laws;
use crate::subscriptions::outstanding;
use crate::subscriptions::state::SubscriptionState;
use crate::subscriptions::subscription_manager;
use crate::subscriptions::subscription_name;
use crate::subscriptions::timing_laws;
use crate::text;
use crate::time::{Instant, SystemTime};

verus! {

/// A confirmation tells of every id of an acknowledgement: as acknowledged where it was that of an
/// outstanding message, and as invalid where not. It tells of no other id.
pub proof fn law_confirmation_tells_of_every_ack(
    c: AcknowledgeConfirmation,
    st: SubscriptionState,
    raws: Seq<String>,
    raw: String,
)
    requires
        !st.deleted,
        streaming::confirms_acks(c, st, raws),
    ensures
        c.ack_ids@.contains(raw) <==> raws.contains(raw) && streaming::names_outstanding(st, raw@),
        c.invalid_ack_ids@.contains(raw) <==> raws.contains(raw) && !streaming::names_outstanding(
            st,
            raw@,
        ),
        c.ack_ids@.len() + c.invalid_ack_ids@.len() == raws.len(),
{
    let acked = streaming::acked_texts(st, raws);
    let unknown = streaming::unknown_texts(st, raws);
    let unreadable = streaming::unreadable_texts(raws);
    collections::lemma_selected(raws, |r: String| streaming::names_outstanding(st, r@), raw);
    collections::lemma_selected(raws, |r: String| streaming::names_nothing(st, r@), raw);
    collections::lemma_selected(raws, |r: String| text::number_read(r@) is None, raw);
    lemma_contains_either(unknown, unreadable, raw);
    lemma_ack_counts(st, raws);
}

/// What is in two sequences together is in one of them.
proof fn lemma_contains_either(a: Seq<String>, b: Seq<String>, x: String)
    ensures
        (a + b).contains(x) <==> a.contains(x) || b.contains(x),
{
    let all = a + b;
    if a.contains(x) {
        let i = choose|i: int| 0 <= i < a.len() && a[i] == x;
        assert(all[i] == x);
    }
    if b.contains(x) {
        let i = choose|i: int| 0 <= i < b.len() && b[i] == x;
        assert(all[a.len() + i] == x);
    }
    if all.contains(x) {
        let i = choose|i: int| 0 <= i < all.len() && all[i] == x;
        if i < a.len() {
            assert(a[i] == x);
        } else {
            assert(b[i - a.len()] == x);
        }
    }
}

/// Each id of an acknowledgement is told of once.
proof fn lemma_ack_counts(st: SubscriptionState, raws: Seq<String>)
    requires
        !st.deleted,
    ensures
        streaming::acked_texts(st, raws).len() + streaming::unknown_texts(st, raws).len()
            + streaming::unreadable_texts(raws).len() == raws.len(),
    decreases raws.len(),
{
    if raws.len() > 0 {
        lemma_ack_counts(st, raws.drop_last());
    }
}

/// Each id of moved deadlines is told of once.
proof fn lemma_deadline_counts(st: SubscriptionState, raws: Seq<String>)
    ensures
        streaming::moved_texts(st, raws).len() + streaming::unmoved_texts(st, raws).len()
            == raws.len(),
    decreases raws.len(),
{
    if raws.len() > 0 {
        lemma_deadline_counts(st, raws.drop_last());
    }
}

/// A confirmation of new deadlines tells of every id of the request once: as moved where all of the
/// request could be read and the id was that of an outstanding message, and as invalid else.
pub proof fn law_confirmation_tells_of_every_deadline(
    c: ModifyAckDeadlineConfirmation,
    st: SubscriptionState,
    raws: Seq<String>,
    read: bool,
    raw: String,
)
    requires
        streaming::confirms_modifications(c, st, raws, read),
    ensures
        c.ack_ids@.len() + c.invalid_ack_ids@.len() == raws.len(),
        c.ack_ids@.contains(raw) <==> raws.contains(raw) && read && streaming::names_outstanding(
            st,
            raw@,
        ),
        c.invalid_ack_ids@.contains(raw) <==> raws.contains(raw) && !(read
            && streaming::names_outstanding(st, raw@)),
{
    lemma_deadline_counts(st, raws);
    collections::lemma_selected(raws, |r: String| streaming::names_outstanding(st, r@), raw);
    collections::lemma_selected(raws, |r: String| !streaming::names_outstanding(st, r@), raw);
}

/// A stream of a subscription that was deleted has none any more.
pub proof fn law_stream_ends_with_its_subscription(st: ServiceState, i: int, stream: PullStream)
    requires
        service_laws::sound(st),
        0 <= i < st.subscriptions.len(),
        streaming::stream_place(st, stream) == Some(i),
    ensures
        streaming::stream_place(subscriber::after_deleted(st, i), stream) is None,
{
    subscription_manager::lemma_subscription_place(st.subscriptions, stream.subscription@);
    service_laws::law_deleted_subscription_is_sound(st, i);
}

/// An id names an outstanding message exactly where one was delivered with it.
pub proof fn law_id_names_what_was_delivered_with_it(st: SubscriptionState, id: u64)
    requires
        !st.deleted,
    ensures
        streaming::names_outstanding(st, text::decimal(id as nat)) <==> exists|i: int|
            0 <= i < st.outstanding.len() && (#[trigger] st.outstanding[i]).ack_id == id,
{
    text::law_decimal_reads_back(id);
}

/// Whether one of the texts is that of the id.
pub open spec fn is_given(raws: Seq<String>, id: u64) -> bool {
    exists|i: int| 0 <= i < raws.len() && text::number_read((#[trigger] raws[i])@) == Some(id as nat)
}

/// The ids that can be read are those that are given.
proof fn lemma_readable(raws: Seq<String>, id: u64)
    ensures
        outstanding::id_set(streaming::readable_ids(raws)).contains(id) <==> is_given(raws, id),
    decreases raws.len(),
{
    let ids = streaming::readable_ids(raws);
    if raws.len() > 0 {
        let front = raws.drop_last();
        let before = streaming::readable_ids(front);
        let last: int = raws.len() - 1;
        lemma_readable(front, id);
        if outstanding::id_set(before).contains(id) {
            let i = choose|i: int| 0 <= i < before.len() && #[trigger] before[i].value == id;
            assert(ids[i].value == id);
        }
        if is_given(front, id) {
            let i = choose|i: int|
                0 <= i < front.len() && text::number_read((#[trigger] front[i])@) == Some(id as nat);
            assert(text::number_read(raws[i]@) == Some(id as nat));
        }
        if text::number_read(raws[last]@) == Some(id as nat) {
            assert(ids[ids.len() - 1].value == id);
        }
        if is_given(raws, id) && text::number_read(raws[last]@) != Some(id as nat) {
            let i = choose|i: int|
                0 <= i < raws.len() && text::number_read((#[trigger] raws[i])@) == Some(id as nat);
            assert(text::number_read(front[i]@) == Some(id as nat));
        }
        if outstanding::id_set(ids).contains(id) && !outstanding::id_set(before).contains(id) {
            let i = choose|i: int| 0 <= i < ids.len() && #[trigger] ids[i].value == id;
            if i < before.len() {
                assert(before[i].value == id);
            }
            assert(text::number_read(raws[last]@) is Some);
        }
    } else {
        assert(ids.len() == 0);
    }
}

/// An acknowledgement on a stream acknowledges the deliveries whose ids it gives, and no others, and
/// passes over what is no id.
pub proof fn law_stream_acknowledges_what_it_names(
    st: SubscriptionState,
    request: StreamingPullRequest,
    d: Delivery,
)
    requires
        !st.deleted,
    ensures
        streaming::after_acks(st, request).outstanding.contains(d) <==> st.outstanding.contains(d)
            && !is_given(request.ack_ids@, d.ack_id),
        streaming::after_acks(st, request).backlog == st.backlog,
        streaming::after_acks(st, request).queues == st.queues,
        streaming::after_acks(st, request).retries == st.retries,
{
    let ids = outstanding::id_set(streaming::readable_ids(request.ack_ids@));
    lemma_readable(request.ack_ids@, d.ack_id);
    collections::lemma_selected(st.outstanding, |x: Delivery| !ids.contains(x.ack_id), d);
    effect_laws::lemma_acknowledged_fields(st, ids);
    if request.ack_ids@.len() == 0 {
        assert(!is_given(request.ack_ids@, d.ack_id));
    }
}

/// The cap on outstanding messages of a stream is what is asked for, as far as it can be held; a
/// negative one is refused.
pub proof fn law_stream_cap_is_what_is_asked_for(raw: i64)
    ensures
        raw < 0 ==> request_laws::is_refused(streaming::max_outstanding_read(raw)),
        0 <= raw <= 65_535 ==> (streaming::max_outstanding_read(raw) matches Ok(cap) && cap == raw),
        raw > 65_535 ==> (streaming::max_outstanding_read(raw) matches Ok(cap) && cap == 65_535),
{
}

/// A stream with a cap never brings more messages outstanding than the cap, and fills it as far as it
/// can; one without a cap is given a thousand messages at a time, or what there is.
pub proof fn law_stream_fills_its_cap(st: SubscriptionState, stream: PullStream, now: nat)
    requires
        !st.deleted,
        !st.info.detached,
        st.next_ack_id + 1_000 <= u64::MAX,
    ensures
        ({
            let after = streaming::after_stream_pull(st, stream, now);
            let cap = stream.max_outstanding;
            let plain = st.info.message_retention_duration is None && forall|k: Seq<char>|
                (#[trigger] st.queues[k]).len() == 0 || st.in_flight.contains(k);
            let n = effect_laws::least(
                st.backlog.len() as int,
                1_000,
                if cap == 0 {
                    1_000
                } else {
                    cap - st.outstanding.len()
                },
            );
            &&& cap > 0 && st.outstanding.len() <= cap ==> after.outstanding.len() <= cap
            &&& plain && (cap == 0 || st.outstanding.len() <= cap) ==> after.outstanding.len()
                == st.outstanding.len() + n
        }),
{
    let cap: u16 = stream.max_outstanding;
    delivery_laws::law_pull_respects_limits(st, streaming::per_pull(cap), cap, now);
    if st.info.message_retention_duration is None && forall|k: Seq<char>|
        (#[trigger] st.queues[k]).len() == 0 || st.in_flight.contains(k) {
        effect_laws::law_pull_fills_its_room(st, streaming::per_pull(cap), cap, now);
    }
}

/// The properties of a subscription are told to who streams from it exactly where it confirms
/// acknowledgements or orders messages, and say which of these it does.
pub proof fn law_properties_tell_what_is_enabled(stream: PullStream)
    ensures
        match streaming::properties_of(stream) {
            Some(p) => (stream.exactly_once || stream.ordered) && p.exactly_once_delivery_enabled
                == stream.exactly_once && p.message_ordering_enabled == stream.ordered,
            None => !stream.exactly_once && !stream.ordered,
        },
{
}

/// A later request on a stream is taken exactly where it sets up nothing and gives as many seconds as
/// ids of deadlines; else it is refused because of its arguments.
pub proof fn law_later_request_sets_up_nothing(request: StreamingPullRequest)
    ensures
        streaming::later_refusal(request) is None <==> {
            &&& request.subscription@.len() == 0
            &&& request.max_outstanding_bytes <= 0
            &&& request.max_outstanding_messages <= 0
            &&& request.protocol_version <= 0
            &&& request.modify_deadline_seconds@.len() == request.modify_deadline_ack_ids@.len()
        },
        streaming::later_refusal(request) matches Some(e) ==> e.code == Code::InvalidArgument,
{
}

/// A stream tells its client that it is alive exactly where the first request gives a version of the
/// protocol. It confirms acknowledgements where its subscription does, and is found as long as its
/// subscription is there.
pub proof fn law_stream_is_what_was_asked_for(
    st: ServiceState,
    stream: PullStream,
    i: int,
    cap: u16,
    request: StreamingPullRequest,
)
    requires
        service_laws::sound(st),
        streaming::stream_asked(st, Some(request)) == Ok::<(int, u16), StatusView>((i, cap)),
        streaming::is_stream_of(stream, st.subscriptions[i], cap, request),
    ensures
        0 <= i < st.subscriptions.len(),
        !st.subscriptions[i].state.info.detached,
        stream.keepalive <==> request.protocol_version > 0,
        stream.exactly_once == st.subscriptions[i].state.info.enable_exactly_once_delivery,
        stream.ordered == st.subscriptions[i].state.info.enable_message_ordering,
        streaming::stream_place(st, stream) == Some(i),
        request.max_outstanding_messages >= 0,
        request.max_outstanding_messages <= 65_535 ==> stream.max_outstanding
            == request.max_outstanding_messages,
{
    let name = subscription_name::subscription_name_read(request.subscription@)->0;
    subscription_manager::lemma_subscription_place(st.subscriptions, name);
    service_laws::lemma_found(st.subscriptions, i);
}

/// Whether one of the deliveries has the id.
pub open spec fn is_outstanding(s: Seq<Delivery>, id: u64) -> bool {
    exists|i: int| 0 <= i < s.len() && (#[trigger] s[i]).ack_id == id
}

/// A later request on a stream does what it asks for: the messages that it acknowledges are not
/// outstanding any more, also where it moves their deadlines; one that it neither acknowledges nor
/// names in a new deadline is outstanding as before. Where one of its deadlines cannot be read none of
/// them is moved.
pub proof fn law_stream_request_is_done(
    before: ServiceState,
    after: ServiceState,
    i: int,
    request: StreamingPullRequest,
    now: Instant,
    wall: SystemTime,
    d: Delivery,
)
    requires
        0 <= i < before.subscriptions.len(),
        !before.subscriptions[i].state.deleted,
        streaming::is_done(before, after, i, request, now, wall),
        before.subscriptions[i].state.outstanding.contains(d),
    ensures
        ({
            let st = before.subscriptions[i].state;
            let done = after.subscriptions[i].state;
            let read = streaming::stream_modifications(request, now@);
            &&& is_given(request.ack_ids@, d.ack_id) ==> !is_outstanding(done.outstanding, d.ack_id)
            &&& !is_given(request.ack_ids@, d.ack_id) && (read is Err || !timing_laws::is_named(
                read->Ok_0,
                d.ack_id,
            )) ==> done.outstanding.contains(d)
        }),
{
    let st = before.subscriptions[i].state;
    let acked = streaming::after_acks(st, request);
    let made = streaming::made_modifications(request, now@);
    let middle = if request.ack_ids@.len() == 0 {
        before
    } else {
        subscriber::with_subscription(before, i, acked)
    };
    law_stream_acknowledges_what_it_names(st, request, d);
    lemma_acks_not_deleted(st, request);
    assert(middle.subscriptions[i].state == acked);
    if is_given(request.ack_ids@, d.ack_id) && is_outstanding(acked.outstanding, d.ack_id) {
        let j = choose|j: int|
            0 <= j < acked.outstanding.len() && (#[trigger] acked.outstanding[j]).ack_id == d.ack_id;
        law_stream_acknowledges_what_it_names(st, request, acked.outstanding[j]);
        assert(acked.outstanding.contains(acked.outstanding[j]));
    }
    if request.modify_deadline_ack_ids@.len() > 0 {
        service_effects::lemma_modified_outstanding(middle, after, i, made, now, wall);
        let done = after.subscriptions[i].state;
        if is_given(request.ack_ids@, d.ack_id) && is_outstanding(done.outstanding, d.ack_id) {
            let j = choose|j: int|
                0 <= j < done.outstanding.len() && (#[trigger] done.outstanding[j]).ack_id
                    == d.ack_id;
            let e = timing_laws::lemma_what_is_kept(acked.outstanding, made, done.outstanding[j]);
            let l = choose|l: int| 0 <= l < acked.outstanding.len() && acked.outstanding[l] == e;
            assert(acked.outstanding[l].ack_id == d.ack_id);
        }
        if acked.outstanding.contains(d) {
            timing_laws::law_modification_moves_what_it_names(acked, made, now@, d, 0, d);
            if streaming::stream_modifications(request, now@) is Err {
                assert(!timing_laws::is_named(made, d.ack_id));
            }
        }
    }
}

/// Acknowledgements on a stream do not delete the subscription.
proof fn lemma_acks_not_deleted(st: SubscriptionState, request: StreamingPullRequest)
    requires
        !st.deleted,
    ensures
        !streaming::after_acks(st, request).deleted,
{
    effect_laws::lemma_acknowledged_fields(
        st,
        outstanding::id_set(streaming::readable_ids(request.ack_ids@)),
    );
}

/// A later request on a stream is answered exactly where the client wants to see that the stream is
/// alive, or where the subscription confirms acknowledgements and the request acknowledges messages or
/// moves deadlines; the answer then confirms what the request did of these, and holds no messages.
pub proof fn law_stream_answers_where_asked(
    response: Option<StreamingPullResponse>,
    stream: PullStream,
    st: SubscriptionState,
    request: StreamingPullRequest,
    now: nat,
)
    requires
        streaming::is_answer(response, stream, st, request, now),
    ensures
        ({
            let acks = request.ack_ids@.len() > 0;
            let deadlines = request.modify_deadline_ack_ids@.len() > 0;
            &&& response is Some <==> stream.keepalive || (stream.exactly_once && (acks
                || deadlines))
            &&& response matches Some(r) ==> {
                &&& r.received_messages@.len() == 0
                &&& r.acknowledge_confirmation is Some <==> stream.exactly_once && acks
                &&& r.modify_ack_deadline_confirmation is Some <==> stream.exactly_once && deadlines
            }
        }),
{
}

} // verus!
