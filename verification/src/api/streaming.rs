//! Streams of messages.
use vstd::prelude::*;

use crate::api::parser;
use crate::api::proto::{
    AcknowledgeConfirmation, ModifyAckDeadlineConfirmation, StreamingPullRequest,
    StreamingPullResponse, SubscriptionProperties,
};
use crate::api::resources;
use crate::api::status;
use crate::api::status::{Code, Status, StatusView};
use crate::api::subscriber;
use crate::api::subscriber::{
    refuse_conflict, refuse_detached, refuse_missing, ServiceState, SubscriberService,
};
use crate::collections;
use crate::subscriptions::ack::{AckId, AckOutcome, DeadlineModification, Delivery, Modification};
use crate::subscriptions::outstanding;
use crate::subscriptions::state;
use crate::subscriptions::state::SubscriptionState;
use crate::subscriptions::subscription_manager;
use crate::subscriptions::subscription_manager::SubscriptionEntry;
use crate::subscriptions::subscription_name::SubscriptionName;
use crate::text;
use crate::time::{Instant, SystemTime};

verus! {

/// A stream of messages of a subscription, by what the client asked for when it was opened.
#[derive(Debug)]
pub struct PullStream {
    pub subscription: SubscriptionName,
    /// The number of the subscription, by which it is told from a later one of that name.
    pub number: u32,
    /// How many messages may be outstanding; zero for any number.
    pub max_outstanding: u16,
    /// Whether acknowledgements are confirmed.
    pub exactly_once: bool,
    /// Whether messages are ordered.
    pub ordered: bool,
    /// Whether each request is answered, so that the client sees that the stream is alive.
    pub keepalive: bool,
}

/// What a cap on outstanding messages is read as.
pub open spec fn max_outstanding_read(raw: i64) -> Result<u16, StatusView> {
    if raw < 0 {
        Err(
            status::refusal(
                Code::InvalidArgument,
                "max_outstanding_messages must be non-negative"@,
            ),
        )
    } else if raw > u16::MAX {
        Ok(u16::MAX)
    } else {
        Ok(raw as u16)
    }
}

/// What the first request of a stream is read as: which subscription, and the cap.
pub open spec fn stream_asked(st: ServiceState, request: Option<StreamingPullRequest>) -> Result<
    (int, u16),
    StatusView,
> {
    match request {
        None => Err(status::refusal(Code::Cancelled, "The request was canceled"@)),
        Some(request) => match subscriber::target(st, request.subscription@) {
            Err(e) => Err(e),
            Ok(i) => if st.subscriptions[i].state.info.detached {
                Err(subscriber::detached_status())
            } else {
                match max_outstanding_read(request.max_outstanding_messages) {
                    Err(e) => Err(e),
                    Ok(cap) => Ok((i, cap)),
                }
            },
        },
    }
}

/// Whether the stream is one of the subscription, with this cap and as the request asks for.
pub open spec fn is_stream_of(
    stream: PullStream,
    e: SubscriptionEntry,
    cap: u16,
    request: StreamingPullRequest,
) -> bool {
    &&& stream.subscription@ == e.name()
    &&& stream.number == e.number
    &&& stream.max_outstanding == cap
    &&& stream.exactly_once == e.state.info.enable_exactly_once_delivery
    &&& stream.ordered == e.state.info.enable_message_ordering
    &&& stream.keepalive == (request.protocol_version >= 1)
}

/// Where the subscription of a stream stands; none where it was deleted.
pub open spec fn stream_place(st: ServiceState, stream: PullStream) -> Option<int> {
    match subscription_manager::subscription_place(st.subscriptions, stream.subscription@) {
        None => None,
        Some(i) => if st.subscriptions[i].number == stream.number {
            Some(i)
        } else {
            None
        },
    }
}

/// What comes of trying to put messages on a stream.
#[derive(Debug)]
pub enum StreamStep {
    /// Messages for the stream.
    Yield(StreamingPullResponse),
    /// There is nothing for the stream yet.
    Wait,
    /// The stream ends.
    End,
    /// The stream ends with a refusal.
    Fail(Status),
}

/// How many messages one pull for a stream asks for.
pub open spec fn per_pull(max_outstanding: u16) -> u16 {
    if max_outstanding == 0 {
        u16::MAX
    } else {
        max_outstanding
    }
}

/// A subscription after messages were delivered to a stream.
pub open spec fn after_stream_pull(
    st: SubscriptionState,
    stream: PullStream,
    now: nat,
) -> SubscriptionState {
    state::pulled(st, per_pull(stream.max_outstanding), stream.max_outstanding, now)
}

/// What the subscription promises to those who stream from it; nothing where it promises neither.
pub open spec fn properties_of(stream: PullStream) -> Option<SubscriptionProperties> {
    if stream.exactly_once || stream.ordered {
        Some(
            SubscriptionProperties {
                exactly_once_delivery_enabled: stream.exactly_once,
                message_ordering_enabled: stream.ordered,
            },
        )
    } else {
        None
    }
}

/// Why a later request of a stream is refused; none where it is not.
pub open spec fn later_refusal(request: StreamingPullRequest) -> Option<StatusView> {
    if request.subscription@.len() > 0 {
        Some(
            status::refusal(
                Code::InvalidArgument,
                "subscription must only be specified in the initial request."@,
            ),
        )
    } else if request.max_outstanding_bytes > 0 {
        Some(
            status::refusal(
                Code::InvalidArgument,
                "max_outstanding_bytes must only be specified in the initial request."@,
            ),
        )
    } else if request.max_outstanding_messages > 0 {
        Some(
            status::refusal(
                Code::InvalidArgument,
                "max_outstanding_messages must only be specified in the initial request."@,
            ),
        )
    } else if request.protocol_version > 0 {
        Some(
            status::refusal(
                Code::InvalidArgument,
                "protocol_version must only be specified in the initial request."@,
            ),
        )
    } else if request.modify_deadline_seconds@.len() != request.modify_deadline_ack_ids@.len() {
        Some(
            status::refusal(
                Code::InvalidArgument,
                "modify_deadline_seconds and modify_deadline_ack_ids must be the same length"@,
            ),
        )
    } else {
        None
    }
}

/// Checks a later request of a stream.
fn check_later(request: &StreamingPullRequest) -> (r: Option<Status>)
    ensures
        match r {
            Some(e) => later_refusal(*request) == Some(e@),
            None => later_refusal(*request) is None,
        },
{
    if text::chars_of(request.subscription.as_str()).len() > 0 {
        Some(
            Status::invalid_argument("subscription must only be specified in the initial request."),
        )
    } else if request.max_outstanding_bytes > 0 {
        Some(
            Status::invalid_argument(
                "max_outstanding_bytes must only be specified in the initial request.",
            ),
        )
    } else if request.max_outstanding_messages > 0 {
        Some(
            Status::invalid_argument(
                "max_outstanding_messages must only be specified in the initial request.",
            ),
        )
    } else if request.protocol_version > 0 {
        Some(
            Status::invalid_argument(
                "protocol_version must only be specified in the initial request.",
            ),
        )
    } else if request.modify_deadline_seconds.len() != request.modify_deadline_ack_ids.len() {
        Some(
            Status::invalid_argument(
                "modify_deadline_seconds and modify_deadline_ack_ids must be the same length",
            ),
        )
    } else {
        None
    }
}

/// The ack ids among texts; texts that are none are left out.
pub open spec fn readable_ids(raws: Seq<String>) -> Seq<AckId>
    decreases raws.len(),
{
    if raws.len() == 0 {
        Seq::empty()
    } else {
        match text::number_read(raws.last()@) {
            Some(n) => readable_ids(raws.drop_last()).push(AckId { value: n as u64 }),
            None => readable_ids(raws.drop_last()),
        }
    }
}

/// Whether the text is the ack id of an outstanding message.
pub open spec fn names_outstanding(st: SubscriptionState, raw: Seq<char>) -> bool {
    !st.deleted && text::number_read(raw) is Some && outstanding::is_delivered(
        st.outstanding,
        text::number_read(raw)->0 as u64,
    )
}

/// Whether the text is an ack id, but of no outstanding message.
pub open spec fn names_nothing(st: SubscriptionState, raw: Seq<char>) -> bool {
    !st.deleted && text::number_read(raw) is Some && !outstanding::is_delivered(
        st.outstanding,
        text::number_read(raw)->0 as u64,
    )
}

/// The texts that are confirmed as acknowledged.
pub open spec fn acked_texts(st: SubscriptionState, raws: Seq<String>) -> Seq<String> {
    collections::select(raws, |r: String| names_outstanding(st, r@))
}

/// The texts that are ack ids of no outstanding message.
pub open spec fn unknown_texts(st: SubscriptionState, raws: Seq<String>) -> Seq<String> {
    collections::select(raws, |r: String| names_nothing(st, r@))
}

/// The texts that are no ack ids.
pub open spec fn unreadable_texts(raws: Seq<String>) -> Seq<String> {
    collections::select(raws, |r: String| text::number_read(r@) is None)
}

/// Whether the confirmation says what came of an acknowledgement.
pub open spec fn confirms_acks(
    c: AcknowledgeConfirmation,
    st: SubscriptionState,
    raws: Seq<String>,
) -> bool {
    &&& c.ack_ids@ == acked_texts(st, raws)
    &&& c.invalid_ack_ids@ == unknown_texts(st, raws) + unreadable_texts(raws)
    &&& c.unordered_ack_ids@.len() == 0
    &&& c.temporary_failed_ack_ids@.len() == 0
}

/// What the modifications of a request are read as; none are made where one of them is refused.
pub open spec fn stream_modifications(request: StreamingPullRequest, now: nat) -> Result<
    Seq<Modification>,
    StatusView,
> {
    parser::modifications_read(
        now,
        request.modify_deadline_ack_ids@,
        request.modify_deadline_seconds@,
        parser::paired(request.modify_deadline_ack_ids@, request.modify_deadline_seconds@),
    )
}

/// The modifications that are made on account of a request.
pub open spec fn made_modifications(request: StreamingPullRequest, now: nat) -> Seq<Modification> {
    match stream_modifications(request, now) {
        Ok(ms) => ms,
        Err(_) => Seq::empty(),
    }
}

/// The texts whose deadlines were moved, where all modifications could be read.
pub open spec fn moved_texts(st: SubscriptionState, raws: Seq<String>) -> Seq<String> {
    collections::select(raws, |r: String| names_outstanding(st, r@))
}

/// The texts whose deadlines were not moved, where all modifications could be read.
pub open spec fn unmoved_texts(st: SubscriptionState, raws: Seq<String>) -> Seq<String> {
    collections::select(raws, |r: String| !names_outstanding(st, r@))
}

/// Whether the confirmation says what came of modifications. Where one of them is refused none is
/// made, and all are given back as invalid.
pub open spec fn confirms_modifications(
    c: ModifyAckDeadlineConfirmation,
    st: SubscriptionState,
    raws: Seq<String>,
    read: bool,
) -> bool {
    &&& c.ack_ids@ == if read {
        moved_texts(st, raws)
    } else {
        Seq::empty()
    }
    &&& c.invalid_ack_ids@ == if read {
        unmoved_texts(st, raws)
    } else {
        raws
    }
    &&& c.temporary_failed_ack_ids@.len() == 0
}

/// The state of the subscription once the acknowledgements of a request are done.
pub open spec fn after_acks(st: SubscriptionState, request: StreamingPullRequest) -> SubscriptionState {
    if request.ack_ids@.len() == 0 {
        st
    } else {
        state::acknowledged(st, outstanding::id_set(readable_ids(request.ack_ids@)))
    }
}

/// Whether a later request of a stream was done: acknowledgements first, and modifications then.
pub open spec fn is_done(
    before: ServiceState,
    after: ServiceState,
    i: int,
    request: StreamingPullRequest,
    now: Instant,
    wall: SystemTime,
) -> bool {
    let middle = if request.ack_ids@.len() == 0 {
        before
    } else {
        subscriber::with_subscription(before, i, after_acks(before.subscriptions[i].state, request))
    };
    if request.modify_deadline_ack_ids@.len() == 0 {
        after == middle
    } else {
        subscriber::is_modified(middle, after, i, made_modifications(request, now@), now, wall)
    }
}

/// Whether the response says what came of a later request: confirmations where they are promised,
/// and no messages.
pub open spec fn is_answer(
    response: Option<StreamingPullResponse>,
    stream: PullStream,
    st: SubscriptionState,
    request: StreamingPullRequest,
    now: nat,
) -> bool {
    let acks = stream.exactly_once && request.ack_ids@.len() > 0;
    let modifications = stream.exactly_once && request.modify_deadline_ack_ids@.len() > 0;
    match response {
        None => !acks && !modifications && !stream.keepalive,
        Some(r) => {
            &&& acks || modifications || stream.keepalive
            &&& r.received_messages@.len() == 0
            &&& r.subscription_properties is None
            &&& match r.acknowledge_confirmation {
                Some(c) => acks && confirms_acks(c, st, request.ack_ids@),
                None => !acks,
            }
            &&& match r.modify_ack_deadline_confirmation {
                Some(c) => modifications && confirms_modifications(
                    c,
                    after_acks(st, request),
                    request.modify_deadline_ack_ids@,
                    stream_modifications(request, now) is Ok,
                ),
                None => !modifications,
            }
        },
    }
}

/// Whether a request that asks for nothing is answered where the client waits for answers.
pub open spec fn is_keepalive(response: Option<StreamingPullResponse>, stream: PullStream) -> bool {
    match response {
        None => !stream.keepalive,
        Some(r) => {
            &&& stream.keepalive
            &&& r.received_messages@.len() == 0
            &&& r.acknowledge_confirmation is None
            &&& r.modify_ack_deadline_confirmation is None
            &&& r.subscription_properties is None
        },
    }
}

/// The ids that were valid are those of outstanding messages.
proof fn lemma_valid(s: Seq<Delivery>, ids: Seq<AckId>, v: u64)
    ensures
        outstanding::id_set(state::valid_ids(s, ids)).contains(v) <==> outstanding::id_set(
            ids,
        ).contains(v) && outstanding::is_delivered(s, v),
        outstanding::id_set(state::invalid_ids(s, ids)).contains(v) <==> outstanding::id_set(
            ids,
        ).contains(v) && !outstanding::is_delivered(s, v),
{
    let id = AckId { value: v };
    let valid = state::valid_ids(s, ids);
    let invalid = state::invalid_ids(s, ids);
    collections::lemma_selected(ids, |x: AckId| outstanding::is_delivered(s, x.value), id);
    collections::lemma_selected(ids, |x: AckId| !outstanding::is_delivered(s, x.value), id);
    lemma_id_set(ids, v);
    lemma_id_set(valid, v);
    lemma_id_set(invalid, v);
}

/// The value of an id is in the set where the id is in the sequence.
proof fn lemma_id_set(ids: Seq<AckId>, v: u64)
    ensures
        outstanding::id_set(ids).contains(v) <==> ids.contains(AckId { value: v }),
{
    if outstanding::id_set(ids).contains(v) {
        let i = choose|i: int| 0 <= i < ids.len() && #[trigger] ids[i].value == v;
        assert(ids[i] == AckId { value: v });
    }
    if ids.contains(AckId { value: v }) {
        let i = choose|i: int| 0 <= i < ids.len() && ids[i] == AckId { value: v };
        assert(ids[i].value == v);
    }
}

/// A readable text is among the ids that are read.
proof fn lemma_readable(raws: Seq<String>, j: int)
    requires
        0 <= j < raws.len(),
        text::number_read(raws[j]@) is Some,
    ensures
        readable_ids(raws).contains(AckId { value: text::number_read(raws[j]@)->0 as u64 }),
    decreases raws.len(),
{
    let id = AckId { value: text::number_read(raws[j]@)->0 as u64 };
    let all = readable_ids(raws);
    let front = readable_ids(raws.drop_last());
    if j == raws.len() - 1 {
        assert(all[all.len() - 1] == id);
    } else {
        assert(raws.drop_last()[j] == raws[j]);
        lemma_readable(raws.drop_last(), j);
        let k = choose|k: int| 0 <= k < front.len() && front[k] == id;
        assert(all[k] == id);
    }
}

/// Texts of ack ids by how they were read.
struct ReadIds {
    /// The ids that were read.
    ids: Vec<AckId>,
    /// The texts that are no ids.
    unreadable: Vec<String>,
}

/// Reads ack ids, and keeps the texts apart that are none.
fn read_ids(raws: &Vec<String>) -> (r: ReadIds)
    ensures
        r.ids@ == readable_ids(raws@),
        r.unreadable@ == unreadable_texts(raws@),
{
    let mut ids: Vec<AckId> = Vec::new();
    let mut unreadable: Vec<String> = Vec::new();
    let mut i: usize = 0;
    assert(raws@.take(0) =~= Seq::empty());
    while i < raws.len()
        invariant
            i <= raws@.len(),
            ids@ == readable_ids(raws@.take(i as int)),
            unreadable@ == unreadable_texts(raws@.take(i as int)),
        decreases raws@.len() - i,
    {
        proof {
            assert(raws@.take(i + 1).drop_last() =~= raws@.take(i as int));
            collections::lemma_select_step(
                raws@,
                |r: String| text::number_read(r@) is None,
                i as int,
            );
        }
        match parser::parse_ack_id(raws[i].as_str()) {
            Ok(id) => {
                ids.push(id);
            },
            Err(_) => {
                unreadable.push(raws[i].clone());
            },
        }
        i += 1;
    }
    assert(raws@.take(raws@.len() as int) =~= raws@);
    ReadIds { ids, unreadable }
}

/// The confirmation of an acknowledgement.
fn confirm_acks(
    raws: &Vec<String>,
    unreadable: Vec<String>,
    outcome: AckOutcome,
    Ghost(st): Ghost<SubscriptionState>,
) -> (c: AcknowledgeConfirmation)
    requires
        unreadable@ == unreadable_texts(raws@),
        subscriber::is_outcome(outcome, st, readable_ids(raws@)),
    ensures
        confirms_acks(c, st, raws@),
{
    let mut ack_ids: Vec<String> = Vec::new();
    let mut invalid_ack_ids: Vec<String> = Vec::new();
    let mut i: usize = 0;
    let ghost ids = readable_ids(raws@);
    assert(raws@.take(0) =~= Seq::empty());
    while i < raws.len()
        invariant
            i <= raws@.len(),
            ids == readable_ids(raws@),
            subscriber::is_outcome(outcome, st, ids),
            ack_ids@ == acked_texts(st, raws@.take(i as int)),
            invalid_ack_ids@ == unknown_texts(st, raws@.take(i as int)),
        decreases raws@.len() - i,
    {
        proof {
            collections::lemma_select_step(
                raws@,
                |r: String| names_outstanding(st, r@),
                i as int,
            );
            collections::lemma_select_step(raws@, |r: String| names_nothing(st, r@), i as int);
        }
        if let Ok(id) = parser::parse_ack_id(raws[i].as_str()) {
            proof {
                lemma_readable(raws@, i as int);
                lemma_id_set(ids, id.value);
                if !st.deleted {
                    lemma_valid(st.outstanding, ids, id.value);
                }
            }
            if outstanding::has_id(&outcome.valid, id) {
                ack_ids.push(raws[i].clone());
            }
            if outstanding::has_id(&outcome.invalid, id) {
                invalid_ack_ids.push(raws[i].clone());
            }
        }
        i += 1;
    }
    assert(raws@.take(raws@.len() as int) =~= raws@);
    let mut unreadable = unreadable;
    invalid_ack_ids.append(&mut unreadable);
    AcknowledgeConfirmation {
        ack_ids,
        invalid_ack_ids,
        unordered_ack_ids: Vec::new(),
        temporary_failed_ack_ids: Vec::new(),
    }
}

/// Modifications that are read name the ids that the texts are read as.
proof fn lemma_modified_ids(now: nat, raws: Seq<String>, seconds: Seq<i32>, n: int)
    requires
        0 <= n,
        parser::modifications_read(now, raws, seconds, n) is Ok,
    ensures
        ({
            let ms = parser::modifications_read(now, raws, seconds, n)->Ok_0;
            &&& ms.len() == n
            &&& forall|j: int|
                0 <= j < n ==> text::number_read(raws[j]@) is Some && (#[trigger] ms[j]).ack_id
                    == text::number_read(raws[j]@)->0 as u64
        }),
    decreases n,
{
    if n > 0 {
        lemma_modified_ids(now, raws, seconds, n - 1);
    }
}

/// Copies of the texts.
fn copy_texts(texts: &Vec<String>) -> (copies: Vec<String>)
    ensures
        copies@ == texts@,
{
    let mut copies: Vec<String> = Vec::new();
    let mut i: usize = 0;
    while i < texts.len()
        invariant
            i <= texts@.len(),
            copies@ =~= texts@.take(i as int),
        decreases texts@.len() - i,
    {
        copies.push(texts[i].clone());
        i += 1;
    }
    assert(texts@.take(texts@.len() as int) =~= texts@);
    copies
}

/// The confirmation of modifications.
fn confirm_modifications(
    request: &StreamingPullRequest,
    read: bool,
    outcome: AckOutcome,
    Ghost(now): Ghost<nat>,
    Ghost(modifications): Ghost<Seq<DeadlineModification>>,
    Ghost(st): Ghost<SubscriptionState>,
) -> (c: ModifyAckDeadlineConfirmation)
    requires
        request.modify_deadline_seconds@.len() == request.modify_deadline_ack_ids@.len(),
        read == (stream_modifications(*request, now) is Ok),
        outstanding::modifications_of(modifications) == made_modifications(*request, now),
        subscriber::is_outcome(outcome, st, state::modified_ids(modifications)),
    ensures
        confirms_modifications(c, st, request.modify_deadline_ack_ids@, read),
{
    let raws = &request.modify_deadline_ack_ids;
    if !read {
        return ModifyAckDeadlineConfirmation {
            ack_ids: Vec::new(),
            invalid_ack_ids: copy_texts(raws),
            temporary_failed_ack_ids: Vec::new(),
        };
    }
    let mut ack_ids: Vec<String> = Vec::new();
    let mut invalid_ack_ids: Vec<String> = Vec::new();
    let mut i: usize = 0;
    let ghost ids = state::modified_ids(modifications);
    let ghost made = outstanding::modifications_of(modifications);
    proof {
        assert(raws@.take(0) =~= Seq::empty());
        lemma_modified_ids(now, raws@, request.modify_deadline_seconds@, raws@.len() as int);
    }
    while i < raws.len()
        invariant
            i <= raws@.len(),
            ids == state::modified_ids(modifications),
            made == outstanding::modifications_of(modifications),
            subscriber::is_outcome(outcome, st, ids),
            made.len() == raws@.len(),
            forall|j: int|
                0 <= j < raws@.len() ==> text::number_read(raws@[j]@) is Some && (
                #[trigger] made[j]).ack_id == text::number_read(raws@[j]@)->0 as u64,
            ack_ids@ == moved_texts(st, raws@.take(i as int)),
            invalid_ack_ids@ == unmoved_texts(st, raws@.take(i as int)),
        decreases raws@.len() - i,
    {
        proof {
            collections::lemma_select_step(
                raws@,
                |r: String| names_outstanding(st, r@),
                i as int,
            );
            collections::lemma_select_step(
                raws@,
                |r: String| !names_outstanding(st, r@),
                i as int,
            );
            assert(text::number_read(raws@[i as int]@) is Some && made[i as int].ack_id
                == text::number_read(raws@[i as int]@)->0 as u64);
        }
        if let Ok(id) = parser::parse_ack_id(raws[i].as_str()) {
            proof {
                lemma_id_set(ids, id.value);
                assert(made[i as int].ack_id == id.value);
                assert(ids[i as int] == id);
                if !st.deleted {
                    lemma_valid(st.outstanding, ids, id.value);
                }
            }
            if outstanding::has_id(&outcome.valid, id) {
                ack_ids.push(raws[i].clone());
            } else {
                invalid_ack_ids.push(raws[i].clone());
            }
        }
        i += 1;
    }
    assert(raws@.take(raws@.len() as int) =~= raws@);
    ModifyAckDeadlineConfirmation {
        ack_ids,
        invalid_ack_ids,
        temporary_failed_ack_ids: Vec::new(),
    }
}

impl SubscriberService {
    /// Opens a stream on account of its first request, or of none where the client went away.
    pub fn open_stream(&self, request: &Option<StreamingPullRequest>) -> (r: Result<
        PullStream,
        Status,
    >)
        ensures
            match r {
                Ok(stream) => stream_asked(self@, *request) matches Ok((i, cap)) && is_stream_of(
                    stream,
                    self@.subscriptions[i],
                    cap,
                    request->0,
                ),
                Err(e) => stream_asked(self@, *request) == Err::<(int, u16), StatusView>(e@),
            },
    {
        let request = match request {
            Some(r) => r,
            None => {
                return Err(Status::new(Code::Cancelled, "The request was canceled"));
            },
        };
        let i = match self.locate(request.subscription.as_str()) {
            Ok(i) => i,
            Err(e) => {
                return Err(e);
            },
        };
        let actor = self.subscription_at(i);
        let info = actor.get_info();
        if info.detached {
            return Err(refuse_detached());
        }
        let asked: i64 = request.max_outstanding_messages;
        let max_outstanding: u16 = if asked < 0 {
            return Err(Status::invalid_argument("max_outstanding_messages must be non-negative"));
        } else if asked > u16::MAX as i64 {
            u16::MAX
        } else {
            asked as u16
        };
        Ok(
            PullStream {
                subscription: info.name.clone(),
                number: actor.internal_id(),
                max_outstanding,
                exactly_once: info.enable_exactly_once_delivery,
                ordered: info.enable_message_ordering,
                keepalive: request.protocol_version >= 1,
            },
        )
    }

    /// Where the subscription of the stream stands.
    fn place_of_stream(&self, stream: &PullStream) -> (place: Option<usize>)
        ensures
            match place {
                Some(i) => i < self@.subscriptions.len() && stream_place(self@, *stream) == Some(
                    i as int,
                ),
                None => stream_place(self@, *stream) is None,
            },
    {
        match self.place_of(&stream.subscription) {
            Some(i) => if self.subscription_at(i).internal_id() == stream.number {
                Some(i)
            } else {
                None
            },
            None => None,
        }
    }

    /// Tries to put messages on a stream. Where there are none it has to be tried again when there
    /// is something to pull, when fewer messages are outstanding, or when the subscription was
    /// deleted.
    pub fn streaming_pull(&mut self, stream: &PullStream, now: Instant) -> (step: StreamStep)
        ensures
            match stream_place(old(self)@, *stream) {
                None => {
                    &&& final(self)@ == old(self)@
                    &&& step matches StreamStep::Fail(e) && e@
                        == subscriber::subscription_not_found(stream.subscription@)
                },
                Some(i) => {
                    let st = old(self)@.subscriptions[i].state;
                    let after = after_stream_pull(st, *stream, now@);
                    let new = after.outstanding.skip(st.outstanding.len() as int);
                    &&& final(self)@ == subscriber::with_subscription(old(self)@, i, after)
                    &&& match step {
                        StreamStep::Yield(response) => {
                            &&& st.deleted || !st.info.detached
                            &&& new.len() > 0
                            &&& resources::are_received(response.received_messages@, new)
                            &&& response.acknowledge_confirmation is None
                            &&& response.modify_ack_deadline_confirmation is None
                            &&& response.subscription_properties == properties_of(*stream)
                        },
                        StreamStep::Wait => (st.deleted || !st.info.detached) && new.len() == 0,
                        StreamStep::End => !st.deleted && st.info.detached,
                        StreamStep::Fail(_) => false,
                    }
                },
            },
    {
        let i = match self.place_of_stream(stream) {
            Some(i) => i,
            None => {
                return StreamStep::Fail(refuse_missing(&stream.subscription));
            },
        };
        let max_per_pull: u16 = if stream.max_outstanding == 0 {
            u16::MAX
        } else {
            stream.max_outstanding
        };
        let received_messages = match self.pull_at(i, max_per_pull, stream.max_outstanding, now) {
            Ok(messages) => messages,
            Err(_) => {
                return StreamStep::End;
            },
        };
        if received_messages.len() == 0 {
            return StreamStep::Wait;
        }
        let subscription_properties = if stream.exactly_once || stream.ordered {
            Some(
                SubscriptionProperties {
                    exactly_once_delivery_enabled: stream.exactly_once,
                    message_ordering_enabled: stream.ordered,
                },
            )
        } else {
            None
        };
        StreamStep::Yield(
            StreamingPullResponse {
                received_messages,
                acknowledge_confirmation: None,
                modify_ack_deadline_confirmation: None,
                subscription_properties,
            },
        )
    }

    /// Does what a later request of a stream asks for. Where the subscription confirms
    /// acknowledgements the response says which ids were good; it echoes the texts of the ids as
    /// they came.
    pub fn handle_streaming_pull_request(
        &mut self,
        stream: &PullStream,
        request: &StreamingPullRequest,
        now: Instant,
        wall: SystemTime,
    ) -> (r: Result<Option<StreamingPullResponse>, Status>)
        ensures
            match later_refusal(*request) {
                Some(e) => r matches Err(s) && s@ == e && final(self)@ == old(self)@,
                None => if request.ack_ids@.len() == 0 && request.modify_deadline_ack_ids@.len()
                    == 0 {
                    &&& final(self)@ == old(self)@
                    &&& r matches Ok(response) && is_keepalive(response, *stream)
                } else {
                    match stream_place(old(self)@, *stream) {
                        None => r matches Err(s) && s@ == subscriber::conflict() && final(self)@
                            == old(self)@,
                        Some(i) => {
                            &&& is_done(old(self)@, final(self)@, i, *request, now, wall)
                            &&& r matches Ok(response) && is_answer(
                                response,
                                *stream,
                                old(self)@.subscriptions[i].state,
                                *request,
                                now@,
                            )
                        },
                    }
                },
            },
    {
        if let Some(e) = check_later(request) {
            return Err(e);
        }
        let mut acknowledge_confirmation: Option<AcknowledgeConfirmation> = None;
        let mut modify_ack_deadline_confirmation: Option<ModifyAckDeadlineConfirmation> = None;
        if request.ack_ids.len() > 0 || request.modify_deadline_ack_ids.len() > 0 {
            let i = match self.place_of_stream(stream) {
                Some(i) => i,
                None => {
                    return Err(refuse_conflict());
                },
            };
            let ghost before = self@;
            let ghost st = before.subscriptions[i as int].state;
            if request.ack_ids.len() > 0 {
                let read = read_ids(&request.ack_ids);
                let outcome = self.acknowledge_at(i, read.ids);
                if stream.exactly_once {
                    acknowledge_confirmation = Some(
                        confirm_acks(&request.ack_ids, read.unreadable, outcome, Ghost(st)),
                    );
                }
            }
            let ghost middle = self@;
            let ghost st1 = middle.subscriptions[i as int].state;
            assert(st1 == after_acks(st, *request));
            if request.modify_deadline_ack_ids.len() > 0 {
                let (modifications, read) = match parser::parse_deadline_modifications(
                    now,
                    &request.modify_deadline_ack_ids,
                    &request.modify_deadline_seconds,
                ) {
                    Ok(ms) => (ms, true),
                    Err(_) => (Vec::new(), false),
                };
                proof {
                    if !read {
                        assert(outstanding::modifications_of(modifications@)
                            =~= Seq::<Modification>::empty());
                    }
                }
                let ghost made = modifications@;
                let outcome = self.modify_deadlines_at(i, modifications, now, wall);
                if stream.exactly_once {
                    modify_ack_deadline_confirmation = Some(
                        confirm_modifications(
                            request,
                            read,
                            outcome,
                            Ghost(now@),
                            Ghost(made),
                            Ghost(st1),
                        ),
                    );
                }
            }
        }
        if acknowledge_confirmation.is_some() || modify_ack_deadline_confirmation.is_some()
            || stream.keepalive {
            Ok(
                Some(
                    StreamingPullResponse {
                        received_messages: Vec::new(),
                        acknowledge_confirmation,
                        modify_ack_deadline_confirmation,
                        subscription_properties: None,
                    },
                ),
            )
        } else {
            Ok(None)
        }
    }
}

} // verus!
