//! The publishing side of the interface.
use std::sync::Arc;
use vstd::prelude::*;

use crate::api::parser;
use crate::api::proto::{DurationProto, PubsubMessage, TopicProto, UpdateTopicRequest};
use crate::api::resources;
use crate::api::status;
use crate::api::status::{Code, Status, StatusView};
use crate::api::subscriber;
use crate::api::subscriber::{ServiceState, SubscriberService};
use crate::message_data;
use crate::subscriptions::info;
use crate::subscriptions::subscription_manager;
use crate::text;
use crate::time::{Duration, Instant, SystemTime};
use crate::topics::topic;
use crate::topics::topic::{TopicInfo, TopicState, TopicUpdate};
use crate::topics::topic_manager;
use crate::topics::topic_manager::CreateTopicError;
use crate::topics::topic_message::TopicMessage;
use crate::topics::topic_name;
use crate::topics::topic_name::{TopicName, TopicNameView};

verus! {

/// What a [`TopicInfo`] says, with the retention in nanoseconds.
pub struct TopicInfoView {
    pub name: TopicNameView,
    pub labels: Map<Seq<char>, Seq<char>>,
    pub message_retention_duration: Option<nat>,
}

impl View for TopicInfo {
    type V = TopicInfoView;

    open spec fn view(&self) -> TopicInfoView {
        TopicInfoView {
            name: self.name@,
            labels: self.labels@,
            message_retention_duration: info::span_view(self.message_retention_duration),
        }
    }
}

/// The refusal of a text that is no topic name.
pub open spec fn bad_topic_name(raw: Seq<char>) -> StatusView {
    status::invalid_value("Invalid topic name"@, raw)
}

/// What the retention of a topic is read as, in nanoseconds. It is kept as it was given.
pub open spec fn topic_retention_read(proto: Option<DurationProto>) -> Result<
    Option<nat>,
    StatusView,
> {
    match proto {
        None => Ok(None),
        Some(d) => if d.seconds < 0 || d.nanos < 0 {
            Err(
                status::refusal(
                    Code::InvalidArgument,
                    "message_retention_duration must be non-negative"@,
                ),
            )
        } else {
            Ok(Some(parser::span_nanos(d)))
        },
    }
}

/// Reads the retention of a topic.
fn parse_topic_retention(proto: &Option<DurationProto>) -> (r: Result<Option<Duration>, Status>)
    ensures
        match r {
            Ok(d) => topic_retention_read(*proto) == Ok::<Option<nat>, StatusView>(
                info::span_view(d),
            ),
            Err(e) => topic_retention_read(*proto) == Err::<Option<nat>, StatusView>(e@),
        },
{
    match proto {
        None => Ok(None),
        Some(d) => if d.seconds < 0 || d.nanos < 0 {
            Err(Status::invalid_argument("message_retention_duration must be non-negative"))
        } else {
            Ok(Some(parser::span_of(d)))
        },
    }
}

/// What a request for a topic is read as.
pub open spec fn topic_read(request: TopicProto) -> Result<TopicInfoView, StatusView> {
    match topic_name::topic_name_read(request.name@) {
        None => Err(bad_topic_name(request.name@)),
        Some(name) => match topic_retention_read(request.message_retention_duration) {
            Err(e) => Err(e),
            Ok(retention) => Ok(
                TopicInfoView {
                    name,
                    labels: request.labels@,
                    message_retention_duration: retention,
                },
            ),
        },
    }
}

/// The refusal where there is such a topic.
pub open spec fn topic_exists(name: TopicNameView) -> StatusView {
    status::refusal(
        Code::AlreadyExists,
        "The topic "@ + topic_name::topic_name_text(name) + " already exists"@,
    )
}

/// The refusal where there are no numbers or ids left.
pub open spec fn exhausted() -> StatusView {
    status::refusal(Code::Internal, "No identifiers are left."@)
}

/// The refusal of a request for a topic; none where it is created.
pub open spec fn topic_refusal(st: ServiceState, request: TopicProto) -> Option<StatusView> {
    match topic_read(request) {
        Err(e) => Some(e),
        Ok(info) => if topic_manager::topic_place(st.topics, info.name) is Some {
            Some(topic_exists(info.name))
        } else if st.next_topic == u32::MAX {
            Some(exhausted())
        } else {
            None
        },
    }
}

/// Where the topic stands that a text names, or the refusal.
pub open spec fn topic_target(st: ServiceState, raw: Seq<char>) -> Result<int, StatusView> {
    match topic_name::topic_name_read(raw) {
        None => Err(bad_topic_name(raw)),
        Some(name) => match topic_manager::topic_place(st.topics, name) {
            Some(i) => Ok(i),
            None => Err(subscriber::topic_missing(name)),
        },
    }
}

/// Whether the field of a topic cannot be changed once it was created.
pub open spec fn immutable_topic_path(path: Seq<char>) -> bool {
    path == "name"@ || path == "message_storage_policy"@ || path == "kms_key_name"@ || path
        == "schema_settings"@ || path == "satisfies_pzs"@
}

/// What a [`TopicUpdate`] changes.
pub struct TopicUpdateView {
    pub labels: Option<Map<Seq<char>, Seq<char>>>,
    pub message_retention_duration: Option<Option<nat>>,
}

impl View for TopicUpdate {
    type V = TopicUpdateView;

    open spec fn view(&self) -> TopicUpdateView {
        TopicUpdateView {
            labels: match self.labels {
                Some(l) => Some(l@),
                None => None,
            },
            message_retention_duration: match self.message_retention_duration {
                Some(d) => Some(info::span_view(d)),
                None => None,
            },
        }
    }
}

/// An update with the field at the path set from the topic.
pub open spec fn topic_path_read(
    update: TopicUpdateView,
    topic: TopicProto,
    path: Seq<char>,
) -> Result<TopicUpdateView, StatusView> {
    if path == "labels"@ {
        Ok(TopicUpdateView { labels: Some(topic.labels@), ..update })
    } else if path == "message_retention_duration"@ {
        match topic_retention_read(topic.message_retention_duration) {
            Ok(d) => Ok(TopicUpdateView { message_retention_duration: Some(d), ..update }),
            Err(e) => Err(e),
        }
    } else if immutable_topic_path(path) {
        Err(parser::bad_path(path, "' is not modifiable after creation"@))
    } else {
        Err(parser::bad_path(path, "' is not a valid update path"@))
    }
}

/// An update with the fields at the paths set in turn, or the refusal of the first path that is
/// refused.
pub open spec fn topic_paths_read(topic: TopicProto, paths: Seq<String>) -> Result<
    TopicUpdateView,
    StatusView,
>
    decreases paths.len(),
{
    if paths.len() == 0 {
        Ok(TopicUpdateView { labels: None, message_retention_duration: None })
    } else {
        match topic_paths_read(topic, paths.drop_last()) {
            Ok(update) => topic_path_read(update, topic, paths.last()@),
            Err(e) => Err(e),
        }
    }
}

/// What a request to change a topic is read as: which one, and the change.
pub open spec fn topic_update_asked(st: ServiceState, request: UpdateTopicRequest) -> Result<
    (int, TopicUpdateView),
    StatusView,
> {
    match request.topic {
        None => Err(status::refusal(Code::InvalidArgument, "topic must be specified"@)),
        Some(topic) => match request.update_mask {
            None => Err(status::refusal(Code::InvalidArgument, "update_mask must be specified"@)),
            Some(paths) => if paths@.len() == 0 {
                Err(
                    status::refusal(
                        Code::InvalidArgument,
                        "update_mask must be specified and non-empty"@,
                    ),
                )
            } else {
                match topic_name::topic_name_read(topic.name@) {
                    None => Err(bad_topic_name(topic.name@)),
                    Some(name) => match topic_paths_read(topic, paths@) {
                        Err(e) => Err(e),
                        Ok(update) => match topic_manager::topic_place(st.topics, name) {
                            Some(i) => Ok((i, update)),
                            None => Err(subscriber::topic_missing(name)),
                        },
                    },
                }
            },
        },
    }
}

/// Whether a topic was changed as asked for, and nothing else.
pub open spec fn is_topic_updated(
    before: ServiceState,
    after: ServiceState,
    i: int,
    asked: TopicUpdateView,
) -> bool {
    exists|update: TopicUpdate|
        update@ == asked && after == (ServiceState {
            topics: before.topics.update(
                i,
                TopicState {
                    info: #[trigger] topic::updated_topic(before.topics[i].info, update),
                    ..before.topics[i]
                },
            ),
            ..before
        })
}

/// Once one path is refused the refusal stays the same.
proof fn lemma_topic_paths_refused(topic: TopicProto, paths: Seq<String>, i: int)
    requires
        0 <= i <= paths.len(),
        topic_paths_read(topic, paths.take(i)) is Err,
    ensures
        topic_paths_read(topic, paths) == topic_paths_read(topic, paths.take(i)),
    decreases paths.len() - i,
{
    if i < paths.len() {
        assert(paths.take(i + 1).drop_last() =~= paths.take(i));
        lemma_topic_paths_refused(topic, paths, i + 1);
    } else {
        assert(paths.take(i) =~= paths);
    }
}

/// Sets the field at the path in the update.
fn parse_topic_path(update: TopicUpdate, topic: &TopicProto, path: &str) -> (r: Result<
    TopicUpdate,
    Status,
>)
    ensures
        match r {
            Ok(u) => topic_path_read(update@, *topic, path@) == Ok::<TopicUpdateView, StatusView>(
                u@,
            ),
            Err(e) => topic_path_read(update@, *topic, path@) == Err::<
                TopicUpdateView,
                StatusView,
            >(e@),
        },
{
    let mut update = update;
    if text::same_text(path, "labels") {
        update.labels = Some(topic.labels.clone());
        Ok(update)
    } else if text::same_text(path, "message_retention_duration") {
        match parse_topic_retention(&topic.message_retention_duration) {
            Ok(d) => {
                update.message_retention_duration = Some(d);
                Ok(update)
            },
            Err(e) => Err(e),
        }
    } else if text::same_text(path, "name") || text::same_text(path, "message_storage_policy")
        || text::same_text(path, "kms_key_name") || text::same_text(path, "schema_settings")
        || text::same_text(path, "satisfies_pzs") {
        Err(parser::refuse_path(path, "' is not modifiable after creation"))
    } else {
        Err(parser::refuse_path(path, "' is not a valid update path"))
    }
}

/// Reads an update of a topic: the fields at the paths of the mask.
fn parse_topic_update(topic: &TopicProto, paths: &Vec<String>) -> (r: Result<TopicUpdate, Status>)
    ensures
        match r {
            Ok(u) => topic_paths_read(*topic, paths@) == Ok::<TopicUpdateView, StatusView>(u@),
            Err(e) => topic_paths_read(*topic, paths@) == Err::<TopicUpdateView, StatusView>(e@),
        },
{
    let mut update = TopicUpdate::default();
    let mut i: usize = 0;
    assert(paths@.take(0) =~= Seq::empty());
    while i < paths.len()
        invariant
            i <= paths@.len(),
            topic_paths_read(*topic, paths@.take(i as int)) == Ok::<TopicUpdateView, StatusView>(
                update@,
            ),
        decreases paths@.len() - i,
    {
        assert(paths@.take(i + 1).drop_last() =~= paths@.take(i as int));
        match parse_topic_path(update, topic, paths[i].as_str()) {
            Ok(u) => {
                update = u;
            },
            Err(e) => {
                proof {
                    lemma_topic_paths_refused(*topic, paths@, i + 1);
                }
                return Err(e);
            },
        }
        i += 1;
    }
    assert(paths@.take(paths@.len() as int) =~= paths@);
    Ok(update)
}

/// The refusal that tells something of a topic.
fn refuse_topic(code: Code, name: &TopicName, what: &str) -> (s: Status)
    ensures
        s@ == status::refusal(
            code,
            "The topic "@ + topic_name::topic_name_text(name@) + what@,
        ),
{
    let mut message = "The topic ".to_owned();
    message.push_str(name.to_string().as_str());
    message.push_str(what);
    Status { code, message }
}

/// Whether the message to publish is the one of the request.
pub open spec fn is_message_of(m: TopicMessage, p: PubsubMessage) -> bool {
    &&& message_data::bytes_held(m.data) == p.data@
    &&& m.attributes == if p.attributes@ == Map::<Seq<char>, Seq<char>>::empty() {
        None
    } else {
        Some(p.attributes)
    }
    &&& m.key() == if p.ordering_key@.len() == 0 {
        None
    } else {
        Some(p.ordering_key@)
    }
}

/// Whether the messages to publish are those of the request.
pub open spec fn are_messages_of(ms: Seq<TopicMessage>, ps: Seq<PubsubMessage>) -> bool {
    &&& ms.len() == ps.len()
    &&& forall|i: int| 0 <= i < ms.len() ==> is_message_of(#[trigger] ms[i], ps[i])
}

/// Whether the texts are the ids of the messages.
pub open spec fn are_ids_of(ids: Seq<String>, published: Seq<Arc<TopicMessage>>) -> bool {
    &&& ids.len() == published.len()
    &&& forall|i: int|
        0 <= i < ids.len() ==> (#[trigger] ids[i])@ == text::decimal(
            published[i].id.value as nat,
        )
}

/// Whether messages of a request were published to a topic, and these are their ids.
pub open spec fn is_publication(
    before: ServiceState,
    after: ServiceState,
    i: int,
    request: Seq<PubsubMessage>,
    ids: Seq<String>,
    wall: SystemTime,
    now: Instant,
) -> bool {
    exists|messages: Seq<TopicMessage>, published: Seq<Arc<TopicMessage>>|
        are_messages_of(messages, request) && are_ids_of(ids, published)
            && #[trigger] subscriber::is_published(
            before,
            after,
            i,
            messages,
            published,
            wall,
            now,
        )
}

impl SubscriberService {
    /// Creates a topic.
    pub fn create_topic(&mut self, request: &TopicProto) -> (r: Result<TopicProto, Status>)
        ensures
            match r {
                Ok(p) => {
                    &&& topic_refusal(old(self)@, *request) is None
                    &&& final(self)@.topics.len() == old(self)@.topics.len() + 1
                    &&& final(self)@ == (ServiceState {
                        topics: old(self)@.topics.push(final(self)@.topics.last()),
                        next_topic: (old(self)@.next_topic + 1) as u32,
                        ..old(self)@
                    })
                    &&& final(self)@.topics.last() == topic_manager::new_topic(
                        final(self)@.topics.last().info,
                        old(self)@.next_topic,
                    )
                    &&& topic_read(*request) == Ok::<TopicInfoView, StatusView>(
                        final(self)@.topics.last().info@,
                    )
                    &&& resources::is_topic_resource_of(p, final(self)@.topics.last().info)
                },
                Err(e) => topic_refusal(old(self)@, *request) == Some(e@) && final(self)@ == old(
                    self)@,
            },
    {
        let name = match parser::parse_topic_name(request.name.as_str()) {
            Ok(n) => n,
            Err(e) => {
                return Err(e);
            },
        };
        let retention = match parse_topic_retention(&request.message_retention_duration) {
            Ok(d) => d,
            Err(e) => {
                return Err(e);
            },
        };
        let info = TopicInfo {
            name: name.clone(),
            labels: request.labels.clone(),
            message_retention_duration: retention,
        };
        let resource = resources::map_to_topic_resource(&info);
        let ghost asked = info;
        match self.add_topic(info) {
            Ok(_) => {
                assert(self@.topics.last().info == asked);
                Ok(resource)
            },
            Err(CreateTopicError::AlreadyExists) => Err(
                refuse_topic(Code::AlreadyExists, &name, " already exists"),
            ),
            Err(CreateTopicError::IdsExhausted) => Err(
                Status::new(Code::Internal, "No identifiers are left."),
            ),
        }
    }

    /// Where the topic stands that a text names.
    pub(crate) fn locate_topic(&self, raw: &str) -> (r: Result<usize, Status>)
        ensures
            match r {
                Ok(i) => i < self@.topics.len() && topic_target(self@, raw@) == Ok::<
                    int,
                    StatusView,
                >(i as int),
                Err(e) => topic_target(self@, raw@) == Err::<int, StatusView>(e@),
            },
    {
        let name = match parser::parse_topic_name(raw) {
            Ok(n) => n,
            Err(e) => {
                return Err(e);
            },
        };
        match self.place_of_topic(&name) {
            Some(i) => Ok(i),
            None => Err(refuse_topic(Code::NotFound, &name, " does not exist")),
        }
    }

    /// Gives a topic.
    pub fn get_topic(&self, topic: &str) -> (r: Result<TopicProto, Status>)
        ensures
            match r {
                Ok(p) => topic_target(self@, topic@) matches Ok(i)
                    && resources::is_topic_resource_of(p, self@.topics[i].info),
                Err(e) => topic_target(self@, topic@) == Err::<int, StatusView>(e@),
            },
    {
        match self.locate_topic(topic) {
            Ok(i) => Ok(resources::map_to_topic_resource(self.topic_info_at(i))),
            Err(e) => Err(e),
        }
    }

    /// Changes a topic.
    pub fn update_topic(&mut self, request: UpdateTopicRequest) -> (r: Result<TopicProto, Status>)
        ensures
            match r {
                Ok(p) => topic_update_asked(old(self)@, request) matches Ok((i, asked))
                    && is_topic_updated(old(self)@, final(self)@, i, asked)
                    && resources::is_topic_resource_of(p, final(self)@.topics[i].info),
                Err(e) => topic_update_asked(old(self)@, request) == Err::<
                    (int, TopicUpdateView),
                    StatusView,
                >(e@) && final(self)@ == old(self)@,
            },
    {
        let topic = match request.topic {
            Some(t) => t,
            None => {
                return Err(Status::invalid_argument("topic must be specified"));
            },
        };
        let paths = match request.update_mask {
            Some(paths) => paths,
            None => {
                return Err(Status::invalid_argument("update_mask must be specified"));
            },
        };
        if paths.len() == 0 {
            return Err(Status::invalid_argument("update_mask must be specified and non-empty"));
        }
        let name = match parser::parse_topic_name(topic.name.as_str()) {
            Ok(n) => n,
            Err(e) => {
                return Err(e);
            },
        };
        let update = match parse_topic_update(&topic, &paths) {
            Ok(u) => u,
            Err(e) => {
                return Err(e);
            },
        };
        let i = match self.place_of_topic(&name) {
            Some(i) => i,
            None => {
                return Err(refuse_topic(Code::NotFound, &name, " does not exist"));
            },
        };
        let ghost made = update;
        self.update_topic_at(i, update);
        assert(self@.topics[i as int].info == topic::updated_topic(
            old(self)@.topics[i as int].info,
            made,
        ));
        Ok(resources::map_to_topic_resource(self.topic_info_at(i)))
    }

    /// Deletes a topic. Its subscriptions stay, and are attached to none.
    pub fn delete_topic(&mut self, topic: &str) -> (r: Result<(), Status>)
        ensures
            match r {
                Ok(_) => topic_target(old(self)@, topic@) matches Ok(i) && final(self)@
                    == (ServiceState {
                    topics: old(self)@.topics.remove(i),
                    subscriptions: subscription_manager::topic_gone(
                        old(self)@.subscriptions,
                        topic_name::topic_name_read(topic@)->0,
                    ),
                    ..old(self)@
                }),
                Err(e) => topic_target(old(self)@, topic@) == Err::<int, StatusView>(e@) && final(
                    self)@ == old(self)@,
            },
    {
        let name = match parser::parse_topic_name(topic) {
            Ok(n) => n,
            Err(e) => {
                return Err(e);
            },
        };
        match self.remove_topic(&name) {
            Ok(_) => Ok(()),
            Err(_) => Err(refuse_topic(Code::NotFound, &name, " does not exist")),
        }
    }

    /// Publishes messages to a topic and hands them to its subscriptions. Gives the ids of the
    /// messages.
    pub fn publish(
        &mut self,
        topic: &str,
        messages: Vec<PubsubMessage>,
        now: Instant,
        wall: SystemTime,
    ) -> (r: Result<Vec<String>, Status>)
        ensures
            match topic_target(old(self)@, topic@) {
                Err(e) => r matches Err(s) && s@ == e && final(self)@ == old(self)@,
                Ok(i) => if subscriber::ids_exhausted(old(self)@, i, messages@.len()) {
                    r matches Err(s) && s@ == exhausted() && final(self)@ == old(self)@
                } else {
                    r matches Ok(ids) && is_publication(
                        old(self)@,
                        final(self)@,
                        i,
                        messages@,
                        ids@,
                        wall,
                        now,
                    )
                },
            },
    {
        let i = match self.locate_topic(topic) {
            Ok(i) => i,
            Err(e) => {
                return Err(e);
            },
        };
        let ghost asked = messages@;
        let mut parsed: Vec<TopicMessage> = Vec::new();
        for message in it: messages
            invariant
                it.seq() == asked,
                parsed@.len() == it.index(),
                forall|j: int|
                    0 <= j < it.index() ==> is_message_of(#[trigger] parsed@[j], asked[j]),
        {
            parsed.push(parser::parse_topic_message(message, now));
        }
        let ghost to_publish = parsed@;
        assert(are_messages_of(to_publish, asked));
        let published = match self.publish_to(i, parsed, wall, now) {
            Ok(published) => published,
            Err(_) => {
                return Err(Status::new(Code::Internal, "No identifiers are left."));
            },
        };
        let mut ids: Vec<String> = Vec::new();
        let mut k: usize = 0;
        while k < published.len()
            invariant
                k <= published@.len(),
                ids@.len() == k,
                forall|j: int|
                    0 <= j < k ==> (#[trigger] ids@[j])@ == text::decimal(
                        published@[j].id.value as nat,
                    ),
            decreases published@.len() - k,
        {
            ids.push(published[k].id.to_string());
            k += 1;
        }
        assert(are_ids_of(ids@, published@));
        assert(subscriber::is_published(
            old(self)@,
            self@,
            i as int,
            to_publish,
            published@,
            wall,
            now,
        ));
        Ok(ids)
    }
}

} // verus!
