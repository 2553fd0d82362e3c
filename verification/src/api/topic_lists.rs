//! Pages of topics, and of what belongs to a topic.
use vstd::prelude::*;

use crate::api::parser;
use crate::api::proto::{
    ListOfTopicRequest, ListTopicsRequest, ListTopicsResponse, NamesPage, TopicProto,
};
use crate::api::publisher;
use crate::api::resources;
use crate::api::status::{Status, StatusView};
use crate::api::subscriber::{ServiceState, SubscriberService};
use crate::paging;
use crate::paging::{PageToken, Paging};
use crate::subscriptions::subscription_name;
use crate::text;
use crate::topics::topic;
use crate::topics::topic::TopicState;
use crate::topics::topic_name::{TopicName, TopicNameView};

verus! {

/// Whether the topic is one of the project.
pub open spec fn in_project(t: TopicState, project: Seq<char>) -> bool {
    match t.info.name@ {
        TopicNameView::Named { project_id, .. } => project_id == project,
        TopicNameView::Deleted => false,
    }
}

/// The places of the topics of a project, in order.
pub open spec fn topic_places(topics: Seq<TopicState>, project: Seq<char>) -> Seq<int>
    decreases topics.len(),
{
    if topics.len() == 0 {
        Seq::empty()
    } else {
        let front = topic_places(topics.drop_last(), project);
        if in_project(topics.last(), project) {
            front.push(topics.len() - 1)
        } else {
            front
        }
    }
}

/// The places of the topics of a project are places of topics.
proof fn lemma_topic_places(topics: Seq<TopicState>, project: Seq<char>, i: int)
    requires
        0 <= i < topic_places(topics, project).len(),
    ensures
        0 <= topic_places(topics, project)[i] < topics.len(),
    decreases topics.len(),
{
    if topics.len() > 0 {
        let front = topic_places(topics.drop_last(), project);
        if i < front.len() {
            lemma_topic_places(topics.drop_last(), project, i);
        }
    }
}

/// Where a page of the size that starts at the offset ends in a list of the length.
pub open spec fn end_of_page(len: nat, size: usize, offset: nat) -> int {
    if offset + size <= len {
        (offset + size) as int
    } else {
        len as int
    }
}

/// Where the page starts: at its offset, or at its end where that is before.
pub open spec fn start_of_page(len: nat, size: usize, offset: nat) -> int {
    if offset <= end_of_page(len, size, offset) {
        offset as int
    } else {
        end_of_page(len, size, offset)
    }
}

/// The token of the page after the one: empty where there is none.
pub open spec fn token_after(len: nat, size: usize, offset: nat) -> Seq<char> {
    if end_of_page(len, size, offset) < len {
        text::decimal(end_of_page(len, size, offset) as nat)
    } else {
        Seq::empty()
    }
}

/// What is asked for of a list: the size of the page and where it starts.
pub open spec fn page_asked(size: i32, token: Seq<char>) -> Result<(usize, nat), StatusView> {
    match parser::paging_read(size, token) {
        Err(e) => Err(e),
        Ok((size, offset)) => Ok(
            (
                paging::page_size(size),
                match offset {
                    Some(o) => o,
                    None => 0,
                },
            ),
        ),
    }
}

/// The refusal of a request for a page of topics; none where there is a page.
pub open spec fn topics_refusal(request: ListTopicsRequest) -> Option<StatusView> {
    match page_asked(request.page_size, request.page_token@) {
        Err(e) => Some(e),
        Ok(_) => match parser::project_read(request.project@) {
            Err(e) => Some(e),
            Ok(_) => None,
        },
    }
}

/// Whether the page holds the topics of the project from the offset on, as many as the size allows.
pub open spec fn is_topics_page(
    st: ServiceState,
    page: ListTopicsResponse,
    size: usize,
    offset: nat,
    project: Seq<char>,
) -> bool {
    let all = topic_places(st.topics, project);
    let listed = all.subrange(
        start_of_page(all.len(), size, offset),
        end_of_page(all.len(), size, offset),
    );
    &&& page.topics@.len() == listed.len()
    &&& forall|j: int|
        0 <= j < listed.len() ==> resources::is_topic_resource_of(
            #[trigger] page.topics@[j],
            st.topics[listed[j]].info,
        )
    &&& page.next_page_token@ == token_after(all.len(), size, offset)
}

/// What a request for what belongs to a topic is read as: which topic, and the page.
pub open spec fn of_topic_asked(st: ServiceState, request: ListOfTopicRequest) -> Result<
    (int, usize, nat),
    StatusView,
> {
    match page_asked(request.page_size, request.page_token@) {
        Err(e) => Err(e),
        Ok((size, offset)) => match publisher::topic_target(st, request.topic@) {
            Err(e) => Err(e),
            Ok(i) => Ok((i, size, offset)),
        },
    }
}

/// Whether the page holds the names of the subscriptions of a topic from the offset on, as many as
/// the size allows.
pub open spec fn is_names_page(t: TopicState, page: NamesPage, size: usize, offset: nat) -> bool {
    let all = t.subscriptions;
    let listed = all.subrange(
        start_of_page(all.len(), size, offset),
        end_of_page(all.len(), size, offset),
    );
    &&& page.names@.len() == listed.len()
    &&& forall|j: int|
        0 <= j < listed.len() ==> (#[trigger] page.names@[j])@
            == subscription_name::subscription_name_text(listed[j])
    &&& page.next_page_token@ == token_after(all.len(), size, offset)
}

/// The token of the page that starts there; empty where there is none.
fn token_text(offset: Option<usize>) -> (s: String)
    ensures
        s@ == (match offset {
            Some(o) => text::decimal(o as nat),
            None => Seq::empty(),
        }),
{
    match offset {
        Some(offset) => PageToken::new(offset).encode(),
        None => String::new(),
    }
}

impl SubscriberService {
    /// The places of the topics of a project, in order.
    fn topics_in_project(&self, project: &str) -> (places: Vec<usize>)
        ensures
            places@.len() == topic_places(self@.topics, project@).len(),
            forall|i: int|
                0 <= i < places@.len() ==> (#[trigger] places@[i]) as int == topic_places(
                    self@.topics,
                    project@,
                )[i],
    {
        let topics = self.topic_manager();
        let mut places: Vec<usize> = Vec::new();
        let mut i: usize = 0;
        assert(self@.topics.take(0) =~= Seq::empty());
        while i < topics.len()
            invariant
                i <= topics@.len(),
                topics@ == self@.topics,
                places@.len() == topic_places(self@.topics.take(i as int), project@).len(),
                forall|j: int|
                    0 <= j < places@.len() ==> (#[trigger] places@[j]) as int == topic_places(
                        self@.topics.take(i as int),
                        project@,
                    )[j],
            decreases topics@.len() - i,
        {
            assert(self@.topics.take(i + 1).drop_last() =~= self@.topics.take(i as int));
            let here = match topics.at(i).name() {
                TopicName::Named { project_id, .. } => text::same_text(
                    project_id.as_str(),
                    project,
                ),
                TopicName::Deleted => false,
            };
            if here {
                places.push(i);
            }
            i += 1;
        }
        assert(self@.topics.take(self@.topics.len() as int) =~= self@.topics);
        places
    }

    /// Gives a page of the topics of a project.
    pub fn list_topics(&self, request: &ListTopicsRequest) -> (r: Result<
        ListTopicsResponse,
        Status,
    >)
        ensures
            match r {
                Ok(page) => {
                    &&& topics_refusal(*request) is None
                    &&& page_asked(request.page_size, request.page_token@) matches Ok((
                        size,
                        offset,
                    ))
                    &&& parser::project_read(request.project@) matches Ok(project)
                    &&& is_topics_page(self@, page, size, offset, project)
                },
                Err(e) => topics_refusal(*request) == Some(e@),
            },
    {
        let paging = match parser::parse_paging(request.page_size, request.page_token.as_str()) {
            Ok(p) => p,
            Err(e) => {
                return Err(e);
            },
        };
        let project = match parser::parse_project_id(request.project.as_str()) {
            Ok(p) => p,
            Err(e) => {
                return Err(e);
            },
        };
        let all = self.topics_in_project(project.as_str());
        let (start, end) = paging.range(all.len());
        let ghost places = topic_places(self@.topics, project@);
        let mut topics: Vec<TopicProto> = Vec::new();
        let mut i: usize = start;
        while i < end
            invariant
                start <= i <= end <= all@.len(),
                topics@.len() == i - start,
                places == topic_places(self@.topics, project@),
                all@.len() == places.len(),
                forall|j: int| 0 <= j < all@.len() ==> (#[trigger] all@[j]) as int == places[j],
                forall|j: int|
                    0 <= j < topics@.len() ==> resources::is_topic_resource_of(
                        #[trigger] topics@[j],
                        self@.topics[places[start + j]].info,
                    ),
            decreases end - i,
        {
            proof {
                lemma_topic_places(self@.topics, project@, i as int);
                assert(all@[i as int] as int == places[i as int]);
            }
            topics.push(resources::map_to_topic_resource(self.topic_info_at(all[i])));
            i += 1;
        }
        let offset: Option<usize> = if end < all.len() {
            Some(end)
        } else {
            None
        };
        let page = ListTopicsResponse { topics, next_page_token: token_text(offset) };
        proof {
            let listed = places.subrange(start as int, end as int);
            assert forall|j: int| 0 <= j < listed.len() implies resources::is_topic_resource_of(
                #[trigger] page.topics@[j],
                self@.topics[listed[j]].info,
            ) by {
                assert(listed[j] == places[start + j]);
            }
            assert(is_topics_page(
                self@,
                page,
                paging.limit(),
                paging.start() as nat,
                project@,
            ));
        }
        Ok(page)
    }

    /// Where the topic of a request stands, and which page is asked for.
    fn locate_page(&self, request: &ListOfTopicRequest) -> (r: Result<(usize, Paging), Status>)
        ensures
            match r {
                Ok((i, paging)) => i < self@.topics.len() && of_topic_asked(self@, *request) == Ok::<
                    (int, usize, nat),
                    StatusView,
                >((i as int, paging.limit(), paging.start() as nat)),
                Err(e) => of_topic_asked(self@, *request) == Err::<(int, usize, nat), StatusView>(
                    e@,
                ),
            },
    {
        let paging = match parser::parse_paging(request.page_size, request.page_token.as_str()) {
            Ok(p) => p,
            Err(e) => {
                return Err(e);
            },
        };
        match self.locate_topic(request.topic.as_str()) {
            Ok(i) => Ok((i, paging)),
            Err(e) => Err(e),
        }
    }

    /// Gives a page of the names of the subscriptions of a topic.
    pub fn list_topic_subscriptions(&self, request: &ListOfTopicRequest) -> (r: Result<
        NamesPage,
        Status,
    >)
        ensures
            match r {
                Ok(page) => of_topic_asked(self@, *request) matches Ok((i, size, offset))
                    && is_names_page(self@.topics[i], page, size, offset),
                Err(e) => of_topic_asked(self@, *request) == Err::<(int, usize, nat), StatusView>(
                    e@,
                ),
            },
    {
        let (at, paging) = match self.locate_page(request) {
            Ok(x) => x,
            Err(e) => {
                return Err(e);
            },
        };
        let listed = self.topic_manager().at(at).list_subscriptions(paging);
        let ghost views = topic::name_views(listed.subscriptions@);
        let mut names: Vec<String> = Vec::new();
        let mut i: usize = 0;
        while i < listed.subscriptions.len()
            invariant
                i <= listed.subscriptions@.len(),
                names@.len() == i,
                views == topic::name_views(listed.subscriptions@),
                forall|j: int|
                    0 <= j < i ==> (#[trigger] names@[j])@
                        == subscription_name::subscription_name_text(views[j]),
            decreases listed.subscriptions@.len() - i,
        {
            names.push(listed.subscriptions[i].to_string());
            i += 1;
        }
        Ok(NamesPage { names, next_page_token: token_text(listed.offset) })
    }

    /// Gives a page of the names of the snapshots of a topic: there are none.
    pub fn list_topic_snapshots(&self, request: &ListOfTopicRequest) -> (r: Result<
        NamesPage,
        Status,
    >)
        ensures
            match r {
                Ok(page) => of_topic_asked(self@, *request) is Ok && page.names@.len() == 0
                    && page.next_page_token@.len() == 0,
                Err(e) => of_topic_asked(self@, *request) == Err::<(int, usize, nat), StatusView>(
                    e@,
                ),
            },
    {
        match self.locate_page(request) {
            Ok(_) => Ok(NamesPage { names: Vec::new(), next_page_token: String::new() }),
            Err(e) => Err(e),
        }
    }
}

} // verus!
