//! Names of topics.
use vstd::prelude::*;

use crate::names;

verus! {

/// The name of a topic, `projects/{project}/topics/{topic}`, or the mark of one that was deleted.
#[derive(Debug, PartialEq, Eq)]
pub enum TopicName {
    Named { project_id: String, topic_id: String },
    Deleted,
}

/// What a [`TopicName`] names.
pub enum TopicNameView {
    Named { project_id: Seq<char>, topic_id: Seq<char> },
    Deleted,
}

/// The text of a topic name.
pub open spec fn topic_name_text(n: TopicNameView) -> Seq<char> {
    match n {
        TopicNameView::Named { project_id, topic_id } => names::name_text(
            project_id,
            "/topics/"@,
            topic_id,
        ),
        TopicNameView::Deleted => "_deleted_topic_"@,
    }
}

/// The topic name that a text of the form `projects/{project}/topics/{topic}` is read as.
pub open spec fn topic_name_read(text: Seq<char>) -> Option<TopicNameView> {
    match names::name_read(text, "/topics/"@) {
        Some((project_id, topic_id)) => Some(TopicNameView::Named { project_id, topic_id }),
        None => None,
    }
}

impl View for TopicName {
    type V = TopicNameView;

    open spec fn view(&self) -> TopicNameView {
        match *self {
            TopicName::Named { project_id, topic_id } => TopicNameView::Named {
                project_id: project_id@,
                topic_id: topic_id@,
            },
            TopicName::Deleted => TopicNameView::Deleted,
        }
    }
}

impl TopicName {
    /// The name of the topic in the project.
    pub fn new(project_id: &str, topic_id: &str) -> (name: TopicName)
        ensures
            name@ == (TopicNameView::Named { project_id: project_id@, topic_id: topic_id@ }),
    {
        TopicName::Named { project_id: project_id.to_owned(), topic_id: topic_id.to_owned() }
    }

    /// The mark of a topic that was deleted.
    pub fn deleted() -> (name: TopicName)
        ensures
            name@ == TopicNameView::Deleted,
    {
        TopicName::Deleted
    }

    /// Reads a name of the form `projects/{project}/topics/{topic}`.
    pub fn try_parse(raw: &str) -> (name: Option<TopicName>)
        ensures
            match name {
                Some(n) => topic_name_read(raw@) == Some(n@),
                None => topic_name_read(raw@) is None,
            },
    {
        proof {
            reveal_strlit("/topics/");
        }
        match names::parse_name(raw, "/topics/") {
            Some((project_id, topic_id)) => Some(TopicName::Named { project_id, topic_id }),
            None => None,
        }
    }

    /// The text of the name.
    pub fn to_string(&self) -> (text: String)
        ensures
            text@ == topic_name_text(self@),
    {
        match self {
            TopicName::Named { project_id, topic_id } => names::write_name(
                project_id.as_str(),
                "/topics/",
                topic_id.as_str(),
            ),
            TopicName::Deleted => "_deleted_topic_".to_owned(),
        }
    }

    /// Whether the two names are the same.
    pub fn same(&self, other: &TopicName) -> (b: bool)
        ensures
            b == (self@ == other@),
    {
        match (self, other) {
            (
                TopicName::Named { project_id: p1, topic_id: t1 },
                TopicName::Named { project_id: p2, topic_id: t2 },
            ) => *p1 == *p2 && *t1 == *t2,
            (TopicName::Deleted, TopicName::Deleted) => true,
            _ => false,
        }
    }
}

impl Clone for TopicName {
    fn clone(&self) -> (name: TopicName)
        ensures
            name == *self,
    {
        match self {
            TopicName::Named { project_id, topic_id } => TopicName::Named {
                project_id: project_id.clone(),
                topic_id: topic_id.clone(),
            },
            TopicName::Deleted => TopicName::Deleted,
        }
    }
}

/// A topic name reads back from its text.
pub proof fn law_topic_name_reads_back(project_id: Seq<char>, topic_id: Seq<char>)
    requires
        !project_id.contains('/'),
    ensures
        ({
            let name = TopicNameView::Named { project_id, topic_id };
            topic_name_read(topic_name_text(name)) == Some(name)
        }),
{
    reveal_strlit("/topics/");
    names::law_name_reads_back(project_id, "/topics/"@, topic_id);
}

} // verus!
