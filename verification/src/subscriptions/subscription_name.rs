//! Names of subscriptions.
use vstd::prelude::*;

use crate::names;

verus! {

/// The name of a subscription, `projects/{project}/subscriptions/{subscription}`.
#[derive(Debug, PartialEq, Eq)]
pub struct SubscriptionName {
    project_id: String,
    subscription_id: String,
}

/// What a [`SubscriptionName`] names.
pub struct SubscriptionNameView {
    pub project_id: Seq<char>,
    pub subscription_id: Seq<char>,
}

/// The text of a subscription name.
pub open spec fn subscription_name_text(n: SubscriptionNameView) -> Seq<char> {
    names::name_text(n.project_id, "/subscriptions/"@, n.subscription_id)
}

/// The subscription name that a text of the form
/// `projects/{project}/subscriptions/{subscription}` is read as.
pub open spec fn subscription_name_read(text: Seq<char>) -> Option<SubscriptionNameView> {
    match names::name_read(text, "/subscriptions/"@) {
        Some((project_id, subscription_id)) => Some(
            SubscriptionNameView { project_id, subscription_id },
        ),
        None => None,
    }
}

impl View for SubscriptionName {
    type V = SubscriptionNameView;

    closed spec fn view(&self) -> SubscriptionNameView {
        SubscriptionNameView {
            project_id: self.project_id@,
            subscription_id: self.subscription_id@,
        }
    }
}

impl SubscriptionName {
    /// The name of the subscription in the project.
    pub fn new(project_id: &str, subscription_id: &str) -> (name: SubscriptionName)
        ensures
            name@ == (SubscriptionNameView {
                project_id: project_id@,
                subscription_id: subscription_id@,
            }),
    {
        SubscriptionName {
            project_id: project_id.to_owned(),
            subscription_id: subscription_id.to_owned(),
        }
    }

    /// Reads a name of the form `projects/{project}/subscriptions/{subscription}`.
    pub fn try_parse(raw: &str) -> (name: Option<SubscriptionName>)
        ensures
            match name {
                Some(n) => subscription_name_read(raw@) == Some(n@),
                None => subscription_name_read(raw@) is None,
            },
    {
        proof {
            reveal_strlit("/subscriptions/");
        }
        match names::parse_name(raw, "/subscriptions/") {
            Some((project_id, subscription_id)) => Some(
                SubscriptionName { project_id, subscription_id },
            ),
            None => None,
        }
    }

    /// The project.
    pub fn project_id(&self) -> (id: &str)
        ensures
            id@ == self@.project_id,
    {
        self.project_id.as_str()
    }

    /// The id in the project.
    pub fn subscription_id(&self) -> (id: &str)
        ensures
            id@ == self@.subscription_id,
    {
        self.subscription_id.as_str()
    }

    /// The text of the name.
    pub fn to_string(&self) -> (text: String)
        ensures
            text@ == subscription_name_text(self@),
    {
        names::write_name(
            self.project_id.as_str(),
            "/subscriptions/",
            self.subscription_id.as_str(),
        )
    }

    /// Whether the two names are the same.
    pub fn same(&self, other: &SubscriptionName) -> (b: bool)
        ensures
            b == (self@ == other@),
    {
        self.project_id == other.project_id && self.subscription_id == other.subscription_id
    }
}

impl Clone for SubscriptionName {
    fn clone(&self) -> (name: SubscriptionName)
        ensures
            name == *self,
    {
        SubscriptionName {
            project_id: self.project_id.clone(),
            subscription_id: self.subscription_id.clone(),
        }
    }
}

/// A subscription name reads back from its text.
pub proof fn law_subscription_name_reads_back(name: SubscriptionNameView)
    requires
        !name.project_id.contains('/'),
    ensures
        subscription_name_read(subscription_name_text(name)) == Some(name),
{
    reveal_strlit("/subscriptions/");
    names::law_name_reads_back(name.project_id, "/subscriptions/"@, name.subscription_id);
}

} // verus!
