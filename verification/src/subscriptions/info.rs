//! What a subscription is configured to do.
use vstd::prelude::*;

use crate::collections::StringMap;
use crate::subscriptions::policies::{
    DeadLetterPolicy, DeadLetterPolicyView, RetryPolicy, RetryPolicyView,
};
use crate::subscriptions::subscription_name::{SubscriptionName, SubscriptionNameView};
use crate::time::Duration;

verus! {

/// The token that pushed requests carry.
#[derive(Debug)]
pub struct PushConfigOidcToken {
    pub audience: String,
    pub service_account_email: String,
}

impl Clone for PushConfigOidcToken {
    fn clone(&self) -> (t: PushConfigOidcToken)
        ensures
            t == *self,
    {
        PushConfigOidcToken {
            audience: self.audience.clone(),
            service_account_email: self.service_account_email.clone(),
        }
    }
}

/// Where a subscription pushes its messages.
#[derive(Debug)]
pub struct PushConfig {
    pub endpoint: String,
    pub oidc_token: Option<PushConfigOidcToken>,
    pub attributes: Option<StringMap>,
}

/// What a [`PushConfig`] says.
pub struct PushConfigView {
    pub endpoint: Seq<char>,
    pub oidc_token: Option<PushConfigOidcToken>,
    pub attributes: Option<Map<Seq<char>, Seq<char>>>,
}

impl View for PushConfig {
    type V = PushConfigView;

    open spec fn view(&self) -> PushConfigView {
        PushConfigView {
            endpoint: self.endpoint@,
            oidc_token: self.oidc_token,
            attributes: match self.attributes {
                Some(a) => Some(a@),
                None => None,
            },
        }
    }
}

impl PushConfig {
    /// A push config of these parts.
    pub fn new(
        endpoint: String,
        oidc_token: Option<PushConfigOidcToken>,
        attributes: Option<StringMap>,
    ) -> (c: PushConfig)
        ensures
            c == (PushConfig { endpoint, oidc_token, attributes }),
    {
        PushConfig { endpoint, oidc_token, attributes }
    }
}

impl Clone for PushConfig {
    fn clone(&self) -> (c: PushConfig)
        ensures
            c@ == self@,
    {
        PushConfig {
            endpoint: self.endpoint.clone(),
            oidc_token: match &self.oidc_token {
                Some(t) => Some(t.clone()),
                None => None,
            },
            attributes: match &self.attributes {
                Some(a) => Some(a.clone()),
                None => None,
            },
        }
    }
}

/// What a subscription is configured to do.
#[derive(Debug)]
pub struct SubscriptionInfo {
    pub name: SubscriptionName,
    /// How long a delivered message may stay unacknowledged.
    pub ack_deadline: Duration,
    /// Where messages are pushed; none for a subscription that is pulled from.
    pub push_config: Option<PushConfig>,
    pub retry_policy: Option<RetryPolicy>,
    pub dead_letter_policy: Option<DeadLetterPolicy>,
    /// How old a message may become before it is dropped.
    pub message_retention_duration: Option<Duration>,
    /// Whether messages of one ordering key are delivered one at a time, in order.
    pub enable_message_ordering: bool,
    /// Whether acknowledgements are confirmed.
    pub enable_exactly_once_delivery: bool,
    /// The filter that messages have to match.
    pub filter: Option<String>,
    /// Whether the subscription was detached from its topic.
    pub detached: bool,
}

impl Clone for SubscriptionInfo {
    fn clone(&self) -> (info: SubscriptionInfo)
        ensures
            info@ == self@,
    {
        SubscriptionInfo {
            name: self.name.clone(),
            ack_deadline: self.ack_deadline,
            push_config: match &self.push_config {
                Some(c) => Some(c.clone()),
                None => None,
            },
            retry_policy: self.retry_policy,
            dead_letter_policy: match &self.dead_letter_policy {
                Some(p) => Some(p.clone()),
                None => None,
            },
            message_retention_duration: self.message_retention_duration,
            enable_message_ordering: self.enable_message_ordering,
            enable_exactly_once_delivery: self.enable_exactly_once_delivery,
            filter: match &self.filter {
                Some(f) => Some(f.clone()),
                None => None,
            },
            detached: self.detached,
        }
    }
}

/// The deadline where none is asked for, in seconds.
pub const DEFAULT_ACK_DEADLINE_SECS: u64 = 10;

impl SubscriptionInfo {
    /// A configuration of these parts, with no retention, ordering, confirmation or filter.
    pub fn new(
        name: SubscriptionName,
        ack_deadline: Duration,
        push_config: Option<PushConfig>,
        retry_policy: Option<RetryPolicy>,
        dead_letter_policy: Option<DeadLetterPolicy>,
    ) -> (info: SubscriptionInfo)
        ensures
            info == (SubscriptionInfo {
                name,
                ack_deadline,
                push_config,
                retry_policy,
                dead_letter_policy,
                message_retention_duration: None,
                enable_message_ordering: false,
                enable_exactly_once_delivery: false,
                filter: None,
                detached: false,
            }),
    {
        SubscriptionInfo {
            name,
            ack_deadline,
            push_config,
            retry_policy,
            dead_letter_policy,
            message_retention_duration: None,
            enable_message_ordering: false,
            enable_exactly_once_delivery: false,
            filter: None,
            detached: false,
        }
    }

    /// The configuration of a subscription for which nothing but the name was given.
    pub fn new_with_defaults(name: SubscriptionName) -> (info: SubscriptionInfo)
        ensures
            info.name == name,
            info.ack_deadline@ == 10_000_000_000,
            info.push_config is None,
            info.retry_policy is None,
            info.dead_letter_policy is None,
            info.message_retention_duration is None,
            !info.enable_message_ordering,
            !info.enable_exactly_once_delivery,
            info.filter is None,
            !info.detached,
    {
        SubscriptionInfo::new(
            name,
            Duration::from_secs(DEFAULT_ACK_DEADLINE_SECS),
            None,
            None,
            None,
        )
    }

    /// Sets what the update names and keeps the rest.
    pub fn apply_update(&mut self, update: SubscriptionUpdate)
        ensures
            *final(self) == updated(*old(self), update),
    {
        if let Some(ack_deadline) = update.ack_deadline {
            self.ack_deadline = ack_deadline;
        }
        if let Some(retry_policy) = update.retry_policy {
            self.retry_policy = retry_policy;
        }
        if let Some(dead_letter_policy) = update.dead_letter_policy {
            self.dead_letter_policy = dead_letter_policy;
        }
        if let Some(retention) = update.message_retention_duration {
            self.message_retention_duration = retention;
        }
        if let Some(enabled) = update.enable_exactly_once_delivery {
            self.enable_exactly_once_delivery = enabled;
        }
    }
}

/// A change of a [`SubscriptionInfo`]. What is `None` stays; of what can be absent, `Some(None)`
/// takes it away.
#[derive(Debug)]
pub struct SubscriptionUpdate {
    pub ack_deadline: Option<Duration>,
    pub retry_policy: Option<Option<RetryPolicy>>,
    pub dead_letter_policy: Option<Option<DeadLetterPolicy>>,
    pub message_retention_duration: Option<Option<Duration>>,
    pub enable_exactly_once_delivery: Option<bool>,
}

impl Default for SubscriptionUpdate {
    fn default() -> (u: SubscriptionUpdate)
        ensures
            u == no_update(),
    {
        SubscriptionUpdate {
            ack_deadline: None,
            retry_policy: None,
            dead_letter_policy: None,
            message_retention_duration: None,
            enable_exactly_once_delivery: None,
        }
    }
}

/// The update that changes nothing.
pub open spec fn no_update() -> SubscriptionUpdate {
    SubscriptionUpdate {
        ack_deadline: None,
        retry_policy: None,
        dead_letter_policy: None,
        message_retention_duration: None,
        enable_exactly_once_delivery: None,
    }
}

/// The value that an update gives a field, or the one that it had.
pub open spec fn or_kept<T>(update: Option<T>, value: T) -> T {
    match update {
        Some(v) => v,
        None => value,
    }
}

/// A configuration after an update.
pub open spec fn updated(info: SubscriptionInfo, update: SubscriptionUpdate) -> SubscriptionInfo {
    SubscriptionInfo {
        ack_deadline: or_kept(update.ack_deadline, info.ack_deadline),
        retry_policy: or_kept(update.retry_policy, info.retry_policy),
        dead_letter_policy: or_kept(update.dead_letter_policy, info.dead_letter_policy),
        message_retention_duration: or_kept(
            update.message_retention_duration,
            info.message_retention_duration,
        ),
        enable_exactly_once_delivery: or_kept(
            update.enable_exactly_once_delivery,
            info.enable_exactly_once_delivery,
        ),
        ..info
    }
}

/// An update that names nothing changes nothing, and an update made twice changes no more than
/// made once.
pub proof fn law_update_is_idempotent(info: SubscriptionInfo, update: SubscriptionUpdate)
    ensures
        updated(info, no_update()) == info,
        updated(updated(info, update), update) == updated(info, update),
{
}

/// What a [`SubscriptionUpdate`] changes, with spans in nanoseconds.
pub struct UpdateView {
    pub ack_deadline: Option<nat>,
    pub retry_policy: Option<Option<RetryPolicyView>>,
    pub dead_letter_policy: Option<Option<DeadLetterPolicyView>>,
    pub message_retention_duration: Option<Option<nat>>,
    pub enable_exactly_once_delivery: Option<bool>,
}

/// The view of a retry policy, where there is one.
pub open spec fn retry_view(p: Option<RetryPolicy>) -> Option<RetryPolicyView> {
    match p {
        Some(p) => Some(p@),
        None => None,
    }
}

/// The view of a dead letter policy, where there is one.
pub open spec fn dead_letter_view(p: Option<DeadLetterPolicy>) -> Option<DeadLetterPolicyView> {
    match p {
        Some(p) => Some(p@),
        None => None,
    }
}

/// The nanoseconds of a span, where there is one.
pub open spec fn span_view(d: Option<Duration>) -> Option<nat> {
    match d {
        Some(d) => Some(d@),
        None => None,
    }
}

impl View for SubscriptionUpdate {
    type V = UpdateView;

    open spec fn view(&self) -> UpdateView {
        UpdateView {
            ack_deadline: span_view(self.ack_deadline),
            retry_policy: match self.retry_policy {
                Some(p) => Some(retry_view(p)),
                None => None,
            },
            dead_letter_policy: match self.dead_letter_policy {
                Some(p) => Some(dead_letter_view(p)),
                None => None,
            },
            message_retention_duration: match self.message_retention_duration {
                Some(d) => Some(span_view(d)),
                None => None,
            },
            enable_exactly_once_delivery: self.enable_exactly_once_delivery,
        }
    }
}

/// What a [`SubscriptionInfo`] says, with spans in nanoseconds.
pub struct InfoView {
    pub name: SubscriptionNameView,
    pub ack_deadline: nat,
    pub push_config: Option<PushConfigView>,
    pub retry_policy: Option<RetryPolicyView>,
    pub dead_letter_policy: Option<DeadLetterPolicyView>,
    pub message_retention_duration: Option<nat>,
    pub enable_message_ordering: bool,
    pub enable_exactly_once_delivery: bool,
    pub filter: Option<Seq<char>>,
    pub detached: bool,
}

/// The view of a push config, where there is one.
pub open spec fn push_view(c: Option<PushConfig>) -> Option<PushConfigView> {
    match c {
        Some(c) => Some(c@),
        None => None,
    }
}

/// The characters of a text, where there is one.
pub open spec fn text_view(s: Option<String>) -> Option<Seq<char>> {
    match s {
        Some(s) => Some(s@),
        None => None,
    }
}

impl View for SubscriptionInfo {
    type V = InfoView;

    open spec fn view(&self) -> InfoView {
        InfoView {
            name: self.name@,
            ack_deadline: self.ack_deadline@,
            push_config: push_view(self.push_config),
            retry_policy: retry_view(self.retry_policy),
            dead_letter_policy: dead_letter_view(self.dead_letter_policy),
            message_retention_duration: span_view(self.message_retention_duration),
            enable_message_ordering: self.enable_message_ordering,
            enable_exactly_once_delivery: self.enable_exactly_once_delivery,
            filter: text_view(self.filter),
            detached: self.detached,
        }
    }
}

/// What an updated configuration says.
pub open spec fn updated_view(info: InfoView, update: UpdateView) -> InfoView {
    InfoView {
        ack_deadline: or_kept(update.ack_deadline, info.ack_deadline),
        retry_policy: or_kept(update.retry_policy, info.retry_policy),
        dead_letter_policy: or_kept(update.dead_letter_policy, info.dead_letter_policy),
        message_retention_duration: or_kept(
            update.message_retention_duration,
            info.message_retention_duration,
        ),
        enable_exactly_once_delivery: or_kept(
            update.enable_exactly_once_delivery,
            info.enable_exactly_once_delivery,
        ),
        ..info
    }
}

/// An updated configuration says what the update says, and else what it said before.
pub proof fn law_update_says_what_it_sets(info: SubscriptionInfo, update: SubscriptionUpdate)
    ensures
        updated(info, update)@ == updated_view(info@, update@),
{
}

} // verus!
