//! The requests to a subscription, and its replies.
use std::sync::Arc;
use vstd::prelude::*;

use crate::subscriptions::ack::{AckId, DeadlineModification};
use crate::subscriptions::info::{PushConfig, SubscriptionInfo, SubscriptionUpdate};
use crate::subscriptions::outstanding;
use crate::subscriptions::state;
use crate::subscriptions::state::SubscriptionState;
use crate::subscriptions::stats::SubscriptionStats;
use crate::subscriptions::subscription_actor::{
    Acknowledged, DeadlinesModified, PullMessagesError, PulledBatch, SubscriptionActor,
};
use crate::subscriptions::subscription_manager;
use crate::time::Instant;
use crate::topics::topic_message::TopicMessage;

verus! {

/// A request to a subscription.
#[derive(Debug)]
pub enum SubscriptionRequest {
    PostMessages { messages: Vec<Arc<TopicMessage>> },
    GetInfo,
    UpdateInfo { update: SubscriptionUpdate },
    PullMessages {
        max_count: u16,
        /// The most messages that may be outstanding after the pull; 0 for no such limit.
        max_outstanding: u16,
    },
    AcknowledgeMessages { ack_ids: Vec<AckId> },
    ModifyDeadline { deadline_modifications: Vec<DeadlineModification> },
    Delete,
    Detach,
    ModifyPushConfig { push_config: Option<PushConfig> },
    GetStats,
}

/// The reply of a subscription to a request.
#[derive(Debug)]
pub enum SubscriptionReply {
    /// Whether one of the messages was taken.
    Posted { messages_available: bool },
    Info { info: SubscriptionInfo },
    Pulled { result: Result<PulledBatch, PullMessagesError> },
    Acknowledged { acknowledged: Acknowledged },
    DeadlinesModified { modified: DeadlinesModified },
    /// Whether the subscription was there until now.
    Deleted { was_there: bool },
    Detached,
    PushConfigModified,
    Stats { stats: SubscriptionStats },
}

/// A subscription after a request.
pub open spec fn received(
    st: SubscriptionState,
    request: SubscriptionRequest,
    now: nat,
) -> SubscriptionState {
    match request {
        SubscriptionRequest::PostMessages { messages } => state::posted(st, messages@),
        SubscriptionRequest::GetInfo => st,
        SubscriptionRequest::UpdateInfo { update } => state::reconfigured(st, update),
        SubscriptionRequest::PullMessages { max_count, max_outstanding } => state::pulled(
            st,
            max_count,
            max_outstanding,
            now,
        ),
        SubscriptionRequest::AcknowledgeMessages { ack_ids } => state::acknowledged(
            st,
            outstanding::id_set(ack_ids@),
        ),
        SubscriptionRequest::ModifyDeadline { deadline_modifications } => state::modified(
            st,
            outstanding::modifications_of(deadline_modifications@),
            now,
        ),
        SubscriptionRequest::Delete => state::deleted(st),
        SubscriptionRequest::Detach => state::detached(st),
        SubscriptionRequest::ModifyPushConfig { push_config } => state::repushed(st, push_config),
        SubscriptionRequest::GetStats => st,
    }
}

/// Whether the reply is the one to the request.
pub open spec fn is_reply(
    before: SubscriptionActor,
    request: SubscriptionRequest,
    now: nat,
    reply: SubscriptionReply,
) -> bool {
    let after = received(before@, request, now);
    match request {
        SubscriptionRequest::PostMessages { messages } => reply
            matches SubscriptionReply::Posted { messages_available } && messages_available == (
        !before@.deleted && exists|i: int|
            0 <= i < messages@.len() && state::passes(before@.filter, *#[trigger] messages@[i])),
        SubscriptionRequest::GetInfo | SubscriptionRequest::UpdateInfo { .. } => reply
            matches SubscriptionReply::Info { info } && info@ == after.info@,
        SubscriptionRequest::PullMessages { max_count, max_outstanding } => reply
            matches SubscriptionReply::Pulled { result } && subscription_manager::pull_answered(
            before@,
            after,
            max_count,
            max_outstanding,
            result,
        ),
        SubscriptionRequest::AcknowledgeMessages { ack_ids } => reply
            matches SubscriptionReply::Acknowledged { acknowledged }
            && subscription_manager::ack_answered(before@, ack_ids@, acknowledged),
        SubscriptionRequest::ModifyDeadline { deadline_modifications } => reply
            matches SubscriptionReply::DeadlinesModified { modified }
            && subscription_manager::modify_answered(
            before@,
            deadline_modifications@,
            now,
            modified,
        ),
        SubscriptionRequest::Delete => reply matches SubscriptionReply::Deleted { was_there }
            && was_there == !before@.deleted,
        SubscriptionRequest::Detach => reply is Detached,
        SubscriptionRequest::ModifyPushConfig { .. } => reply is PushConfigModified,
        SubscriptionRequest::GetStats => reply matches SubscriptionReply::Stats { stats }
            && subscription_manager::subscription_stats_of(
            stats,
            subscription_manager::entry_of(before),
            now,
        ),
    }
}

impl SubscriptionActor {
    /// Does what the request asks for, and replies to it.
    pub fn receive(&mut self, request: SubscriptionRequest, now: Instant) -> (reply:
        SubscriptionReply)
        ensures
            final(self)@ == received(old(self)@, request, now@),
            is_reply(*old(self), request, now@, reply),
            final(self).attached_to() == old(self).attached_to(),
            final(self).number() == old(self).number(),
    {
        match request {
            SubscriptionRequest::PostMessages { messages } => {
                let messages_available = self.post_messages(&messages);
                SubscriptionReply::Posted { messages_available }
            },
            SubscriptionRequest::GetInfo => SubscriptionReply::Info {
                info: self.get_info().clone(),
            },
            SubscriptionRequest::UpdateInfo { update } => {
                self.update_info(update);
                SubscriptionReply::Info { info: self.get_info().clone() }
            },
            SubscriptionRequest::PullMessages { max_count, max_outstanding } => {
                let result = self.pull_messages(max_count, max_outstanding, now);
                SubscriptionReply::Pulled { result }
            },
            SubscriptionRequest::AcknowledgeMessages { ack_ids } => {
                let acknowledged = self.acknowledge_messages(ack_ids);
                SubscriptionReply::Acknowledged { acknowledged }
            },
            SubscriptionRequest::ModifyDeadline { deadline_modifications } => {
                let modified = self.modify_deadline(deadline_modifications, now);
                SubscriptionReply::DeadlinesModified { modified }
            },
            SubscriptionRequest::Delete => {
                let was_there = self.delete();
                SubscriptionReply::Deleted { was_there }
            },
            SubscriptionRequest::Detach => {
                self.detach();
                SubscriptionReply::Detached
            },
            SubscriptionRequest::ModifyPushConfig { push_config } => {
                self.modify_push_config(push_config);
                SubscriptionReply::PushConfigModified
            },
            SubscriptionRequest::GetStats => {
                let stats = self.get_stats(now);
                SubscriptionReply::Stats { stats }
            },
        }
    }
}

} // verus!
