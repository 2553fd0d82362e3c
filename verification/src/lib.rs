//! The core of a Pub/Sub emulator: topics, subscriptions, filters, retry and
//! dead-letter policies, and the metrics that describe them.
pub mod api;
pub mod collections;
pub mod message_data;
pub mod metrics;
pub mod names;
pub mod paging;
pub mod push;
pub mod scenario;
pub mod subscriptions;
pub mod text;
pub mod time;
pub mod time_laws;
pub mod topics;

use vstd::prelude::*;

use crate::api::subscriber::SubscriberService;
use crate::metrics::render::MetricsReport;
use crate::metrics::service;
use crate::metrics::service::MetricsService;
use crate::push::metrics::PushMetrics;
use crate::push::push_loop::PushLoop;
use crate::subscriptions::subscription_manager::SubscriptionManager;
use crate::time::{Duration, Instant, SystemTime};
use crate::topics::topic_manager::TopicManager;

verus! {

/// The server and its parts.
#[derive(Debug)]
pub struct Deltio {
    /// The topics and subscriptions, and what clients can do with them.
    pub service: SubscriberService,
    /// The figures on pushes.
    pub push_metrics: PushMetrics,
    /// Collects the metrics. It is made with the server, so that the start that it tells of stays
    /// the same.
    pub metrics_service: MetricsService,
}

impl Deltio {
    /// A server that starts at this time, with no topics and no subscriptions.
    pub fn new(started: SystemTime) -> (d: Deltio)
        ensures
            d.service@.topics.len() == 0,
            d.service@.subscriptions.len() == 0,
            d.service@.pushes.is_empty(),
            d.service@.next_topic == 1,
            d.service@.next_subscription == 1,
            d.push_metrics@ == push::metrics::no_counts(),
            d.metrics_service.started() == service::epoch_seconds(started@),
    {
        Deltio {
            service: SubscriberService::new(TopicManager::new(), SubscriptionManager::new()),
            push_metrics: PushMetrics::new(),
            metrics_service: MetricsService::new(started),
        }
    }

    /// The service that collects the metrics.
    pub fn metrics_service(&self) -> (m: &MetricsService)
        ensures
            *m == self.metrics_service,
    {
        &self.metrics_service
    }

    /// The figures on what the server holds at this moment.
    pub fn collect_metrics(&self, now: Instant) -> (report: MetricsReport)
        ensures
            service::is_report(
                report,
                self.service@,
                self.push_metrics@,
                self.metrics_service.started(),
                now@,
            ),
    {
        self.metrics_service.collect(&self.service, &self.push_metrics, now)
    }

    /// A push loop with this interval and limit.
    pub fn push_loop(&self, interval: Duration, max_concurrency: usize) -> (l: PushLoop)
        ensures
            l == (PushLoop { interval, max_concurrency }),
    {
        PushLoop::new(interval, max_concurrency)
    }
}

} // verus!
