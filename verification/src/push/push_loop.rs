//! Settings for sending out the messages of push subscriptions.
use vstd::prelude::*;

use crate::time::Duration;

verus! {

/// How the messages of push subscriptions are to be sent out: how often to look for some, and how
/// many requests may be under way. These are settings only; nothing is sent here.
#[derive(Debug, Copy, Clone)]
pub struct PushLoop {
    pub interval: Duration,
    pub max_concurrency: usize,
}

impl PushLoop {
    /// The settings with this interval and limit.
    pub fn new(interval: Duration, max_concurrency: usize) -> (l: PushLoop)
        ensures
            l == (PushLoop { interval, max_concurrency }),
    {
        PushLoop { interval, max_concurrency }
    }
}

} // verus!
