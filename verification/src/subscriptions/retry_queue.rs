//! Messages that wait before they are delivered again.
use std::sync::Arc;
use vstd::prelude::*;

use crate::collections;
use crate::time::Instant;
use crate::topics::topic_message::{share, TopicMessage};

verus! {

/// A message that waits, and until when.
#[derive(Debug)]
pub struct Waiting {
    pub message: Arc<TopicMessage>,
    pub deliver_at: Instant,
}

/// A message that waits, with the time as nanoseconds of the monotonic clock.
pub struct Retry {
    pub message: Arc<TopicMessage>,
    pub deliver_at: nat,
}

impl View for Waiting {
    type V = Retry;

    open spec fn view(&self) -> Retry {
        Retry { message: self.message, deliver_at: self.deliver_at@ }
    }
}

/// The retries whose wait is over.
pub open spec fn due(s: Seq<Retry>, now: nat) -> Seq<Retry> {
    collections::select(s, |r: Retry| r.deliver_at <= now)
}

/// The retries whose wait is not over.
pub open spec fn not_due(s: Seq<Retry>, now: nat) -> Seq<Retry> {
    collections::select(s, |r: Retry| now < r.deliver_at)
}

/// The messages of retries.
pub open spec fn retry_messages(s: Seq<Retry>) -> Seq<Arc<TopicMessage>> {
    Seq::new(s.len(), |i: int| s[i].message)
}

/// Messages that wait before they are delivered again.
#[derive(Debug)]
pub struct RetryQueue {
    waiting: Vec<Waiting>,
}

impl View for RetryQueue {
    type V = Seq<Retry>;

    closed spec fn view(&self) -> Seq<Retry> {
        Seq::new(self.waiting@.len(), |i: int| self.waiting@[i]@)
    }
}

impl RetryQueue {
    /// Nothing waits.
    pub fn new() -> (q: RetryQueue)
        ensures
            q@ == Seq::<Retry>::empty(),
    {
        let q = RetryQueue { waiting: Vec::new() };
        assert(q@ =~= Seq::<Retry>::empty());
        q
    }

    /// How many messages wait.
    pub fn len(&self) -> (n: usize)
        ensures
            n == self@.len(),
    {
        self.waiting.len()
    }

    /// Lets a message wait.
    pub fn push(&mut self, message: Arc<TopicMessage>, deliver_at: Instant)
        ensures
            final(self)@ == old(self)@.push(Retry { message, deliver_at: deliver_at@ }),
    {
        self.waiting.push(Waiting { message, deliver_at });
        assert(self@ =~= old(self)@.push(Retry { message, deliver_at: deliver_at@ }));
    }

    /// Nothing waits any more.
    pub fn clear(&mut self)
        ensures
            final(self)@ == Seq::<Retry>::empty(),
    {
        *self = RetryQueue::new();
    }

    /// The message that waits at this place.
    pub fn get(&self, i: usize) -> (message: &Arc<TopicMessage>)
        requires
            i < self@.len(),
        ensures
            *message == self@[i as int].message,
    {
        &self.waiting[i].message
    }

    /// Takes out the messages whose wait is over.
    pub fn take_ready(&mut self, now: Instant) -> (ready: Vec<Arc<TopicMessage>>)
        ensures
            ready@ == retry_messages(due(old(self)@, now@)),
            final(self)@ == not_due(old(self)@, now@),
    {
        let mut rest = RetryQueue::new();
        let mut ready: Vec<Arc<TopicMessage>> = Vec::new();
        let mut i: usize = 0;
        let ghost at = now@;
        assert(self@.take(0) =~= Seq::<Retry>::empty());
        assert(ready@ =~= retry_messages(due(self@.take(0), at)));
        while i < self.waiting.len()
            invariant
                i <= self.waiting@.len(),
                *self == *old(self),
                at == now@,
                ready@ == retry_messages(due(self@.take(i as int), at)),
                rest@ == not_due(self@.take(i as int), at),
            decreases self.waiting@.len() - i,
        {
            proof {
                collections::lemma_select_step(self@, |r: Retry| r.deliver_at <= at, i as int);
                collections::lemma_select_step(self@, |r: Retry| at < r.deliver_at, i as int);
            }
            let ghost before = due(self@.take(i as int), at);
            let message = share(&self.waiting[i].message);
            let deliver_at = self.waiting[i].deliver_at;
            assert(self@[i as int] == (Retry { message, deliver_at: deliver_at@ }));
            if deliver_at.reached_by(now) {
                ready.push(message);
                assert(ready@ =~= retry_messages(before.push(self@[i as int])));
            } else {
                rest.push(message, deliver_at);
            }
            i += 1;
        }
        assert(self@.take(self@.len() as int) =~= self@);
        *self = rest;
        ready
    }

    /// When the first wait is over.
    pub fn next_ready(&self) -> (next: Option<Instant>)
        ensures
            match next {
                Some(t) => (exists|i: int| 0 <= i < self@.len() && #[trigger] self@[i].deliver_at
                    == t@) && (forall|i: int|
                    0 <= i < self@.len() ==> t@ <= (#[trigger] self@[i]).deliver_at),
                None => self@.len() == 0,
            },
    {
        if self.waiting.len() == 0 {
            return None;
        }
        let mut next = self.waiting[0].deliver_at;
        let mut i: usize = 1;
        assert(self@[0].deliver_at == next@);
        while i < self.waiting.len()
            invariant
                1 <= i <= self.waiting@.len(),
                exists|j: int| 0 <= j < i && (#[trigger] self@[j]).deliver_at == next@,
                forall|j: int| 0 <= j < i ==> next@ <= (#[trigger] self@[j]).deliver_at,
            decreases self.waiting@.len() - i,
        {
            let time = self.waiting[i].deliver_at;
            assert(self@[i as int].deliver_at == time@);
            if !next.reached_by(time) {
                next = time;
            }
            i += 1;
        }
        Some(next)
    }
}

} // verus!
