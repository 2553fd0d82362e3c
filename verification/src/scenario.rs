//! What a client does with the messages that it is given when the server is tried out from the
//! outside.
use vstd::prelude::*;

verus! {

/// How a client answers a delivery.
#[derive(Debug, PartialEq, Eq, Structural, Copy, Clone)]
pub enum Answer {
    Ack,
    Nack,
}

/// What a client does on a delivery.
#[derive(Debug, PartialEq, Eq, Structural, Copy, Clone)]
pub struct Move {
    pub answer: Answer,
    /// Whether this was the last delivery that the client waits for.
    pub done: bool,
}

/// A client that refuses the first `nacks` deliveries, and then acknowledges `acks` more.
#[derive(Debug, PartialEq, Eq, Structural, Copy, Clone)]
pub struct Scenario {
    nacks: u32,
    acks: u32,
    seen: u64,
}

/// What such a client does on the delivery that comes after `seen` others.
pub open spec fn move_on(nacks: u32, acks: u32, seen: int) -> Move {
    Move {
        answer: if seen < nacks {
            Answer::Nack
        } else {
            Answer::Ack
        },
        done: seen + 1 >= nacks + acks,
    }
}

impl Scenario {
    /// How many deliveries are refused.
    pub closed spec fn refused(&self) -> u32 {
        self.nacks
    }

    /// How many deliveries are acknowledged after that.
    pub closed spec fn acknowledged(&self) -> u32 {
        self.acks
    }

    /// How many deliveries there were.
    pub closed spec fn count(&self) -> int {
        self.seen as int
    }

    /// A client that has seen no delivery.
    fn new(nacks: u32, acks: u32) -> (s: Scenario)
        ensures
            s.refused() == nacks,
            s.acknowledged() == acks,
            s.count() == 0,
    {
        Scenario { nacks, acks, seen: 0 }
    }

    /// A client that waits for this many messages and acknowledges each.
    pub fn receive_all(messages: u32) -> (s: Scenario)
        ensures
            s.refused() == 0,
            s.acknowledged() == messages,
            s.count() == 0,
    {
        Scenario::new(0, messages)
    }

    /// A client that refuses a message once and acknowledges it when it comes again.
    pub fn retry_once() -> (s: Scenario)
        ensures
            s.refused() == 1,
            s.acknowledged() == 1,
            s.count() == 0,
    {
        Scenario::new(1, 1)
    }

    /// A client that refuses a message until it was delivered as often as it may be.
    pub fn until_dead_lettered(max_delivery_attempts: u32) -> (s: Scenario)
        ensures
            s.refused() == max_delivery_attempts,
            s.acknowledged() == 0,
            s.count() == 0,
    {
        Scenario::new(max_delivery_attempts, 0)
    }

    /// What the client does on the next delivery.
    pub fn on_delivery(&mut self) -> (m: Move)
        requires
            old(self).count() < u64::MAX,
        ensures
            m == move_on(old(self).refused(), old(self).acknowledged(), old(self).count()),
            final(self).refused() == old(self).refused(),
            final(self).acknowledged() == old(self).acknowledged(),
            final(self).count() == old(self).count() + 1,
    {
        let answer = if self.seen < self.nacks as u64 {
            Answer::Nack
        } else {
            Answer::Ack
        };
        self.seen = self.seen + 1;
        let wanted: u64 = self.nacks as u64 + self.acks as u64;
        Move { answer, done: self.seen >= wanted }
    }
}

/// A client refuses as many deliveries as it is to, first of all, and acknowledges every later one.
pub proof fn law_first_deliveries_are_refused(nacks: u32, acks: u32, seen: int)
    requires
        0 <= seen,
    ensures
        seen < nacks <==> move_on(nacks, acks, seen).answer is Nack,
        seen >= nacks <==> move_on(nacks, acks, seen).answer is Ack,
{
}

/// A client is done with the last delivery that it waits for, and not before.
pub proof fn law_done_with_the_last(nacks: u32, acks: u32, seen: int)
    requires
        0 <= seen < nacks + acks,
    ensures
        move_on(nacks, acks, seen).done <==> seen == nacks + acks - 1,
{
}

} // verus!
