//! Messages that were delivered and are not acknowledged yet.
use vstd::prelude::*;

use crate::collections;
use crate::subscriptions::ack::{AckDeadline, AckId, Delivery, DeadlineModification, Modification, PulledMessage};
use crate::time::Instant;

verus! {

/// The values of ack ids.
pub open spec fn id_set(ids: Seq<AckId>) -> Set<u64> {
    Set::new(|v: u64| exists|i: int| 0 <= i < ids.len() && #[trigger] ids[i].value == v)
}

/// The deliveries with these ids.
pub open spec fn named(s: Seq<Delivery>, ids: Set<u64>) -> Seq<Delivery> {
    collections::select(s, |d: Delivery| ids.contains(d.ack_id))
}

/// The deliveries without these ids.
pub open spec fn not_named(s: Seq<Delivery>, ids: Set<u64>) -> Seq<Delivery> {
    collections::select(s, |d: Delivery| !ids.contains(d.ack_id))
}

/// The deliveries whose deadline has come.
pub open spec fn overdue(s: Seq<Delivery>, now: nat) -> Seq<Delivery> {
    collections::select(s, |d: Delivery| d.deadline <= now)
}

/// The deliveries whose deadline is still to come.
pub open spec fn in_time(s: Seq<Delivery>, now: nat) -> Seq<Delivery> {
    collections::select(s, |d: Delivery| now < d.deadline)
}

/// Whether a message with this id is delivered.
pub open spec fn is_delivered(s: Seq<Delivery>, id: u64) -> bool {
    exists|i: int| 0 <= i < s.len() && #[trigger] s[i].ack_id == id
}

/// The deliveries with the deadline of one of them moved.
pub open spec fn with_deadline(s: Seq<Delivery>, id: u64, deadline: nat) -> Seq<Delivery> {
    Seq::new(
        s.len(),
        |i: int|
            if s[i].ack_id == id {
                Delivery { deadline, ..s[i] }
            } else {
                s[i]
            },
    )
}

/// What is still delivered after modifications made in turn, and what they returned.
pub open spec fn modified(s: Seq<Delivery>, modifications: Seq<Modification>) -> (
    Seq<Delivery>,
    Seq<Delivery>,
)
    decreases modifications.len(),
{
    if modifications.len() == 0 {
        (s, Seq::empty())
    } else {
        let (kept, returned) = modified(s, modifications.drop_last());
        let m = modifications.last();
        match m.new_deadline {
            Some(deadline) => (with_deadline(kept, m.ack_id, deadline), returned),
            None => (
                not_named(kept, set![m.ack_id]),
                returned + named(kept, set![m.ack_id]),
            ),
        }
    }
}

/// The views of delivered messages.
pub open spec fn deliveries(messages: Seq<PulledMessage>) -> Seq<Delivery> {
    Seq::new(messages.len(), |i: int| messages[i]@)
}

/// The views of deadline modifications.
pub open spec fn modifications_of(modifications: Seq<DeadlineModification>) -> Seq<Modification> {
    Seq::new(modifications.len(), |i: int| modifications[i]@)
}

/// Whether the id is one of the ids.
pub fn has_id(ids: &Vec<AckId>, id: AckId) -> (b: bool)
    ensures
        b == id_set(ids@).contains(id.value),
{
    let mut i: usize = 0;
    while i < ids.len()
        invariant
            i <= ids@.len(),
            forall|j: int| 0 <= j < i ==> (#[trigger] ids@[j]).value != id.value,
        decreases ids@.len() - i,
    {
        if ids[i].value == id.value {
            return true;
        }
        i += 1;
    }
    false
}

/// Tracks the messages that were delivered and are not acknowledged yet.
#[derive(Debug)]
pub struct OutstandingMessageTracker {
    messages: Vec<PulledMessage>,
}

impl View for OutstandingMessageTracker {
    type V = Seq<Delivery>;

    closed spec fn view(&self) -> Seq<Delivery> {
        deliveries(self.messages@)
    }
}

impl OutstandingMessageTracker {
    /// Tracks nothing yet.
    pub fn new() -> (t: OutstandingMessageTracker)
        ensures
            t@ == Seq::<Delivery>::empty(),
    {
        let t = OutstandingMessageTracker { messages: Vec::new() };
        assert(t@ =~= Seq::<Delivery>::empty());
        t
    }

    /// How many messages are delivered.
    pub fn len(&self) -> (n: usize)
        ensures
            n == self@.len(),
    {
        self.messages.len()
    }

    /// Tracks a delivered message.
    pub fn push(&mut self, message: PulledMessage)
        ensures
            final(self)@ == old(self)@.push(message@),
    {
        self.messages.push(message);
        assert(self@ =~= old(self)@.push(message@));
    }

    /// Tracks nothing any more.
    pub fn clear(&mut self)
        ensures
            final(self)@ == Seq::<Delivery>::empty(),
    {
        *self = OutstandingMessageTracker::new();
    }

    /// The delivered message at this place.
    pub fn get(&self, i: usize) -> (m: &PulledMessage)
        requires
            i < self@.len(),
        ensures
            m@ == self@[i as int],
    {
        &self.messages[i]
    }

    /// Whether a message with this id is delivered.
    pub fn contains(&self, id: &AckId) -> (b: bool)
        ensures
            b == is_delivered(self@, id.value),
    {
        let mut i: usize = 0;
        while i < self.messages.len()
            invariant
                i <= self.messages@.len(),
                forall|j: int| 0 <= j < i ==> (#[trigger] self@[j]).ack_id != id.value,
            decreases self.messages@.len() - i,
        {
            if self.messages[i].ack_id.value == id.value {
                assert(self@[i as int].ack_id == id.value);
                return true;
            }
            i += 1;
        }
        false
    }

    /// Takes out the messages with these ids.
    pub fn remove(&mut self, ids: &Vec<AckId>) -> (removed: Vec<PulledMessage>)
        ensures
            deliveries(removed@) == named(old(self)@, id_set(ids@)),
            final(self)@ == not_named(old(self)@, id_set(ids@)),
    {
        let mut kept: Vec<PulledMessage> = Vec::new();
        let mut removed: Vec<PulledMessage> = Vec::new();
        let mut i: usize = 0;
        let ghost set = id_set(ids@);
        assert(self@.take(0) =~= Seq::<Delivery>::empty());
        assert(deliveries(kept@) =~= Seq::<Delivery>::empty());
        assert(deliveries(removed@) =~= Seq::<Delivery>::empty());
        while i < self.messages.len()
            invariant
                i <= self.messages@.len(),
                *self == *old(self),
                set == id_set(ids@),
                deliveries(removed@) == named(self@.take(i as int), set),
                deliveries(kept@) == not_named(self@.take(i as int), set),
            decreases self.messages@.len() - i,
        {
            proof {
                collections::lemma_select_step(
                    self@,
                    |d: Delivery| set.contains(d.ack_id),
                    i as int,
                );
                collections::lemma_select_step(
                    self@,
                    |d: Delivery| !set.contains(d.ack_id),
                    i as int,
                );
            }
            let ghost kept_before = kept@;
            let ghost removed_before = removed@;
            let message = self.messages[i].clone();
            assert(message@ == self@[i as int]);
            if has_id(ids, message.ack_id) {
                removed.push(message);
                assert(deliveries(removed@) =~= deliveries(removed_before).push(self@[i as int]));
            } else {
                kept.push(message);
                assert(deliveries(kept@) =~= deliveries(kept_before).push(self@[i as int]));
            }
            i += 1;
        }
        assert(self@.take(self@.len() as int) =~= self@);
        self.messages = kept;
        removed
    }

    /// Moves the deadline of the message with this id.
    fn set_deadline(&mut self, id: AckId, deadline: AckDeadline)
        ensures
            final(self)@ == with_deadline(old(self)@, id.value, deadline.time@),
    {
        let mut i: usize = 0;
        let ghost before = self@;
        while i < self.messages.len()
            invariant
                i <= self.messages@.len(),
                self@.len() == before.len(),
                forall|j: int|
                    0 <= j < i ==> self@[j] == with_deadline(before, id.value, deadline.time@)[j],
                forall|j: int| i <= j < before.len() ==> self@[j] == before[j],
            decreases self.messages@.len() - i,
        {
            if self.messages[i].ack_id.value == id.value {
                assert(self@[i as int] == before[i as int]);
                let ghost current = self@;
                self.messages[i].deadline = deadline;
                assert(self@ =~= current.update(
                    i as int,
                    Delivery { deadline: deadline.time@, ..before[i as int] },
                ));
            }
            i += 1;
        }
        assert(self@ =~= with_deadline(before, id.value, deadline.time@));
    }

    /// Makes the modifications in turn, and takes out the messages that they return.
    pub fn modify(&mut self, modifications: &Vec<DeadlineModification>) -> (returned: Vec<
        PulledMessage,
    >)
        ensures
            final(self)@ == modified(old(self)@, modifications_of(modifications@)).0,
            deliveries(returned@) == modified(old(self)@, modifications_of(modifications@)).1,
    {
        let mut returned: Vec<PulledMessage> = Vec::new();
        let mut i: usize = 0;
        let ghost all = modifications_of(modifications@);
        assert(all.take(0) =~= Seq::<Modification>::empty());
        assert(deliveries(returned@) =~= Seq::<Delivery>::empty());
        while i < modifications.len()
            invariant
                i <= modifications@.len(),
                all == modifications_of(modifications@),
                self@ == modified(old(self)@, all.take(i as int)).0,
                deliveries(returned@) == modified(old(self)@, all.take(i as int)).1,
            decreases modifications@.len() - i,
        {
            assert(all.take(i + 1).drop_last() =~= all.take(i as int));
            let m = modifications[i];
            assert(m@ == all[i as int]);
            match m.new_deadline {
                Some(deadline) => {
                    self.set_deadline(m.ack_id, deadline);
                },
                None => {
                    let ids = vec![m.ack_id];
                    assert(ids@[0] == m.ack_id);
                    assert(id_set(ids@) =~= set![m.ack_id.value]);
                    let mut removed = self.remove(&ids);
                    let ghost before = returned@;
                    let ghost more = removed@;
                    returned.append(&mut removed);
                    assert(deliveries(returned@) =~= deliveries(before) + deliveries(more));
                },
            }
            i += 1;
        }
        assert(all.take(all.len() as int) =~= all);
        returned
    }

    /// Takes out the messages whose deadline has come.
    pub fn take_expired(&mut self, now: Instant) -> (expired: Vec<PulledMessage>)
        ensures
            deliveries(expired@) == overdue(old(self)@, now@),
            final(self)@ == in_time(old(self)@, now@),
    {
        let mut kept: Vec<PulledMessage> = Vec::new();
        let mut expired: Vec<PulledMessage> = Vec::new();
        let mut i: usize = 0;
        let ghost at = now@;
        assert(self@.take(0) =~= Seq::<Delivery>::empty());
        assert(deliveries(kept@) =~= Seq::<Delivery>::empty());
        assert(deliveries(expired@) =~= Seq::<Delivery>::empty());
        while i < self.messages.len()
            invariant
                i <= self.messages@.len(),
                *self == *old(self),
                at == now@,
                deliveries(expired@) == overdue(self@.take(i as int), at),
                deliveries(kept@) == in_time(self@.take(i as int), at),
            decreases self.messages@.len() - i,
        {
            proof {
                collections::lemma_select_step(self@, |d: Delivery| d.deadline <= at, i as int);
                collections::lemma_select_step(self@, |d: Delivery| at < d.deadline, i as int);
            }
            let ghost kept_before = kept@;
            let ghost expired_before = expired@;
            let message = self.messages[i].clone();
            assert(message@ == self@[i as int]);
            if message.deadline.time.reached_by(now) {
                expired.push(message);
                assert(deliveries(expired@) =~= deliveries(expired_before).push(self@[i as int]));
            } else {
                kept.push(message);
                assert(deliveries(kept@) =~= deliveries(kept_before).push(self@[i as int]));
            }
            i += 1;
        }
        assert(self@.take(self@.len() as int) =~= self@);
        self.messages = kept;
        expired
    }

    /// The first deadline to come.
    pub fn next_deadline(&self) -> (next: Option<Instant>)
        ensures
            match next {
                Some(t) => (exists|i: int| 0 <= i < self@.len() && #[trigger] self@[i].deadline
                    == t@) && (forall|i: int|
                    0 <= i < self@.len() ==> t@ <= (#[trigger] self@[i]).deadline),
                None => self@.len() == 0,
            },
    {
        if self.messages.len() == 0 {
            return None;
        }
        let mut next = self.messages[0].deadline.time;
        let mut i: usize = 1;
        assert(self@[0].deadline == next@);
        while i < self.messages.len()
            invariant
                1 <= i <= self.messages@.len(),
                exists|j: int| 0 <= j < i && (#[trigger] self@[j]).deadline == next@,
                forall|j: int| 0 <= j < i ==> next@ <= (#[trigger] self@[j]).deadline,
            decreases self.messages@.len() - i,
        {
            let time = self.messages[i].deadline.time;
            assert(self@[i as int].deadline == time@);
            if !next.reached_by(time) {
                next = time;
            }
            i += 1;
        }
        Some(next)
    }

    /// When the oldest of the messages was published.
    pub fn oldest_published(&self) -> (oldest: Option<Instant>)
        ensures
            match oldest {
                Some(t) => (exists|i: int|
                    0 <= i < self@.len() && (#[trigger] self@[i]).message.published_at_instant@
                        == t@) && (forall|i: int|
                    0 <= i < self@.len() ==> t@ <= (
                    #[trigger] self@[i]).message.published_at_instant@),
                None => self@.len() == 0,
            },
    {
        if self.messages.len() == 0 {
            return None;
        }
        let mut oldest = self.messages[0].message.published_at_instant;
        let mut i: usize = 1;
        assert(self@[0].message.published_at_instant@ == oldest@);
        while i < self.messages.len()
            invariant
                1 <= i <= self.messages@.len(),
                exists|j: int|
                    0 <= j < i && (#[trigger] self@[j]).message.published_at_instant@ == oldest@,
                forall|j: int|
                    0 <= j < i ==> oldest@ <= (#[trigger] self@[j]).message.published_at_instant@,
            decreases self.messages@.len() - i,
        {
            let time = self.messages[i].message.published_at_instant;
            assert(self@[i as int].message.published_at_instant@ == time@);
            if !oldest.reached_by(time) {
                oldest = time;
            }
            i += 1;
        }
        Some(oldest)
    }
}

} // verus!
