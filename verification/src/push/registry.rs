//! The subscriptions that push their messages.
use vstd::prelude::*;

use crate::subscriptions::info::{PushConfig, PushConfigView};
use crate::subscriptions::subscription_name::{SubscriptionName, SubscriptionNameView};

verus! {

/// A subscription that pushes its messages.
#[derive(Debug)]
pub struct PushSubscription {
    pub name: SubscriptionName,
    pub config: PushConfig,
}

/// Which subscriptions push, and where to.
pub type Pushes = Map<SubscriptionNameView, PushConfigView>;

/// Whether the entry is that of the subscription.
spec fn is_entry(entries: Seq<PushSubscription>, i: int, name: SubscriptionNameView) -> bool {
    0 <= i < entries.len() && entries[i].name@ == name
}

/// Where the entry of the subscription stands.
spec fn entry_of(entries: Seq<PushSubscription>, name: SubscriptionNameView) -> int {
    choose|i: int| is_entry(entries, i, name)
}

/// Which subscriptions the entries say push, and where to.
spec fn pushes_of(entries: Seq<PushSubscription>) -> Pushes {
    Map::new(
        |name: SubscriptionNameView| exists|i: int| is_entry(entries, i, name),
        |name: SubscriptionNameView| entries[entry_of(entries, name)].config@,
    )
}

/// Whether each subscription has one entry at most.
pub open spec fn one_each(entries: Seq<PushSubscription>) -> bool {
    forall|i: int, j: int|
        0 <= i < j < entries.len() ==> (#[trigger] entries[i]).name@ != (
        #[trigger] entries[j]).name@
}

/// An entry says what its subscription does.
proof fn lemma_entry(entries: Seq<PushSubscription>, i: int)
    requires
        one_each(entries),
        0 <= i < entries.len(),
    ensures
        pushes_of(entries).contains_key(entries[i].name@),
        pushes_of(entries)[entries[i].name@] == entries[i].config@,
{
    let name = entries[i].name@;
    assert(is_entry(entries, i, name));
    let j = entry_of(entries, name);
    assert(is_entry(entries, j, name));
    if i < j {
        assert(entries[i].name@ != entries[j].name@);
    } else if j < i {
        assert(entries[j].name@ != entries[i].name@);
    }
}

/// The subscriptions that push their messages.
#[derive(Debug)]
pub struct PushSubscriptionsRegistry {
    entries: Vec<PushSubscription>,
}

impl View for PushSubscriptionsRegistry {
    type V = Pushes;

    closed spec fn view(&self) -> Pushes {
        pushes_of(self.entries@)
    }
}

impl PushSubscriptionsRegistry {
    #[verifier::type_invariant]
    spec fn distinct(self) -> bool {
        one_each(self.entries@)
    }

    /// No subscription pushes.
    pub fn new() -> (r: PushSubscriptionsRegistry)
        ensures
            r@ == Map::<SubscriptionNameView, PushConfigView>::empty(),
    {
        let r = PushSubscriptionsRegistry { entries: Vec::new() };
        proof {
            assert forall|name: SubscriptionNameView| !r@.contains_key(name) by {
                assert forall|i: int| !is_entry(r.entries@, i, name) by {}
            }
            assert(r@ =~= Map::<SubscriptionNameView, PushConfigView>::empty());
        }
        r
    }

    /// Takes the entry of the subscription out.
    fn remove(&mut self, name: &SubscriptionName)
        ensures
            final(self)@ == old(self)@.remove(name@),
            forall|i: int|
                0 <= i < final(self).entries@.len() ==> (
                #[trigger] final(self).entries@[i]).name@ != name@,
    {
        proof {
            use_type_invariant(&*self);
        }
        let mut i: usize = 0;
        while i < self.entries.len()
            invariant
                i <= self.entries@.len(),
                *self == *old(self),
                one_each(self.entries@),
                forall|j: int| 0 <= j < i ==> (#[trigger] self.entries@[j]).name@ != name@,
            decreases self.entries@.len() - i,
        {
            if self.entries[i].name.same(name) {
                let ghost before = self.entries@;
                let mut entries: Vec<PushSubscription> = Vec::new();
                std::mem::swap(&mut entries, &mut self.entries);
                let removed = entries.remove(i);
                proof {
                    assert(entries@ =~= before.remove(i as int));
                    assert forall|a: int, b: int| 0 <= a < b < entries@.len() implies (
                    #[trigger] entries@[a]).name@ != (#[trigger] entries@[b]).name@ by {
                        let x = if a < i {
                            a
                        } else {
                            a + 1
                        };
                        let y = if b < i {
                            b
                        } else {
                            b + 1
                        };
                        assert(before[x].name@ != before[y].name@);
                    }
                    assert forall|a: int| 0 <= a < entries@.len() implies (
                    #[trigger] entries@[a]).name@ != name@ by {
                        let x = if a < i {
                            a
                        } else {
                            a + 1
                        };
                        if a < i {
                            assert(before[x].name@ != before[i as int].name@);
                        } else {
                            assert(before[i as int].name@ != before[x].name@);
                        }
                    }
                    lemma_removed(before, entries@, i as int);
                }
                self.entries = entries;
                assert(self@ =~= old(self)@.remove(name@));
                return;
            }
            i += 1;
        }
        proof {
            assert forall|j: int| !is_entry(self.entries@, j, name@) by {}
            assert(self@ =~= old(self)@.remove(name@));
        }
    }

    /// Sets where the subscription pushes to; none where it does not push.
    pub fn set(&mut self, name: SubscriptionName, config: Option<PushConfig>)
        ensures
            final(self)@ == (match config {
                Some(c) => old(self)@.insert(name@, c@),
                None => old(self)@.remove(name@),
            }),
    {
        self.remove(&name);
        if let Some(config) = config {
            proof {
                use_type_invariant(&*self);
            }
            let ghost before = self.entries@;
            let mut entries: Vec<PushSubscription> = Vec::new();
            std::mem::swap(&mut entries, &mut self.entries);
            entries.push(PushSubscription { name, config });
            proof {
                assert(one_each(entries@));
                lemma_pushed(before, entries@);
            }
            self.entries = entries;
            assert(self@ =~= old(self)@.insert(name@, config@));
        }
    }

    /// The subscriptions that push, each once.
    pub fn entries(&self) -> (entries: &Vec<PushSubscription>)
        ensures
            one_each(entries@),
            forall|i: int|
                0 <= i < entries@.len() ==> self@.contains_key((#[trigger] entries@[i]).name@)
                    && self@[entries@[i].name@] == entries@[i].config@,
            forall|name: SubscriptionNameView| #[trigger]
                self@.contains_key(name) ==> exists|i: int|
                    0 <= i < entries@.len() && (#[trigger] entries@[i]).name@ == name,
    {
        proof {
            use_type_invariant(self);
            assert forall|i: int| 0 <= i < self.entries@.len() implies self@.contains_key(
                (#[trigger] self.entries@[i]).name@,
            ) && self@[self.entries@[i].name@] == self.entries@[i].config@ by {
                lemma_entry(self.entries@, i);
            }
            assert forall|name: SubscriptionNameView| #[trigger]
                self@.contains_key(name) implies exists|i: int|
                0 <= i < self.entries@.len() && (#[trigger] self.entries@[i]).name@ == name by {
                let i = choose|i: int| is_entry(self.entries@, i, name);
                assert(self.entries@[i].name@ == name);
            }
        }
        &self.entries
    }
}

/// Without the entry of a subscription the others push as before.
proof fn lemma_removed(before: Seq<PushSubscription>, after: Seq<PushSubscription>, at: int)
    requires
        one_each(before),
        one_each(after),
        0 <= at < before.len(),
        after == before.remove(at),
    ensures
        pushes_of(after) == pushes_of(before).remove(before[at].name@),
{
    let gone = before[at].name@;
    let a = pushes_of(after);
    let b = pushes_of(before).remove(gone);
    assert forall|name: SubscriptionNameView| #[trigger] a.dom().contains(name) implies b.dom().contains(
        name,
    ) && a[name] == b[name] by {
        let i = choose|i: int| is_entry(after, i, name);
        let x = if i < at {
            i
        } else {
            i + 1
        };
        assert(after[i] == before[x]);
        lemma_entry(after, i);
        lemma_entry(before, x);
        if x < at {
            assert(before[x].name@ != before[at].name@);
        } else {
            assert(before[at].name@ != before[x].name@);
        }
    }
    assert forall|name: SubscriptionNameView| #[trigger] b.dom().contains(name) implies a.dom().contains(
        name,
    ) by {
        let i = choose|i: int| is_entry(before, i, name);
        let x = if i < at {
            i
        } else {
            i - 1
        };
        assert(after[x] == before[i]);
        assert(is_entry(after, x, name));
    }
    assert(a =~= b);
}

/// With one more entry one more subscription pushes.
proof fn lemma_pushed(before: Seq<PushSubscription>, after: Seq<PushSubscription>)
    requires
        one_each(before),
        one_each(after),
        after.len() == before.len() + 1,
        after == before.push(after.last()),
    ensures
        pushes_of(after) == pushes_of(before).insert(after.last().name@, after.last().config@),
{
    let n: int = before.len() as int;
    let added = after[n].name@;
    lemma_entry(after, n);
    let a = pushes_of(after);
    let b = pushes_of(before).insert(added, after[n].config@);
    assert forall|name: SubscriptionNameView| #[trigger] a.dom().contains(name) implies b.dom().contains(
        name,
    ) && a[name] == b[name] by {
        if name != added {
            let i = choose|i: int| is_entry(after, i, name);
            assert(after[i] == before[i]);
            lemma_entry(after, i);
            lemma_entry(before, i);
        }
    }
    assert forall|name: SubscriptionNameView| #[trigger] b.dom().contains(name) implies a.dom().contains(
        name,
    ) by {
        if name != added {
            let i = choose|i: int| is_entry(before, i, name);
            assert(is_entry(after, i, name));
        }
    }
    assert(a =~= b);
}

} // verus!
