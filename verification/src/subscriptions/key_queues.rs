//! Messages queued by ordering key, and sets of ordering keys.
use std::collections::VecDeque;
use std::sync::Arc;
use vstd::prelude::*;

use crate::text;
use crate::text::Order;
use crate::time::SystemTime;
use crate::topics::topic_message::{share, TopicMessage};

verus! {

/// The queue of each key, empty where nothing is queued.
pub type Queues = Map<Seq<char>, Seq<Arc<TopicMessage>>>;

/// The keys of a set, each once and in order.
pub open spec fn is_listing(keys: Seq<Seq<char>>, of: Set<Seq<char>>) -> bool {
    &&& forall|i: int, j: int| 0 <= i < j < keys.len() ==> text::precedes(keys[i], keys[j])
    &&& forall|k: Seq<char>| #[trigger] of.contains(k) <==> keys.contains(k)
}

/// The keys of a finite set, each once and in order.
pub open spec fn listing(of: Set<Seq<char>>) -> Seq<Seq<char>> {
    choose|keys: Seq<Seq<char>>| is_listing(keys, of)
}

/// The keys that have something queued and are not in the set.
pub open spec fn waiting_keys(queues: Queues, except: Set<Seq<char>>) -> Set<Seq<char>> {
    Set::new(|k: Seq<char>| queues[k].len() > 0 && !except.contains(k))
}

/// No key has anything queued.
pub open spec fn no_queues() -> Queues {
    Map::total(|k: Seq<char>| Seq::empty())
}

/// Each queue with only the messages that were published at `time` or later.
pub open spec fn queues_since(queues: Queues, time: int) -> Queues {
    Map::total(|k: Seq<char>| published_since(queues[k], time))
}

/// The messages that were published at `time` or later.
pub open spec fn published_since(messages: Seq<Arc<TopicMessage>>, time: int) -> Seq<
    Arc<TopicMessage>,
>
    decreases messages.len(),
{
    if messages.len() == 0 {
        messages
    } else {
        let front = published_since(messages.drop_last(), time);
        if messages.last().published_at@ < time {
            front
        } else {
            front.push(messages.last())
        }
    }
}

/// How many messages the queues of the keys hold together.
pub open spec fn queued_under(queues: Queues, keys: Seq<Seq<char>>) -> nat
    decreases keys.len(),
{
    if keys.len() == 0 {
        0
    } else {
        queued_under(queues, keys.drop_last()) + queues[keys.last()].len()
    }
}

/// How many messages are queued.
pub open spec fn queued_count(queues: Queues) -> nat {
    queued_under(queues, listing(waiting_keys(queues, Set::empty())))
}

/// A set has one listing.
proof fn lemma_listing_unique(a: Seq<Seq<char>>, b: Seq<Seq<char>>, of: Set<Seq<char>>)
    requires
        is_listing(a, of),
        is_listing(b, of),
    ensures
        a == b,
    decreases a.len(),
{
    if a.len() == 0 {
        if b.len() > 0 {
            assert(b.contains(b[0]));
            assert(of.contains(b[0]));
            assert(a.contains(b[0]));
        }
        assert(a =~= b);
    } else {
        assert(a.contains(a.last()));
        assert(of.contains(a.last()));
        assert(b.contains(a.last()));
        assert(b.contains(b.last()));
        assert(of.contains(b.last()));
        assert(a.contains(b.last()));
        let j = choose|j: int| 0 <= j < b.len() && b[j] == a.last();
        let i = choose|i: int| 0 <= i < a.len() && a[i] == b.last();
        if a.last() != b.last() {
            assert(text::precedes(a.last(), b.last()));
            assert(text::precedes(b.last(), a.last()));
            text::lemma_precedes_one_way(a.last(), b.last());
        }
        let rest = of.remove(a.last());
        lemma_listing_front(a, of);
        lemma_listing_front(b, of);
        lemma_listing_unique(a.drop_last(), b.drop_last(), rest);
        assert(a =~= a.drop_last().push(a.last()));
        assert(b =~= b.drop_last().push(b.last()));
    }
}

/// A listing without its last key lists the set without that key.
proof fn lemma_listing_front(a: Seq<Seq<char>>, of: Set<Seq<char>>)
    requires
        is_listing(a, of),
        a.len() > 0,
    ensures
        is_listing(a.drop_last(), of.remove(a.last())),
{
    let front = a.drop_last();
    let rest = of.remove(a.last());
    assert forall|k: Seq<char>| #[trigger] rest.contains(k) <==> front.contains(k) by {
        if rest.contains(k) {
            assert(of.contains(k));
            assert(a.contains(k));
            let i = choose|i: int| 0 <= i < a.len() && a[i] == k;
            assert(front[i] == k);
        }
        if front.contains(k) {
            let i = choose|i: int| 0 <= i < front.len() && front[i] == k;
            assert(a[i] == k);
            assert(a.contains(k));
            assert(of.contains(k));
            text::lemma_precedes_one_way(a[i], a.last());
        }
    }
}

/// What lists a set is its listing.
pub proof fn lemma_is_listing(keys: Seq<Seq<char>>, of: Set<Seq<char>>)
    requires
        is_listing(keys, of),
    ensures
        listing(of) == keys,
{
    lemma_listing_unique(listing(of), keys, of);
}

/// A listed set can be listed with one key more.
proof fn lemma_list_one_more(l: Seq<Seq<char>>, of: Set<Seq<char>>, a: Seq<char>) -> (more: Seq<
    Seq<char>,
>)
    requires
        is_listing(l, of),
        !of.contains(a),
    ensures
        is_listing(more, of.insert(a)),
    decreases l.len(),
{
    let all = of.insert(a);
    if l.len() == 0 {
        let more = seq![a];
        assert forall|k: Seq<char>| #[trigger] all.contains(k) <==> more.contains(k) by {
            if of.contains(k) {
                assert(l.contains(k));
            }
            assert(more[0] == a);
        }
        more
    } else {
        let last = l.last();
        assert(l.contains(last));
        assert(of.contains(last));
        text::lemma_precedes_total(a, last);
        if text::precedes(last, a) {
            let more = l.push(a);
            assert forall|i: int, j: int| 0 <= i < j < more.len() implies text::precedes(
                more[i],
                more[j],
            ) by {
                if j == l.len() && i < l.len() - 1 {
                    text::lemma_precedes_transitive(l[i], last, a);
                }
            }
            assert forall|k: Seq<char>| #[trigger] all.contains(k) <==> more.contains(k) by {
                if of.contains(k) {
                    assert(l.contains(k));
                    let i = choose|i: int| 0 <= i < l.len() && l[i] == k;
                    assert(more[i] == k);
                }
                assert(more[l.len() as int] == a);
                if more.contains(k) && k != a {
                    let i = choose|i: int| 0 <= i < more.len() && more[i] == k;
                    assert(l[i] == k);
                    assert(l.contains(k));
                }
            }
            more
        } else {
            lemma_listing_front(l, of);
            let rest = of.remove(last);
            let front = lemma_list_one_more(l.drop_last(), rest, a);
            let more = front.push(last);
            assert forall|i: int, j: int| 0 <= i < j < more.len() implies text::precedes(
                more[i],
                more[j],
            ) by {
                if j == front.len() {
                    assert(front.contains(front[i]));
                    assert(rest.insert(a).contains(front[i]));
                    if front[i] != a {
                        assert(rest.contains(front[i]));
                        assert(l.drop_last().contains(front[i]));
                        let b = choose|b: int|
                            0 <= b < l.drop_last().len() && l.drop_last()[b] == front[i];
                        assert(l[b] == front[i]);
                    }
                }
            }
            assert forall|k: Seq<char>| #[trigger] all.contains(k) <==> more.contains(k) by {
                if all.contains(k) {
                    if k == last {
                        assert(more[front.len() as int] == k);
                    } else {
                        assert(rest.insert(a).contains(k));
                        assert(front.contains(k));
                        let i = choose|i: int| 0 <= i < front.len() && front[i] == k;
                        assert(more[i] == k);
                    }
                }
                if more.contains(k) {
                    let i = choose|i: int| 0 <= i < more.len() && more[i] == k;
                    if i < front.len() {
                        assert(front[i] == k);
                        assert(front.contains(k));
                        assert(rest.insert(a).contains(k));
                    }
                }
            }
            more
        }
    }
}

/// A finite set can be listed.
pub proof fn lemma_finite_set_has_listing(of: Set<Seq<char>>)
    requires
        of.finite(),
    ensures
        is_listing(listing(of), of),
    decreases of.len(),
{
    if of.len() == 0 {
        assert(of =~= Set::empty());
        assert(is_listing(Seq::empty(), of));
    } else {
        let a = of.choose();
        let rest = of.remove(a);
        lemma_finite_set_has_listing(rest);
        let l = lemma_list_one_more(listing(rest), rest, a);
        assert(rest.insert(a) =~= of);
        assert(is_listing(l, of));
    }
}

/// The texts of strings.
pub open spec fn texts(strings: Seq<String>) -> Seq<Seq<char>> {
    Seq::new(strings.len(), |i: int| strings[i]@)
}

/// A set of ordering keys.
#[derive(Debug)]
pub struct KeySet {
    keys: Vec<String>,
}

impl KeySet {
    /// The keys of the set.
    pub closed spec fn view(&self) -> Set<Seq<char>> {
        texts(self.keys@).to_set()
    }

    #[verifier::type_invariant]
    spec fn distinct(self) -> bool {
        texts(self.keys@).no_duplicates()
    }

    /// The set without keys.
    pub fn new() -> (s: KeySet)
        ensures
            s@ == Set::<Seq<char>>::empty(),
    {
        let s = KeySet { keys: Vec::new() };
        assert(s@ =~= Set::<Seq<char>>::empty());
        s
    }

    /// Where the key stands, if it is in the set.
    fn find(&self, key: &str) -> (at: Option<usize>)
        ensures
            match at {
                Some(i) => i < self.keys@.len() && self.keys@[i as int]@ == key@,
                None => forall|i: int| 0 <= i < self.keys@.len() ==> self.keys@[i]@ != key@,
            },
            at is Some <==> self@.contains(key@),
    {
        let mut i: usize = 0;
        while i < self.keys.len()
            invariant
                i <= self.keys@.len(),
                forall|j: int| 0 <= j < i ==> self.keys@[j]@ != key@,
            decreases self.keys@.len() - i,
        {
            if text::same_text(self.keys[i].as_str(), key) {
                assert(texts(self.keys@)[i as int] == key@);
                return Some(i);
            }
            i += 1;
        }
        assert(!texts(self.keys@).contains(key@));
        None
    }

    /// Whether the key is in the set.
    pub fn contains(&self, key: &str) -> (b: bool)
        ensures
            b == self@.contains(key@),
    {
        self.find(key).is_some()
    }

    /// Puts the key in the set.
    pub fn insert(&mut self, key: &str)
        ensures
            final(self)@ == old(self)@.insert(key@),
    {
        proof {
            use_type_invariant(&*self);
        }
        if self.find(key).is_none() {
            let ghost before = self.keys@;
            let mut keys: Vec<String> = Vec::new();
            std::mem::swap(&mut keys, &mut self.keys);
            keys.push(key.to_owned());
            proof {
                assert(texts(keys@) =~= texts(before).push(key@));
                assert forall|k: Seq<char>| texts(keys@).contains(k) <==> texts(before).contains(k)
                    || k == key@ by {
                    if texts(before).contains(k) {
                        let i = choose|i: int|
                            0 <= i < texts(before).len() && texts(before)[i] == k;
                        assert(texts(keys@)[i] == k);
                    }
                    assert(texts(keys@)[before.len() as int] == key@);
                }
            }
            self.keys = keys;
        }
        assert(self@ =~= old(self)@.insert(key@));
    }

    /// Takes the key out of the set, and says whether it was there.
    pub fn remove(&mut self, key: &str) -> (was_there: bool)
        ensures
            final(self)@ == old(self)@.remove(key@),
            was_there == old(self)@.contains(key@),
    {
        proof {
            use_type_invariant(&*self);
        }
        match self.find(key) {
            Some(at) => {
                let ghost before = self.keys@;
                let mut keys: Vec<String> = Vec::new();
                std::mem::swap(&mut keys, &mut self.keys);
                let removed = keys.remove(at);
                proof {
                    let a = texts(before);
                    let b = texts(keys@);
                    assert(b =~= a.remove(at as int));
                    assert(a.no_duplicates());
                    assert(a[at as int] == key@);
                    assert forall|k: Seq<char>| b.contains(k) <==> a.contains(k) && k != key@ by {
                        if a.contains(k) && k != key@ {
                            let i = choose|i: int| 0 <= i < a.len() && a[i] == k;
                            if i < at {
                                assert(b[i] == k);
                            } else {
                                assert(b[i - 1] == k);
                            }
                        }
                        if b.contains(k) {
                            let i = choose|i: int| 0 <= i < b.len() && b[i] == k;
                            if i < at {
                                assert(a[i] == k);
                            } else {
                                assert(a[i + 1] == k);
                            }
                        }
                    }
                }
                self.keys = keys;
                assert(self@ =~= old(self)@.remove(key@));
                true
            },
            None => {
                assert(self@ =~= old(self)@.remove(key@));
                false
            },
        }
    }

    /// Takes every key out of the set.
    pub fn clear(&mut self)
        ensures
            final(self)@ == Set::<Seq<char>>::empty(),
    {
        *self = KeySet::new();
    }
}

/// The queue of one key.
#[derive(Debug)]
struct KeyQueue {
    key: String,
    queue: VecDeque<Arc<TopicMessage>>,
}

/// Messages queued by ordering key.
#[derive(Debug)]
pub struct KeyQueues {
    entries: Vec<KeyQueue>,
}

/// Whether the entries stand in the order of their keys.
spec fn in_order(entries: Seq<KeyQueue>) -> bool {
    forall|i: int, j: int|
        0 <= i < j < entries.len() ==> text::precedes(entries[i].key@, entries[j].key@)
}

/// Where the entry of the key stands.
spec fn entry_of(entries: Seq<KeyQueue>, key: Seq<char>) -> int {
    choose|i: int| 0 <= i < entries.len() && entries[i].key@ == key
}

/// The queue of the key among the entries.
spec fn queue_in(entries: Seq<KeyQueue>, key: Seq<char>) -> Seq<Arc<TopicMessage>> {
    if exists|i: int| 0 <= i < entries.len() && entries[i].key@ == key {
        entries[entry_of(entries, key)].queue@
    } else {
        Seq::empty()
    }
}

/// An entry holds the queue of its key.
proof fn lemma_queue_in(entries: Seq<KeyQueue>, i: int)
    requires
        in_order(entries),
        0 <= i < entries.len(),
    ensures
        queue_in(entries, entries[i].key@) == entries[i].queue@,
{
    let key = entries[i].key@;
    let j = entry_of(entries, key);
    assert(entries[j].key@ == key);
    if i < j {
        text::lemma_precedes_one_way(entries[i].key@, entries[j].key@);
    } else if j < i {
        text::lemma_precedes_one_way(entries[j].key@, entries[i].key@);
    }
}

/// The entries that have something queued under a key that is not in the set are the ones whose
/// keys wait.
proof fn lemma_waiting(entries: Seq<KeyQueue>, k: Seq<char>)
    requires
        in_order(entries),
        queue_in(entries, k).len() > 0,
    ensures
        exists|i: int|
            0 <= i < entries.len() && entries[i].key@ == k && entries[i].queue@ == queue_in(
                entries,
                k,
            ),
{
    let i = choose|i: int| 0 <= i < entries.len() && entries[i].key@ == k;
    lemma_queue_in(entries, i);
}

impl KeyQueues {
    /// The queue of each key.
    pub closed spec fn view(&self) -> Queues {
        Map::total(|k: Seq<char>| queue_in(self.entries@, k))
    }

    #[verifier::type_invariant]
    spec fn ordered(self) -> bool {
        in_order(self.entries@)
    }

    /// Only finitely many keys have something queued.
    pub proof fn lemma_finite(&self)
        ensures
            waiting_keys(self@, Set::empty()).finite(),
    {
        let keys = Seq::new(self.entries@.len(), |i: int| self.entries@[i].key@);
        let waiting = waiting_keys(self@, Set::empty());
        vstd::seq_lib::seq_to_set_is_finite(keys);
        assert forall|k: Seq<char>| waiting.contains(k) implies keys.to_set().contains(k) by {
            assert(queue_in(self.entries@, k).len() > 0);
            let i = choose|i: int| 0 <= i < self.entries@.len() && self.entries@[i].key@ == k;
            assert(keys[i] == k);
        }
        assert(waiting =~= keys.to_set().intersect(waiting));
    }

    /// No queues.
    pub fn new() -> (q: KeyQueues)
        ensures
            q@ == no_queues(),
    {
        let q = KeyQueues { entries: Vec::new() };
        assert(q@ =~= no_queues());
        q
    }

    /// Empties every queue.
    pub fn clear(&mut self)
        ensures
            final(self)@ == no_queues(),
    {
        *self = KeyQueues::new();
    }

    /// Where the entry of the key stands, or where it would have to stand.
    fn find(&self, key: &str) -> (at: (usize, bool))
        ensures
            at.0 <= self.entries@.len(),
            forall|i: int| 0 <= i < at.0 ==> text::precedes(self.entries@[i].key@, key@),
            if at.1 {
                at.0 < self.entries@.len() && self.entries@[at.0 as int].key@ == key@
            } else {
                forall|i: int|
                    at.0 <= i < self.entries@.len() ==> text::precedes(key@, self.entries@[i].key@)
            },
    {
        proof {
            use_type_invariant(self);
        }
        let mut i: usize = 0;
        while i < self.entries.len()
            invariant
                i <= self.entries@.len(),
                in_order(self.entries@),
                forall|j: int| 0 <= j < i ==> text::precedes(self.entries@[j].key@, key@),
            decreases self.entries@.len() - i,
        {
            match text::order_of(self.entries[i].key.as_str(), key) {
                Order::Before => {},
                Order::Same => {
                    return (i, true);
                },
                Order::After => {
                    proof {
                        assert forall|j: int| i <= j < self.entries@.len() implies text::precedes(
                            key@,
                            self.entries@[j].key@,
                        ) by {
                            if i < j {
                                text::lemma_precedes_transitive(
                                    key@,
                                    self.entries@[i as int].key@,
                                    self.entries@[j].key@,
                                );
                            }
                        }
                    }
                    return (i, false);
                },
            }
            i += 1;
        }
        (i, false)
    }

    /// Where the entry of the key stands; makes an empty one where there was none.
    fn slot(&mut self, key: &str) -> (at: usize)
        ensures
            final(self)@ == old(self)@,
            at < final(self).entries@.len(),
            final(self).entries@[at as int].key@ == key@,
    {
        proof {
            use_type_invariant(&*self);
        }
        let (at, found) = self.find(key);
        if !found {
            let ghost before = self.entries@;
            let mut entries: Vec<KeyQueue> = Vec::new();
            std::mem::swap(&mut entries, &mut self.entries);
            entries.insert(at, KeyQueue { key: key.to_owned(), queue: VecDeque::new() });
            proof {
                assert(entries@ =~= before.insert(at as int, entries@[at as int]));
                lemma_empty_entry_inserted(before, entries@, at as int);
            }
            self.entries = entries;
        }
        assert(self@ =~= old(self)@);
        at
    }

    /// Puts the message at the end of the queue of the key.
    pub fn push_back(&mut self, key: &str, message: Arc<TopicMessage>)
        ensures
            final(self)@ == old(self)@.insert(key@, old(self)@[key@].push(message)),
    {
        let at: usize = self.slot(key);
        proof {
            use_type_invariant(&*self);
        }
        let ghost before = self.entries@;
        let mut entries: Vec<KeyQueue> = Vec::new();
        std::mem::swap(&mut entries, &mut self.entries);
        entries[at].queue.push_back(message);
        proof {
            lemma_queue_in(before, at as int);
            lemma_entry_updated(before, entries@, at as int);
        }
        self.entries = entries;
        assert(self@ =~= old(self)@.insert(key@, old(self)@[key@].push(message)));
    }

    /// Puts the message at the front of the queue of the key.
    pub fn push_front(&mut self, key: &str, message: Arc<TopicMessage>)
        ensures
            final(self)@ == old(self)@.insert(key@, seq![message] + old(self)@[key@]),
    {
        let at: usize = self.slot(key);
        proof {
            use_type_invariant(&*self);
        }
        let ghost before = self.entries@;
        let mut entries: Vec<KeyQueue> = Vec::new();
        std::mem::swap(&mut entries, &mut self.entries);
        entries[at].queue.push_front(message);
        proof {
            lemma_queue_in(before, at as int);
            lemma_entry_updated(before, entries@, at as int);
        }
        self.entries = entries;
        assert(self@ =~= old(self)@.insert(key@, seq![message] + old(self)@[key@]));
    }

    /// Takes the message at the front of the queue of the key.
    pub fn pop_front(&mut self, key: &str) -> (message: Option<Arc<TopicMessage>>)
        ensures
            match message {
                Some(m) => old(self)@[key@].len() > 0 && m == old(self)@[key@][0] && final(self)@
                    == old(self)@.insert(key@, old(self)@[key@].drop_first()),
                None => old(self)@[key@].len() == 0 && final(self)@ == old(self)@,
            },
    {
        let at: usize = self.slot(key);
        proof {
            use_type_invariant(&*self);
        }
        let ghost before = self.entries@;
        let mut entries: Vec<KeyQueue> = Vec::new();
        std::mem::swap(&mut entries, &mut self.entries);
        let message = entries[at].queue.pop_front();
        proof {
            lemma_queue_in(before, at as int);
            lemma_entry_updated(before, entries@, at as int);
        }
        self.entries = entries;
        proof {
            if message is Some {
                assert(self@ =~= old(self)@.insert(key@, old(self)@[key@].drop_first()));
            } else {
                assert(self@ =~= old(self)@);
            }
        }
        message
    }

    /// Drops every message that was published before `time`.
    pub fn keep_since(&mut self, time: SystemTime)
        ensures
            final(self)@ == queues_since(old(self)@, time@),
    {
        proof {
            use_type_invariant(&*self);
        }
        let ghost before = self.entries@;
        let mut entries: Vec<KeyQueue> = Vec::new();
        std::mem::swap(&mut entries, &mut self.entries);
        let mut i: usize = 0;
        while i < entries.len()
            invariant
                i <= entries@.len(),
                entries@.len() == before.len(),
                forall|j: int| 0 <= j < before.len() ==> entries@[j].key@ == before[j].key@,
                forall|j: int|
                    0 <= j < i ==> entries@[j].queue@ == published_since(before[j].queue@, time@),
                forall|j: int| i <= j < before.len() ==> entries@[j].queue@ == before[j].queue@,
            decreases entries@.len() - i,
        {
            let kept = kept_since(&entries[i].queue, time);
            entries[i].queue = kept;
            i += 1;
        }
        proof {
            assert(in_order(before));
            assert(in_order(entries@));
            assert forall|k: Seq<char>| queue_in(entries@, k) == published_since(
                queue_in(before, k),
                time@,
            ) by {
                if exists|i: int| 0 <= i < before.len() && before[i].key@ == k {
                    let i = choose|i: int| 0 <= i < before.len() && before[i].key@ == k;
                    lemma_queue_in(before, i);
                    assert(entries@[i].key@ == k);
                    lemma_queue_in(entries@, i);
                } else {
                    assert forall|i: int| 0 <= i < entries@.len() implies entries@[i].key@ != k by {
                        assert(entries@[i].key@ == before[i].key@);
                    }
                }
            }
        }
        self.entries = entries;
        assert(self@ =~= queues_since(old(self)@, time@));
    }

    /// Whether a key that is not in the set has something queued.
    pub fn any_waiting(&self, except: &KeySet) -> (b: bool)
        ensures
            b == exists|k: Seq<char>| waiting_keys(self@, except@).contains(k),
    {
        proof {
            use_type_invariant(self);
        }
        let mut i: usize = 0;
        while i < self.entries.len()
            invariant
                i <= self.entries@.len(),
                in_order(self.entries@),
                forall|j: int|
                    0 <= j < i ==> self.entries@[j].queue@.len() == 0 || except@.contains(
                        self.entries@[j].key@,
                    ),
            decreases self.entries@.len() - i,
        {
            if self.entries[i].queue.len() > 0 && !except.contains(self.entries[i].key.as_str()) {
                proof {
                    lemma_queue_in(self.entries@, i as int);
                    assert(waiting_keys(self@, except@).contains(self.entries@[i as int].key@));
                }
                return true;
            }
            i += 1;
        }
        proof {
            assert forall|k: Seq<char>| !waiting_keys(self@, except@).contains(k) by {
                if waiting_keys(self@, except@).contains(k) {
                    lemma_waiting(self.entries@, k);
                }
            }
        }
        false
    }

    /// The keys that have something queued and are not in the set, in order.
    pub fn waiting(&self, except: &KeySet) -> (keys: Vec<String>)
        ensures
            texts(keys@) == listing(waiting_keys(self@, except@)),
    {
        proof {
            use_type_invariant(self);
        }
        let mut keys: Vec<String> = Vec::new();
        let mut i: usize = 0;
        while i < self.entries.len()
            invariant
                i <= self.entries@.len(),
                in_order(self.entries@),
                forall|a: int, b: int|
                    0 <= a < b < keys@.len() ==> text::precedes(keys@[a]@, keys@[b]@),
                forall|a: int, j: int|
                    0 <= a < keys@.len() && i <= j < self.entries@.len() ==> text::precedes(
                        keys@[a]@,
                        self.entries@[j].key@,
                    ),
                forall|a: int|
                    0 <= a < keys@.len() ==> waiting_keys(self@, except@).contains(keys@[a]@),
                forall|j: int|
                    0 <= j < i && self.entries@[j].queue@.len() > 0 && !except@.contains(
                        self.entries@[j].key@,
                    ) ==> texts(keys@).contains(self.entries@[j].key@),
            decreases self.entries@.len() - i,
        {
            if self.entries[i].queue.len() > 0 && !except.contains(self.entries[i].key.as_str()) {
                let ghost before = keys@;
                keys.push(self.entries[i].key.clone());
                proof {
                    lemma_queue_in(self.entries@, i as int);
                    assert(texts(keys@)[before.len() as int] == self.entries@[i as int].key@);
                    assert forall|k: Seq<char>| texts(before).contains(k) implies texts(
                        keys@,
                    ).contains(k) by {
                        let a = choose|a: int| 0 <= a < texts(before).len() && texts(before)[a]
                            == k;
                        assert(texts(keys@)[a] == k);
                    }
                }
            }
            i += 1;
        }
        proof {
            let of = waiting_keys(self@, except@);
            assert forall|k: Seq<char>| #[trigger] of.contains(k) <==> texts(keys@).contains(k) by {
                if of.contains(k) {
                    lemma_waiting(self.entries@, k);
                }
                if texts(keys@).contains(k) {
                    let a = choose|a: int| 0 <= a < texts(keys@).len() && texts(keys@)[a] == k;
                    assert(of.contains(keys@[a]@));
                }
            }
            lemma_is_listing(texts(keys@), of);
        }
        keys
    }

    /// How many messages are queued, up to the largest count.
    pub fn count(&self) -> (n: usize)
        ensures
            n == if queued_count(self@) <= usize::MAX {
                queued_count(self@)
            } else {
                usize::MAX as nat
            },
    {
        let keys = self.waiting(&KeySet::new());
        let mut n: usize = 0;
        let mut i: usize = 0;
        proof {
            assert(texts(keys@).take(0) =~= Seq::empty());
        }
        while i < keys.len()
            invariant
                i <= keys@.len(),
                n == if queued_under(self@, texts(keys@).take(i as int)) <= usize::MAX {
                    queued_under(self@, texts(keys@).take(i as int))
                } else {
                    usize::MAX as nat
                },
            decreases keys@.len() - i,
        {
            proof {
                assert(texts(keys@).take(i + 1).drop_last() =~= texts(keys@).take(i as int));
            }
            n = n.saturating_add(self.len_of(keys[i].as_str()));
            i += 1;
        }
        assert(texts(keys@).take(keys@.len() as int) =~= texts(keys@));
        n
    }

    /// How many messages are queued under the key.
    fn len_of(&self, key: &str) -> (n: usize)
        ensures
            n == self@[key@].len(),
    {
        proof {
            use_type_invariant(self);
        }
        let (at, found) = self.find(key);
        if found {
            proof {
                lemma_queue_in(self.entries@, at as int);
            }
            self.entries[at].queue.len()
        } else {
            proof {
                lemma_absent(self.entries@, at as int, key@);
            }
            0
        }
    }
}

/// The messages of a queue that were published at `time` or later.
pub fn kept_since(queue: &VecDeque<Arc<TopicMessage>>, time: SystemTime) -> (kept: VecDeque<
    Arc<TopicMessage>,
>)
    ensures
        kept@ == published_since(queue@, time@),
{
    let mut kept: VecDeque<Arc<TopicMessage>> = VecDeque::new();
    let mut i: usize = 0;
    assert(queue@.take(0) =~= Seq::empty());
    while i < queue.len()
        invariant
            i <= queue@.len(),
            kept@ == published_since(queue@.take(i as int), time@),
        decreases queue@.len() - i,
    {
        assert(queue@.take(i + 1).drop_last() =~= queue@.take(i as int));
        if !queue[i].published_at.before(time) {
            kept.push_back(share(&queue[i]));
        }
        i += 1;
    }
    assert(queue@.take(queue@.len() as int) =~= queue@);
    kept
}

/// A key between its neighbours in order has no entry.
proof fn lemma_absent(entries: Seq<KeyQueue>, at: int, key: Seq<char>)
    requires
        0 <= at <= entries.len(),
        forall|i: int| 0 <= i < at ==> text::precedes(entries[i].key@, key),
        forall|i: int| at <= i < entries.len() ==> text::precedes(key, entries[i].key@),
    ensures
        forall|i: int| 0 <= i < entries.len() ==> entries[i].key@ != key,
        queue_in(entries, key).len() == 0,
{
    assert forall|i: int| 0 <= i < entries.len() implies entries[i].key@ != key by {
        if i < at {
            text::lemma_precedes_one_way(entries[i].key@, key);
        } else {
            text::lemma_precedes_one_way(key, entries[i].key@);
        }
    }
}

/// An empty queue under a new key changes no queue.
proof fn lemma_empty_entry_inserted(before: Seq<KeyQueue>, after: Seq<KeyQueue>, at: int)
    requires
        in_order(before),
        0 <= at <= before.len(),
        after.len() == before.len() + 1,
        after == before.insert(at, after[at]),
        after[at].queue@.len() == 0,
        forall|i: int| 0 <= i < at ==> text::precedes(before[i].key@, after[at].key@),
        forall|i: int| at <= i < before.len() ==> text::precedes(after[at].key@, before[i].key@),
    ensures
        in_order(after),
        forall|k: Seq<char>| queue_in(after, k) == queue_in(before, k),
{
    assert forall|i: int, j: int| 0 <= i < j < after.len() implies text::precedes(
        after[i].key@,
        after[j].key@,
    ) by {
        let p = if i < at {
            i
        } else {
            i - 1
        };
        let q = if j < at {
            j
        } else {
            j - 1
        };
        if i != at {
            assert(after[i] == before[p]);
        }
        if j != at {
            assert(after[j] == before[q]);
        }
    }
    lemma_absent(before, at, after[at].key@);
    assert forall|k: Seq<char>| queue_in(after, k) == queue_in(before, k) by {
        if k == after[at].key@ {
            lemma_queue_in(after, at);
            assert(after[at].queue@ =~= Seq::empty());
        } else if exists|i: int| 0 <= i < before.len() && before[i].key@ == k {
            let i = choose|i: int| 0 <= i < before.len() && before[i].key@ == k;
            lemma_queue_in(before, i);
            if i < at {
                assert(after[i] == before[i]);
                lemma_queue_in(after, i);
            } else {
                assert(after[i + 1] == before[i]);
                lemma_queue_in(after, i + 1);
            }
        } else {
            assert forall|i: int| 0 <= i < after.len() implies after[i].key@ != k by {
                if i < at {
                    assert(after[i] == before[i]);
                } else if i > at {
                    assert(after[i] == before[i - 1]);
                }
            }
        }
    }
}

/// Another queue in an entry changes the queue of its key and no other.
proof fn lemma_entry_updated(before: Seq<KeyQueue>, after: Seq<KeyQueue>, at: int)
    requires
        in_order(before),
        0 <= at < before.len(),
        after.len() == before.len(),
        forall|i: int| 0 <= i < before.len() ==> after[i].key@ == before[i].key@,
        forall|i: int| 0 <= i < before.len() && i != at ==> after[i].queue@ == before[i].queue@,
    ensures
        in_order(after),
        forall|k: Seq<char>|
            queue_in(after, k) == if k == before[at].key@ {
                after[at].queue@
            } else {
                queue_in(before, k)
            },
{
    assert forall|k: Seq<char>|
        queue_in(after, k) == if k == before[at].key@ {
            after[at].queue@
        } else {
            queue_in(before, k)
        } by {
        if k == before[at].key@ {
            assert(after[at].key@ == k);
            lemma_queue_in(after, at);
        } else if exists|i: int| 0 <= i < before.len() && before[i].key@ == k {
            let i = choose|i: int| 0 <= i < before.len() && before[i].key@ == k;
            lemma_queue_in(before, i);
            assert(after[i].key@ == k);
            lemma_queue_in(after, i);
        } else {
            assert forall|i: int| 0 <= i < after.len() implies after[i].key@ != k by {
                assert(after[i].key@ == before[i].key@);
            }
        }
    }
}

} // verus!
