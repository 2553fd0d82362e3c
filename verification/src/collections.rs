//! Maps from text to text, and sequences of messages.
use vstd::prelude::*;

verus! {

/// The entry with the given key in a list of entries.
pub open spec fn is_entry(entries: Seq<(String, String)>, i: int, key: Seq<char>) -> bool {
    0 <= i < entries.len() && entries[i].0@ == key
}

/// Whether `i` is the first entry with the given key.
pub open spec fn is_first_entry(entries: Seq<(String, String)>, i: int, key: Seq<char>) -> bool {
    is_entry(entries, i, key) && forall|j: int| 0 <= j < i ==> !is_entry(entries, j, key)
}

/// The map that a list of entries stands for: each key has the value of its first entry.
pub open spec fn entries_map(entries: Seq<(String, String)>) -> Map<Seq<char>, Seq<char>> {
    Map::new(
        |key: Seq<char>| exists|i: int| is_entry(entries, i, key),
        |key: Seq<char>| entries[choose|i: int| is_first_entry(entries, i, key)].1@,
    )
}

/// A map from text to text, such as the attributes of a message or the labels of a topic.
#[derive(Debug)]
pub struct StringMap {
    entries: Vec<(String, String)>,
}

impl StringMap {
    /// The keys and their values.
    pub closed spec fn view(&self) -> Map<Seq<char>, Seq<char>> {
        entries_map(self.entries@)
    }

    /// A map without entries.
    pub fn new() -> (m: StringMap)
        ensures
            m@ == Map::<Seq<char>, Seq<char>>::empty(),
    {
        let m = StringMap { entries: Vec::new() };
        assert(m@ =~= Map::<Seq<char>, Seq<char>>::empty());
        m
    }

    /// The index of the first entry with the given key.
    fn find(&self, key: &str) -> (found: Option<usize>)
        ensures
            match found {
                Some(i) => is_first_entry(self.entries@, i as int, key@),
                None => forall|i: int| !is_entry(self.entries@, i, key@),
            },
    {
        let wanted = key.to_owned();
        let mut i: usize = 0;
        while i < self.entries.len()
            invariant
                wanted@ == key@,
                i <= self.entries.len(),
                forall|j: int| 0 <= j < i ==> !is_entry(self.entries@, j, key@),
            decreases self.entries.len() - i,
        {
            if self.entries[i].0 == wanted {
                return Some(i);
            }
            i += 1;
        }
        None
    }

    /// The value of the key.
    pub fn get(&self, key: &str) -> (value: Option<&String>)
        ensures
            match value {
                Some(v) => self@.contains_key(key@) && v@ == self@[key@],
                None => !self@.contains_key(key@),
            },
    {
        match self.find(key) {
            Some(i) => {
                proof {
                    lemma_first_entry(self.entries@, i as int, key@);
                }
                Some(&self.entries[i].1)
            },
            None => None,
        }
    }

    /// Whether the key has a value.
    pub fn contains_key(&self, key: &str) -> (b: bool)
        ensures
            b == self@.contains_key(key@),
    {
        match self.find(key) {
            Some(i) => {
                proof {
                    lemma_first_entry(self.entries@, i as int, key@);
                }
                true
            },
            None => false,
        }
    }

    /// Gives the key the value, in place of the one it had.
    pub fn insert(&mut self, key: String, value: String)
        ensures
            final(self)@ == old(self)@.insert(key@, value@),
    {
        let ghost before = self.entries@;
        let found = self.find(key.as_str());
        match found {
            Some(i) => {
                self.entries[i] = (key, value);
                proof {
                    lemma_replace_entry(before, i as int, key, value);
                }
            },
            None => {
                self.entries.push((key, value));
                proof {
                    lemma_push_entry(before, key, value);
                }
            },
        }
    }

    /// Whether no key has a value.
    pub fn is_empty(&self) -> (b: bool)
        ensures
            b == (self@ == Map::<Seq<char>, Seq<char>>::empty()),
    {
        let b = self.entries.len() == 0;
        proof {
            if b {
                assert(self@ =~= Map::<Seq<char>, Seq<char>>::empty());
            } else {
                assert(is_entry(self.entries@, 0, self.entries@[0].0@));
                assert(self@.contains_key(self.entries@[0].0@));
            }
        }
        b
    }

    /// The entries of the map.
    pub fn pairs(&self) -> (pairs: &Vec<(String, String)>)
        ensures
            entries_map(pairs@) == self@,
    {
        &self.entries
    }
}

/// A key has the value of its first entry.
proof fn lemma_first_entry(entries: Seq<(String, String)>, i: int, key: Seq<char>)
    requires
        is_first_entry(entries, i, key),
    ensures
        entries_map(entries).contains_key(key),
        entries_map(entries)[key] == entries[i].1@,
{
    let c = choose|c: int| is_first_entry(entries, c, key);
    assert(is_first_entry(entries, c, key));
    assert(c == i) by {
        if c < i {
            assert(!is_entry(entries, c, key));
        }
        if i < c {
            assert(!is_entry(entries, i, key));
        }
    }
}

/// A key with an entry has a first one.
proof fn lemma_has_first_entry(entries: Seq<(String, String)>, i: int, key: Seq<char>)
    requires
        is_entry(entries, i, key),
    ensures
        exists|j: int| is_first_entry(entries, j, key),
    decreases i,
{
    if exists|j: int| 0 <= j < i && is_entry(entries, j, key) {
        let j = choose|j: int| 0 <= j < i && is_entry(entries, j, key);
        lemma_has_first_entry(entries, j, key);
    } else {
        assert(is_first_entry(entries, i, key));
    }
}

proof fn lemma_replace_entry(entries: Seq<(String, String)>, i: int, key: String, value: String)
    requires
        is_first_entry(entries, i, key@),
    ensures
        entries_map(entries.update(i, (key, value))) == entries_map(entries).insert(key@, value@),
{
    let after = entries.update(i, (key, value));
    let m = entries_map(entries);
    let n = entries_map(after);
    assert forall|j: int, k: Seq<char>| is_entry(after, j, k) == is_entry(entries, j, k) by {}
    assert forall|k: Seq<char>| n.contains_key(k) == m.insert(key@, value@).contains_key(k) by {
        if m.contains_key(k) {
            let j = choose|j: int| is_entry(entries, j, k);
            assert(is_entry(after, j, k));
        }
        if n.contains_key(k) {
            let j = choose|j: int| is_entry(after, j, k);
            assert(is_entry(entries, j, k));
        }
        if k == key@ {
            assert(is_entry(after, i, k));
        }
    }
    assert forall|k: Seq<char>| n.contains_key(k) implies n[k] == m.insert(key@, value@)[k] by {
        let j = choose|j: int| is_entry(after, j, k);
        lemma_has_first_entry(after, j, k);
        let f = choose|f: int| is_first_entry(after, f, k);
        assert(is_first_entry(entries, f, k));
        lemma_first_entry(after, f, k);
        lemma_first_entry(entries, f, k);
    }
    assert(n =~= m.insert(key@, value@));
}

proof fn lemma_push_entry(entries: Seq<(String, String)>, key: String, value: String)
    requires
        forall|i: int| !is_entry(entries, i, key@),
    ensures
        entries_map(entries.push((key, value))) == entries_map(entries).insert(key@, value@),
{
    let after = entries.push((key, value));
    let m = entries_map(entries);
    let n = entries_map(after);
    assert forall|k: Seq<char>| n.contains_key(k) == m.insert(key@, value@).contains_key(k) by {
        if m.contains_key(k) {
            let j = choose|j: int| is_entry(entries, j, k);
            assert(is_entry(after, j, k));
        }
        if n.contains_key(k) && k != key@ {
            let j = choose|j: int| is_entry(after, j, k);
            assert(is_entry(entries, j, k));
        }
        if k == key@ {
            assert(is_entry(after, entries.len() as int, k));
        }
    }
    assert forall|k: Seq<char>| n.contains_key(k) implies n[k] == m.insert(key@, value@)[k] by {
        if k == key@ {
            assert forall|j: int| 0 <= j < entries.len() implies !is_entry(after, j, k) by {
                assert(!is_entry(entries, j, key@));
            }
            assert(is_first_entry(after, entries.len() as int, k));
            lemma_first_entry(after, entries.len() as int, k);
        } else {
            let j = choose|j: int| is_entry(after, j, k);
            assert(is_entry(entries, j, k));
            lemma_has_first_entry(entries, j, k);
            let f = choose|f: int| is_first_entry(entries, f, k);
            assert forall|j: int| 0 <= j < f implies !is_entry(after, j, k) by {
                assert(!is_entry(entries, j, k));
            }
            assert(is_first_entry(after, f, k));
            lemma_first_entry(after, f, k);
            lemma_first_entry(entries, f, k);
        }
    }
    assert(n =~= m.insert(key@, value@));
}

impl Clone for StringMap {
    fn clone(&self) -> (m: StringMap)
        ensures
            m@ == self@,
    {
        let mut entries: Vec<(String, String)> = Vec::new();
        let mut i: usize = 0;
        while i < self.entries.len()
            invariant
                i <= self.entries.len(),
                entries@ =~= self.entries@.take(i as int),
            decreases self.entries.len() - i,
        {
            entries.push((self.entries[i].0.clone(), self.entries[i].1.clone()));
            i += 1;
        }
        assert(entries@ =~= self.entries@);
        StringMap { entries }
    }
}

/// The elements of a sequence that a predicate holds of, in their order.
pub open spec fn select<T>(s: Seq<T>, holds: spec_fn(T) -> bool) -> Seq<T>
    decreases s.len(),
{
    if s.len() == 0 {
        s
    } else {
        let front = select(s.drop_last(), holds);
        if holds(s.last()) {
            front.push(s.last())
        } else {
            front
        }
    }
}

/// Selecting from one element more.
pub proof fn lemma_select_step<T>(s: Seq<T>, holds: spec_fn(T) -> bool, i: int)
    requires
        0 <= i < s.len(),
    ensures
        select(s.take(i + 1), holds) == if holds(s[i]) {
            select(s.take(i), holds).push(s[i])
        } else {
            select(s.take(i), holds)
        },
{
    assert(s.take(i + 1).drop_last() =~= s.take(i));
}

/// What is selected is in the sequence, and the predicate holds of it.
pub proof fn lemma_selected<T>(s: Seq<T>, holds: spec_fn(T) -> bool, x: T)
    ensures
        select(s, holds).contains(x) <==> s.contains(x) && holds(x),
        select(s, holds).len() <= s.len(),
    decreases s.len(),
{
    if s.len() > 0 {
        let rest = s.drop_last();
        let front = select(rest, holds);
        lemma_selected(rest, holds, x);
        let all = select(s, holds);
        if front.contains(x) {
            let i = choose|i: int| 0 <= i < front.len() && front[i] == x;
            assert(all[i] == x);
        }
        if s.contains(x) {
            let i = choose|i: int| 0 <= i < s.len() && s[i] == x;
            if i < rest.len() {
                assert(rest[i] == x);
            } else if holds(x) {
                assert(all[front.len() as int] == x);
            }
        }
        if all.contains(x) {
            let i = choose|i: int| 0 <= i < all.len() && all[i] == x;
            if i < front.len() {
                assert(front[i] == x);
                assert(rest.contains(x));
                let j = choose|j: int| 0 <= j < rest.len() && rest[j] == x;
                assert(s[j] == x);
            } else {
                assert(s[s.len() - 1] == x);
            }
        }
    }
}

/// Where the predicate holds of every element, all are selected.
pub proof fn lemma_select_all<T>(s: Seq<T>, holds: spec_fn(T) -> bool)
    requires
        forall|i: int| 0 <= i < s.len() ==> holds(#[trigger] s[i]),
    ensures
        select(s, holds) == s,
    decreases s.len(),
{
    if s.len() > 0 {
        assert forall|i: int| 0 <= i < s.drop_last().len() implies holds(
            #[trigger] s.drop_last()[i],
        ) by {
            assert(s.drop_last()[i] == s[i]);
        }
        lemma_select_all(s.drop_last(), holds);
        assert(s =~= s.drop_last().push(s.last()));
    }
}

/// Where the predicate holds of no element, nothing is selected.
pub proof fn lemma_select_none<T>(s: Seq<T>, holds: spec_fn(T) -> bool)
    requires
        forall|i: int| 0 <= i < s.len() ==> !holds(#[trigger] s[i]),
    ensures
        select(s, holds).len() == 0,
    decreases s.len(),
{
    if s.len() > 0 {
        assert forall|i: int| 0 <= i < s.drop_last().len() implies !holds(
            #[trigger] s.drop_last()[i],
        ) by {
            assert(s.drop_last()[i] == s[i]);
        }
        lemma_select_none(s.drop_last(), holds);
    }
}

/// How many elements a predicate holds of.
pub open spec fn tally<T>(s: Seq<T>, holds: spec_fn(T) -> bool) -> nat {
    select(s, holds).len()
}

/// One element more counts where the predicate holds of it.
pub proof fn lemma_tally_push<T>(s: Seq<T>, x: T, holds: spec_fn(T) -> bool)
    ensures
        tally(s.push(x), holds) == tally(s, holds) + if holds(x) {
            1nat
        } else {
            0
        },
{
    assert(s.push(x).drop_last() =~= s);
}

/// The count of two sequences together.
pub proof fn lemma_tally_add<T>(a: Seq<T>, b: Seq<T>, holds: spec_fn(T) -> bool)
    ensures
        tally(a + b, holds) == tally(a, holds) + tally(b, holds),
    decreases b.len(),
{
    if b.len() == 0 {
        assert(a + b =~= a);
    } else {
        lemma_tally_add(a, b.drop_last(), holds);
        assert((a + b).drop_last() =~= a + b.drop_last());
    }
}

/// The count without the first element.
pub proof fn lemma_tally_first<T>(s: Seq<T>, holds: spec_fn(T) -> bool)
    requires
        s.len() > 0,
    ensures
        tally(s, holds) == tally(s.drop_first(), holds) + if holds(s[0]) {
            1nat
        } else {
            0
        },
{
    lemma_tally_add(seq![s[0]], s.drop_first(), holds);
    assert(s =~= seq![s[0]] + s.drop_first());
    lemma_tally_push(Seq::empty(), s[0], holds);
    assert(Seq::empty().push(s[0]) =~= seq![s[0]]);
}

/// The count of what is selected and of what is not, together.
pub proof fn lemma_tally_split<T>(
    s: Seq<T>,
    holds: spec_fn(T) -> bool,
    chosen: spec_fn(T) -> bool,
    left: spec_fn(T) -> bool,
)
    requires
        forall|x: T| #[trigger] chosen(x) == !left(x),
    ensures
        tally(select(s, chosen), holds) + tally(select(s, left), holds) == tally(s, holds),
    decreases s.len(),
{
    if s.len() > 0 {
        let rest = s.drop_last();
        lemma_tally_split(rest, holds, chosen, left);
        lemma_tally_push(select(rest, chosen), s.last(), holds);
        lemma_tally_push(select(rest, left), s.last(), holds);
        assert(chosen(s.last()) == !left(s.last()));
    }
}

/// Something is counted where the predicate holds of an element.
pub proof fn lemma_tally_some<T>(s: Seq<T>, holds: spec_fn(T) -> bool)
    ensures
        tally(s, holds) > 0 <==> exists|i: int| 0 <= i < s.len() && holds(#[trigger] s[i]),
{
    let sel = select(s, holds);
    if sel.len() > 0 {
        lemma_selected(s, holds, sel[0]);
        assert(sel.contains(sel[0]));
        assert(s.contains(sel[0]));
        let i = choose|i: int| 0 <= i < s.len() && s[i] == sel[0];
        assert(holds(s[i]));
    }
    if exists|i: int| 0 <= i < s.len() && holds(#[trigger] s[i]) {
        let i = choose|i: int| 0 <= i < s.len() && holds(#[trigger] s[i]);
        lemma_selected(s, holds, s[i]);
        assert(s.contains(s[i]));
    }
}

/// Where two elements are counted, the predicate holds of two of them.
pub proof fn lemma_tally_two<T>(s: Seq<T>, holds: spec_fn(T) -> bool, i: int, j: int)
    requires
        0 <= i < j < s.len(),
        holds(s[i]),
        holds(s[j]),
    ensures
        tally(s, holds) >= 2,
{
    let a = s.take(j);
    let b = s.skip(j);
    assert(s =~= a + b);
    lemma_tally_add(a, b, holds);
    lemma_tally_some(a, holds);
    lemma_tally_some(b, holds);
    assert(a[i] == s[i]);
    assert(b[0] == s[j]);
}

/// What is selected from elements that stand in a relation pairwise stands in it, too.
pub proof fn lemma_select_pairwise<T>(
    s: Seq<T>,
    holds: spec_fn(T) -> bool,
    related: spec_fn(T, T) -> bool,
)
    requires
        forall|i: int, j: int| 0 <= i < j < s.len() ==> related(#[trigger] s[i], #[trigger] s[j]),
    ensures
        forall|i: int, j: int|
            0 <= i < j < select(s, holds).len() ==> related(
                #[trigger] select(s, holds)[i],
                #[trigger] select(s, holds)[j],
            ),
    decreases s.len(),
{
    if s.len() > 0 {
        let rest = s.drop_last();
        let front = select(rest, holds);
        let all = select(s, holds);
        assert forall|i: int, j: int| 0 <= i < j < rest.len() implies related(
            #[trigger] rest[i],
            #[trigger] rest[j],
        ) by {
            assert(rest[i] == s[i] && rest[j] == s[j]);
        }
        lemma_select_pairwise(rest, holds, related);
        assert forall|i: int, j: int| 0 <= i < j < all.len() implies related(
            #[trigger] all[i],
            #[trigger] all[j],
        ) by {
            assert(all[i] == front[i]);
            if j < front.len() {
                assert(all[j] == front[j]);
            } else {
                lemma_selected(rest, holds, front[i]);
                assert(front.contains(front[i]));
                let a = choose|a: int| 0 <= a < rest.len() && rest[a] == front[i];
                assert(s[a] == front[i]);
                assert(all[j] == s[s.len() - 1]);
            }
        }
    }
}

/// Sequences of which a predicate holds in the same places count the same.
pub proof fn lemma_tally_same<T>(a: Seq<T>, b: Seq<T>, holds: spec_fn(T) -> bool)
    requires
        a.len() == b.len(),
        forall|i: int| 0 <= i < a.len() ==> holds(#[trigger] a[i]) == holds(b[i]),
    ensures
        tally(a, holds) == tally(b, holds),
    decreases a.len(),
{
    if a.len() > 0 {
        let x = a.drop_last();
        let y = b.drop_last();
        assert forall|i: int| 0 <= i < x.len() implies holds(#[trigger] x[i]) == holds(y[i]) by {
            assert(x[i] == a[i] && y[i] == b[i]);
        }
        lemma_tally_same(x, y, holds);
        assert(holds(a[a.len() - 1]) == holds(b[b.len() - 1]));
    }
}

/// What is selected from two sequences together.
pub proof fn lemma_select_add<T>(a: Seq<T>, b: Seq<T>, holds: spec_fn(T) -> bool)
    ensures
        select(a + b, holds) == select(a, holds) + select(b, holds),
    decreases b.len(),
{
    if b.len() == 0 {
        assert(a + b =~= a);
        assert(select(a, holds) + select(b, holds) =~= select(a, holds));
    } else {
        lemma_select_add(a, b.drop_last(), holds);
        assert((a + b).drop_last() =~= a + b.drop_last());
        assert(select(a + b, holds) =~= select(a, holds) + select(b, holds));
    }
}

/// What is selected from one element.
pub proof fn lemma_select_one<T>(x: T, holds: spec_fn(T) -> bool)
    ensures
        select(seq![x], holds) == if holds(x) {
            seq![x]
        } else {
            Seq::empty()
        },
{
    let none = Seq::<T>::empty();
    assert(seq![x].drop_last() =~= none);
    assert(select(none, holds) == none);
    assert(none.push(x) =~= seq![x]);
}

} // verus!
