//! A map from text to values that is walked in dictionary order of its keys.
use crate::text::{less, precedes, same_text};
use vstd::prelude::*;

verus! {

// ----------------------------------------------------------------------------
// Dictionary order
// ----------------------------------------------------------------------------

/// No text comes before itself.
pub proof fn order_irreflexive(a: Seq<char>)
    ensures
        !precedes(a, a),
    decreases a.len(),
{
    if a.len() > 0 {
        order_irreflexive(a.drop_first());
    }
}

/// A character is told by its code point.
proof fn lemma_code_point(c: char)
    ensures
        c as u32 as int == c as int,
{
}

/// Of two different texts one comes before the other.
pub proof fn order_total(a: Seq<char>, b: Seq<char>)
    ensures
        a == b || precedes(a, b) || precedes(b, a),
    decreases a.len(),
{
    if a.len() == 0 {
        if b.len() == 0 {
            assert(a =~= b);
        }
    } else if b.len() > 0 && a[0] != b[0] {
        lemma_code_point(a[0]);
        lemma_code_point(b[0]);
    } else if b.len() > 0 {
        order_total(a.drop_first(), b.drop_first());
        if a.drop_first() == b.drop_first() {
            assert(a =~= seq![a[0]] + a.drop_first());
            assert(b =~= seq![b[0]] + b.drop_first());
        }
    }
}

pub proof fn order_transitive(a: Seq<char>, b: Seq<char>, c: Seq<char>)
    requires
        precedes(a, b),
        precedes(b, c),
    ensures
        precedes(a, c),
    decreases a.len(),
{
    if a.len() > 0 && a[0] == b[0] && b[0] == c[0] {
        order_transitive(a.drop_first(), b.drop_first(), c.drop_first());
    }
}

// ----------------------------------------------------------------------------
// Entries and the map they make up
// ----------------------------------------------------------------------------

/// Keys strictly ascending.
pub open spec fn ascending<T>(entries: Seq<(Seq<char>, T)>) -> bool {
    forall|i: int, j: int|
        0 <= i < j < entries.len() ==> precedes(
            (#[trigger] entries[i]).0,
            (#[trigger] entries[j]).0,
        )
}

/// No key twice.
pub open spec fn distinct<K, T>(entries: Seq<(K, T)>) -> bool {
    forall|i: int, j: int|
        0 <= i < j < entries.len() ==> (#[trigger] entries[i]).0 != (#[trigger] entries[j]).0
}

pub open spec fn has_key<K, T>(entries: Seq<(K, T)>, key: K) -> bool {
    exists|i: int| 0 <= i < entries.len() && (#[trigger] entries[i]).0 == key
}

pub open spec fn position<K, T>(entries: Seq<(K, T)>, key: K) -> int {
    choose|i: int| 0 <= i < entries.len() && (#[trigger] entries[i]).0 == key
}

/// The map that the entries make up.
pub open spec fn map_of<K, T>(entries: Seq<(K, T)>) -> Map<K, T> {
    Map::new(|k: K| has_key(entries, k), |k: K| entries[position(entries, k)].1)
}

/// Ascending keys are distinct.
pub proof fn lemma_ascending_distinct<T>(entries: Seq<(Seq<char>, T)>)
    requires
        ascending(entries),
    ensures
        distinct(entries),
{
    assert forall|i: int, j: int| 0 <= i < j < entries.len() implies (#[trigger] entries[i]).0 != (
    #[trigger] entries[j]).0 by {
        order_irreflexive(entries[i].0);
    }
}

/// An entry is what the map holds under its key.
pub proof fn lemma_map_of<K, T>(entries: Seq<(K, T)>, i: int)
    requires
        distinct(entries),
        0 <= i < entries.len(),
    ensures
        map_of(entries).dom().contains(entries[i].0),
        map_of(entries)[entries[i].0] == entries[i].1,
{
    let key = entries[i].0;
    let p = position(entries, key);
    assert(entries[i].0 == key);
    assert(entries[p].0 == key);
    assert(p == i);
}

/// To replace an entry's value is to put the value under the entry's key.
pub proof fn lemma_replace<K, T>(entries: Seq<(K, T)>, p: int, key: K, value: T)
    requires
        distinct(entries),
        0 <= p < entries.len(),
        entries[p].0 == key,
    ensures
        distinct(entries.update(p, (key, value))),
        map_of(entries.update(p, (key, value))) == map_of(entries).insert(key, value),
{
    let after = entries.update(p, (key, value));
    assert(forall|i: int| 0 <= i < entries.len() ==> (#[trigger] after[i]).0 == entries[i].0);
    lemma_map_of(after, p);
    let m = map_of(after);
    let w = map_of(entries).insert(key, value);
    assert forall|k: K| #[trigger] m.dom().contains(k) <==> w.dom().contains(k) by {
        if m.dom().contains(k) {
            let i = position(after, k);
            assert(entries[i].0 == k);
        }
        if has_key(entries, k) {
            let i = position(entries, k);
            assert(after[i].0 == k);
        }
    }
    assert forall|k: K| #[trigger] m.dom().contains(k) implies m[k] == w[k] by {
        if k != key {
            let i = position(after, k);
            assert(after[i].0 == k);
            lemma_map_of(after, i);
            lemma_map_of(entries, i);
        }
    }
    assert(m =~= w);
}

/// To add an entry with a new key is to put its value under that key.
pub proof fn lemma_add<K, T>(entries: Seq<(K, T)>, p: int, key: K, value: T)
    requires
        distinct(entries),
        0 <= p <= entries.len(),
        !has_key(entries, key),
    ensures
        distinct(entries.insert(p, (key, value))),
        map_of(entries.insert(p, (key, value))) == map_of(entries).insert(key, value),
{
    let after = entries.insert(p, (key, value));
    assert forall|i: int, j: int| 0 <= i < j < after.len() implies (#[trigger] after[i]).0 != (
    #[trigger] after[j]).0 by {
        let a = if i < p { i } else { i - 1 };
        let b = if j < p { j } else { j - 1 };
        if i != p {
            assert(after[i] == entries[a]);
        }
        if j != p {
            assert(after[j] == entries[b]);
        }
    }
    lemma_map_of(after, p);
    let m = map_of(after);
    let w = map_of(entries).insert(key, value);
    assert forall|k: K| #[trigger] m.dom().contains(k) <==> w.dom().contains(k) by {
        if m.dom().contains(k) && k != key {
            let i = position(after, k);
            assert(after[i].0 == k);
            let a = if i < p { i } else { i - 1 };
            assert(entries[a].0 == k);
        }
        if has_key(entries, k) {
            let a = position(entries, k);
            assert(entries[a].0 == k);
            let i = if a < p { a } else { a + 1 };
            assert(after[i].0 == k);
        }
    }
    assert forall|k: K| #[trigger] m.dom().contains(k) implies m[k] == w[k] by {
        if k != key {
            let i = position(after, k);
            assert(after[i].0 == k);
            let a = if i < p { i } else { i - 1 };
            lemma_map_of(after, i);
            lemma_map_of(entries, a);
        }
    }
    assert(m =~= w);
}

/// An entry put between the smaller and the larger keys keeps the order.
proof fn lemma_add_ascending<T>(entries: Seq<(Seq<char>, T)>, p: int, key: Seq<char>, value: T)
    requires
        ascending(entries),
        0 <= p <= entries.len(),
        forall|k: int| 0 <= k < p ==> precedes((#[trigger] entries[k]).0, key),
        p < entries.len() ==> precedes(key, entries[p].0),
    ensures
        ascending(entries.insert(p, (key, value))),
        !has_key(entries, key),
{
    let after = entries.insert(p, (key, value));
    order_irreflexive(key);
    assert forall|j: int| p < j < entries.len() implies precedes(key, (#[trigger] entries[j]).0) by {
        order_transitive(key, entries[p].0, entries[j].0);
    }
    assert forall|i: int, j: int| 0 <= i < j < after.len() implies precedes(
        (#[trigger] after[i]).0,
        (#[trigger] after[j]).0,
    ) by {
        let a = if i < p { i } else { i - 1 };
        let b = if j < p { j } else { j - 1 };
        if i != p {
            assert(after[i] == entries[a]);
        }
        if j != p {
            assert(after[j] == entries[b]);
        }
    }
}

/// A map has one ascending listing, so the order in which it is walked is fixed by
/// what it holds.
pub proof fn one_walk_per_map<T>(a: Seq<(Seq<char>, T)>, b: Seq<(Seq<char>, T)>)
    requires
        ascending(a),
        ascending(b),
        map_of(a) == map_of(b),
    ensures
        a == b,
    decreases a.len(),
{
    lemma_ascending_distinct(a);
    lemma_ascending_distinct(b);
    if a.len() == 0 {
        if b.len() > 0 {
            lemma_map_of(b, 0);
            assert(has_key(a, b[0].0));
        }
        assert(a =~= b);
    } else {
        let i = a.len() - 1;
        let key = a[i].0;
        lemma_map_of(a, i);
        assert(has_key(b, key));
        let j = position(b, key);
        assert(b[j].0 == key);
        lemma_map_of(b, j);
        if j < b.len() - 1 {
            let top = b.last().0;
            assert(precedes(b[j].0, b[b.len() - 1].0));
            lemma_map_of(b, b.len() - 1);
            assert(has_key(a, top));
            let k = position(a, top);
            assert(a[k].0 == top);
            order_irreflexive(top);
            if k < i {
                order_transitive(a[k].0, a[i].0, top);
            }
        }
        let front_a = a.drop_last();
        let front_b = b.drop_last();
        lemma_drop_last(a);
        lemma_drop_last(b);
        one_walk_per_map(front_a, front_b);
        assert(a =~= front_a.push(a.last()));
        assert(b =~= front_b.push(b.last()));
    }
}

proof fn lemma_drop_last<T>(entries: Seq<(Seq<char>, T)>)
    requires
        ascending(entries),
        entries.len() > 0,
    ensures
        ascending(entries.drop_last()),
        map_of(entries.drop_last()) == map_of(entries).remove(entries.last().0),
{
    let front = entries.drop_last();
    let last = entries.len() - 1;
    assert(forall|k: int| 0 <= k < last ==> #[trigger] front[k] == entries[k]);
    lemma_ascending_distinct(entries);
    lemma_ascending_distinct(front);
    let m = map_of(front);
    let w = map_of(entries).remove(entries.last().0);
    assert forall|k: Seq<char>| #[trigger] m.dom().contains(k) <==> w.dom().contains(k) by {
        if m.dom().contains(k) {
            let i = position(front, k);
            assert(front[i].0 == k);
            assert(entries[i].0 == k);
            assert(entries[i].0 != entries[last].0);
        }
        if w.dom().contains(k) {
            let i = position(entries, k);
            assert(entries[i].0 == k);
            assert(front[i].0 == k);
        }
    }
    assert forall|k: Seq<char>| #[trigger] m.dom().contains(k) implies m[k] == w[k] by {
        let i = position(front, k);
        assert(front[i].0 == k);
        lemma_map_of(front, i);
        lemma_map_of(entries, i);
    }
    assert(m =~= w);
}

pub struct TextMap<V> {
    entries: Vec<(String, V)>,
}

impl<V: DeepView> View for TextMap<V> {
    type V = Map<Seq<char>, V::V>;

    closed spec fn view(&self) -> Map<Seq<char>, V::V> {
        map_of(self.entries.deep_view())
    }
}

impl<V: DeepView> DeepView for TextMap<V> {
    type V = Map<Seq<char>, V::V>;

    open spec fn deep_view(&self) -> Map<Seq<char>, V::V> {
        self.view()
    }
}

impl<V: DeepView> TextMap<V> {
    /// The entries in the order in which the map is walked.
    pub closed spec fn listed(&self) -> Seq<(Seq<char>, V::V)> {
        self.entries.deep_view()
    }

    pub closed spec fn wf(&self) -> bool {
        ascending(self.entries.deep_view())
    }

    /// A well-formed map is walked in ascending order, each entry once.
    pub proof fn lemma_listed(&self)
        requires
            self.wf(),
        ensures
            ascending(self.listed()),
            map_of(self.listed()) == self@,
    {
    }

    pub fn new() -> (m: TextMap<V>)
        ensures
            m.wf(),
            m@ == Map::<Seq<char>, V::V>::empty(),
    {
        let m = TextMap { entries: Vec::new() };
        assert(m@ =~= Map::<Seq<char>, V::V>::empty());
        m
    }

    pub fn len(&self) -> (n: usize)
        ensures
            n == self.listed().len(),
    {
        self.entries.len()
    }

    /// The key of the entry at a place in the walk.
    pub fn key_at(&self, i: usize) -> (key: &str)
        requires
            i < self.listed().len(),
        ensures
            key@ == self.listed()[i as int].0,
    {
        self.entries[i].0.as_str()
    }

    /// The value of the entry at a place in the walk.
    pub fn value_at(&self, i: usize) -> (value: &V)
        requires
            i < self.listed().len(),
        ensures
            value.deep_view() == self.listed()[i as int].1,
    {
        &self.entries[i].1
    }

    pub fn get(&self, key: &str) -> (r: Option<&V>)
        requires
            self.wf(),
        ensures
            match r {
                Some(v) => self@.dom().contains(key@) && self@[key@] == v.deep_view(),
                None => !self@.dom().contains(key@),
            },
    {
        let mut i: usize = 0;
        while i < self.entries.len()
            invariant
                self.wf(),
                i <= self.entries@.len(),
                forall|k: int| 0 <= k < i ==> (#[trigger] self.listed()[k]).0 != key@,
            decreases self.entries@.len() - i,
        {
            if same_text(self.entries[i].0.as_str(), key) {
                proof {
                    lemma_ascending_distinct(self.listed());
                    lemma_map_of(self.listed(), i as int);
                }
                return Some(&self.entries[i].1);
            }
            i += 1;
        }
        assert(!has_key(self.listed(), key@));
        None
    }

    /// The place of the first key that does not come before `key`.
    fn place(&self, key: &str) -> (p: usize)
        requires
            self.wf(),
        ensures
            p <= self.listed().len(),
            forall|k: int| 0 <= k < p ==> precedes((#[trigger] self.listed()[k]).0, key@),
            p < self.listed().len() ==> !precedes(self.listed()[p as int].0, key@),
    {
        let mut i: usize = 0;
        while i < self.entries.len() && less(self.entries[i].0.as_str(), key)
            invariant
                i <= self.entries@.len(),
                forall|k: int| 0 <= k < i ==> precedes((#[trigger] self.listed()[k]).0, key@),
            decreases self.entries@.len() - i,
        {
            i += 1;
        }
        i
    }

    /// Puts `value` under `key`, in place of what was there.
    pub fn insert(&mut self, key: String, value: V)
        requires
            old(self).wf(),
        ensures
            final(self).wf(),
            final(self)@ == old(self)@.insert(key@, value.deep_view()),
    {
        let p: usize = self.place(key.as_str());
        let ghost before = self.listed();
        let ghost k0 = key@;
        let ghost v0 = value.deep_view();
        if p < self.entries.len() && same_text(self.entries[p].0.as_str(), key.as_str()) {
            self.entries.set(p, (key, value));
            proof {
                assert(self.listed() =~= before.update(p as int, (k0, v0)));
                lemma_ascending_distinct(before);
                lemma_replace(before, p as int, k0, v0);
            }
        } else {
            self.entries.insert(p, (key, value));
            proof {
                assert(self.listed() =~= before.insert(p as int, (k0, v0)));
                if p < before.len() {
                    order_total(before[p as int].0, k0);
                }
                lemma_ascending_distinct(before);
                lemma_add_ascending(before, p as int, k0, v0);
                lemma_add(before, p as int, k0, v0);
            }
        }
    }
}

}
