//! A map with text keys, kept in the order of its keys.
use vstd::prelude::*;
use vstd::seq_lib::*;
use crate::order::{lemma_text_order, text_before, text_le, text_lt, text_lt_fn};
use crate::text::same;

verus! {

/// A map from texts to values. The entries stand in the order of their keys.
#[derive(Debug)]
pub struct TextMap<V> {
    entries: Vec<(String, V)>,
}

/// Are the keys in strictly rising order?
pub open spec fn rising<V>(e: Seq<(String, V)>) -> bool {
    forall|i: int, j: int| 0 <= i < j < e.len() ==> text_lt(#[trigger] e[i].0@, #[trigger] e[j].0@)
}

/// The map that the entries make.
pub open spec fn map_of<V>(e: Seq<(String, V)>) -> Map<Seq<char>, V> {
    Map::new(
        |k: Seq<char>| exists|i: int| 0 <= i < e.len() && #[trigger] e[i].0@ == k,
        |k: Seq<char>| e[index_of_key(e, k)].1,
    )
}

/// The position of the entry with key `k`.
pub open spec fn index_of_key<V>(e: Seq<(String, V)>, k: Seq<char>) -> int {
    choose|i: int| 0 <= i < e.len() && #[trigger] e[i].0@ == k
}

/// The keys of the map in their order.
pub open spec fn keys_in_order<V>(m: Map<Seq<char>, V>) -> Seq<Seq<char>> {
    m.dom().to_seq().sort_by(text_le())
}

/// The views of the values of a map.
pub open spec fn text_values(m: Map<Seq<char>, String>) -> Map<Seq<char>, Seq<char>> {
    m.map_values(|v: String| v@)
}

/// A value enters the viewed map as its view.
pub broadcast proof fn lemma_text_values_insert(m: Map<Seq<char>, String>, k: Seq<char>, v: String)
    ensures
        #[trigger] text_values(m.insert(k, v)) == text_values(m).insert(k, v@),
{
    assert(text_values(m.insert(k, v)) =~= text_values(m).insert(k, v@));
}

proof fn lemma_rising_distinct<V>(e: Seq<(String, V)>, i: int, j: int)
    requires
        rising(e),
        0 <= i < e.len(),
        0 <= j < e.len(),
        e[i].0@ == e[j].0@,
    ensures
        i == j,
{
    lemma_text_order();
    if i < j {
        assert(text_lt_fn()(e[i].0@, e[j].0@));
    } else if j < i {
        assert(text_lt_fn()(e[j].0@, e[i].0@));
    }
}

proof fn lemma_map_at<V>(e: Seq<(String, V)>, i: int)
    requires
        rising(e),
        0 <= i < e.len(),
    ensures
        map_of(e).dom().contains(e[i].0@),
        map_of(e)[e[i].0@] == e[i].1,
{
    let j = index_of_key(e, e[i].0@);
    assert(e[i].0@ == e[i].0@);
    assert(0 <= j < e.len() && e[j].0@ == e[i].0@);
    lemma_rising_distinct(e, i, j);
}

impl<V> View for TextMap<V> {
    type V = Map<Seq<char>, V>;

    closed spec fn view(&self) -> Map<Seq<char>, V> {
        map_of(self.entries@)
    }
}

impl<V> TextMap<V> {
    #[verifier::type_invariant]
    spec fn ordered(self) -> bool {
        rising(self.entries@)
    }

    /// The keys of the entries, in the order in which they stand.
    pub closed spec fn keys(self) -> Seq<Seq<char>> {
        Seq::new(self.entries@.len(), |i: int| self.entries@[i].0@)
    }

    /// The empty map.
    pub fn new() -> (r: Self)
        ensures
            r@ == Map::<Seq<char>, V>::empty(),
    {
        let r = TextMap { entries: Vec::new() };
        assert(r@ =~= Map::<Seq<char>, V>::empty());
        r
    }

    /// How many entries the map has.
    pub fn len(&self) -> (r: usize)
        ensures
            r == self.keys().len(),
            self.keys() == keys_in_order(self@),
    {
        proof {
            use_type_invariant(self);
            lemma_keys(self.entries@);
        }
        self.entries.len()
    }

    /// Has the map no entry?
    pub fn is_empty(&self) -> (r: bool)
        ensures
            r == (self@ == Map::<Seq<char>, V>::empty()),
    {
        proof {
            if self.entries@.len() == 0 {
                assert(self@ =~= Map::<Seq<char>, V>::empty());
            } else {
                let k = self.entries@[0].0@;
                assert(self@.dom().contains(k));
            }
        }
        self.entries.len() == 0
    }

    /// The key of the entry at position `i`.
    pub fn key_at(&self, i: usize) -> (r: &String)
        requires
            i < self.keys().len(),
        ensures
            r@ == self.keys()[i as int],
            self@.dom().contains(r@),
    {
        proof {
            use_type_invariant(self);
            lemma_map_at(self.entries@, i as int);
        }
        &self.entries[i].0
    }

    /// The value of the entry at position `i`.
    pub fn value_at(&self, i: usize) -> (r: &V)
        requires
            i < self.keys().len(),
        ensures
            self@.dom().contains(self.keys()[i as int]),
            *r == self@[self.keys()[i as int]],
    {
        proof {
            use_type_invariant(self);
            lemma_map_at(self.entries@, i as int);
        }
        &self.entries[i].1
    }

    /// The position of the first entry whose key is not before `key`.
    fn place(&self, key: &str) -> (r: usize)
        ensures
            r <= self.entries@.len(),
            forall|i: int| 0 <= i < r ==> text_lt(#[trigger] self.entries@[i].0@, key@),
            forall|i: int|
                r <= i < self.entries@.len() ==> !text_lt(#[trigger] self.entries@[i].0@, key@),
    {
        proof {
            use_type_invariant(self);
            lemma_text_order();
        }
        let mut i: usize = 0;
        while i < self.entries.len() && text_before(self.entries[i].0.as_str(), key)
            invariant
                i <= self.entries@.len(),
                forall|j: int| 0 <= j < i ==> text_lt(#[trigger] self.entries@[j].0@, key@),
            decreases self.entries.len() - i,
        {
            i += 1;
        }
        proof {
            let e = self.entries@;
            assert forall|j: int| i <= j < e.len() implies !text_lt(#[trigger] e[j].0@, key@) by {
                if i < j && text_lt(e[j].0@, key@) {
                    assert(text_lt_fn()(e[i as int].0@, e[j].0@));
                    assert(text_lt_fn()(e[j].0@, key@));
                    assert(text_lt_fn()(e[i as int].0@, key@));
                }
            }
        }
        i
    }

    /// The value of `key`.
    pub fn get(&self, key: &str) -> (r: Option<&V>)
        ensures
            match r {
                Some(v) => self@.dom().contains(key@) && self@[key@] == *v,
                None => !self@.dom().contains(key@),
            },
    {
        let i = self.place(key);
        proof {
            use_type_invariant(self);
            lemma_text_order();
        }
        if i < self.entries.len() && same(self.entries[i].0.as_str(), key) {
            proof {
                lemma_map_at(self.entries@, i as int);
            }
            Some(&self.entries[i].1)
        } else {
            proof {
                let e = self.entries@;
                if self@.dom().contains(key@) {
                    let j = choose|j: int| 0 <= j < e.len() && #[trigger] e[j].0@ == key@;
                    assert(!text_lt_fn()(key@, key@));
                    if j > i {
                        assert(text_lt_fn()(e[i as int].0@, e[j].0@));
                    }
                }
            }
            None
        }
    }

    /// Has the map an entry for `key`?
    pub fn contains_key(&self, key: &str) -> (r: bool)
        ensures
            r == self@.dom().contains(key@),
    {
        self.get(key).is_some()
    }

    /// Sets the value of `key`.
    pub fn insert(&mut self, key: String, value: V)
        ensures
            final(self)@ == old(self)@.insert(key@, value),
    {
        let i = self.place(key.as_str());
        proof {
            use_type_invariant(&*self);
            lemma_text_order();
        }
        let ghost before = self.entries@;
        let mut entries: Vec<(String, V)> = Vec::new();
        std::mem::swap(&mut entries, &mut self.entries);
        let present = i < entries.len() && same(entries[i].0.as_str(), key.as_str());
        if present {
            let _ = entries.remove(i);
        }
        let ghost rest = entries@;
        entries.insert(i, (key, value));
        proof {
            let after = entries@;
            let k = key@;
            let lt = text_lt_fn();
            assert(present ==> rest =~= before.remove(i as int));
            assert forall|a: int, b: int| 0 <= a < b < after.len() implies text_lt(
                #[trigger] after[a].0@,
                #[trigger] after[b].0@,
            ) by {
                let p = if a < i {
                    a
                } else if present {
                    a
                } else {
                    a - 1
                };
                let q = if b < i {
                    b
                } else if present {
                    b
                } else {
                    b - 1
                };
                if a < i && b != i {
                    assert(after[a] == before[p] && after[b] == before[q]);
                } else if a < i {
                    assert(after[a] == before[a]);
                } else if a > i {
                    assert(after[a] == before[p] && after[b] == before[q]);
                } else {
                    assert(after[b] == before[q]);
                    assert(!text_lt(before[q].0@, k));
                    if before[q].0@ == k {
                        if present {
                            lemma_rising_distinct(before, q, i as int);
                        } else {
                            if q > i {
                                assert(lt(before[i as int].0@, before[q].0@));
                            }
                        }
                    }
                    assert(lt(k, before[q].0@) || lt(before[q].0@, k));
                }
            }
            let m = map_of(before).insert(k, value);
            assert forall|x: Seq<char>| #[trigger]
                map_of(after).dom().contains(x) == m.dom().contains(x) by {
                if map_of(after).dom().contains(x) {
                    let j = choose|j: int| 0 <= j < after.len() && #[trigger] after[j].0@ == x;
                    if j != i {
                        let q = if j < i || present {
                            j
                        } else {
                            j - 1
                        };
                        assert(after[j] == before[q]);
                    }
                }
                if m.dom().contains(x) {
                    if x == k {
                        assert(after[i as int].0@ == x);
                    } else {
                        let j = choose|j: int| 0 <= j < before.len() && #[trigger] before[j].0@ == x;
                        let q = if j < i || present {
                            j
                        } else {
                            j + 1
                        };
                        assert(after[q] == before[j]);
                    }
                }
            }
            assert forall|x: Seq<char>| m.dom().contains(x) implies #[trigger] map_of(after)[x]
                == m[x] by {
                if x == k {
                    lemma_map_at(after, i as int);
                } else {
                    let j = choose|j: int| 0 <= j < before.len() && #[trigger] before[j].0@ == x;
                    let q = if j < i || present {
                        j
                    } else {
                        j + 1
                    };
                    assert(after[q] == before[j]);
                    lemma_map_at(after, q);
                    lemma_map_at(before, j);
                }
            }
            assert(map_of(after) =~= m);
        }
        self.entries = entries;
    }
}

proof fn lemma_listing_distinct(s: Set<Seq<char>>)
    requires
        s.finite(),
    ensures
        s.to_seq().no_duplicates(),
    decreases s.len(),
{
    if s.len() > 0 {
        let x = s.choose();
        let rest = s.remove(x).to_seq();
        s.remove(x).lemma_to_seq_to_set_id();
        lemma_listing_distinct(s.remove(x));
        let all = s.to_seq();
        assert forall|i: int, j: int| 0 <= i < j < all.len() implies all[i] != all[j] by {
            assert(all[j] == rest[j - 1]);
            assert(rest.to_set().contains(rest[j - 1]));
            if i > 0 {
                assert(all[i] == rest[i - 1]);
            }
        }
    }
}

proof fn lemma_keys<V>(e: Seq<(String, V)>)
    requires
        rising(e),
    ensures
        Seq::new(e.len(), |i: int| e[i].0@) == keys_in_order(map_of(e)),
{
    let keys = Seq::new(e.len(), |i: int| e[i].0@);
    let dom = map_of(e).dom();
    lemma_text_order();
    let le = text_le();
    assert forall|i: int, j: int| 0 <= i < j < keys.len() implies #[trigger] le(
        keys[i],
        keys[j],
    ) by {
        assert(text_lt(e[i].0@, e[j].0@));
    }
    assert forall|i: int, j: int| 0 <= i < keys.len() && 0 <= j < keys.len() && i != j implies keys[i]
        != keys[j] by {
        if keys[i] == keys[j] {
            lemma_rising_distinct(e, i, j);
        }
    }
    assert(keys.no_duplicates());
    assert(keys.to_set() =~= dom) by {
        assert forall|k: Seq<char>| keys.to_set().contains(k) == dom.contains(k) by {
            if dom.contains(k) {
                let i = choose|i: int| 0 <= i < e.len() && #[trigger] e[i].0@ == k;
                assert(keys[i] == k);
            }
            if keys.contains(k) {
                let i = choose|i: int| 0 <= i < keys.len() && keys[i] == k;
                assert(e[i].0@ == k);
            }
        }
    }
    seq_to_set_is_finite(keys);
    let listed = dom.to_seq();
    dom.lemma_to_seq_to_set_id();
    lemma_listing_distinct(dom);
    keys.lemma_multiset_has_no_duplicates();
    listed.lemma_multiset_has_no_duplicates();
    assert(keys.to_multiset() =~= listed.to_multiset()) by {
        broadcast use group_to_multiset_ensures;

        assert forall|k: Seq<char>| #[trigger]
            keys.to_multiset().count(k) == listed.to_multiset().count(k) by {
            assert(keys.contains(k) == keys.to_set().contains(k));
            assert(listed.contains(k) == listed.to_set().contains(k));
            if keys.contains(k) {
                assert(keys.to_multiset().contains(k));
                assert(listed.to_multiset().contains(k));
            }
        }
    }
    listed.lemma_sort_by_ensures(le);
    lemma_sorted_unique(keys, listed.sort_by(le), le);
}

impl Clone for TextMap<String> {
    fn clone(&self) -> (r: Self)
        ensures
            r@ == self@,
    {
        proof {
            use_type_invariant(self);
        }
        let mut entries: Vec<(String, String)> = Vec::new();
        let mut i: usize = 0;
        while i < self.entries.len()
            invariant
                i <= self.entries@.len(),
                entries@ == self.entries@.take(i as int),
            decreases self.entries.len() - i,
        {
            assert(self.entries@.take(i as int + 1) =~= self.entries@.take(i as int).push(
                self.entries@[i as int],
            ));
            entries.push((self.entries[i].0.clone(), self.entries[i].1.clone()));
            i += 1;
        }
        assert(self.entries@.take(i as int) =~= self.entries@);
        TextMap { entries }
    }
}

} // verus!
