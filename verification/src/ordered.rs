//! A map kept in ascending key order.
//!
//! Keys are ordered by their text, byte by byte, as `str` values compare.
//! The map holds its entries in a vector sorted strictly by key, so that no
//! key occurs twice and iteration yields ascending keys.

use vstd::prelude::*;
use crate::order::{
    lemma_text_lt_transitive, lemma_text_lt_trichotomy, rank_text, text_lt, Rank,
};

verus! {

/// A key that is identified and ordered by a text.
pub trait TextKey {
    /// The text that stands for the key.
    spec fn text(&self) -> Seq<char>;

    /// The text that stands for the key.
    fn as_text(&self) -> (s: &str)
        ensures
            s@ == self.text(),
    ;
}

/// Whether each text comes before all that follow it.
pub open spec fn strictly_increasing(keys: Seq<Seq<char>>) -> bool {
    forall|i: int, j: int| 0 <= i < j < keys.len() ==> text_lt(#[trigger] keys[i], #[trigger] keys[j])
}

/// The map that sends each of `keys` to the value at its position.
pub open spec fn zip_map<V>(keys: Seq<Seq<char>>, values: Seq<V>) -> Map<Seq<char>, V> {
    Map::new(|t: Seq<char>| keys.contains(t), |t: Seq<char>| values[keys.index_of(t)])
}

/// In a strictly increasing sequence every text has one position.
pub proof fn lemma_positions_unique(keys: Seq<Seq<char>>, i: int, j: int)
    requires
        strictly_increasing(keys),
        0 <= i < keys.len(),
        0 <= j < keys.len(),
        keys[i] == keys[j],
    ensures
        i == j,
{
    lemma_text_lt_trichotomy(keys[i], keys[j]);
}

/// What `zip_map` holds at the key of position `i`.
pub proof fn lemma_zip_map_at<V>(keys: Seq<Seq<char>>, values: Seq<V>, i: int)
    requires
        strictly_increasing(keys),
        0 <= i < keys.len(),
    ensures
        zip_map(keys, values).contains_key(keys[i]),
        zip_map(keys, values)[keys[i]] == values[i],
{
    assert(keys.contains(keys[i]));
    lemma_positions_unique(keys, i, keys.index_of(keys[i]));
}

/// Where `t` stands among `keys`: at `at` if `found`, else between the
/// texts before `at` and those from `at` on.
pub open spec fn stands_at(keys: Seq<Seq<char>>, t: Seq<char>, at: int, found: bool) -> bool {
    &&& 0 <= at <= keys.len()
    &&& found ==> at < keys.len() && keys[at] == t
    &&& !found ==> {
        &&& forall|j: int| 0 <= j < at ==> text_lt(#[trigger] keys[j], t)
        &&& forall|j: int| at <= j < keys.len() ==> text_lt(t, #[trigger] keys[j])
    }
}

/// A text that stands between its neighbours does not occur.
pub proof fn lemma_absent(keys: Seq<Seq<char>>, t: Seq<char>, at: int)
    requires
        stands_at(keys, t, at, false),
    ensures
        !keys.contains(t),
{
    if keys.contains(t) {
        let i = keys.index_of(t);
        lemma_text_lt_trichotomy(keys[i], t);
    }
}

/// Putting an absent text at its place keeps the order, and the map gains
/// that one entry.
pub proof fn lemma_insert_at<V>(keys: Seq<Seq<char>>, values: Seq<V>, t: Seq<char>, v: V, at: int)
    requires
        strictly_increasing(keys),
        keys.len() == values.len(),
        stands_at(keys, t, at, false),
    ensures
        strictly_increasing(keys.insert(at, t)),
        zip_map(keys.insert(at, t), values.insert(at, v)) == zip_map(keys, values).insert(t, v),
{
    let keys2 = keys.insert(at, t);
    let values2 = values.insert(at, v);
    assert forall|i: int, j: int| 0 <= i < j < keys2.len() implies text_lt(
        #[trigger] keys2[i],
        #[trigger] keys2[j],
    ) by {
        let a = if i < at { i } else { i - 1 };
        let b = if j < at { j } else { j - 1 };
        if i == at {
            assert(keys2[j] == keys[b]);
        } else if j == at {
            assert(keys2[i] == keys[a]);
        } else {
            assert(keys2[i] == keys[a]);
            assert(keys2[j] == keys[b]);
        }
    }
    lemma_absent(keys, t, at);
    let m2 = zip_map(keys2, values2);
    let m = zip_map(keys, values).insert(t, v);
    assert forall|u: Seq<char>| m2.contains_key(u) <==> m.contains_key(u) by {
        if keys2.contains(u) {
            let i = keys2.index_of(u);
            if i != at {
                let a = if i < at { i } else { i - 1 };
                assert(keys[a] == u);
            }
        }
        if keys.contains(u) {
            let a = keys.index_of(u);
            let i = if a < at { a } else { a + 1 };
            assert(keys2[i] == u);
        }
        if u == t {
            assert(keys2[at] == t);
        }
    }
    assert forall|u: Seq<char>| m2.contains_key(u) implies m2[u] == m[u] by {
        let i = keys2.index_of(u);
        lemma_zip_map_at(keys2, values2, i);
        if i != at {
            let a = if i < at { i } else { i - 1 };
            assert(keys[a] == u);
            lemma_zip_map_at(keys, values, a);
        }
    }
    assert(m2 =~= m);
}

/// Putting a new value at the place of a text that occurs changes that one
/// entry of the map.
pub proof fn lemma_update_at<V>(keys: Seq<Seq<char>>, values: Seq<V>, v: V, at: int)
    requires
        strictly_increasing(keys),
        keys.len() == values.len(),
        0 <= at < keys.len(),
    ensures
        zip_map(keys, values.update(at, v)) == zip_map(keys, values).insert(keys[at], v),
{
    let values2 = values.update(at, v);
    let m2 = zip_map(keys, values2);
    let m = zip_map(keys, values).insert(keys[at], v);
    assert(keys.contains(keys[at]));
    assert forall|u: Seq<char>| m2.contains_key(u) implies m2[u] == m[u] by {
        let i = keys.index_of(u);
        lemma_zip_map_at(keys, values2, i);
        lemma_zip_map_at(keys, values, i);
        if i != at {
            lemma_text_lt_trichotomy(keys[i], keys[at]);
        }
    }
    assert(m2 =~= m);
}

/// Taking the text at a position out keeps the order, and the map loses
/// that one entry.
pub proof fn lemma_remove_at<V>(keys: Seq<Seq<char>>, values: Seq<V>, at: int)
    requires
        strictly_increasing(keys),
        keys.len() == values.len(),
        0 <= at < keys.len(),
    ensures
        strictly_increasing(keys.remove(at)),
        zip_map(keys.remove(at), values.remove(at)) == zip_map(keys, values).remove(keys[at]),
{
    let keys2 = keys.remove(at);
    let values2 = values.remove(at);
    assert forall|i: int, j: int| 0 <= i < j < keys2.len() implies text_lt(
        #[trigger] keys2[i],
        #[trigger] keys2[j],
    ) by {
        let a = if i < at { i } else { i + 1 };
        let b = if j < at { j } else { j + 1 };
        assert(keys2[i] == keys[a]);
        assert(keys2[j] == keys[b]);
    }
    let m2 = zip_map(keys2, values2);
    let m = zip_map(keys, values).remove(keys[at]);
    assert forall|u: Seq<char>| m2.contains_key(u) <==> m.contains_key(u) by {
        if keys2.contains(u) {
            let i = keys2.index_of(u);
            let a = if i < at { i } else { i + 1 };
            assert(keys[a] == u);
            lemma_text_lt_trichotomy(keys[a], keys[at]);
        }
        if keys.contains(u) && u != keys[at] {
            let a = keys.index_of(u);
            let i = if a < at { a } else { a - 1 };
            assert(keys2[i] == u);
        }
    }
    assert forall|u: Seq<char>| m2.contains_key(u) implies m2[u] == m[u] by {
        let i = keys2.index_of(u);
        lemma_zip_map_at(keys2, values2, i);
        let a = if i < at { i } else { i + 1 };
        assert(keys[a] == u);
        lemma_zip_map_at(keys, values, a);
    }
    assert(m2 =~= m);
}

/// A map from keys to values in ascending key order.
#[derive(Clone, Debug)]
pub struct OrderedMap<K, V> {
    entries: Vec<(K, V)>,
}

impl<K: TextKey, V> OrderedMap<K, V> {
    /// The texts of the keys, in the order of iteration.
    pub closed spec fn key_texts(&self) -> Seq<Seq<char>> {
        Seq::new(self.entries@.len(), |i: int| self.entries@[i].0.text())
    }

    /// The values, each at the position of its key.
    pub closed spec fn values(&self) -> Seq<V> {
        Seq::new(self.entries@.len(), |i: int| self.entries@[i].1)
    }

    /// The keys, in the order of iteration.
    pub closed spec fn keys(&self) -> Seq<K> {
        Seq::new(self.entries@.len(), |i: int| self.entries@[i].0)
    }

    /// The invariant: the keys ascend strictly.
    pub open spec fn wf(&self) -> bool {
        strictly_increasing(self.key_texts())
    }

    /// The map from key text to value.
    pub open spec fn view(&self) -> Map<Seq<char>, V> {
        zip_map(self.key_texts(), self.values())
    }

    /// Keys, key texts and values go position by position.
    pub proof fn lemma_aligned(&self)
        ensures
            self.key_texts().len() == self.values().len(),
            self.keys().len() == self.values().len(),
            forall|i: int| 0 <= i < self.keys().len() ==>
                (#[trigger] self.keys()[i]).text() == self.key_texts()[i],
    {
    }

    /// An empty map.
    pub fn new() -> (m: Self)
        ensures
            m.wf(),
            m.key_texts() == Seq::<Seq<char>>::empty(),
            m.values() == Seq::<V>::empty(),
    {
        let m = OrderedMap { entries: Vec::new() };
        assert(m.key_texts() =~= Seq::<Seq<char>>::empty());
        assert(m.values() =~= Seq::<V>::empty());
        m
    }

    /// The number of entries.
    pub fn len(&self) -> (n: usize)
        ensures
            n == self.key_texts().len(),
            n == self.values().len(),
    {
        self.entries.len()
    }

    /// The key at position `i`.
    pub fn key_at(&self, i: usize) -> (k: &K)
        requires
            i < self.key_texts().len(),
        ensures
            k.text() == self.key_texts()[i as int],
            *k == self.keys()[i as int],
    {
        &self.entries[i].0
    }

    /// The value at position `i`.
    pub fn value_at(&self, i: usize) -> (v: &V)
        requires
            i < self.values().len(),
        ensures
            *v == self.values()[i as int],
    {
        &self.entries[i].1
    }

    /// Finds the place of `t` by halving the range in which it can stand.
    fn locate(&self, t: &str) -> (r: (usize, bool))
        requires
            self.wf(),
        ensures
            stands_at(self.key_texts(), t@, r.0 as int, r.1),
    {
        let ghost keys = self.key_texts();
        let mut lo: usize = 0;
        let mut hi: usize = self.entries.len();
        while lo < hi
            invariant
                self.wf(),
                keys == self.key_texts(),
                lo <= hi <= keys.len(),
                keys.len() == self.entries.len(),
                forall|j: int| 0 <= j < lo ==> text_lt(#[trigger] keys[j], t@),
                forall|j: int| hi <= j < keys.len() ==> text_lt(t@, #[trigger] keys[j]),
            decreases hi - lo,
        {
            let mid = lo + (hi - lo) / 2;
            match rank_text(self.entries[mid].0.as_text(), t) {
                Rank::Equal => {
                    return (mid, true);
                },
                Rank::Less => {
                    assert forall|j: int| 0 <= j < mid + 1 implies text_lt(#[trigger] keys[j], t@) by {
                        if j < mid {
                            lemma_text_lt_transitive(keys[j], keys[mid as int], t@);
                        }
                    }
                    lo = mid + 1;
                },
                Rank::Greater => {
                    assert forall|j: int| mid <= j < keys.len() implies text_lt(t@, #[trigger] keys[j]) by {
                        if mid < j {
                            lemma_text_lt_transitive(t@, keys[mid as int], keys[j]);
                        }
                    }
                    hi = mid;
                },
            }
        }
        (lo, false)
    }

    /// The position of `key`, if it occurs.
    pub fn position(&self, key: &K) -> (r: Option<usize>)
        requires
            self.wf(),
        ensures
            match r {
                Some(i) => i < self.key_texts().len() && self.key_texts()[i as int] == key.text(),
                None => !self.key_texts().contains(key.text()),
            },
    {
        let (at, found) = self.locate(key.as_text());
        if found {
            Some(at)
        } else {
            proof {
                lemma_absent(self.key_texts(), key.text(), at as int);
            }
            None
        }
    }

    /// Whether `key` occurs.
    pub fn contains_key(&self, key: &K) -> (b: bool)
        requires
            self.wf(),
        ensures
            b == self@.contains_key(key.text()),
    {
        self.position(key).is_some()
    }

    /// The value of `key`, if it occurs.
    pub fn get(&self, key: &K) -> (r: Option<&V>)
        requires
            self.wf(),
        ensures
            match r {
                Some(v) => self@.contains_key(key.text()) && *v == self@[key.text()],
                None => !self@.contains_key(key.text()),
            },
    {
        match self.position(key) {
            Some(i) => {
                proof {
                    lemma_zip_map_at(self.key_texts(), self.values(), i as int);
                }
                Some(&self.entries[i].1)
            },
            None => None,
        }
    }

    /// Puts `value` under `key`. An entry that stood under the same text is
    /// replaced and its value handed back; the other entries stay.
    pub fn insert(&mut self, key: K, value: V) -> (previous: Option<V>)
        requires
            old(self).wf(),
        ensures
            final(self).wf(),
            final(self)@ == old(self)@.insert(key.text(), value),
            match previous {
                Some(v) => old(self)@.contains_key(key.text()) && v == old(self)@[key.text()],
                None => !old(self)@.contains_key(key.text()),
            },
            old(self)@.contains_key(key.text()) ==> final(self).key_texts() == old(self).key_texts(),
            !old(self)@.contains_key(key.text()) ==> final(self).key_texts().len() == old(self).key_texts().len() + 1,
    {
        let (at, found) = self.locate(key.as_text());
        let ghost keys = self.key_texts();
        let ghost values = self.values();
        if found {
            let (old_key, old_value) = self.entries.remove(at);
            self.entries.insert(at, (old_key, value));
            proof {
                assert(self.key_texts() =~= keys);
                assert(self.values() =~= values.update(at as int, value));
                lemma_update_at(keys, values, value, at as int);
                lemma_zip_map_at(keys, values, at as int);
            }
            Some(old_value)
        } else {
            self.entries.insert(at, (key, value));
            proof {
                assert(self.key_texts() =~= keys.insert(at as int, key.text()));
                assert(self.values() =~= values.insert(at as int, value));
                lemma_insert_at(keys, values, key.text(), value, at as int);
                lemma_absent(keys, key.text(), at as int);
            }
            None
        }
    }

    /// Takes the entry of `key` out and hands its value back; the other
    /// entries stay.
    pub fn remove(&mut self, key: &K) -> (previous: Option<V>)
        requires
            old(self).wf(),
        ensures
            final(self).wf(),
            final(self)@ == old(self)@.remove(key.text()),
            match previous {
                Some(v) => old(self)@.contains_key(key.text()) && v == old(self)@[key.text()],
                None => !old(self)@.contains_key(key.text()),
            },
    {
        let (at, found) = self.locate(key.as_text());
        let ghost keys = self.key_texts();
        let ghost values = self.values();
        if found {
            let (_, old_value) = self.entries.remove(at);
            proof {
                assert(self.key_texts() =~= keys.remove(at as int));
                assert(self.values() =~= values.remove(at as int));
                lemma_remove_at(keys, values, at as int);
                lemma_zip_map_at(keys, values, at as int);
            }
            Some(old_value)
        } else {
            proof {
                lemma_absent(keys, key.text(), at as int);
                assert(self@ =~= old(self)@.remove(key.text()));
            }
            None
        }
    }

    /// The entries in ascending key order.
    pub fn into_entries(self) -> (out: Vec<(K, V)>)
        requires
            self.wf(),
        ensures
            out@.len() == self.key_texts().len(),
            forall|i: int| 0 <= i < out@.len() ==>
                (#[trigger] out@[i]).0.text() == self.key_texts()[i] && out@[i].1 == self.values()[i],
            forall|i: int, j: int| 0 <= i < j < out@.len() ==>
                text_lt((#[trigger] out@[i]).0.text(), (#[trigger] out@[j]).0.text()),
    {
        proof {
            let keys = self.key_texts();
            assert forall|i: int, j: int| 0 <= i < j < self.entries@.len() implies text_lt(
                (#[trigger] self.entries@[i]).0.text(),
                (#[trigger] self.entries@[j]).0.text(),
            ) by {
                assert(text_lt(keys[i], keys[j]));
            }
        }
        self.entries
    }
}

} // verus!
