//! Values that carry their own key, and the ordered set that holds them.

use vstd::prelude::*;
use crate::ordered::{lemma_zip_map_at, strictly_increasing, zip_map, OrderedMap, TextKey};
use crate::order::text_lt;

verus! {

/// A value that carries its own key.
pub trait Keyed<K: TextKey> {
    /// The text of the key.
    spec fn key_text(&self) -> Seq<char>;

    /// The key.
    fn key(&self) -> (k: K)
        ensures
            k.text() == self.key_text(),
    ;
}

/// A set of values, each found under a key, in ascending key order. In a
/// valid set each value stands under its own key; `from_set` alone can put a
/// value under another.
#[derive(Clone, Debug)]
pub struct BTreeKeyedSet<K: TextKey, V: Keyed<K>> {
    map: OrderedMap<K, V>,
}

/// The map that putting the first `n` of `values` one after the other, each
/// under its own key, makes of `m`. A later value replaces an earlier one
/// with the same key.
pub open spec fn put_all<K: TextKey, V: Keyed<K>>(
    m: Map<Seq<char>, V>,
    values: Seq<V>,
    n: nat,
) -> Map<Seq<char>, V>
    decreases n,
{
    if n == 0 || n > values.len() {
        m
    } else {
        put_all::<K, V>(m, values, (n - 1) as nat).insert(values[n - 1].key_text(), values[n - 1])
    }
}

/// The map that putting the first `n` of `values` one after the other, each
/// under the text at its position in `keys`, makes of `m`. A later value
/// replaces an earlier one under the same text.
pub open spec fn put_under<V>(m: Map<Seq<char>, V>, keys: Seq<Seq<char>>, values: Seq<V>, n: nat) -> Map<
    Seq<char>,
    V,
>
    decreases n,
{
    if n == 0 || n > values.len() || n > keys.len() {
        m
    } else {
        put_under(m, keys, values, (n - 1) as nat).insert(keys[n - 1], values[n - 1])
    }
}

/// The texts of `keys`, position by position.
pub open spec fn key_texts_of<K: TextKey>(keys: Seq<K>) -> Seq<Seq<char>> {
    Seq::new(keys.len(), |i: int| keys[i].text())
}

/// Whether no text stands at two positions.
pub open spec fn all_apart(texts: Seq<Seq<char>>) -> bool {
    forall|i: int, j: int| 0 <= i < j < texts.len() ==> #[trigger] texts[i] != #[trigger] texts[j]
}

/// Whether each of `values` stands beside its own key in `keys`.
pub open spec fn own_keys<K: TextKey, V: Keyed<K>>(keys: Seq<Seq<char>>, values: Seq<V>) -> bool {
    forall|i: int| 0 <= i < values.len() && i < keys.len() ==> (#[trigger] values[i]).key_text() == keys[i]
}

/// Whether `keys` are keys that `keyer` gives for `values`, position by
/// position.
pub open spec fn keyed_by<K, V, F: Fn(&V) -> K>(keyer: F, values: Seq<V>, keys: Seq<K>) -> bool {
    &&& keys.len() == values.len()
    &&& forall|i: int| 0 <= i < values.len() ==> call_ensures(keyer, (&values[i],), #[trigger] keys[i])
}

/// What `put_under` makes depends on the first `n` keys only.
pub proof fn lemma_put_under_prefix<V>(
    m: Map<Seq<char>, V>,
    keys: Seq<Seq<char>>,
    more: Seq<Seq<char>>,
    values: Seq<V>,
    n: nat,
)
    requires
        n <= keys.len() <= more.len(),
        forall|i: int| 0 <= i < n ==> keys[i] == more[i],
    ensures
        put_under(m, keys, values, n) == put_under(m, more, values, n),
    decreases n,
{
    if n > 0 && n <= values.len() {
        lemma_put_under_prefix(m, keys, more, values, (n - 1) as nat);
    }
}

/// Where no text stands twice among the first `n` keys, `put_under` holds
/// each of the first `n` values under the text at its position.
pub proof fn lemma_put_under_at<V>(keys: Seq<Seq<char>>, values: Seq<V>, n: nat, i: int)
    requires
        all_apart(keys),
        0 <= i < n,
        n <= keys.len(),
        n <= values.len(),
    ensures
        put_under(Map::empty(), keys, values, n).contains_key(keys[i]),
        put_under(Map::empty(), keys, values, n)[keys[i]] == values[i],
    decreases n,
{
    if i < n - 1 {
        lemma_put_under_at(keys, values, (n - 1) as nat, i);
    }
}

/// Under their own keys, `put_under` is `put_all`.
pub proof fn lemma_put_under_own<K: TextKey, V: Keyed<K>>(
    m: Map<Seq<char>, V>,
    keys: Seq<Seq<char>>,
    values: Seq<V>,
    n: nat,
)
    requires
        n <= keys.len(),
        own_keys::<K, V>(keys, values),
    ensures
        put_under(m, keys, values, n) == put_all::<K, V>(m, values, n),
    decreases n,
{
    if n > 0 && n <= values.len() {
        lemma_put_under_own::<K, V>(m, keys, values, (n - 1) as nat);
    }
}

impl<K: TextKey, V: Keyed<K>> BTreeKeyedSet<K, V> {
    /// The texts of the keys, in the order of iteration.
    pub closed spec fn key_texts(&self) -> Seq<Seq<char>> {
        self.map.key_texts()
    }

    /// The values, in the order of iteration.
    pub closed spec fn values(&self) -> Seq<V> {
        self.map.values()
    }

    /// The map from key text to value.
    pub open spec fn view(&self) -> Map<Seq<char>, V> {
        zip_map(self.key_texts(), self.values())
    }

    /// Whether the keys ascend strictly, one for each value.
    pub open spec fn ordered(&self) -> bool {
        &&& strictly_increasing(self.key_texts())
        &&& self.key_texts().len() == self.values().len()
    }

    /// The invariant: the keys ascend strictly, and every value stands under
    /// its own key.
    pub open spec fn wf(&self) -> bool {
        &&& strictly_increasing(self.key_texts())
        &&& self.key_texts().len() == self.values().len()
        &&& forall|i: int| 0 <= i < self.values().len() ==>
            (#[trigger] self.values()[i]).key_text() == self.key_texts()[i]
    }

    /// Whether the set holds `values`, put in one after the other, each
    /// under the text at its position in `keys`, and nothing under another
    /// text. Where no text stands twice, the set has one entry for each
    /// value, and each value stands under its text; where each value stands
    /// beside its own key, the set is valid.
    pub open spec fn holds_under(&self, keys: Seq<Seq<char>>, values: Seq<V>) -> bool {
        &&& self.ordered()
        &&& self@ == put_under(Map::empty(), keys, values, values.len())
        &&& forall|t: Seq<char>| self@.contains_key(t) ==> keys.contains(t)
        &&& all_apart(keys) ==> {
            &&& self.values().len() == values.len()
            &&& forall|i: int|
                0 <= i < values.len() && i < keys.len() ==> self@.contains_key(#[trigger] keys[i])
                    && self@[keys[i]] == values[i]
        }
        &&& own_keys::<K, V>(keys, values) ==> self.wf() && self@ == put_all::<K, V>(
            Map::empty(),
            values,
            values.len(),
        )
    }

    /// Iteration yields strictly ascending keys.
    pub proof fn lemma_ascending(&self, i: int, j: int)
        requires
            self.wf(),
            0 <= i < j < self.values().len(),
        ensures
            text_lt(self.values()[i].key_text(), self.values()[j].key_text()),
    {
    }

    /// The value at a position is the one that the map holds under its key.
    pub proof fn lemma_value_at(&self, i: int)
        requires
            self.wf(),
            0 <= i < self.values().len(),
        ensures
            self@.contains_key(self.values()[i].key_text()),
            self@[self.values()[i].key_text()] == self.values()[i],
    {
        lemma_zip_map_at(self.key_texts(), self.values(), i);
    }

    /// What the map holds stands at some position.
    pub proof fn lemma_position_of(&self, t: Seq<char>) -> (i: int)
        requires
            self.wf(),
            self@.contains_key(t),
        ensures
            0 <= i < self.values().len(),
            self.key_texts()[i] == t,
            self.values()[i] == self@[t],
    {
        let i = self.key_texts().index_of(t);
        lemma_zip_map_at(self.key_texts(), self.values(), i);
        i
    }

    /// An empty set.
    pub fn new() -> (s: Self)
        ensures
            s.wf(),
            s.values() == Seq::<V>::empty(),
            s@ == Map::<Seq<char>, V>::empty(),
    {
        let s = BTreeKeyedSet { map: OrderedMap::new() };
        assert(s@ =~= Map::<Seq<char>, V>::empty());
        s
    }

    /// The number of values.
    pub fn len(&self) -> (n: usize)
        ensures
            n == self.values().len(),
    {
        self.map.len()
    }

    /// The value at position `i` of the iteration.
    pub fn value_at(&self, i: usize) -> (v: &V)
        requires
            i < self.values().len(),
        ensures
            *v == self.values()[i as int],
    {
        self.map.value_at(i)
    }

    /// The key at position `i` of the iteration.
    pub fn key_at(&self, i: usize) -> (k: &K)
        requires
            self.ordered(),
            i < self.values().len(),
        ensures
            k.text() == self.key_texts()[i as int],
            self.wf() ==> k.text() == self.values()[i as int].key_text(),
    {
        self.map.key_at(i)
    }

    /// Whether a value stands under `key`.
    pub fn contains_key(&self, key: &K) -> (b: bool)
        requires
            self.ordered(),
        ensures
            b == self@.contains_key(key.text()),
    {
        self.map.contains_key(key)
    }

    /// The value under `key`, if there is one.
    pub fn get(&self, key: &K) -> (r: Option<&V>)
        requires
            self.ordered(),
        ensures
            match r {
                Some(v) => self@.contains_key(key.text()) && *v == self@[key.text()],
                None => !self@.contains_key(key.text()),
            },
    {
        self.map.get(key)
    }

    /// The position of `key` in the iteration, if a value stands under it.
    pub fn position(&self, key: &K) -> (r: Option<usize>)
        requires
            self.ordered(),
        ensures
            match r {
                Some(i) => i < self.values().len() && self.key_texts()[i as int] == key.text(),
                None => !self@.contains_key(key.text()),
            },
    {
        self.map.position(key)
    }

    /// Puts `value` under its own key. A value that stood under the same key
    /// is replaced and handed back; the other values stay.
    pub fn insert(&mut self, value: V) -> (previous: Option<V>)
        requires
            old(self).wf(),
        ensures
            final(self).wf(),
            final(self)@ == old(self)@.insert(value.key_text(), value),
            match previous {
                Some(v) => old(self)@.contains_key(value.key_text()) && v == old(self)@[value.key_text()],
                None => !old(self)@.contains_key(value.key_text()),
            },
    {
        let key = value.key();
        self.put(key, value)
    }

    fn put(&mut self, key: K, value: V) -> (previous: Option<V>)
        requires
            old(self).ordered(),
        ensures
            final(self).ordered(),
            final(self)@ == old(self)@.insert(key.text(), value),
            match previous {
                Some(v) => old(self)@.contains_key(key.text()) && v == old(self)@[key.text()],
                None => !old(self)@.contains_key(key.text()),
            },
            old(self)@.contains_key(key.text()) ==> final(self).values().len() == old(self).values().len(),
            !old(self)@.contains_key(key.text()) ==> final(self).values().len() == old(self).values().len() + 1,
            old(self).wf() && key.text() == value.key_text() ==> final(self).wf(),
    {
        proof {
            self.map.lemma_aligned();
        }
        let previous = self.map.insert(key, value);
        proof {
            self.map.lemma_aligned();
            if old(self).wf() && key.text() == value.key_text() {
                assert forall|i: int| 0 <= i < self.values().len() implies (#[trigger] self.values()[i]).key_text()
                    == self.key_texts()[i] by {
                    let t = self.key_texts()[i];
                    lemma_zip_map_at(self.key_texts(), self.values(), i);
                    if t != value.key_text() {
                        let j = old(self).key_texts().index_of(t);
                        lemma_zip_map_at(old(self).key_texts(), old(self).values(), j);
                    }
                }
            }
        }
        previous
    }

    /// Takes the value under `key` out and hands it back; the other values
    /// stay.
    pub fn remove(&mut self, key: &K) -> (previous: Option<V>)
        requires
            old(self).wf(),
        ensures
            final(self).wf(),
            final(self)@ == old(self)@.remove(key.text()),
            match previous {
                Some(v) => old(self)@.contains_key(key.text()) && v == old(self)@[key.text()],
                None => !old(self)@.contains_key(key.text()),
            },
    {
        let previous = self.map.remove(key);
        proof {
            self.map.lemma_aligned();
            assert forall|i: int| 0 <= i < self.values().len() implies (#[trigger] self.values()[i]).key_text()
                == self.key_texts()[i] by {
                let t = self.key_texts()[i];
                lemma_zip_map_at(self.key_texts(), self.values(), i);
                let j = old(self).key_texts().index_of(t);
                lemma_zip_map_at(old(self).key_texts(), old(self).values(), j);
            }
        }
        previous
    }

    /// The set that holds `values`, put in one after the other, each under
    /// the key that `keyer` gives for it; of two values with one key the
    /// later one stays. Where the keys differ from each other the set has
    /// one entry for each value. A value need not get its own key: it then
    /// stands under the key it was given, and the set is ordered but not
    /// valid. Where every value gets its own key the set is valid.
    pub fn from_set<F: Fn(&V) -> K>(values: Vec<V>, keyer: F) -> (s: Self)
        requires
            forall|i: int| 0 <= i < values@.len() ==> call_requires(keyer, (&#[trigger] values@[i],)),
        ensures
            exists|keys: Seq<K>| #[trigger]
                keyed_by(keyer, values@, keys) && s.holds_under(key_texts_of(keys), values@),
    {
        let mut s = Self::new();
        let mut values = values;
        let ghost all = values@;
        let mut rest: Vec<V> = Vec::new();
        while values.len() > 0
            invariant
                rest@.len() + values@.len() == all.len(),
                forall|i: int| 0 <= i < values@.len() ==> values@[i] == all[i],
                forall|i: int| 0 <= i < rest@.len() ==> rest@[i] == all[all.len() - 1 - i],
            decreases values.len(),
        {
            let v = values.pop().unwrap();
            rest.push(v);
        }
        let ghost n: nat = 0;
        let ghost keys: Seq<K> = Seq::empty();
        proof {
            assert(put_all::<K, V>(Map::empty(), all, 0) =~= s@);
        }
        while rest.len() > 0
            invariant
                s.ordered(),
                n + rest@.len() == all.len(),
                keys.len() == n,
                forall|i: int| 0 <= i < rest@.len() ==> rest@[i] == all[all.len() - 1 - i],
                forall|i: int| 0 <= i < all.len() ==> call_requires(keyer, (&#[trigger] all[i],)),
                forall|i: int| 0 <= i < n ==> call_ensures(keyer, (&all[i],), #[trigger] keys[i]),
                s@ == put_under(Map::empty(), key_texts_of(keys), all, n),
                forall|t: Seq<char>| s@.contains_key(t) ==> key_texts_of(keys).contains(t),
                all_apart(key_texts_of(keys)) ==> s.values().len() == n,
                own_keys::<K, V>(key_texts_of(keys), all) ==> s.wf(),
            decreases rest.len(),
        {
            let v = rest.pop().unwrap();
            assert(v == all[n as int]);
            let key = keyer(&v);
            let ghost before = s;
            let ghost more = keys.push(key);
            proof {
                lemma_put_under_prefix(Map::empty(), key_texts_of(keys), key_texts_of(more), all, n);
                assert(key_texts_of(more)[n as int] == key.text());
                if all_apart(key_texts_of(more)) {
                    assert forall|i: int, j: int| 0 <= i < j < n implies #[trigger] key_texts_of(keys)[i]
                        != #[trigger] key_texts_of(keys)[j] by {
                        assert(key_texts_of(more)[i] != key_texts_of(more)[j]);
                    }
                    if s@.contains_key(key.text()) {
                        assert(key_texts_of(keys).contains(key.text()));
                        let i = choose|i: int| 0 <= i < n && key_texts_of(keys)[i] == key.text();
                        assert(key_texts_of(more)[i] == key_texts_of(keys)[i]);
                        assert(key_texts_of(more)[i] != key_texts_of(more)[n as int]);
                    }
                }
                if own_keys::<K, V>(key_texts_of(more), all) {
                    assert forall|i: int| 0 <= i < all.len() && i < n implies (#[trigger] all[i]).key_text()
                        == key_texts_of(keys)[i] by {
                        assert(all[i].key_text() == key_texts_of(more)[i]);
                    }
                    assert(all[n as int].key_text() == key_texts_of(more)[n as int]);
                }
            }
            s.put(key, v);
            proof {
                assert forall|t: Seq<char>| s@.contains_key(t) implies key_texts_of(more).contains(t) by {
                    if t == key.text() {
                        assert(key_texts_of(more)[n as int] == t);
                    } else {
                        assert(before@.contains_key(t));
                        assert(key_texts_of(keys).contains(t));
                        let i = choose|i: int| 0 <= i < n && key_texts_of(keys)[i] == t;
                        assert(key_texts_of(more)[i] == t);
                    }
                }
                keys = more;
                n = n + 1;
            }
        }
        proof {
            if own_keys::<K, V>(key_texts_of(keys), all) {
                lemma_put_under_own::<K, V>(Map::empty(), key_texts_of(keys), all, n);
            }
            assert(keyed_by(keyer, all, keys));
            if all_apart(key_texts_of(keys)) {
                assert forall|i: int| 0 <= i < all.len() implies s@.contains_key(#[trigger] key_texts_of(keys)[i])
                    && s@[key_texts_of(keys)[i]] == all[i] by {
                    lemma_put_under_at(key_texts_of(keys), all, n, i);
                }
            }
            assert(s.holds_under(key_texts_of(keys), all));
        }
        s
    }

    /// The values with their keys, in ascending key order. In a valid set
    /// each key is its value's own.
    pub fn into_iter(self) -> (out: Vec<(K, V)>)
        requires
            self.ordered(),
        ensures
            out@.len() == self.values().len(),
            forall|i: int| 0 <= i < out@.len() ==>
                (#[trigger] out@[i]).1 == self.values()[i] && out@[i].0.text() == self.key_texts()[i],
            self.wf() ==> forall|i: int| 0 <= i < out@.len() ==>
                (#[trigger] out@[i]).0.text() == out@[i].1.key_text(),
            forall|i: int, j: int| 0 <= i < j < out@.len() ==>
                text_lt((#[trigger] out@[i]).0.text(), (#[trigger] out@[j]).0.text()),
    {
        self.map.into_entries()
    }
}

} // verus!
