//! A small map from string keys to values that keeps its keys in insertion
//! order.

use vstd::prelude::*;

use crate::text::{find_str, index_of_str, lemma_index_of_str, str_views};

verus! {

/// The map that parallel key and value lists stand for: each key maps to the
/// value at its last position.
pub open spec fn keyed_map<V>(keys: Seq<Seq<char>>, vals: Seq<V>) -> Map<Seq<char>, V> {
    Map::new(|k: Seq<char>| keys.contains(k), |k: Seq<char>| vals[index_of_str(keys, k)])
}

/// Writing the value at position `i` of distinct keys writes the map at that key.
pub proof fn lemma_keyed_update<V>(keys: Seq<Seq<char>>, vals: Seq<V>, i: int, v: V)
    requires
        keys.no_duplicates(),
        keys.len() == vals.len(),
        0 <= i < keys.len(),
    ensures
        keyed_map(keys, vals.update(i, v)) == keyed_map(keys, vals).insert(keys[i], v),
{
    let m1 = keyed_map(keys, vals.update(i, v));
    let m2 = keyed_map(keys, vals).insert(keys[i], v);
    assert(keys.contains(keys[i]));
    lemma_index_of_str(keys, keys[i]);
    assert forall|k: Seq<char>| #[trigger] m1.contains_key(k) implies m1[k] == m2[k] by {
        lemma_index_of_str(keys, k);
    }
    assert(m1 =~= m2);
}

/// Appending a new key appends it to the map.
pub proof fn lemma_keyed_push<V>(keys: Seq<Seq<char>>, vals: Seq<V>, k: Seq<char>, v: V)
    requires
        keys.len() == vals.len(),
        !keys.contains(k),
    ensures
        keyed_map(keys.push(k), vals.push(v)) == keyed_map(keys, vals).insert(k, v),
        keys.no_duplicates() ==> keys.push(k).no_duplicates(),
{
    let ks = keys.push(k);
    let m1 = keyed_map(ks, vals.push(v));
    let m2 = keyed_map(keys, vals).insert(k, v);
    assert(ks.drop_last() =~= keys);
    assert forall|x: Seq<char>| ks.contains(x) <==> (keys.contains(x) || x == k) by {
        if ks.contains(x) && x != k {
            let j = choose|j: int| 0 <= j < ks.len() && ks[j] == x;
            assert(keys[j] == x);
        }
        if keys.contains(x) {
            let j = choose|j: int| 0 <= j < keys.len() && keys[j] == x;
            assert(ks[j] == x);
        }
        if x == k {
            assert(ks[keys.len() as int] == x);
        }
    }
    assert forall|x: Seq<char>| #[trigger] m1.contains_key(x) implies m1[x] == m2[x] by {
        lemma_index_of_str(keys, x);
    }
    assert(m1 =~= m2);
    if keys.no_duplicates() {
        assert forall|a: int, b: int| 0 <= a < ks.len() && 0 <= b < ks.len() && a != b implies ks[a]
            != ks[b] by {
            if a == keys.len() {
                assert(keys[b] == ks[b]);
            } else if b == keys.len() {
                assert(keys[a] == ks[a]);
            }
        }
    }
}

/// The value at position `i` of distinct keys is the map's value at that key.
pub proof fn lemma_keyed_at<V>(keys: Seq<Seq<char>>, vals: Seq<V>, i: int)
    requires
        keys.no_duplicates(),
        0 <= i < keys.len(),
    ensures
        keyed_map(keys, vals).contains_key(keys[i]),
        keyed_map(keys, vals)[keys[i]] == vals[i],
{
    assert(keys.contains(keys[i]));
    lemma_index_of_str(keys, keys[i]);
}

/// Removing the entry at position `i` of distinct keys removes that key from the map.
pub proof fn lemma_keyed_remove<V>(keys: Seq<Seq<char>>, vals: Seq<V>, i: int)
    requires
        keys.no_duplicates(),
        keys.len() == vals.len(),
        0 <= i < keys.len(),
    ensures
        keyed_map(keys.remove(i), vals.remove(i)) == keyed_map(keys, vals).remove(keys[i]),
        keys.remove(i).no_duplicates(),
{
    let ks = keys.remove(i);
    let vs = vals.remove(i);
    let m1 = keyed_map(ks, vs);
    let m2 = keyed_map(keys, vals).remove(keys[i]);
    assert forall|a: int, b: int| 0 <= a < ks.len() && 0 <= b < ks.len() && a != b implies ks[a]
        != ks[b] by {
        let a1 = if a < i { a } else { a + 1 };
        let b1 = if b < i { b } else { b + 1 };
        assert(ks[a] == keys[a1] && ks[b] == keys[b1]);
    }
    assert forall|x: Seq<char>| ks.contains(x) <==> (keys.contains(x) && x != keys[i]) by {
        if ks.contains(x) {
            let j = choose|j: int| 0 <= j < ks.len() && ks[j] == x;
            let j1 = if j < i { j } else { j + 1 };
            assert(keys[j1] == x);
        }
        if keys.contains(x) && x != keys[i] {
            let j = choose|j: int| 0 <= j < keys.len() && keys[j] == x;
            if j < i {
                assert(ks[j] == x);
            } else {
                assert(ks[j - 1] == x);
            }
        }
    }
    assert forall|x: Seq<char>| #[trigger] m1.contains_key(x) implies m1[x] == m2[x] by {
        lemma_index_of_str(ks, x);
        lemma_index_of_str(keys, x);
        let j = index_of_str(ks, x);
        let j1 = if j < i { j } else { j + 1 };
        assert(keys[j1] == x);
        assert(vs[j] == vals[j1]);
    }
    assert(m1 =~= m2);
}

/// A map from strings to values that remembers the order keys were added in.
pub struct KeyedVec<V> {
    keys: Vec<String>,
    vals: Vec<V>,
}

impl<V> KeyedVec<V> {
    /// Keys and values pair up, and each key is stored once.
    pub closed spec fn wf(&self) -> bool {
        &&& self.keys@.len() == self.vals@.len()
        &&& str_views(self.keys@).no_duplicates()
    }

    /// The keys, in the order they were added.
    pub closed spec fn key_seq(&self) -> Seq<Seq<char>> {
        str_views(self.keys@)
    }

    /// The values, in key order.
    pub closed spec fn val_seq(&self) -> Seq<V> {
        self.vals@
    }

    /// The map the store holds.
    pub open spec fn map(&self) -> Map<Seq<char>, V> {
        keyed_map(self.key_seq(), self.val_seq())
    }

    pub proof fn lemma_wf(&self)
        requires
            self.wf(),
        ensures
            self.key_seq().len() == self.val_seq().len(),
            self.key_seq().no_duplicates(),
            forall|i: int| 0 <= i < self.key_seq().len() ==> #[trigger] self.map().contains_key(
                self.key_seq()[i],
            ) && self.map()[self.key_seq()[i]] == self.val_seq()[i],
            forall|k: Seq<char>| #[trigger] self.map().contains_key(k) <==> self.key_seq().contains(k),
    {
        let ks = self.key_seq();
        let vs = self.val_seq();
        assert(ks.no_duplicates());
        assert forall|i: int| 0 <= i < ks.len() implies #[trigger] self.map().contains_key(ks[i])
            && self.map()[ks[i]] == vs[i] by {
            lemma_keyed_at(ks, vs, i);
            assert(keyed_map(ks, vs).contains_key(ks[i]));
            assert(keyed_map(ks, vs)[ks[i]] == vs[i]);
        }
    }

    /// An empty store.
    pub fn new() -> (r: Self)
        ensures
            r.wf(),
            r.key_seq() == Seq::<Seq<char>>::empty(),
            r.map() == Map::<Seq<char>, V>::empty(),
    {
        let r = KeyedVec { keys: Vec::new(), vals: Vec::new() };
        assert(r.key_seq() =~= Seq::<Seq<char>>::empty());
        assert(r.map() =~= Map::<Seq<char>, V>::empty());
        r
    }

    /// Number of keys.
    pub fn len(&self) -> (r: usize)
        requires
            self.wf(),
        ensures
            r == self.key_seq().len(),
    {
        self.keys.len()
    }

    /// Position of `k` among the keys.
    pub fn position(&self, k: &str) -> (r: Option<usize>)
        requires
            self.wf(),
        ensures
            match r {
                Some(i) => i < self.key_seq().len() && self.key_seq()[i as int] == k@
                    && self.map().contains_key(k@) && self.map()[k@] == self.val_seq()[i as int],
                None => !self.map().contains_key(k@),
            },
    {
        proof {
            lemma_index_of_str(self.key_seq(), k@);
        }
        let r = find_str(&self.keys, k);
        proof {
            if let Some(i) = r {
                lemma_keyed_at(self.key_seq(), self.val_seq(), i as int);
            }
        }
        r
    }

    /// The key at position `i`.
    pub fn key_at(&self, i: usize) -> (r: &String)
        requires
            self.wf(),
            i < self.key_seq().len(),
        ensures
            r@ == self.key_seq()[i as int],
    {
        &self.keys[i]
    }

    /// The value at position `i`.
    pub fn value_at(&self, i: usize) -> (r: &V)
        requires
            self.wf(),
            i < self.key_seq().len(),
        ensures
            *r == self.val_seq()[i as int],
            self.map()[self.key_seq()[i as int]] == *r,
    {
        proof {
            lemma_keyed_at(self.key_seq(), self.val_seq(), i as int);
        }
        &self.vals[i]
    }

    /// The value of `k`, if there is one.
    pub fn get(&self, k: &str) -> (r: Option<&V>)
        requires
            self.wf(),
        ensures
            match r {
                Some(v) => self.map().contains_key(k@) && self.map()[k@] == *v,
                None => !self.map().contains_key(k@),
            },
    {
        match self.position(k) {
            Some(i) => Some(&self.vals[i]),
            None => None,
        }
    }

    /// Replaces the value at position `i`.
    pub fn set_at(&mut self, i: usize, v: V)
        requires
            old(self).wf(),
            i < old(self).key_seq().len(),
        ensures
            final(self).wf(),
            final(self).key_seq() == old(self).key_seq(),
            final(self).val_seq() == old(self).val_seq().update(i as int, v),
            final(self).map() == old(self).map().insert(old(self).key_seq()[i as int], v),
    {
        proof {
            lemma_keyed_update(self.key_seq(), self.val_seq(), i as int, v);
        }
        self.vals.set(i, v);
    }

    /// The value at position `i`, to change in place.
    pub fn value_mut(&mut self, i: usize) -> (r: &mut V)
        requires
            old(self).wf(),
            i < old(self).key_seq().len(),
        ensures
            *r == old(self).val_seq()[i as int],
            final(self).wf(),
            final(self).key_seq() == old(self).key_seq(),
            final(self).val_seq() == old(self).val_seq().update(i as int, *final(r)),
            final(self).map() == old(self).map().insert(old(self).key_seq()[i as int], *final(r)),
    {
        proof {
            assert forall|v: V| #[trigger] keyed_map(self.key_seq(), self.val_seq().update(i as int, v))
                == keyed_map(self.key_seq(), self.val_seq()).insert(self.key_seq()[i as int], v) by {
                lemma_keyed_update(self.key_seq(), self.val_seq(), i as int, v);
            }
        }
        &mut self.vals[i]
    }

    /// Adds `k` with value `v` at the end; `k` must be new.
    pub fn push_new(&mut self, k: String, v: V)
        requires
            old(self).wf(),
            !old(self).map().contains_key(k@),
        ensures
            final(self).wf(),
            final(self).key_seq() == old(self).key_seq().push(k@),
            final(self).val_seq() == old(self).val_seq().push(v),
            final(self).map() == old(self).map().insert(k@, v),
    {
        proof {
            lemma_keyed_push(self.key_seq(), self.val_seq(), k@, v);
        }
        let ghost kv = k@;
        self.keys.push(k);
        self.vals.push(v);
        assert(self.key_seq() =~= old(self).key_seq().push(kv));
    }

    /// Sets the value of `k`, in place if `k` is present, else at the end.
    pub fn insert(&mut self, k: String, v: V)
        requires
            old(self).wf(),
        ensures
            final(self).wf(),
            final(self).map() == old(self).map().insert(k@, v),
            old(self).map().contains_key(k@) ==> final(self).key_seq() == old(self).key_seq(),
            !old(self).map().contains_key(k@) ==> final(self).key_seq() == old(self).key_seq().push(
                k@,
            ),
    {
        match self.position(k.as_str()) {
            Some(i) => self.set_at(i, v),
            None => self.push_new(k, v),
        }
    }

    /// Removes `k` and its value, if present; the other keys keep their order.
    pub fn remove(&mut self, k: &str)
        requires
            old(self).wf(),
        ensures
            final(self).wf(),
            final(self).map() == old(self).map().remove(k@),
    {
        match self.position(k) {
            Some(i) => {
                proof {
                    lemma_keyed_remove(self.key_seq(), self.val_seq(), i as int);
                }
                let ghost ks = self.key_seq();
                self.keys.remove(i);
                self.vals.remove(i);
                assert(self.key_seq() =~= ks.remove(i as int));
            },
            None => {
                assert(self.map() =~= self.map().remove(k@));
            },
        }
    }

    /// Removes every entry, keeping none.
    pub fn clear(&mut self)
        ensures
            final(self).wf(),
            final(self).key_seq() == Seq::<Seq<char>>::empty(),
            final(self).map() == Map::<Seq<char>, V>::empty(),
    {
        self.keys = Vec::new();
        self.vals = Vec::new();
        assert(self.key_seq() =~= Seq::<Seq<char>>::empty());
        assert(self.map() =~= Map::<Seq<char>, V>::empty());
    }
}

} // verus!
