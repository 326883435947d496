//! A hash map: a fixed table of bins, each a short list of pairs, and a
//! key's hash code picks the bin in which its pair is kept.
//!
//! The hash code comes from the key's own `Hash` impl, about which nothing
//! is known here. Every operation therefore exists twice: [`HashMap::insert`]
//! hashes the key and goes to the bin that the code picks, whichever that
//! is; [`HashMap::insert_hashed`] takes the code from its caller and says
//! exactly what it does.

use std::collections::hash_map::DefaultHasher;
use std::hash::{Hash, Hasher};
use vstd::laws_eq::obeys_concrete_eq;
use vstd::prelude::*;

verus! {

/// No key occurs twice among the pairs.
pub open spec fn distinct_keys<K, V>(pairs: Seq<(K, V)>) -> bool {
    forall|i: int, j: int| 0 <= i < j < pairs.len() ==> pairs[i].0 != pairs[j].0
}

/// Some pair has the key `key`.
pub open spec fn holds<K, V>(pairs: Seq<(K, V)>, key: K) -> bool {
    exists|i: int| 0 <= i < pairs.len() && #[trigger] pairs[i].0 == key
}

/// The index of a pair with the key `key`.
pub open spec fn index_of<K, V>(pairs: Seq<(K, V)>, key: K) -> int {
    choose|i: int| 0 <= i < pairs.len() && #[trigger] pairs[i].0 == key
}

/// The map that a list of pairs stands for.
pub open spec fn as_map<K, V>(pairs: Seq<(K, V)>) -> Map<K, V> {
    Map::new(|key: K| holds(pairs, key), |key: K| pairs[index_of(pairs, key)].1)
}

/// Among distinct keys, a key is found where it stands.
pub proof fn lemma_found<K, V>(pairs: Seq<(K, V)>, i: int)
    requires
        distinct_keys(pairs),
        0 <= i < pairs.len(),
    ensures
        holds(pairs, pairs[i].0),
        index_of(pairs, pairs[i].0) == i,
        as_map(pairs).contains_key(pairs[i].0),
        as_map(pairs)[pairs[i].0] == pairs[i].1,
{
    let key = pairs[i].0;
    assert(holds(pairs, key));
    let j = index_of(pairs, key);
    assert(0 <= j < pairs.len() && pairs[j].0 == key);
    if j < i {
        assert(pairs[j].0 != pairs[i].0);
    } else if i < j {
        assert(pairs[i].0 != pairs[j].0);
    }
}

/// A pair with a new key at the end is an insertion into the map.
pub proof fn lemma_push<K, V>(pairs: Seq<(K, V)>, key: K, value: V)
    requires
        distinct_keys(pairs),
        !holds(pairs, key),
    ensures
        distinct_keys(pairs.push((key, value))),
        as_map(pairs.push((key, value))) == as_map(pairs).insert(key, value),
{
    let longer = pairs.push((key, value));
    assert forall|i: int, j: int| 0 <= i < j < longer.len() implies longer[i].0 != longer[j].0 by {
        if j == pairs.len() {
            if longer[i].0 == key {
                assert(pairs[i].0 == key);
            }
        } else {
            assert(pairs[i].0 != pairs[j].0);
        }
    }
    assert forall|k: K| holds(longer, k) <==> (k == key || holds(pairs, k)) by {
        if holds(longer, k) {
            let i = index_of(longer, k);
            if i < pairs.len() {
                assert(pairs[i].0 == k);
            }
        }
        if k == key {
            assert(longer[pairs.len() as int].0 == k);
        }
        if holds(pairs, k) {
            let i = index_of(pairs, k);
            assert(longer[i].0 == k);
        }
    }
    assert forall|k: K| holds(longer, k) implies #[trigger] as_map(longer)[k] == as_map(
        pairs,
    ).insert(key, value)[k] by {
        if k == key {
            lemma_found(longer, pairs.len() as int);
        } else {
            let i = index_of(pairs, k);
            assert(longer[i] == pairs[i]);
            lemma_found(longer, i);
        }
    }
    assert(as_map(longer) =~= as_map(pairs).insert(key, value));
}

/// A new value in the place of an old one is an insertion into the map.
pub proof fn lemma_update<K, V>(pairs: Seq<(K, V)>, i: int, value: V)
    requires
        distinct_keys(pairs),
        0 <= i < pairs.len(),
    ensures
        distinct_keys(pairs.update(i, (pairs[i].0, value))),
        as_map(pairs.update(i, (pairs[i].0, value))) == as_map(pairs).insert(pairs[i].0, value),
{
    let key = pairs[i].0;
    let changed = pairs.update(i, (key, value));
    assert forall|a: int, b: int| 0 <= a < b < changed.len() implies changed[a].0 != changed[b].0 by {
        assert(pairs[a].0 != pairs[b].0);
    }
    assert forall|k: K| holds(changed, k) <==> holds(pairs, k) by {
        if holds(changed, k) {
            let j = index_of(changed, k);
            assert(pairs[j].0 == k);
        }
        if holds(pairs, k) {
            let j = index_of(pairs, k);
            assert(changed[j].0 == k);
        }
    }
    lemma_found(pairs, i);
    assert forall|k: K| holds(changed, k) implies #[trigger] as_map(changed)[k] == as_map(
        pairs,
    ).insert(key, value)[k] by {
        let j = index_of(pairs, k);
        lemma_found(pairs, j);
        lemma_found(changed, j);
    }
    assert(as_map(changed) =~= as_map(pairs).insert(key, value));
}

/// The first `n + 1` pairs are the first `n` pairs and one pair with a new
/// key.
pub proof fn lemma_take_next<K, V>(pairs: Seq<(K, V)>, n: int)
    requires
        distinct_keys(pairs),
        0 <= n < pairs.len(),
    ensures
        distinct_keys(pairs.take(n)),
        !holds(pairs.take(n), pairs[n].0),
        pairs.take(n + 1) == pairs.take(n).push(pairs[n]),
        as_map(pairs.take(n + 1)) == as_map(pairs.take(n)).insert(pairs[n].0, pairs[n].1),
{
    let head = pairs.take(n);
    assert forall|i: int, j: int| 0 <= i < j < head.len() implies head[i].0 != head[j].0 by {
        assert(pairs[i].0 != pairs[j].0);
    }
    if holds(head, pairs[n].0) {
        let i = index_of(head, pairs[n].0);
        assert(pairs[i].0 != pairs[n].0);
    }
    assert(pairs.take(n + 1) =~= head.push(pairs[n]));
    lemma_push(head, pairs[n].0, pairs[n].1);
}

/// The value behind an optional reference.
pub open spec fn owned<V>(found: Option<&V>) -> Option<V> {
    match found {
        Some(value) => Some(*value),
        None => None,
    }
}

/// One bin of the table: the pairs whose keys were sent to it, each key at
/// most once.
pub struct Bin<K, V> where K: Copy, V: Copy {
    data: Vec<(K, V)>,
}

impl<K, V> View for Bin<K, V> where K: Copy, V: Copy {
    type V = Map<K, V>;

    closed spec fn view(&self) -> Map<K, V> {
        as_map(self.data@)
    }
}

impl<K, V> Bin<K, V> where K: Copy + Eq, V: Copy {
    /// No key occurs twice.
    pub closed spec fn wf(&self) -> bool {
        distinct_keys(self.data@)
    }

    /// An empty bin.
    pub fn new() -> (bin: Self)
        ensures
            bin.wf(),
            bin@ == Map::<K, V>::empty(),
    {
        let bin = Bin { data: Vec::new() };
        proof {
            assert(bin@ =~= Map::<K, V>::empty());
        }
        bin
    }

    /// The value stored under `key`, if there is one.
    pub fn get(&self, key: K) -> (found: Option<&V>)
        requires
            obeys_concrete_eq::<K>(),
            self.wf(),
        ensures
            owned(found) == self@.get(key),
    {
        let mut i: usize = 0;
        while i < self.data.len()
            invariant
                obeys_concrete_eq::<K>(),
                self.wf(),
                i <= self.data@.len(),
                forall|j: int| 0 <= j < i ==> (#[trigger] self.data@[j]).0 != key,
            decreases self.data@.len() - i,
        {
            proof {
                reveal(obeys_concrete_eq);
            }
            if self.data[i].0 == key {
                proof {
                    lemma_found(self.data@, i as int);
                }
                return Some(&self.data[i].1);
            }
            i += 1;
        }
        proof {
            if holds(self.data@, key) {
                let j = index_of(self.data@, key);
                assert(self.data@[j].0 == key);
            }
        }
        None
    }

    /// Stores `value` under `key`, in place of the value that was there, if
    /// any.
    pub fn set(&mut self, key: K, value: V)
        requires
            obeys_concrete_eq::<K>(),
            old(self).wf(),
        ensures
            final(self).wf(),
            final(self)@ == old(self)@.insert(key, value),
    {
        let mut i: usize = 0;
        while i < self.data.len()
            invariant
                obeys_concrete_eq::<K>(),
                self.wf(),
                *self == *old(self),
                i <= self.data@.len(),
                forall|j: int| 0 <= j < i ==> (#[trigger] self.data@[j]).0 != key,
            decreases self.data@.len() - i,
        {
            proof {
                reveal(obeys_concrete_eq);
            }
            if self.data[i].0 == key {
                proof {
                    lemma_update(self.data@, i as int, value);
                }
                let pair = (self.data[i].0, value);
                self.data[i] = pair;
                return ;
            }
            i += 1;
        }
        proof {
            if holds(self.data@, key) {
                let j = index_of(self.data@, key);
                assert(self.data@[j].0 == key);
            }
            lemma_push(self.data@, key, value);
        }
        self.data.push((key, value));
    }

    /// Removes the pair stored under `key` and says whether there was one.
    pub fn delete(&mut self, key: K) -> (deleted: bool)
        requires
            obeys_concrete_eq::<K>(),
            old(self).wf(),
        ensures
            final(self).wf(),
            final(self)@ == old(self)@.remove(key),
            deleted == old(self)@.contains_key(key),
    {
        let prelen = self.data.len();
        let mut kept: Vec<(K, V)> = Vec::new();
        let mut i: usize = 0;
        proof {
            assert(as_map(kept@) =~= as_map(self.data@.take(0)).remove(key));
        }
        while i < self.data.len()
            invariant
                obeys_concrete_eq::<K>(),
                self.wf(),
                *self == *old(self),
                i <= self.data@.len(),
                distinct_keys(kept@),
                as_map(kept@) == as_map(self.data@.take(i as int)).remove(key),
                kept@.len() + (if holds(self.data@.take(i as int), key) {
                    1int
                } else {
                    0int
                }) == i,
            decreases self.data@.len() - i,
        {
            let pair = self.data[i];
            proof {
                reveal(obeys_concrete_eq);
                lemma_take_next(self.data@, i as int);
                let head = self.data@.take(i as int);
                let next = self.data@.take(i + 1);
                assert(holds(next, key) <==> (holds(head, key) || pair.0 == key)) by {
                    assert(as_map(next).contains_key(key) == holds(next, key));
                    assert(as_map(head).contains_key(key) == holds(head, key));
                }
                if pair.0 != key {
                    assert(!holds(kept@, pair.0)) by {
                        assert(as_map(kept@).contains_key(pair.0) == holds(kept@, pair.0));
                        assert(as_map(head).contains_key(pair.0) == holds(head, pair.0));
                    }
                    lemma_push(kept@, pair.0, pair.1);
                    assert(as_map(head).remove(key).insert(pair.0, pair.1) =~= as_map(next).remove(
                        key,
                    ));
                } else {
                    assert(as_map(head).remove(key) =~= as_map(next).remove(key));
                }
            }
            if pair.0 != key {
                kept.push(pair);
            }
            i += 1;
        }
        proof {
            assert(self.data@.take(i as int) =~= self.data@);
            assert(as_map(self.data@).contains_key(key) == holds(self.data@, key));
        }
        self.data = kept;
        let postlen = self.data.len();
        prelen != postlen
    }
}

/// The number of bins in a table. It is prime, which spreads hash codes
/// that share a factor.
pub const BINS: u64 = 92_821;

/// The index of the bin that a hash code picks.
pub open spec fn bin_of(hash: u64) -> int {
    (hash % BINS) as int
}

/// A map from keys to values.
///
/// A key's pair lives in the bin that the key's hash code picks. The view of
/// a map is the sequence of its bins, each as a `Map`.
pub struct HashMap<K, V> where K: Copy, V: Copy {
    hash_table: Vec<Bin<K, V>>,
    key_size: u64,
}

impl<K, V> View for HashMap<K, V> where K: Copy, V: Copy {
    type V = Seq<Map<K, V>>;

    closed spec fn view(&self) -> Seq<Map<K, V>> {
        Seq::new(self.hash_table@.len(), |i: int| self.hash_table@[i]@)
    }
}

/// `Hash::hash` feeds the bytes of `key` to the hasher. Nothing is said of
/// which bytes those are, so nothing is known of the hash code that the
/// hasher gives afterwards.
#[verifier::external_body]
fn feed<K: Hash>(key: &K, hasher: &mut DefaultHasher) {
    key.hash(hasher)
}

impl<K, V> HashMap<K, V> where
    K: Clone + Copy + Default + Eq + Hash,
    V: Clone + Copy + Default + Eq,
 {
    /// The table has all its bins, no bin holds a key twice, and `==` on
    /// keys tells whether two keys are the same.
    pub closed spec fn wf(&self) -> bool {
        &&& obeys_concrete_eq::<K>()
        &&& self.key_size == BINS
        &&& self.hash_table@.len() == BINS
        &&& forall|i: int| 0 <= i < self.hash_table@.len() ==> (#[trigger] self.hash_table@[i]).wf()
    }

    /// An empty map.
    pub fn new() -> (map: Self)
        requires
            obeys_concrete_eq::<K>(),
        ensures
            map.wf(),
            map@ == Seq::new(BINS as nat, |i: int| Map::<K, V>::empty()),
    {
        let k = BINS;
        let mut cells: Vec<Bin<K, V>> = Vec::new();
        let mut i: u64 = 0;
        while i < k
            invariant
                k == BINS,
                i <= k,
                cells@.len() == i,
                forall|j: int| 0 <= j < i ==> (#[trigger] cells@[j]).wf(),
                forall|j: int| 0 <= j < i ==> (#[trigger] cells@[j])@ == Map::<K, V>::empty(),
            decreases k - i,
        {
            cells.push(Bin::new());
            i += 1;
        }
        let map = HashMap { hash_table: cells, key_size: k };
        proof {
            assert(map@ =~= Seq::new(BINS as nat, |i: int| Map::<K, V>::empty()));
        }
        map
    }

    /// The hash code of `key`, as the default hasher of the standard library
    /// computes it from what the key feeds to it.
    pub fn hash_of(key: &K) -> (hash: u64) {
        let mut hasher = DefaultHasher::new();
        feed(key, &mut hasher);
        hasher.finish()
    }

    /// Stores `value` under `key` in the bin that `hash` picks.
    pub fn insert_hashed(&mut self, hash: u64, key: K, value: V)
        requires
            old(self).wf(),
        ensures
            final(self).wf(),
            final(self)@ == old(self)@.update(bin_of(hash), old(self)@[bin_of(hash)].insert(key, value)),
    {
        let k = hash % self.key_size;
        self.hash_table[k as usize].set(key, value);
        proof {
            assert(final(self)@ =~= old(self)@.update(
                bin_of(hash),
                old(self)@[bin_of(hash)].insert(key, value),
            ));
        }
    }

    /// The value stored under `key` in the bin that `hash` picks, if there is
    /// one.
    pub fn get_hashed(&self, hash: u64, key: K) -> (found: Option<&V>)
        requires
            self.wf(),
        ensures
            owned(found) == self@[bin_of(hash)].get(key),
    {
        let k = hash % self.key_size;
        self.hash_table[k as usize].get(key)
    }

    /// Removes the pair stored under `key` in the bin that `hash` picks, and
    /// says whether there was one.
    pub fn remove_hashed(&mut self, hash: u64, key: K) -> (removed: bool)
        requires
            old(self).wf(),
        ensures
            final(self).wf(),
            final(self)@ == old(self)@.update(bin_of(hash), old(self)@[bin_of(hash)].remove(key)),
            removed == old(self)@[bin_of(hash)].contains_key(key),
    {
        let k = hash % self.key_size;
        let removed = self.hash_table[k as usize].delete(key);
        proof {
            assert(final(self)@ =~= old(self)@.update(
                bin_of(hash),
                old(self)@[bin_of(hash)].remove(key),
            ));
        }
        removed
    }

    /// Stores `value` under `key`, in place of the value that was stored
    /// under it in the key's bin, if any.
    pub fn insert(&mut self, key: K, value: V)
        requires
            old(self).wf(),
        ensures
            final(self).wf(),
            exists|hash: u64|
                final(self)@ == old(self)@.update(
                    bin_of(hash),
                    #[trigger] old(self)@[bin_of(hash)].insert(key, value),
                ),
    {
        let hash = Self::hash_of(&key);
        self.insert_hashed(hash, key, value);
    }

    /// The value stored under `key` in the key's bin, if there is one.
    pub fn get(&mut self, key: K) -> (found: Option<&V>)
        requires
            old(self).wf(),
        ensures
            final(self).wf(),
            final(self)@ == old(self)@,
            exists|hash: u64| owned(found) == #[trigger] old(self)@[bin_of(hash)].get(key),
    {
        let hash = Self::hash_of(&key);
        self.get_hashed(hash, key)
    }

    /// Removes the pair stored under `key` in the key's bin, and says whether
    /// there was one.
    pub fn remove(&mut self, key: K) -> (removed: bool)
        requires
            old(self).wf(),
        ensures
            final(self).wf(),
            exists|hash: u64|
                {
                    &&& final(self)@ == old(self)@.update(
                        bin_of(hash),
                        #[trigger] old(self)@[bin_of(hash)].remove(key),
                    )
                    &&& removed == old(self)@[bin_of(hash)].contains_key(key)
                },
    {
        let hash = Self::hash_of(&key);
        self.remove_hashed(hash, key)
    }
}

} // verus!
