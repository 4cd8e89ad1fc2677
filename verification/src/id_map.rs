//! An ordered map keyed by `i32`: entries kept sorted by key, so that
//! walking it visits keys in increasing order as a `BTreeMap<i32, _>`
//! would.
use vstd::prelude::*;

verus! {

/// Keys strictly increasing along the entries.
pub open spec fn ids_increasing<V>(s: Seq<(i32, V)>) -> bool {
    forall|i: int, j: int| 0 <= i < j < s.len() ==> #[trigger] s[i].0 < #[trigger] s[j].0
}

/// Whether some entry has key `k`.
pub open spec fn has_id<V>(s: Seq<(i32, V)>, k: i32) -> bool {
    exists|i: int| 0 <= i < s.len() && #[trigger] s[i].0 == k
}

/// The entries as a map.
pub open spec fn id_entries_map<V>(s: Seq<(i32, V)>) -> Map<i32, V> {
    Map::new(
        |k: i32| has_id(s, k),
        |k: i32| s[choose|i: int| 0 <= i < s.len() && #[trigger] s[i].0 == k].1,
    )
}

/// The value under the key of entry `i` is that entry's value.
pub proof fn lemma_id_entry<V>(s: Seq<(i32, V)>, i: int)
    requires
        ids_increasing(s),
        0 <= i < s.len(),
    ensures
        id_entries_map(s).contains_key(s[i].0),
        id_entries_map(s)[s[i].0] == s[i].1,
{
    let k = s[i].0;
    assert(has_id(s, k));
    let j = choose|j: int| 0 <= j < s.len() && #[trigger] s[j].0 == k;
    if j < i {
        assert(s[j].0 < s[i].0);
    }
    if i < j {
        assert(s[i].0 < s[j].0);
    }
}

/// A map keyed by `i32` with entries sorted by key.
pub struct IdMap<V> {
    entries: Vec<(i32, V)>,
}

impl<V> IdMap<V> {
    pub closed spec fn entries(&self) -> Seq<(i32, V)> {
        self.entries@
    }

    #[verifier::type_invariant]
    closed spec fn well_formed(&self) -> bool {
        ids_increasing(self.entries@)
    }

    /// The map from key to value.
    pub open spec fn map(&self) -> Map<i32, V> {
        id_entries_map(self.entries())
    }

    /// The keys, in increasing order.
    pub open spec fn keys(&self) -> Seq<i32> {
        self.entries().map_values(|e: (i32, V)| e.0)
    }

    pub fn new() -> (r: Self)
        ensures
            r.entries() == Seq::<(i32, V)>::empty(),
            r.map() == Map::<i32, V>::empty(),
    {
        let r = IdMap { entries: Vec::new() };
        assert(r.map() =~= Map::<i32, V>::empty());
        r
    }

    pub fn len(&self) -> (r: usize)
        ensures
            r == self.entries().len(),
            ids_increasing(self.entries()),
    {
        proof {
            use_type_invariant(self);
        }
        self.entries.len()
    }

    pub fn key_at(&self, i: usize) -> (r: i32)
        requires
            i < self.entries().len(),
        ensures
            r == self.entries()[i as int].0,
    {
        self.entries[i].0
    }

    pub fn value_at(&self, i: usize) -> (r: &V)
        requires
            i < self.entries().len(),
        ensures
            *r == self.entries()[i as int].1,
    {
        &self.entries[i].1
    }

    /// Index of the entry with key `key`, or where it would be inserted.
    fn position(&self, key: i32) -> (r: (usize, bool))
        ensures
            r.0 <= self.entries().len(),
            r.1 ==> r.0 < self.entries().len() && self.entries()[r.0 as int].0 == key,
            forall|j: int| 0 <= j < r.0 ==> #[trigger] self.entries()[j].0 < key,
            !r.1 ==> forall|j: int| r.0 <= j < self.entries().len() ==> key < #[trigger] self.entries()[j].0,
    {
        proof {
            use_type_invariant(self);
        }
        let mut i: usize = 0;
        while i < self.entries.len()
            invariant
                i <= self.entries@.len(),
                ids_increasing(self.entries@),
                forall|j: int| 0 <= j < i ==> #[trigger] self.entries@[j].0 < key,
            decreases self.entries@.len() - i,
        {
            let k = self.entries[i].0;
            if k == key {
                return (i, true);
            }
            if k > key {
                proof {
                    assert forall|j: int| i <= j < self.entries@.len() implies key
                        < #[trigger] self.entries@[j].0 by {
                        if j > i {
                            assert(self.entries@[i as int].0 < self.entries@[j].0);
                        }
                    }
                }
                return (i, false);
            }
            i += 1;
        }
        (i, false)
    }

    /// Whether an entry has key `key`.
    pub fn contains_key(&self, key: i32) -> (r: bool)
        ensures
            r == self.map().contains_key(key),
    {
        let (i, found) = self.position(key);
        proof {
            if found {
                assert(has_id(self.entries(), key));
            } else if has_id(self.entries(), key) {
                let j = choose|j: int| 0 <= j < self.entries().len() && #[trigger] self.entries()[j].0 == key;
            }
        }
        found
    }

    /// The value under `key`.
    pub fn get(&self, key: i32) -> (r: Option<&V>)
        ensures
            match r {
                Some(v) => self.map().contains_key(key) && self.map()[key] == *v,
                None => !self.map().contains_key(key),
            },
    {
        proof {
            use_type_invariant(self);
        }
        let (i, found) = self.position(key);
        if found {
            proof {
                lemma_id_entry(self.entries(), i as int);
            }
            Some(&self.entries[i].1)
        } else {
            proof {
                if has_id(self.entries(), key) {
                    let j = choose|j: int| 0 <= j < self.entries().len() && #[trigger] self.entries()[j].0 == key;
                }
            }
            None
        }
    }

    /// Inserts `value` under `key`, replacing an entry with the same key.
    pub fn insert(&mut self, key: i32, value: V)
        ensures
            final(self).map() == old(self).map().insert(key, value),
    {
        proof {
            use_type_invariant(&*self);
        }
        let ghost old_entries = self.entries@;
        let (i, found) = self.position(key);
        let mut entries = Vec::new();
        std::mem::swap(&mut entries, &mut self.entries);
        if found {
            entries.set(i, (key, value));
        } else {
            entries.insert(i, (key, value));
        }
        proof {
            let s = entries@;
            assert forall|a: int| 0 <= a < s.len() implies (#[trigger] s[a]) == (if found {
                if a == i {
                    (key, value)
                } else {
                    old_entries[a]
                }
            } else if a < i {
                old_entries[a]
            } else if a == i {
                (key, value)
            } else {
                old_entries[a - 1]
            }) by {}
            assert(ids_increasing(s)) by {
                assert forall|a: int, b: int| 0 <= a < b < s.len() implies #[trigger] s[a].0
                    < #[trigger] s[b].0 by {
                    if found {
                        if a != i && b != i {
                            assert(old_entries[a].0 < old_entries[b].0);
                        }
                    } else {
                        if b < i {
                            assert(old_entries[a].0 < old_entries[b].0);
                        } else if a > i {
                            assert(old_entries[a - 1].0 < old_entries[b - 1].0);
                        } else if a < i && b > i {
                            assert(old_entries[a].0 < key);
                        }
                    }
                }
            }
            assert(id_entries_map(s) =~= id_entries_map(old_entries).insert(key, value)) by {
                assert forall|q: i32| #[trigger] has_id(s, q) == (has_id(old_entries, q) || q == key) by {
                    if has_id(s, q) {
                        let j = choose|j: int| 0 <= j < s.len() && #[trigger] s[j].0 == q;
                        if found {
                            if j != i {
                                assert(old_entries[j].0 == q);
                            }
                        } else if j < i {
                            assert(old_entries[j].0 == q);
                        } else if j > i {
                            assert(old_entries[j - 1].0 == q);
                        }
                    }
                    if has_id(old_entries, q) {
                        let j = choose|j: int|
                            0 <= j < old_entries.len() && #[trigger] old_entries[j].0 == q;
                        if found {
                            assert(s[j].0 == q);
                        } else if j < i {
                            assert(s[j].0 == q);
                        } else {
                            assert(s[j + 1].0 == q);
                        }
                    }
                    if q == key {
                        assert(s[i as int].0 == q);
                    }
                }
                assert forall|q: i32| #[trigger]
                    id_entries_map(s).contains_key(q) implies id_entries_map(s)[q] == id_entries_map(
                    old_entries,
                ).insert(key, value)[q] by {
                    let j = choose|j: int| 0 <= j < s.len() && #[trigger] s[j].0 == q;
                    lemma_id_entry(s, j);
                    if q != key {
                        let j2 = if found || j < i {
                            j
                        } else {
                            j - 1
                        };
                        assert(old_entries[j2] == s[j]);
                        lemma_id_entry(old_entries, j2);
                    } else {
                        lemma_id_entry(s, i as int);
                    }
                }
            }
        }
        self.entries = entries;
    }

    /// Appends an entry whose key is above every key held.
    pub fn push_back(&mut self, key: i32, value: V)
        requires
            forall|j: int| 0 <= j < old(self).entries().len() ==> #[trigger] old(self).entries()[j].0 < key,
        ensures
            final(self).entries() == old(self).entries().push((key, value)),
    {
        proof {
            use_type_invariant(&*self);
        }
        let mut entries = Vec::new();
        std::mem::swap(&mut entries, &mut self.entries);
        entries.push((key, value));
        proof {
            let s = entries@;
            assert forall|a: int, b: int| 0 <= a < b < s.len() implies #[trigger] s[a].0
                < #[trigger] s[b].0 by {
                if b == s.len() - 1 {
                    assert(s[a] == old(self).entries()[a]);
                } else {
                    assert(s[a] == old(self).entries()[a] && s[b] == old(self).entries()[b]);
                }
            }
        }
        self.entries = entries;
    }
}

} // verus!
