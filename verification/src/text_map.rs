//! An ordered map keyed by text: entries kept sorted by key in the order
//! that `String`'s `Ord` uses, so that walking it visits keys in the order
//! a `BTreeMap` would.
use vstd::prelude::*;

use crate::identity::{NodeKind, PropertyKey, RelationName};
use crate::text::{lemma_text_lt_irreflexive, lemma_text_lt_total, lemma_text_lt_transitive, text_compare, text_lt, TextOrder};

verus! {

/// A key that is ordered by its text.
pub trait TextKey {
    spec fn key_text(&self) -> Seq<char>;

    fn key_str(&self) -> (r: &str)
        ensures
            r@ == self.key_text(),
    ;
}

impl TextKey for String {
    open spec fn key_text(&self) -> Seq<char> {
        self@
    }

    fn key_str(&self) -> (r: &str) {
        self.as_str()
    }
}

impl TextKey for PropertyKey {
    open spec fn key_text(&self) -> Seq<char> {
        self@
    }

    fn key_str(&self) -> (r: &str) {
        self.as_str()
    }
}

impl TextKey for NodeKind {
    open spec fn key_text(&self) -> Seq<char> {
        self@
    }

    fn key_str(&self) -> (r: &str) {
        self.as_str()
    }
}

impl TextKey for RelationName {
    open spec fn key_text(&self) -> Seq<char> {
        self@
    }

    fn key_str(&self) -> (r: &str) {
        self.as_str()
    }
}

/// Keys strictly increasing along the entries.
pub open spec fn sorted_by_key<K: TextKey, V>(s: Seq<(K, V)>) -> bool {
    forall|i: int, j: int|
        0 <= i < j < s.len() ==> text_lt(#[trigger] s[i].0.key_text(), #[trigger] s[j].0.key_text())
}

/// Whether some entry has key text `k`.
pub open spec fn has_key<K: TextKey, V>(s: Seq<(K, V)>, k: Seq<char>) -> bool {
    exists|i: int| 0 <= i < s.len() && #[trigger] s[i].0.key_text() == k
}

/// Index of the last entry with key text `k`, or -1.
pub open spec fn key_index<K: TextKey, V>(s: Seq<(K, V)>, k: Seq<char>) -> int
    decreases s.len(),
{
    if s.len() == 0 {
        -1
    } else if s.last().0.key_text() == k {
        s.len() - 1
    } else {
        key_index(s.drop_last(), k)
    }
}

/// The entries as a map from key text to value.
pub open spec fn entries_map<K: TextKey, V>(s: Seq<(K, V)>) -> Map<Seq<char>, V> {
    Map::new(|k: Seq<char>| has_key(s, k), |k: Seq<char>| s[key_index(s, k)].1)
}

/// The key texts of the entries, in order.
pub open spec fn key_texts<K: TextKey, V>(s: Seq<(K, V)>) -> Seq<Seq<char>> {
    s.map_values(|e: (K, V)| e.0.key_text())
}

pub proof fn lemma_key_index<K: TextKey, V>(s: Seq<(K, V)>, k: Seq<char>)
    ensures
        has_key(s, k) <==> key_index(s, k) >= 0,
        key_index(s, k) >= 0 ==> key_index(s, k) < s.len() && s[key_index(s, k)].0.key_text()
            == k,
    decreases s.len(),
{
    if s.len() > 0 {
        lemma_key_index(s.drop_last(), k);
        if has_key(s, k) && s.last().0.key_text() != k {
            let j = choose|j: int| 0 <= j < s.len() && #[trigger] s[j].0.key_text() == k;
            assert(s.drop_last()[j].0.key_text() == k);
        }
        if key_index(s.drop_last(), k) >= 0 {
            let j = key_index(s.drop_last(), k);
            assert(s[j] == s.drop_last()[j]);
        }
        if s.last().0.key_text() == k {
            assert(s[s.len() - 1].0.key_text() == k);
        }
    }
}

pub proof fn lemma_entries_map_at<K: TextKey, V>(s: Seq<(K, V)>, i: int)
    requires
        sorted_by_key(s),
        0 <= i < s.len(),
    ensures
        entries_map(s).contains_key(s[i].0.key_text()),
        entries_map(s)[s[i].0.key_text()] == s[i].1,
{
    let k = s[i].0.key_text();
    assert(has_key(s, k));
    lemma_key_index(s, k);
    let j = key_index(s, k);
    if j < i {
        assert(text_lt(s[j].0.key_text(), s[i].0.key_text()));
        lemma_text_lt_irreflexive(k);
    }
    if i < j {
        assert(text_lt(s[i].0.key_text(), s[j].0.key_text()));
        lemma_text_lt_irreflexive(k);
    }
}

/// A text-keyed map with entries sorted by key.
pub struct TextMap<K: TextKey, V> {
    entries: Vec<(K, V)>,
}

impl<K: TextKey, V> TextMap<K, V> {
    pub closed spec fn entries(&self) -> Seq<(K, V)> {
        self.entries@
    }

    /// The entries are sorted by key text, with no key twice.
    #[verifier::type_invariant]
    pub open spec fn well_formed(&self) -> bool {
        sorted_by_key(self.entries())
    }

    /// The map from key text to value.
    pub open spec fn map(&self) -> Map<Seq<char>, V> {
        entries_map(self.entries())
    }

    /// The key texts, in increasing order.
    pub open spec fn keys(&self) -> Seq<Seq<char>> {
        key_texts(self.entries())
    }

    pub fn new() -> (r: Self)
        ensures
            r.entries() == Seq::<(K, V)>::empty(),
            r.map() == Map::<Seq<char>, V>::empty(),
    {
        let r = TextMap { entries: Vec::new() };
        assert(r.map() =~= Map::<Seq<char>, V>::empty());
        r
    }

    pub fn len(&self) -> (r: usize)
        ensures
            r == self.entries().len(),
            sorted_by_key(self.entries()),
    {
        proof {
            use_type_invariant(self);
        }
        self.entries.len()
    }

    pub fn key_at(&self, i: usize) -> (r: &K)
        requires
            i < self.entries().len(),
        ensures
            *r == self.entries()[i as int].0,
    {
        &self.entries[i].0
    }

    pub fn value_at(&self, i: usize) -> (r: &V)
        requires
            i < self.entries().len(),
        ensures
            *r == self.entries()[i as int].1,
    {
        &self.entries[i].1
    }

    /// Index of the entry with key text `key`, or the index where it
    /// would be inserted.
    fn position(&self, key: &str) -> (r: (usize, bool))
        ensures
            r.0 <= self.entries().len(),
            r.1 ==> r.0 < self.entries().len() && self.entries()[r.0 as int].0.key_text() == key@,
            forall|j: int| 0 <= j < r.0 ==> text_lt(#[trigger] self.entries()[j].0.key_text(), key@),
            !r.1 ==> forall|j: int|
                r.0 <= j < self.entries().len() ==> text_lt(
                    key@,
                    #[trigger] self.entries()[j].0.key_text(),
                ),
    {
        proof {
            use_type_invariant(self);
        }
        let mut i: usize = 0;
        while i < self.entries.len()
            invariant
                i <= self.entries@.len(),
                sorted_by_key(self.entries@),
                forall|j: int| 0 <= j < i ==> text_lt(#[trigger] self.entries@[j].0.key_text(), key@),
            decreases self.entries@.len() - i,
        {
            let order = text_compare(self.entries[i].0.key_str(), key);
            match order {
                TextOrder::Equal => {
                    return (i, true);
                },
                TextOrder::Greater => {
                    proof {
                        lemma_text_lt_total(self.entries@[i as int].0.key_text(), key@);
                        assert forall|j: int| i <= j < self.entries@.len() implies text_lt(
                            key@,
                            #[trigger] self.entries@[j].0.key_text(),
                        ) by {
                            if j > i {
                                assert(text_lt(
                                    self.entries@[i as int].0.key_text(),
                                    self.entries@[j].0.key_text(),
                                ));
                                lemma_text_lt_transitive(
                                    key@,
                                    self.entries@[i as int].0.key_text(),
                                    self.entries@[j].0.key_text(),
                                );
                            }
                        }
                    }
                    return (i, false);
                },
                TextOrder::Less => {},
            }
            i += 1;
        }
        (i, false)
    }

    /// Whether an entry has key text `key`.
    pub fn contains_key(&self, key: &str) -> (r: bool)
        ensures
            r == self.map().contains_key(key@),
    {
        proof {
            use_type_invariant(self);
        }
        let (i, found) = self.position(key);
        proof {
            if found {
                lemma_entries_map_at(self.entries(), i as int);
            } else {
                if has_key(self.entries(), key@) {
                    let j = choose|j: int|
                        0 <= j < self.entries().len() && #[trigger] self.entries()[j].0.key_text()
                            == key@;
                    lemma_text_lt_irreflexive(key@);
                    if j < i {
                        assert(text_lt(self.entries()[j].0.key_text(), key@));
                    } else {
                        assert(text_lt(key@, self.entries()[j].0.key_text()));
                    }
                }
            }
        }
        found
    }

    /// The value under key text `key`.
    pub fn get(&self, key: &str) -> (r: Option<&V>)
        ensures
            match r {
                Some(v) => self.map().contains_key(key@) && self.map()[key@] == *v,
                None => !self.map().contains_key(key@),
            },
    {
        proof {
            use_type_invariant(self);
        }
        let (i, found) = self.position(key);
        if found {
            proof {
                lemma_entries_map_at(self.entries(), i as int);
            }
            Some(&self.entries[i].1)
        } else {
            proof {
                if has_key(self.entries(), key@) {
                    let j = choose|j: int|
                        0 <= j < self.entries().len() && #[trigger] self.entries()[j].0.key_text()
                            == key@;
                    lemma_text_lt_irreflexive(key@);
                    if j < i {
                        assert(text_lt(self.entries()[j].0.key_text(), key@));
                    } else {
                        assert(text_lt(key@, self.entries()[j].0.key_text()));
                    }
                }
            }
            None
        }
    }

    /// Inserts `value` under `key`, replacing an entry with the same key text.
    pub fn insert(&mut self, key: K, value: V)
        ensures
            final(self).map() == old(self).map().insert(key.key_text(), value),
            sorted_by_key(final(self).entries()),
    {
        proof {
            use_type_invariant(&*self);
        }
        let ghost old_entries = self.entries@;
        let (i, found) = self.position(key.key_str());
        let ghost k = key.key_text();
        if found {
            let mut entries = Vec::new();
            std::mem::swap(&mut entries, &mut self.entries);
            entries.set(i, (key, value));
            proof {
                let s = entries@;
                assert forall|a: int, b: int| 0 <= a < b < s.len() implies text_lt(
                    #[trigger] s[a].0.key_text(),
                    #[trigger] s[b].0.key_text(),
                ) by {
                    assert(old_entries[a].0.key_text() == s[a].0.key_text() || a == i);
                    assert(text_lt(old_entries[a].0.key_text(), old_entries[b].0.key_text()));
                }
                assert(sorted_by_key(s));
                assert(entries_map(s) =~= entries_map(old_entries).insert(k, value)) by {
                    assert forall|q: Seq<char>| #[trigger]
                        has_key(s, q) == has_key(old_entries, q) by {
                        if has_key(s, q) {
                            let j = choose|j: int|
                                0 <= j < s.len() && #[trigger] s[j].0.key_text() == q;
                            if j != i {
                                assert(old_entries[j].0.key_text() == q);
                            }
                        }
                        if has_key(old_entries, q) {
                            let j = choose|j: int|
                                0 <= j < old_entries.len() && #[trigger] old_entries[j].0.key_text()
                                    == q;
                            assert(s[j].0.key_text() == q);
                        }
                    }
                    assert forall|q: Seq<char>| #[trigger]
                        entries_map(s).contains_key(q) implies entries_map(s)[q] == entries_map(
                        old_entries,
                    ).insert(k, value)[q] by {
                        let j = choose|j: int|
                            0 <= j < s.len() && #[trigger] s[j].0.key_text() == q;
                        lemma_entries_map_at(s, j);
                        if j != i {
                            lemma_entries_map_at(old_entries, j);
                            assert(s[j] == old_entries[j]);
                            assert(q != k) by {
                                lemma_text_lt_irreflexive(k);
                                if j < i {
                                    assert(text_lt(old_entries[j].0.key_text(), old_entries[i as int].0.key_text()));
                                } else {
                                    assert(text_lt(old_entries[i as int].0.key_text(), old_entries[j].0.key_text()));
                                }
                            }
                        }
                    }
                    assert forall|q: Seq<char>| #[trigger]
                        entries_map(old_entries).contains_key(q) implies entries_map(s).contains_key(q) by {
                        let j = choose|j: int|
                            0 <= j < old_entries.len() && #[trigger] old_entries[j].0.key_text() == q;
                        assert(s[j].0.key_text() == q);
                    }
                    lemma_entries_map_at(s, i as int);
                }
            }
            self.entries = entries;
        } else {
            let mut entries = Vec::new();
            std::mem::swap(&mut entries, &mut self.entries);
            let ghost gv = value;
            let ghost ghost_pair = (key, value);
            entries.insert(i, (key, value));
            proof {
                let s = entries@;
                assert(s[i as int].0.key_text() == k);
                assert forall|a: int| 0 <= a < s.len() implies (#[trigger] s[a]) == (if a < i {
                    old_entries[a]
                } else if a == i {
                    ghost_pair
                } else {
                    old_entries[a - 1]
                }) by {}
                assert forall|a: int, b: int| 0 <= a < b < s.len() implies text_lt(
                    #[trigger] s[a].0.key_text(),
                    #[trigger] s[b].0.key_text(),
                ) by {
                    if b < i {
                        assert(text_lt(old_entries[a].0.key_text(), old_entries[b].0.key_text()));
                    } else if b == i {
                        assert(text_lt(old_entries[a].0.key_text(), k));
                    } else if a < i {
                        assert(text_lt(old_entries[a].0.key_text(), k));
                        assert(text_lt(k, old_entries[b - 1].0.key_text()));
                        lemma_text_lt_transitive(
                            old_entries[a].0.key_text(),
                            k,
                            old_entries[b - 1].0.key_text(),
                        );
                    } else if a == i {
                        assert(text_lt(k, old_entries[b - 1].0.key_text()));
                    } else {
                        assert(text_lt(
                            old_entries[a - 1].0.key_text(),
                            old_entries[b - 1].0.key_text(),
                        ));
                    }
                }
                assert(sorted_by_key(s));
                assert(entries_map(s) =~= entries_map(old_entries).insert(k, gv)) by {
                    assert forall|q: Seq<char>| #[trigger] has_key(s, q) == (has_key(
                        old_entries,
                        q,
                    ) || q == k) by {
                        if has_key(s, q) {
                            let j = choose|j: int|
                                0 <= j < s.len() && #[trigger] s[j].0.key_text() == q;
                            if j < i {
                                assert(old_entries[j].0.key_text() == q);
                            } else if j > i {
                                assert(old_entries[j - 1].0.key_text() == q);
                            }
                        }
                        if has_key(old_entries, q) {
                            let j = choose|j: int|
                                0 <= j < old_entries.len() && #[trigger] old_entries[j].0.key_text()
                                    == q;
                            if j < i {
                                assert(s[j].0.key_text() == q);
                            } else {
                                assert(s[j + 1].0.key_text() == q);
                            }
                        }
                        if q == k {
                            assert(s[i as int].0.key_text() == q);
                        }
                    }
                    assert forall|q: Seq<char>| #[trigger]
                        entries_map(s).contains_key(q) implies entries_map(s)[q] == entries_map(
                        old_entries,
                    ).insert(k, gv)[q] by {
                        let j = choose|j: int|
                            0 <= j < s.len() && #[trigger] s[j].0.key_text() == q;
                        lemma_entries_map_at(s, j);
                        if j < i {
                            assert(s[j] == old_entries[j]);
                            lemma_entries_map_at(old_entries, j);
                            assert(q != k) by {
                                assert(text_lt(q, k));
                                lemma_text_lt_irreflexive(k);
                            }
                            assert(entries_map(s)[q] == s[j].1);
                            assert(entries_map(old_entries)[q] == s[j].1);
                            assert(entries_map(old_entries).insert(k, gv)[q] == s[j].1);
                        } else if j > i {
                            assert(s[j] == old_entries[j - 1]);
                            lemma_entries_map_at(old_entries, j - 1);
                            assert(q != k) by {
                                assert(text_lt(k, q));
                                lemma_text_lt_irreflexive(k);
                            }
                            assert(entries_map(s)[q] == s[j].1);
                            assert(entries_map(old_entries)[q] == s[j].1);
                            assert(entries_map(old_entries).insert(k, gv)[q] == s[j].1);
                        } else {
                            assert(q == k);
                            assert(s[j].1 == gv);
                            assert(entries_map(s)[q] == gv);
                            assert(entries_map(old_entries).insert(k, gv)[q] == gv);
                        }
                    }
                }
            }
            self.entries = entries;
        }
    }

    /// Removes the entry with key text `key`, giving its value back.
    pub fn remove(&mut self, key: &str) -> (r: Option<V>)
        ensures
            final(self).map() == old(self).map().remove(key@),
            final(self).entries().len() == old(self).entries().len() - (if r is Some {
                1int
            } else {
                0int
            }),
            match r {
                Some(v) => old(self).map().contains_key(key@) && old(self).map()[key@] == v,
                None => !old(self).map().contains_key(key@),
            },
    {
        proof {
            use_type_invariant(&*self);
        }
        let ghost old_entries = self.entries@;
        let (i, found) = self.position(key);
        if !found {
            proof {
                if has_key(old_entries, key@) {
                    let j = choose|j: int|
                        0 <= j < old_entries.len() && #[trigger] old_entries[j].0.key_text()
                            == key@;
                    lemma_text_lt_irreflexive(key@);
                    if j < i {
                        assert(text_lt(old_entries[j].0.key_text(), key@));
                    } else {
                        assert(text_lt(key@, old_entries[j].0.key_text()));
                    }
                }
                assert(entries_map(old_entries).remove(key@) =~= entries_map(old_entries));
            }
            return None;
        }
        let mut entries = Vec::new();
        std::mem::swap(&mut entries, &mut self.entries);
        let (_k, v) = entries.remove(i);
        proof {
            lemma_entries_map_at(old_entries, i as int);
            let s = entries@;
            assert forall|a: int| 0 <= a < s.len() implies (#[trigger] s[a]) == (if a < i {
                old_entries[a]
            } else {
                old_entries[a + 1]
            }) by {}
            assert forall|a: int, b: int| 0 <= a < b < s.len() implies text_lt(
                #[trigger] s[a].0.key_text(),
                #[trigger] s[b].0.key_text(),
            ) by {
                let a2 = if a < i {
                    a
                } else {
                    a + 1
                };
                let b2 = if b < i {
                    b
                } else {
                    b + 1
                };
                assert(text_lt(old_entries[a2].0.key_text(), old_entries[b2].0.key_text()));
            }
            assert(sorted_by_key(s));
            assert(entries_map(s) =~= entries_map(old_entries).remove(key@)) by {
                assert forall|q: Seq<char>| #[trigger] has_key(s, q) == (has_key(old_entries, q)
                    && q != key@) by {
                    if has_key(s, q) {
                        let j = choose|j: int| 0 <= j < s.len() && #[trigger] s[j].0.key_text() == q;
                        let j2 = if j < i {
                            j
                        } else {
                            j + 1
                        };
                        assert(old_entries[j2].0.key_text() == q);
                        if q == key@ {
                            if j2 < i {
                                assert(text_lt(old_entries[j2].0.key_text(), key@));
                            } else {
                                assert(text_lt(key@, old_entries[j2].0.key_text()));
                            }
                            lemma_text_lt_irreflexive(key@);
                        }
                    }
                    if has_key(old_entries, q) && q != key@ {
                        let j = choose|j: int|
                            0 <= j < old_entries.len() && #[trigger] old_entries[j].0.key_text()
                                == q;
                        if j < i {
                            assert(s[j].0.key_text() == q);
                        } else {
                            assert(j != i);
                            assert(s[j - 1].0.key_text() == q);
                        }
                    }
                }
                assert forall|q: Seq<char>| #[trigger]
                    entries_map(s).contains_key(q) implies entries_map(s)[q] == entries_map(
                    old_entries,
                )[q] by {
                    let j = choose|j: int| 0 <= j < s.len() && #[trigger] s[j].0.key_text() == q;
                    lemma_entries_map_at(s, j);
                    if j < i {
                        lemma_entries_map_at(old_entries, j);
                    } else {
                        lemma_entries_map_at(old_entries, j + 1);
                    }
                }
            }
        }
        self.entries = entries;
        Some(v)
    }
}

} // verus!
