//! Which MPRIS players to start and stop watching, from the names on the
//! session bus and the players watched so far.
use vstd::prelude::*;

use crate::projection::{lemma_map_keys_sorted, lemma_sorted_keys_of, sorted_keys_of, strictly_sorted};
use crate::text::{has_prefix, starts_with, texts_of};
use crate::text_map::{TextMap};

verus! {

/// Whether a bus name is that of an MPRIS player.
pub open spec fn is_player_name(n: Seq<char>) -> bool {
    has_prefix(n, "org.mpris.MediaPlayer2."@)
}

/// The MPRIS player names among the names on the bus.
pub open spec fn player_names(names: Seq<Seq<char>>) -> Set<Seq<char>> {
    names.to_set().filter(|n: Seq<char>| is_player_name(n))
}

/// The players to stop and to start watching, each in increasing order.
#[derive(Debug)]
pub struct WatchPlan {
    pub stop: Vec<String>,
    pub start: Vec<String>,
}

/// The keys of `from` that `other` lacks, in increasing order.
fn missing_keys(from: &TextMap<String, bool>, other: &TextMap<String, bool>) -> (r: Vec<String>)
    ensures
        texts_of(r@) == sorted_keys_of(from.map().dom().difference(other.map().dom())),
{
    let n = from.len();
    proof {
        lemma_map_keys_sorted(*from);
    }
    let ghost keys = from.keys();
    let mut out: Vec<String> = Vec::new();
    let mut k: usize = 0;
    while k < n
        invariant
            k <= n,
            n == from.entries().len(),
            keys == from.keys(),
            keys.len() == n,
            strictly_sorted(keys),
            keys.to_set() == from.map().dom(),
            strictly_sorted(texts_of(out@)),
            forall|a: int| 0 <= a < out@.len() ==> keys.take(k as int).contains(#[trigger] out@[a]@),
            texts_of(out@).to_set() == keys.take(k as int).to_set().filter(
                |t: Seq<char>| !other.map().dom().contains(t),
            ),
        decreases n - k,
    {
        let key = from.key_at(k);
        assert(key@ == keys[k as int]);
        let absent = !other.contains_key(key.as_str());
        let ghost before = out@;
        assert(keys.take(k + 1) =~= keys.take(k as int).push(keys[k as int]));
        proof {
            keys.take(k as int).lemma_push_to_set_commute(keys[k as int]);
        }
        if absent {
            out.push(key.clone());
            assert(texts_of(out@) =~= texts_of(before).push(key@));
            assert forall|a: int, b: int| 0 <= a < b < texts_of(out@).len() implies crate::text::text_lt(
                #[trigger] texts_of(out@)[a],
                #[trigger] texts_of(out@)[b],
            ) by {
                if b == texts_of(out@).len() - 1 {
                    assert(keys.take(k as int).contains(before[a]@));
                    let j = choose|j: int| 0 <= j < k && keys.take(k as int)[j] == before[a]@;
                    assert(keys[j] == before[a]@);
                } else {
                    assert(texts_of(before)[a] == texts_of(out@)[a]);
                    assert(texts_of(before)[b] == texts_of(out@)[b]);
                }
            }
            assert forall|a: int| 0 <= a < out@.len() implies keys.take(k + 1).contains(
                #[trigger] out@[a]@,
            ) by {
                if a < before.len() {
                    assert(keys.take(k as int).contains(before[a]@));
                    let j = choose|j: int| 0 <= j < k && keys.take(k as int)[j] == before[a]@;
                    assert(keys.take(k + 1)[j] == before[a]@);
                } else {
                    assert(keys.take(k + 1)[k as int] == key@);
                }
            }
            proof {
                texts_of(before).lemma_push_to_set_commute(key@);
            }
            assert(texts_of(out@).to_set() =~= keys.take(k + 1).to_set().filter(
                |t: Seq<char>| !other.map().dom().contains(t),
            ));
        } else {
            assert forall|a: int| 0 <= a < out@.len() implies keys.take(k + 1).contains(
                #[trigger] out@[a]@,
            ) by {
                assert(keys.take(k as int).contains(out@[a]@));
                let j = choose|j: int| 0 <= j < k && keys.take(k as int)[j] == out@[a]@;
                assert(keys.take(k + 1)[j] == out@[a]@);
            }
            assert(texts_of(out@).to_set() =~= keys.take(k + 1).to_set().filter(
                |t: Seq<char>| !other.map().dom().contains(t),
            ));
        }
        k += 1;
    }
    assert(keys.take(n as int) =~= keys);
    assert(texts_of(out@).to_set() =~= from.map().dom().difference(other.map().dom()));
    proof {
        lemma_sorted_keys_of(texts_of(out@));
    }
    out
}

/// Which players to stop watching (watched, no longer on the bus) and
/// which to start watching (on the bus, not watched yet).
pub fn watch_plan(names: &Vec<String>, watched: &Vec<String>) -> (r: WatchPlan)
    ensures
        texts_of(r.stop@) == sorted_keys_of(
            texts_of(watched@).to_set().difference(player_names(texts_of(names@))),
        ),
        texts_of(r.start@) == sorted_keys_of(
            player_names(texts_of(names@)).difference(texts_of(watched@).to_set()),
        ),
{
    let ghost nv = texts_of(names@);
    let ghost wv = texts_of(watched@);
    let mut current: TextMap<String, bool> = TextMap::new();
    let mut i: usize = 0;
    while i < names.len()
        invariant
            i <= names.len(),
            nv == texts_of(names@),
            current.map().dom() == nv.take(i as int).to_set().filter(
                |n: Seq<char>| is_player_name(n),
            ),
        decreases names.len() - i,
    {
        let name = &names[i];
        assert(nv[i as int] == name@);
        assert(nv.take(i + 1) =~= nv.take(i as int).push(name@));
        proof {
            nv.take(i as int).lemma_push_to_set_commute(name@);
        }
        if starts_with(name.as_str(), "org.mpris.MediaPlayer2.") {
            current.insert(name.clone(), true);
        }
        assert(current.map().dom() =~= nv.take(i + 1).to_set().filter(
            |n: Seq<char>| is_player_name(n),
        ));
        i += 1;
    }
    assert(nv.take(names.len() as int) =~= nv);
    let mut seen: TextMap<String, bool> = TextMap::new();
    let mut j: usize = 0;
    while j < watched.len()
        invariant
            j <= watched.len(),
            wv == texts_of(watched@),
            seen.map().dom() == wv.take(j as int).to_set(),
        decreases watched.len() - j,
    {
        let name = &watched[j];
        assert(wv[j as int] == name@);
        assert(wv.take(j + 1) =~= wv.take(j as int).push(name@));
        proof {
            wv.take(j as int).lemma_push_to_set_commute(name@);
        }
        seen.insert(name.clone(), true);
        assert(seen.map().dom() =~= wv.take(j + 1).to_set());
        j += 1;
    }
    assert(wv.take(watched.len() as int) =~= wv);
    let stop = missing_keys(&seen, &current);
    let start = missing_keys(&current, &seen);
    WatchPlan { stop, start }
}

} // verus!
