//! The entries that several maps have in common.

use vstd::prelude::*;
use indexmap::IndexMap;
use crate::ordered_map::{
    distinct_keys, lemma_position_of, lookup, pairs_entries, pairs_get, pairs_insert, pairs_new,
    pairs_of, position_of,
};
use crate::text::str_equal;
use crate::venv::Pairs;

verus! {

/// Whether every map but the first holds the entry: its key with its value.
pub open spec fn in_all_others(maps: Seq<Pairs>, entry: (Seq<char>, Seq<char>)) -> bool {
    forall|j: int| 1 <= j < maps.len() ==> lookup(#[trigger] maps[j], entry.0) == Some(entry.1)
}

/// Those of the first `n` entries of the first map that every other map
/// holds too.
pub open spec fn kept(maps: Seq<Pairs>, n: int) -> Pairs
    decreases n,
{
    if n <= 0 || maps.len() == 0 {
        Seq::empty()
    } else if in_all_others(maps, maps[0][n - 1]) {
        kept(maps, n - 1).push(maps[0][n - 1])
    } else {
        kept(maps, n - 1)
    }
}

/// The entries that all maps have in common, by key and equal value, in
/// the order of the first map. No map has nothing in common.
pub open spec fn shared_pairs(maps: Seq<Pairs>) -> Pairs {
    if maps.len() == 0 {
        Seq::empty()
    } else {
        kept(maps, maps[0].len() as int)
    }
}

/// The maps as plain values.
pub open spec fn refs_view(maps: Seq<&IndexMap<String, String>>) -> Seq<Pairs> {
    Seq::new(maps.len(), |i: int| pairs_of(*maps[i]))
}

proof fn lemma_kept_keys(maps: Seq<Pairs>, n: int)
    requires
        0 <= n <= maps[0].len(),
        maps.len() > 0,
    ensures
        forall|t: int|
            0 <= t < kept(maps, n).len() ==> exists|s: int|
                0 <= s < n && maps[0][s].0 == (#[trigger] kept(maps, n)[t]).0,
    decreases n,
{
    if n > 0 {
        lemma_kept_keys(maps, n - 1);
        assert forall|t: int| 0 <= t < kept(maps, n).len() implies exists|s: int|
            0 <= s < n && maps[0][s].0 == (#[trigger] kept(maps, n)[t]).0 by {
            if t < kept(maps, n - 1).len() {
                let s = choose|s: int| 0 <= s < n - 1 && maps[0][s].0 == kept(maps, n - 1)[t].0;
                assert(maps[0][s].0 == kept(maps, n)[t].0);
            } else {
                assert(maps[0][n - 1].0 == kept(maps, n)[t].0);
            }
        }
    }
}

/// The entries that all maps have in common.
pub fn shared_entries(maps: &Vec<&IndexMap<String, String>>) -> (r: IndexMap<String, String>)
    ensures
        pairs_of(r) == shared_pairs(refs_view(maps@)),
{
    let mut shared = pairs_new();
    if maps.len() == 0 {
        return shared;
    }
    let first = pairs_entries(maps[0]);
    let ghost all = refs_view(maps@);
    assert(all[0] == first.deep_view());
    let mut i: usize = 0;
    while i < first.len()
        invariant
            i <= first.len(),
            maps.len() > 0,
            all == refs_view(maps@),
            all[0] == first.deep_view(),
            distinct_keys(all[0]),
            pairs_of(shared) == kept(all, i as int),
        decreases first.len() - i,
    {
        let key = &first[i].0;
        let value = &first[i].1;
        let ghost entry = all[0][i as int];
        assert(entry == (key@, value@));
        let mut everywhere = true;
        let mut j: usize = 1;
        while j < maps.len()
            invariant
                1 <= j <= maps.len(),
                all == refs_view(maps@),
                everywhere ==> forall|t: int|
                    1 <= t < j ==> lookup(#[trigger] all[t], key@) == Some(value@),
                !everywhere ==> !in_all_others(all, (key@, value@)),
            decreases maps.len() - j,
        {
            assert(all[j as int] == pairs_of(*maps[j as int]));
            match pairs_get(maps[j], key.as_str()) {
                Some(other) => {
                    if !str_equal(other.as_str(), value.as_str()) {
                        everywhere = false;
                    }
                },
                None => {
                    everywhere = false;
                },
            }
            j = j + 1;
        }
        if everywhere {
            proof {
                let before = pairs_of(shared);
                lemma_kept_keys(all, i as int);
                lemma_position_of(before, key@);
                if position_of(before, key@) is Some {
                    let p = position_of(before, key@)->0;
                    let s = choose|s: int| 0 <= s < i && all[0][s].0 == before[p].0;
                    assert(all[0][s].0 != all[0][i as int].0);
                }
            }
            pairs_insert(&mut shared, key.clone(), value.clone());
        }
        i = i + 1;
    }
    shared
}

} // verus!
