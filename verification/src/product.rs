//! All combinations of one variant per key.

use vstd::prelude::*;
use indexmap::IndexMap;
use itertools::Itertools;
use crate::ordered_map::{
    distinct_keys, lemma_position_of, lists_entries, lists_of, pairs_insert, pairs_new, pairs_of,
    position_of,
};
use crate::spec_tree::Variants;
use crate::venv::Pairs;

verus! {

/// The number of ways to pick one index below each size.
pub open spec fn combination_count(sizes: Seq<usize>) -> nat
    decreases sizes.len(),
{
    if sizes.len() == 0 {
        1
    } else {
        combination_count(sizes.drop_last()) * (sizes.last() as nat)
    }
}

/// All ways to pick one index below each size, the last index changing
/// fastest. Without sizes there is one way, the empty one.
pub open spec fn index_combinations(sizes: Seq<usize>) -> Seq<Seq<usize>>
    decreases sizes.len(),
{
    if sizes.len() == 0 {
        seq![Seq::empty()]
    } else {
        let init = index_combinations(sizes.drop_last());
        let n = sizes.last() as int;
        Seq::new(
            (init.len() * n) as nat,
            |k: int| init[k / n].push((k % n) as usize),
        )
    }
}

/// All combinations of indices below the given sizes.
///
/// Trusted: `Itertools::multi_cartesian_product` over the ranges
/// `0..sizes[j]` yields every combination of one item of each range, the
/// last range cycling fastest, and a single empty combination where there is
/// no range. The combinations must be few enough to be held in a `Vec`.
#[verifier::external_body]
pub(crate) fn multi_cartesian_product(sizes: &Vec<usize>) -> (r: Vec<Vec<usize>>)
    requires
        combination_count(sizes@) <= usize::MAX,
    ensures
        r.deep_view() == index_combinations(sizes@),
{
    sizes.iter().map(|n| 0..*n).multi_cartesian_product().collect()
}

/// All combinations of one variant per key, in the order of the keys, the
/// variant of the last key changing fastest. Without keys there is one
/// combination, the empty one; a key without variants leaves none.
pub open spec fn product(entries: Variants) -> Seq<Pairs>
    decreases entries.len(),
{
    if entries.len() == 0 {
        seq![Seq::empty()]
    } else {
        let init = product(entries.drop_last());
        let last = entries.last();
        let n = last.1.len() as int;
        Seq::new((init.len() * n) as nat, |k: int| init[k / n].push((last.0, last.1[k % n])))
    }
}

/// The numbers of variants of the entries.
pub open spec fn sizes_of(entries: Variants) -> Seq<usize> {
    Seq::new(entries.len(), |j: int| entries[j].1.len() as usize)
}

/// The combination that picks variant `combo[j]` of entry `j`.
pub open spec fn picked(entries: Variants, combo: Seq<usize>) -> Pairs {
    Seq::new(entries.len(), |j: int| (entries[j].0, entries[j].1[combo[j] as int]))
}

/// The maps as plain values.
pub open spec fn maps_view(maps: Seq<IndexMap<String, String>>) -> Seq<Pairs> {
    Seq::new(maps.len(), |i: int| pairs_of(maps[i]))
}

proof fn lemma_count(sizes: Seq<usize>)
    ensures
        index_combinations(sizes).len() == combination_count(sizes),
    decreases sizes.len(),
{
    if sizes.len() > 0 {
        lemma_count(sizes.drop_last());
    }
}

proof fn lemma_div_mod_range(k: int, a: int, n: int)
    requires
        0 <= k < a * n,
        n > 0,
        a >= 0,
    ensures
        0 <= k / n < a,
        0 <= k % n < n,
{
    vstd::arithmetic::div_mod::lemma_fundamental_div_mod(k, n);
    vstd::arithmetic::div_mod::lemma_mod_bound(k, n);
    vstd::arithmetic::div_mod::lemma_div_pos_is_pos(k, n);
    if k / n >= a {
        vstd::arithmetic::mul::lemma_mul_inequality(a, k / n, n);
        assert(a * n <= (k / n) * n);
        assert(n * (k / n) == (k / n) * n) by (nonlinear_arith);
    }
}

/// The combinations of variants are the combinations of indices, each index
/// replaced by the variant it picks.
proof fn lemma_product_by_index(entries: Variants)
    requires
        forall|j: int| 0 <= j < entries.len() ==> (#[trigger] entries[j]).1.len() <= usize::MAX,
    ensures
        product(entries).len() == index_combinations(sizes_of(entries)).len(),
        forall|k: int|
            0 <= k < product(entries).len() ==> {
                let combo = #[trigger] index_combinations(sizes_of(entries))[k];
                &&& combo.len() == entries.len()
                &&& forall|j: int|
                    0 <= j < entries.len() ==> 0 <= #[trigger] combo[j] < entries[j].1.len()
                &&& product(entries)[k] == picked(entries, combo)
            },
    decreases entries.len(),
{
    if entries.len() > 0 {
        let init_e = entries.drop_last();
        assert(sizes_of(entries).drop_last() =~= sizes_of(init_e));
        lemma_product_by_index(init_e);
        let n = entries.last().1.len() as int;
        let init_p = product(init_e);
        let init_c = index_combinations(sizes_of(init_e));
        assert(sizes_of(entries).last() as int == n);
        assert forall|k: int| 0 <= k < product(entries).len() implies {
            let combo = #[trigger] index_combinations(sizes_of(entries))[k];
            &&& combo.len() == entries.len()
            &&& forall|j: int|
                0 <= j < entries.len() ==> 0 <= #[trigger] combo[j] < entries[j].1.len()
            &&& product(entries)[k] == picked(entries, combo)
        } by {
            assert(n > 0) by {
                if n == 0 {
                    assert(init_p.len() * 0 == 0);
                }
            }
            lemma_div_mod_range(k, init_p.len() as int, n);
            let combo = index_combinations(sizes_of(entries))[k];
            let prev = init_c[k / n];
            assert(combo == prev.push((k % n) as usize));
            assert(product(init_e)[k / n] == picked(init_e, prev));
            assert forall|j: int| 0 <= j < entries.len() implies 0 <= #[trigger] combo[j]
                < entries[j].1.len() by {
                if j < entries.len() - 1 {
                    assert(combo[j] == prev[j]);
                    assert(init_e[j] == entries[j]);
                }
            }
            assert(product(entries)[k] =~= picked(entries, combo)) by {
                assert forall|j: int| 0 <= j < entries.len() implies product(entries)[k][j]
                    == picked(entries, combo)[j] by {
                    if j < entries.len() - 1 {
                        assert(combo[j] == prev[j]);
                        assert(init_e[j] == entries[j]);
                        assert(picked(init_e, prev)[j] == (
                            init_e[j].0,
                            init_e[j].1[prev[j] as int],
                        ));
                    }
                }
            }
        }
    }
}

/// A key without variants leaves no combination.
proof fn lemma_count_zero(sizes: Seq<usize>, j: int)
    requires
        0 <= j < sizes.len(),
        sizes[j] == 0,
    ensures
        combination_count(sizes) == 0,
    decreases sizes.len(),
{
    if j < sizes.len() - 1 {
        lemma_count_zero(sizes.drop_last(), j);
        assert(0 * (sizes.last() as nat) == 0);
    } else {
        assert(combination_count(sizes.drop_last()) * 0 == 0);
    }
}

/// Among sizes that are not zero, the combinations of a part are no more
/// than those of the whole.
proof fn lemma_count_grows(sizes: Seq<usize>, i: int)
    requires
        0 <= i <= sizes.len(),
        forall|j: int| 0 <= j < sizes.len() ==> #[trigger] sizes[j] > 0,
    ensures
        combination_count(sizes.take(i)) <= combination_count(sizes),
    decreases sizes.len() - i,
{
    if i == sizes.len() {
        assert(sizes.take(i) =~= sizes);
    } else {
        lemma_count_grows(sizes, i + 1);
        assert(sizes.take(i + 1).drop_last() =~= sizes.take(i));
        let a = combination_count(sizes.take(i));
        let b = sizes[i] as nat;
        assert(a <= a * b) by (nonlinear_arith)
            requires
                b > 0,
        ;
    }
}

/// All combinations of one variant per key, as maps, unless they are too
/// many to count.
pub fn expand_product(values: &IndexMap<String, Vec<String>>) -> (r: Option<
    Vec<IndexMap<String, String>>,
>)
    ensures
        match r {
            Some(maps) => maps_view(maps@) == product(lists_of(*values)),
            None => product(lists_of(*values)).len() > usize::MAX,
        },
{
    let entries = lists_entries(values);
    let ghost e = lists_of(*values);
    assert(forall|j: int| 0 <= j < e.len() ==> (#[trigger] e[j]).1 == entries[j].1.deep_view());
    let mut sizes: Vec<usize> = Vec::new();
    let mut j: usize = 0;
    while j < entries.len()
        invariant
            j <= entries.len(),
            e == entries.deep_view(),
            sizes@ == sizes_of(e).take(j as int),
        decreases entries.len() - j,
    {
        assert(e[j as int].1 == entries[j as int].1.deep_view());
        sizes.push(entries[j].1.len());
        j = j + 1;
        assert(sizes@ =~= sizes_of(e).take(j as int));
    }
    assert(sizes@ =~= sizes_of(e));
    proof {
        assert forall|j: int| 0 <= j < e.len() implies (#[trigger] e[j]).1.len() <= usize::MAX by {
            assert(e[j] == (entries[j].0@, entries[j].1.deep_view()));
            assert(entries[j].1.deep_view().len() == entries[j].1.len());
        }
        lemma_product_by_index(e);
        lemma_count(sizes@);
    }
    let mut z: usize = 0;
    while z < sizes.len()
        invariant
            z <= sizes.len(),
            e == lists_of(*values),
            product(e).len() == combination_count(sizes@),
            forall|t: int| 0 <= t < z ==> #[trigger] sizes[t] > 0,
        decreases sizes.len() - z,
    {
        if sizes[z] == 0 {
            proof {
                lemma_count_zero(sizes@, z as int);
            }
            let none: Vec<IndexMap<String, String>> = Vec::new();
            assert(maps_view(none@) =~= product(e));
            return Some(none);
        }
        z = z + 1;
    }
    let mut count: usize = 1;
    let mut c: usize = 0;
    assert(sizes@.take(0) =~= Seq::<usize>::empty());
    while c < sizes.len()
        invariant
            c <= sizes.len(),
            forall|t: int| 0 <= t < sizes.len() ==> #[trigger] sizes[t] > 0,
            count == combination_count(sizes@.take(c as int)),
            index_combinations(sizes@).len() == combination_count(sizes@),
            product(e).len() == index_combinations(sizes@).len(),
            e == lists_of(*values),
        decreases sizes.len() - c,
    {
        proof {
            assert(sizes@.take(c + 1).drop_last() =~= sizes@.take(c as int));
        }
        match count.checked_mul(sizes[c]) {
            Some(next) => {
                count = next;
            },
            None => {
                proof {
                    lemma_count_grows(sizes@, c + 1);
                }
                return None;
            },
        }
        c = c + 1;
    }
    assert(sizes@.take(sizes.len() as int) =~= sizes@);
    let combos = multi_cartesian_product(&sizes);
    let mut maps: Vec<IndexMap<String, String>> = Vec::new();
    let mut k: usize = 0;
    while k < combos.len()
        invariant
            k <= combos.len(),
            e == entries.deep_view(),
            e == lists_of(*values),
            distinct_keys(e),
            sizes@ == sizes_of(e),
            combos.deep_view() == index_combinations(sizes@),
            product(e).len() == combos.len(),
            forall|t: int|
                0 <= t < product(e).len() ==> {
                    let combo = #[trigger] index_combinations(sizes_of(e))[t];
                    &&& combo.len() == e.len()
                    &&& forall|j: int| 0 <= j < e.len() ==> 0 <= #[trigger] combo[j] < e[j].1.len()
                    &&& product(e)[t] == picked(e, combo)
                },
            maps.len() == k,
            forall|t: int| 0 <= t < k ==> pairs_of(#[trigger] maps[t]) == product(e)[t],
        decreases combos.len() - k,
    {
        let combo = &combos[k];
        assert(combo@ == combos.deep_view()[k as int]);
        assert(combo@ == index_combinations(sizes_of(e))[k as int]);
        let mut m = pairs_new();
        let mut j: usize = 0;
        while j < entries.len()
            invariant
                j <= entries.len(),
                e == entries.deep_view(),
                distinct_keys(e),
                combo.len() == e.len(),
                forall|t: int| 0 <= t < e.len() ==> 0 <= #[trigger] combo[t] < e[t].1.len(),
                pairs_of(m) == picked(e, combo@).take(j as int),
            decreases entries.len() - j,
        {
            let ghost before = pairs_of(m);
            let entry = &entries[j];
            assert(e[j as int] == (entry.0@, entry.1.deep_view()));
            let pick: usize = combo[j];
            assert(pick < e[j as int].1.len());
            proof {
                lemma_position_of(before, entry.0@);
                if position_of(before, entry.0@) is Some {
                    let p = position_of(before, entry.0@)->0;
                    assert(before[p].0 == e[p].0);
                }
            }
            pairs_insert(&mut m, entry.0.clone(), entry.1[pick].clone());
            j = j + 1;
            assert(pairs_of(m) =~= picked(e, combo@).take(j as int));
        }
        assert(picked(e, combo@).take(entries.len() as int) =~= picked(e, combo@));
        maps.push(m);
        k = k + 1;
    }
    assert(maps_view(maps@) =~= product(e));
    Some(maps)
}

} // verus!
