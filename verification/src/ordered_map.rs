//! Insertion-ordered maps keyed by text.
//!
//! The maps themselves are `indexmap::IndexMap`s. What one holds is named by
//! a specification function, and the few operations the crate needs are
//! declared with contracts over those names; `KeyIndex` is built on top of
//! them and verified.

use vstd::prelude::*;
use indexmap::IndexMap;

verus! {

/// The map of the `indexmap` crate. Nothing is known of a map but what the
/// functions below say of it.
#[verifier::external_type_specification]
#[verifier::external_body]
#[verifier::reject_recursive_types(K)]
#[verifier::reject_recursive_types(V)]
#[verifier::reject_recursive_types(S)]
pub struct ExIndexMap<K, V, S>(IndexMap<K, V, S>);

/// The entries of a map from text to text, in the map's order.
pub uninterp spec fn pairs_of(m: IndexMap<String, String>) -> Seq<(Seq<char>, Seq<char>)>;

/// The entries of a map from text to lists of text, in the map's order.
pub uninterp spec fn lists_of(m: IndexMap<String, Vec<String>>) -> Seq<(Seq<char>, Seq<Seq<char>>)>;

/// The entries of a map from text to positions, in the map's order.
pub uninterp spec fn positions_of(m: IndexMap<String, usize>) -> Seq<(Seq<char>, usize)>;

/// No key occurs twice.
pub open spec fn distinct_keys<V>(entries: Seq<(Seq<char>, V)>) -> bool {
    forall|i: int, j: int|
        0 <= i < j < entries.len() ==> (#[trigger] entries[i]).0 != (#[trigger] entries[j]).0
}

/// The keys of the entries, in order.
pub open spec fn keys_of<V>(entries: Seq<(Seq<char>, V)>) -> Seq<Seq<char>> {
    Seq::new(entries.len(), |i: int| entries[i].0)
}

/// Where the key stands among the entries.
pub open spec fn position_of<V>(entries: Seq<(Seq<char>, V)>, key: Seq<char>) -> Option<int>
    decreases entries.len(),
{
    if entries.len() == 0 {
        None
    } else if entries.last().0 == key {
        Some(entries.len() - 1)
    } else {
        position_of(entries.drop_last(), key)
    }
}

/// The value stored for the key.
pub open spec fn lookup<V>(entries: Seq<(Seq<char>, V)>, key: Seq<char>) -> Option<V> {
    match position_of(entries, key) {
        Some(i) => Some(entries[i].1),
        None => None,
    }
}

/// The entries after an insertion: a key that is present keeps its place and
/// gets the new value, a new key goes to the end.
pub open spec fn upsert<V>(entries: Seq<(Seq<char>, V)>, key: Seq<char>, value: V) -> Seq<
    (Seq<char>, V),
> {
    match position_of(entries, key) {
        Some(i) => entries.update(i, (key, value)),
        None => entries.push((key, value)),
    }
}

/// `position_of` finds the key exactly where it stands, and nothing where it
/// does not occur.
pub proof fn lemma_position_of<V>(entries: Seq<(Seq<char>, V)>, key: Seq<char>)
    ensures
        match position_of(entries, key) {
            Some(i) => 0 <= i < entries.len() && entries[i].0 == key,
            None => forall|i: int| 0 <= i < entries.len() ==> (#[trigger] entries[i]).0 != key,
        },
    decreases entries.len(),
{
    if entries.len() > 0 && entries.last().0 != key {
        lemma_position_of(entries.drop_last(), key);
        match position_of(entries, key) {
            Some(i) => {},
            None => {
                assert forall|i: int| 0 <= i < entries.len() implies (#[trigger] entries[i]).0
                    != key by {
                    if i < entries.len() - 1 {
                        assert(entries.drop_last()[i] == entries[i]);
                    }
                }
            },
        }
    }
}

/// An insertion keeps the keys distinct.
pub proof fn lemma_upsert_distinct<V>(entries: Seq<(Seq<char>, V)>, key: Seq<char>, value: V)
    requires
        distinct_keys(entries),
    ensures
        distinct_keys(upsert(entries, key, value)),
        keys_of(upsert(entries, key, value)) == (if position_of(entries, key) is Some {
            keys_of(entries)
        } else {
            keys_of(entries).push(key)
        }),
{
    lemma_position_of(entries, key);
    let after = upsert(entries, key, value);
    match position_of(entries, key) {
        Some(p) => {
            assert(keys_of(after) =~= keys_of(entries));
            assert forall|i: int, j: int| 0 <= i < j < after.len() implies (#[trigger] after[i]).0
                != (#[trigger] after[j]).0 by {
                assert(after[i].0 == entries[i].0);
                assert(after[j].0 == entries[j].0);
            }
        },
        None => {
            assert(keys_of(after) =~= keys_of(entries).push(key));
            assert forall|i: int, j: int| 0 <= i < j < after.len() implies (#[trigger] after[i]).0
                != (#[trigger] after[j]).0 by {
                assert(after[i] == entries[i]);
                if j < entries.len() {
                    assert(after[j] == entries[j]);
                }
            }
        },
    }
}

/// An empty map from text to text.
///
/// Trusted: `IndexMap::new` makes a map without entries.
#[verifier::external_body]
pub(crate) fn pairs_new() -> (m: IndexMap<String, String>)
    ensures
        pairs_of(m) == Seq::<(Seq<char>, Seq<char>)>::empty(),
{
    IndexMap::new()
}

/// Stores `value` for `key`.
///
/// Trusted: `IndexMap::insert` updates the value of a key that is present,
/// which keeps its place in the order, and puts a new key last.
#[verifier::external_body]
pub(crate) fn pairs_insert(m: &mut IndexMap<String, String>, key: String, value: String)
    ensures
        pairs_of(*final(m)) == upsert(pairs_of(*old(m)), key@, value@),
{
    m.insert(key, value);
}

/// The value stored for `key`.
///
/// Trusted: `IndexMap::get` returns the stored value of a key that is
/// present, and nothing for another.
#[verifier::external_body]
pub(crate) fn pairs_get<'a>(m: &'a IndexMap<String, String>, key: &str) -> (r: Option<&'a String>)
    ensures
        match r {
            Some(v) => lookup(pairs_of(*m), key@) == Some(v@),
            None => lookup(pairs_of(*m), key@) is None,
        },
{
    m.get(key)
}

/// The entries in the map's order.
///
/// Trusted: `IndexMap::iter` walks the entries in the map's order; a map
/// holds each key once.
#[verifier::external_body]
pub(crate) fn pairs_entries(m: &IndexMap<String, String>) -> (r: Vec<(String, String)>)
    ensures
        r.deep_view() == pairs_of(*m),
        distinct_keys(r.deep_view()),
{
    m.iter().map(|(k, v)| (k.clone(), v.clone())).collect()
}

/// A copy of the map.
///
/// Trusted: the `Clone` impl of `IndexMap` copies the entries in their order.
#[verifier::external_body]
pub(crate) fn pairs_clone(m: &IndexMap<String, String>) -> (r: IndexMap<String, String>)
    ensures
        pairs_of(r) == pairs_of(*m),
{
    m.clone()
}

/// An empty map from text to lists of text.
///
/// Trusted: `IndexMap::new` makes a map without entries.
#[verifier::external_body]
pub(crate) fn lists_new() -> (m: IndexMap<String, Vec<String>>)
    ensures
        lists_of(m) == Seq::<(Seq<char>, Seq<Seq<char>>)>::empty(),
{
    IndexMap::new()
}

/// Stores `value` for `key`.
///
/// Trusted: `IndexMap::insert` updates the value of a key that is present,
/// which keeps its place in the order, and puts a new key last.
#[verifier::external_body]
pub(crate) fn lists_insert(m: &mut IndexMap<String, Vec<String>>, key: String, value: Vec<String>)
    ensures
        lists_of(*final(m)) == upsert(lists_of(*old(m)), key@, value.deep_view()),
{
    m.insert(key, value);
}

/// The entries in the map's order.
///
/// Trusted: `IndexMap::iter` walks the entries in the map's order; a map
/// holds each key once.
#[verifier::external_body]
pub(crate) fn lists_entries(m: &IndexMap<String, Vec<String>>) -> (r: Vec<(String, Vec<String>)>)
    ensures
        r.deep_view() == lists_of(*m),
        distinct_keys(r.deep_view()),
{
    m.iter().map(|(k, v)| (k.clone(), v.clone())).collect()
}

/// A copy of the map.
///
/// Trusted: the `Clone` impl of `IndexMap` copies the entries in their order.
#[verifier::external_body]
pub(crate) fn lists_clone(m: &IndexMap<String, Vec<String>>) -> (r: IndexMap<String, Vec<String>>)
    ensures
        lists_of(r) == lists_of(*m),
{
    m.clone()
}

/// The list stored for `key`.
///
/// Trusted: `IndexMap::get` returns the stored value of a key that is
/// present, and nothing for another.
#[verifier::external_body]
pub(crate) fn lists_get<'a>(m: &'a IndexMap<String, Vec<String>>, key: &str) -> (r: Option<
    &'a Vec<String>,
>)
    ensures
        match r {
            Some(v) => lookup(lists_of(*m), key@) == Some(v.deep_view()),
            None => lookup(lists_of(*m), key@) is None,
        },
{
    m.get(key)
}

/// An empty map from text to positions.
///
/// Trusted: `IndexMap::new` makes a map without entries.
#[verifier::external_body]
pub(crate) fn positions_new() -> (m: IndexMap<String, usize>)
    ensures
        positions_of(m) == Seq::<(Seq<char>, usize)>::empty(),
{
    IndexMap::new()
}

/// Stores `value` for `key`.
///
/// Trusted: `IndexMap::insert` updates the value of a key that is present,
/// which keeps its place in the order, and puts a new key last.
#[verifier::external_body]
pub(crate) fn positions_insert(m: &mut IndexMap<String, usize>, key: String, value: usize)
    ensures
        positions_of(*final(m)) == upsert(positions_of(*old(m)), key@, value),
{
    m.insert(key, value);
}

/// The position stored for `key`.
///
/// Trusted: `IndexMap::get` returns the stored value of a key that is
/// present, and nothing for another.
#[verifier::external_body]
pub(crate) fn positions_get(m: &IndexMap<String, usize>, key: &str) -> (r: Option<usize>)
    ensures
        r == lookup(positions_of(*m), key@),
{
    m.get(key).copied()
}

/// Finds a text among texts that were added one by one, each at its
/// position.
pub struct KeyIndex {
    map: IndexMap<String, usize>,
}

impl KeyIndex {
    /// The texts that were added, in order.
    pub closed spec fn keys(&self) -> Seq<Seq<char>> {
        keys_of(positions_of(self.map))
    }

    /// Every text is stored with its position, and none twice.
    pub closed spec fn wf(&self) -> bool {
        &&& distinct_keys(positions_of(self.map))
        &&& forall|i: int|
            0 <= i < positions_of(self.map).len() ==> (#[trigger] positions_of(self.map)[i]).1 == i
    }

    /// A well-formed index holds no text twice.
    pub proof fn lemma_keys_distinct(&self)
        requires
            self.wf(),
        ensures
            forall|i: int, j: int|
                0 <= i < j < self.keys().len() ==> self.keys()[i] != self.keys()[j],
    {
        let e = positions_of(self.map);
        assert forall|i: int, j: int| 0 <= i < j < self.keys().len() implies self.keys()[i]
            != self.keys()[j] by {
            assert(e[i].0 != e[j].0);
        }
    }

    pub fn new() -> (r: Self)
        ensures
            r.wf(),
            r.keys() == Seq::<Seq<char>>::empty(),
    {
        let r = KeyIndex { map: positions_new() };
        assert(r.keys() =~= Seq::<Seq<char>>::empty());
        r
    }

    /// Where `key` was added, if it was.
    pub fn position(&self, key: &str) -> (r: Option<usize>)
        requires
            self.wf(),
        ensures
            match r {
                Some(i) => i < self.keys().len() && self.keys()[i as int] == key@,
                None => !self.keys().contains(key@),
            },
    {
        proof {
            lemma_position_of(positions_of(self.map), key@);
        }
        positions_get(&self.map, key)
    }

    /// Adds `key`, which is new, at `position`, the number of texts so far.
    pub fn push(&mut self, key: String, position: usize)
        requires
            old(self).wf(),
            !old(self).keys().contains(key@),
            position == old(self).keys().len(),
        ensures
            final(self).wf(),
            final(self).keys() == old(self).keys().push(key@),
    {
        let ghost before = positions_of(self.map);
        proof {
            lemma_position_of(before, key@);
            if position_of(before, key@) is Some {
                let i = position_of(before, key@)->0;
                assert(old(self).keys()[i] == key@);
            }
            lemma_upsert_distinct(before, key@, position);
        }
        positions_insert(&mut self.map, key, position);
    }
}

} // verus!
