//! Interpreter version strings: dotted numbers, their order, and the
//! compatibility test that decides whether a child specification may narrow
//! the versions of its parent.

use vstd::prelude::*;
use crate::text::{chars_of, has_prefix, matches_at};

verus! {

/// The outcome of comparing two version strings.
#[derive(Clone, Copy, Debug, PartialEq, Eq, Structural)]
pub enum VersionOrder {
    Less,
    Equal,
    Greater,
}

pub open spec fn is_digit(c: char) -> bool {
    '0' <= c <= '9'
}

pub open spec fn digit_value(c: char) -> nat {
    (c as u32 - '0' as u32) as nat
}

/// The number that a string of decimal digits denotes.
pub open spec fn digits_value(s: Seq<char>) -> nat
    decreases s.len(),
{
    if s.len() == 0 {
        0
    } else {
        digits_value(s.drop_last()) * 10 + digit_value(s.last())
    }
}

pub open spec fn all_digits(s: Seq<char>) -> bool {
    forall|i: int| 0 <= i < s.len() ==> is_digit(#[trigger] s[i])
}

/// The digits of an unsigned number: the text without one leading `+`.
pub open spec fn unsigned_digits(s: Seq<char>) -> Seq<char> {
    if s.len() > 0 && s[0] == '+' {
        s.skip(1)
    } else {
        s
    }
}

/// What the text denotes as a 32-bit unsigned number: at least one decimal
/// digit after an optional `+`, no larger than `u32::MAX`.
pub open spec fn parse_u32(s: Seq<char>) -> Option<u32> {
    let d = unsigned_digits(s);
    if d.len() > 0 && all_digits(d) && digits_value(d) <= u32::MAX {
        Some(digits_value(d) as u32)
    } else {
        None
    }
}

/// The pieces of `s` between occurrences of `sep`; there is always one piece
/// more than there are separators.
pub open spec fn split_on(s: Seq<char>, sep: char) -> Seq<Seq<char>>
    decreases s.len(),
{
    if s.len() == 0 {
        seq![Seq::empty()]
    } else {
        let r = split_on(s.drop_last(), sep);
        if s.last() == sep {
            r.push(Seq::empty())
        } else {
            r.update(r.len() - 1, r.last().push(s.last()))
        }
    }
}

/// The numbers of the first `n` pieces, if each of them is a number.
pub open spec fn parsed_pieces(pieces: Seq<Seq<char>>, n: int) -> Option<Seq<u32>>
    decreases n,
{
    if n <= 0 || n > pieces.len() {
        Some(Seq::empty())
    } else {
        match (parsed_pieces(pieces, n - 1), parse_u32(pieces[n - 1])) {
            (Some(init), Some(x)) => Some(init.push(x)),
            _ => None,
        }
    }
}

/// The numeric components of a dotted version; the empty string has none, and
/// a string with a piece that is not a number is no dotted version.
pub open spec fn version_components(v: Seq<char>) -> Option<Seq<u32>> {
    if v.len() == 0 {
        Some(Seq::empty())
    } else {
        parsed_pieces(split_on(v, '.'), split_on(v, '.').len() as int)
    }
}

/// Component `i` of a version padded with zeros.
pub open spec fn component_or_zero(c: Seq<u32>, i: int) -> u32 {
    if 0 <= i < c.len() {
        c[i]
    } else {
        0
    }
}

/// Componentwise order of two versions from component `i` on, the shorter
/// one padded with zeros.
pub open spec fn components_order(l: Seq<u32>, r: Seq<u32>, i: int) -> VersionOrder
    decreases l.len() + r.len() - i,
{
    if i < 0 || (i >= l.len() && i >= r.len()) {
        VersionOrder::Equal
    } else if component_or_zero(l, i) < component_or_zero(r, i) {
        VersionOrder::Less
    } else if component_or_zero(l, i) > component_or_zero(r, i) {
        VersionOrder::Greater
    } else {
        components_order(l, r, i + 1)
    }
}

/// Order of two strings by their characters' code points, a proper prefix
/// coming first.
pub open spec fn text_order(l: Seq<char>, r: Seq<char>, i: int) -> VersionOrder
    decreases l.len() - i,
{
    if i < 0 || (i >= l.len() && i >= r.len()) {
        VersionOrder::Equal
    } else if i >= l.len() {
        VersionOrder::Less
    } else if i >= r.len() {
        VersionOrder::Greater
    } else if (l[i] as u32) < (r[i] as u32) {
        VersionOrder::Less
    } else if (l[i] as u32) > (r[i] as u32) {
        VersionOrder::Greater
    } else {
        text_order(l, r, i + 1)
    }
}

/// The order of two version strings: by components where both are dotted
/// numbers, by text otherwise.
#[verifier::opaque]
pub open spec fn version_order(l: Seq<char>, r: Seq<char>) -> VersionOrder {
    match (version_components(l), version_components(r)) {
        (Some(lc), Some(rc)) => components_order(lc, rc, 0),
        _ => text_order(l, r, 0),
    }
}

/// Whether two version selectors can overlap: an empty one overlaps with
/// everything, equal ones overlap, dotted numbers overlap where one is a
/// prefix of the other by components, and other texts where one is a prefix
/// of the other by characters.
pub open spec fn versions_compatible(parent: Seq<char>, child: Seq<char>) -> bool {
    if parent.len() == 0 || child.len() == 0 || parent == child {
        true
    } else {
        match (version_components(parent), version_components(child)) {
            (Some(p), Some(c)) => {
                let n = if p.len() <= c.len() {
                    p.len() as int
                } else {
                    c.len() as int
                };
                p.take(n) == c.take(n)
            },
            _ => has_prefix(parent, child) || has_prefix(child, parent),
        }
    }
}

proof fn lemma_digits_value_grows(s: Seq<char>, k: int)
    requires
        0 <= k <= s.len(),
    ensures
        digits_value(s.take(k)) <= digits_value(s),
    decreases s.len() - k,
{
    if k == s.len() {
        assert(s.take(k) =~= s);
    } else {
        lemma_digits_value_grows(s, k + 1);
        assert(s.take(k + 1).drop_last() =~= s.take(k));
    }
}

/// Reads the characters `v[from..to]` as a 32-bit unsigned number.
pub fn parse_number(v: &Vec<char>, from: usize, to: usize) -> (r: Option<u32>)
    requires
        from <= to <= v.len(),
    ensures
        r == parse_u32(v@.subrange(from as int, to as int)),
{
    let ghost s = v@.subrange(from as int, to as int);
    if from == to {
        return None;
    }
    let start: usize = if v[from] == '+' {
        from + 1
    } else {
        from
    };
    let ghost d = unsigned_digits(s);
    assert(d =~= v@.subrange(start as int, to as int));
    if start == to {
        return None;
    }
    let mut acc: u64 = 0;
    let mut i: usize = start;
    while i < to
        invariant
            start <= i <= to <= v.len(),
            d == v@.subrange(start as int, to as int),
            d == unsigned_digits(v@.subrange(from as int, to as int)),
            d.len() > 0,
            acc == digits_value(d.take(i - start)),
            acc <= u32::MAX,
            forall|j: int| 0 <= j < i - start ==> is_digit(#[trigger] d[j]),
        decreases to - i,
    {
        let c = v[i];
        if c < '0' || c > '9' {
            assert(!is_digit(d[i - start]));
            return None;
        }
        let digit: u64 = (c as u32 - '0' as u32) as u64;
        let next: u64 = acc * 10 + digit;
        proof {
            assert(d.take(i - start + 1).drop_last() =~= d.take(i - start));
            assert(d.take(i - start + 1).last() == c);
            assert(next == digits_value(d.take(i - start + 1)));
        }
        if next > 0xffff_ffff {
            proof {
                lemma_digits_value_grows(d, i - start + 1);
            }
            return None;
        }
        acc = next;
        i = i + 1;
    }
    assert(d.take(to - start) =~= d);
    Some(acc as u32)
}

/// Where the pieces of `v` between occurrences of `sep` begin and end.
pub fn split_positions(v: &Vec<char>, sep: char) -> (r: Vec<(usize, usize)>)
    ensures
        r.len() == split_on(v@, sep).len(),
        forall|k: int|
            0 <= k < r.len() ==> (#[trigger] r[k]).0 <= r[k].1 <= v.len() && split_on(v@, sep)[k]
                == v@.subrange(r[k].0 as int, r[k].1 as int),
{
    let mut done: Vec<(usize, usize)> = Vec::new();
    let mut start: usize = 0;
    let mut i: usize = 0;
    assert(v@.take(0) =~= Seq::<char>::empty());
    assert(v@.subrange(0, 0) =~= Seq::<char>::empty());
    while i < v.len()
        invariant
            start <= i <= v.len(),
            split_on(v@.take(i as int), sep).len() == done.len() + 1,
            split_on(v@.take(i as int), sep).last() == v@.subrange(start as int, i as int),
            forall|k: int|
                0 <= k < done.len() ==> (#[trigger] done[k]).0 <= done[k].1 <= v.len() && split_on(
                    v@.take(i as int),
                    sep,
                )[k] == v@.subrange(done[k].0 as int, done[k].1 as int),
        decreases v.len() - i,
    {
        proof {
            assert(v@.take(i + 1).drop_last() =~= v@.take(i as int));
        }
        if v[i] == sep {
            done.push((start, i));
            start = i + 1;
            assert(v@.subrange(start as int, start as int) =~= Seq::<char>::empty());
        } else {
            assert(v@.subrange(start as int, i + 1) =~= v@.subrange(start as int, i as int).push(
                v@[i as int],
            ));
        }
        i = i + 1;
    }
    assert(v@.take(v.len() as int) =~= v@);
    done.push((start, v.len()));
    done
}

/// The numeric components of a dotted version.
pub fn parse_version_components(version: &str) -> (r: Option<Vec<u32>>)
    ensures
        match r {
            Some(c) => version_components(version@) == Some(c@),
            None => version_components(version@) is None,
        },
{
    let v = chars_of(version);
    if v.len() == 0 {
        return Some(Vec::new());
    }
    let pieces = split_positions(&v, '.');
    let ghost all = split_on(v@, '.');
    let mut components: Vec<u32> = Vec::new();
    let mut k: usize = 0;
    while k < pieces.len()
        invariant
            k <= pieces.len(),
            v@ == version@,
            v.len() > 0,
            all == split_on(v@, '.'),
            pieces.len() == all.len(),
            forall|j: int|
                0 <= j < pieces.len() ==> (#[trigger] pieces[j]).0 <= pieces[j].1 <= v.len()
                    && all[j] == v@.subrange(pieces[j].0 as int, pieces[j].1 as int),
            parsed_pieces(all, k as int) == Some(components@),
        decreases pieces.len() - k,
    {
        let (from, to) = pieces[k];
        match parse_number(&v, from, to) {
            Some(x) => {
                components.push(x);
            },
            None => {
                proof {
                    lemma_parsed_none_extends(all, k + 1, all.len() as int);
                }
                return None;
            },
        }
        k = k + 1;
    }
    Some(components)
}

/// A piece that is no number makes the whole version no dotted number.
proof fn lemma_parsed_none_extends(p: Seq<Seq<char>>, n: int, m: int)
    requires
        1 <= n <= m <= p.len(),
        parse_u32(p[n - 1]) is None,
    ensures
        parsed_pieces(p, m) is None,
    decreases m - n,
{
    if m > n {
        lemma_parsed_none_extends(p, n, m - 1);
    }
}

/// The order of two version strings.
pub fn compare_versions(lhs: &str, rhs: &str) -> (r: VersionOrder)
    ensures
        r == version_order(lhs@, rhs@),
{
    reveal(version_order);
    match (parse_version_components(lhs), parse_version_components(rhs)) {
        (Some(left), Some(right)) => {
            let mut i: usize = 0;
            while i < left.len() || i < right.len()
                invariant
                    version_order(lhs@, rhs@) == components_order(left@, right@, 0),
                    components_order(left@, right@, 0) == components_order(left@, right@, i as int),
                decreases left.len() + right.len() - i,
            {
                let l: u32 = if i < left.len() {
                    left[i]
                } else {
                    0
                };
                let r: u32 = if i < right.len() {
                    right[i]
                } else {
                    0
                };
                if l < r {
                    return VersionOrder::Less;
                }
                if l > r {
                    return VersionOrder::Greater;
                }
                i = i + 1;
            }
            VersionOrder::Equal
        },
        _ => compare_texts(lhs, rhs),
    }
}

/// Whether two version selectors can overlap.
pub fn python_versions_compatible(parent: &str, child: &str) -> (r: bool)
    ensures
        r == versions_compatible(parent@, child@),
{
    if parent.is_empty() || child.is_empty() {
        return true;
    }
    if crate::text::str_equal(parent, child) {
        return true;
    }
    match (parse_version_components(parent), parse_version_components(child)) {
        (Some(p), Some(c)) => {
            let n: usize = if p.len() <= c.len() {
                p.len()
            } else {
                c.len()
            };
            let mut i: usize = 0;
            while i < n
                invariant
                    i <= n,
                    n <= p.len(),
                    n <= c.len(),
                    versions_compatible(parent@, child@) == (p@.take(n as int) == c@.take(
                        n as int,
                    )),
                    p@.take(i as int) == c@.take(i as int),
                decreases n - i,
            {
                if p[i] != c[i] {
                    assert(p@.take(n as int)[i as int] != c@.take(n as int)[i as int]);
                    return false;
                }
                i = i + 1;
                assert(p@.take(i as int) =~= p@.take(i - 1).push(p@[i - 1]));
                assert(c@.take(i as int) =~= c@.take(i - 1).push(c@[i - 1]));
            }
            true
        },
        _ => {
            let pv = chars_of(parent);
            let cv = chars_of(child);
            matches_at(&pv, &cv, 0) || matches_at(&cv, &pv, 0)
        },
    }
}

/// The texts of `s` that are not empty, in their order.
pub open spec fn without_empty(s: Seq<Seq<char>>) -> Seq<Seq<char>>
    decreases s.len(),
{
    if s.len() == 0 {
        Seq::empty()
    } else if s.last().len() == 0 {
        without_empty(s.drop_last())
    } else {
        without_empty(s.drop_last()).push(s.last())
    }
}

/// `x` placed into `sorted` behind every element that does not come after it.
pub open spec fn insert_version(sorted: Seq<Seq<char>>, x: Seq<char>) -> Seq<Seq<char>>
    decreases sorted.len(),
{
    if sorted.len() > 0 && version_order(sorted.last(), x) == VersionOrder::Greater {
        insert_version(sorted.drop_last(), x).push(sorted.last())
    } else {
        sorted.push(x)
    }
}

/// The versions of `s` placed one after another by `insert_version`: sorted
/// by `version_order`, equal ones in their first order.
pub open spec fn sorted_versions(s: Seq<Seq<char>>) -> Seq<Seq<char>>
    decreases s.len(),
{
    if s.len() == 0 {
        Seq::empty()
    } else {
        insert_version(sorted_versions(s.drop_last()), s.last())
    }
}

/// `s` without the elements that repeat their left neighbour.
pub open spec fn without_repeats(s: Seq<Seq<char>>) -> Seq<Seq<char>>
    decreases s.len(),
{
    if s.len() <= 1 {
        s
    } else if s.last() == s[s.len() - 2] {
        without_repeats(s.drop_last())
    } else {
        without_repeats(s.drop_last()).push(s.last())
    }
}

/// What `normalize_pys` makes of a list of versions.
pub open spec fn normalized_versions(s: Seq<Seq<char>>) -> Seq<Seq<char>> {
    without_repeats(sorted_versions(without_empty(s)))
}

proof fn lemma_insert_at(sorted: Seq<Seq<char>>, x: Seq<char>, p: int)
    requires
        0 <= p <= sorted.len(),
        forall|j: int| p <= j < sorted.len() ==> version_order(#[trigger] sorted[j], x)
            == VersionOrder::Greater,
        p > 0 ==> version_order(sorted[p - 1], x) != VersionOrder::Greater,
    ensures
        insert_version(sorted, x) == sorted.insert(p, x),
    decreases sorted.len() - p,
{
    if p == sorted.len() {
        assert(sorted.insert(p, x) =~= sorted.push(x));
    } else {
        lemma_insert_at(sorted.drop_last(), x, p);
        assert(sorted.insert(p, x) =~= sorted.drop_last().insert(p, x).push(sorted.last()));
    }
}

/// Drops empty versions, sorts the rest and drops repeated neighbours.
pub fn normalize_pys(versions: Vec<String>) -> (r: Vec<String>)
    ensures
        r.deep_view() == normalized_versions(versions.deep_view()),
{
    let mut sorted: Vec<String> = Vec::new();
    let mut i: usize = 0;
    assert(versions.deep_view().take(0) =~= Seq::<Seq<char>>::empty());
    assert(sorted.deep_view() =~= Seq::<Seq<char>>::empty());
    while i < versions.len()
        invariant
            i <= versions.len(),
            sorted.deep_view() == sorted_versions(
                without_empty(versions.deep_view().take(i as int)),
            ),
        decreases versions.len() - i,
    {
        let ghost before = sorted.deep_view();
        proof {
            assert(versions.deep_view().take(i + 1).drop_last() =~= versions.deep_view().take(
                i as int,
            ));
            assert(versions.deep_view().take(i + 1).last() == versions[i as int]@);
        }
        if !versions[i].as_str().is_empty() {
            let x = versions[i].clone();
            let mut p: usize = sorted.len();
            while p > 0 && compare_versions(sorted[p - 1].as_str(), x.as_str())
                == VersionOrder::Greater
                invariant
                    p <= sorted.len(),
                    sorted.deep_view() == before,
                    forall|j: int|
                        p <= j < sorted.len() ==> version_order(
                            #[trigger] sorted.deep_view()[j],
                            x@,
                        ) == VersionOrder::Greater,
                decreases p,
            {
                p = p - 1;
            }
            proof {
                assert(p > 0 ==> before[p - 1] == sorted[p - 1]@);
                lemma_insert_at(before, x@, p as int);
                let we = without_empty(versions.deep_view().take(i as int));
                assert(we.push(x@).drop_last() =~= we);
                assert(without_empty(versions.deep_view().take(i + 1)) == we.push(x@));
            }
            sorted.insert(p, x);
            assert(sorted.deep_view() =~= before.insert(p as int, x@));
        }
        i = i + 1;
    }
    assert(versions.deep_view().take(versions.len() as int) =~= versions.deep_view());
    let mut out: Vec<String> = Vec::new();
    let mut k: usize = 0;
    assert(sorted.deep_view().take(0) =~= Seq::<Seq<char>>::empty());
    assert(out.deep_view() =~= Seq::<Seq<char>>::empty());
    while k < sorted.len()
        invariant
            k <= sorted.len(),
            out.deep_view() == without_repeats(sorted.deep_view().take(k as int)),
        decreases sorted.len() - k,
    {
        let ghost before = out.deep_view();
        proof {
            let t = sorted.deep_view().take(k + 1);
            assert(t.drop_last() =~= sorted.deep_view().take(k as int));
            assert(t.last() == sorted[k as int]@);
            if k > 0 {
                assert(t[t.len() - 2] == sorted[k - 1]@);
            }
        }
        if k == 0 || !crate::text::str_equal(sorted[k].as_str(), sorted[k - 1].as_str()) {
            out.push(sorted[k].clone());
            assert(out.deep_view() =~= before.push(sorted[k as int]@));
        }
        k = k + 1;
    }
    assert(sorted.deep_view().take(sorted.len() as int) =~= sorted.deep_view());
    out
}

/// `s` without the elements that occurred before.
pub open spec fn first_occurrences(s: Seq<Seq<char>>) -> Seq<Seq<char>>
    decreases s.len(),
{
    if s.len() == 0 {
        Seq::empty()
    } else if s.drop_last().contains(s.last()) {
        first_occurrences(s.drop_last())
    } else {
        first_occurrences(s.drop_last()).push(s.last())
    }
}

/// Sorts versions by `version_order`, equal ones in their first order.
pub fn sort_versions(versions: &Vec<String>) -> (r: Vec<String>)
    ensures
        r.deep_view() == sorted_versions(versions.deep_view()),
{
    let mut sorted: Vec<String> = Vec::new();
    let mut i: usize = 0;
    assert(versions.deep_view().take(0) =~= Seq::<Seq<char>>::empty());
    assert(sorted.deep_view() =~= Seq::<Seq<char>>::empty());
    while i < versions.len()
        invariant
            i <= versions.len(),
            sorted.deep_view() == sorted_versions(versions.deep_view().take(i as int)),
        decreases versions.len() - i,
    {
        let ghost before = sorted.deep_view();
        proof {
            assert(versions.deep_view().take(i + 1).drop_last() =~= versions.deep_view().take(
                i as int,
            ));
            assert(versions.deep_view().take(i + 1).last() == versions[i as int]@);
        }
        let x = versions[i].clone();
        let mut p: usize = sorted.len();
        while p > 0 && compare_versions(sorted[p - 1].as_str(), x.as_str())
            == VersionOrder::Greater
            invariant
                p <= sorted.len(),
                sorted.deep_view() == before,
                forall|j: int|
                    p <= j < sorted.len() ==> version_order(#[trigger] sorted.deep_view()[j], x@)
                        == VersionOrder::Greater,
            decreases p,
        {
            p = p - 1;
        }
        proof {
            assert(p > 0 ==> before[p - 1] == sorted[p - 1]@);
            lemma_insert_at(before, x@, p as int);
        }
        sorted.insert(p, x);
        assert(sorted.deep_view() =~= before.insert(p as int, x@));
        i = i + 1;
    }
    assert(versions.deep_view().take(versions.len() as int) =~= versions.deep_view());
    sorted
}

/// The order of two texts by the code points of their characters.
pub fn compare_texts(lhs: &str, rhs: &str) -> (r: VersionOrder)
    ensures
        r == text_order(lhs@, rhs@, 0),
{
    let left = chars_of(lhs);
    let right = chars_of(rhs);
    let mut i: usize = 0;
    while i < left.len() && i < right.len()
        invariant
            left@ == lhs@,
            right@ == rhs@,
            text_order(left@, right@, 0) == text_order(left@, right@, i as int),
        decreases left.len() - i,
    {
        let l: u32 = left[i] as u32;
        let r: u32 = right[i] as u32;
        if l < r {
            return VersionOrder::Less;
        }
        if l > r {
            return VersionOrder::Greater;
        }
        i = i + 1;
    }
    if i < right.len() {
        VersionOrder::Less
    } else if i < left.len() {
        VersionOrder::Greater
    } else {
        VersionOrder::Equal
    }
}

/// The places of the first `n` texts in the order of the texts: `x`, the
/// place of a text, goes behind every place whose text does not come after
/// it.
pub open spec fn insert_place(keys: Seq<Seq<char>>, sorted: Seq<usize>, x: usize) -> Seq<usize>
    decreases sorted.len(),
{
    if sorted.len() > 0 && text_order(keys[sorted.last() as int], keys[x as int], 0)
        == VersionOrder::Greater {
        insert_place(keys, sorted.drop_last(), x).push(sorted.last())
    } else {
        sorted.push(x)
    }
}

/// The places of the first `n` texts, sorted by their texts; the places of
/// equal texts keep their order.
pub open spec fn sorted_places(keys: Seq<Seq<char>>, n: int) -> Seq<usize>
    decreases n,
{
    if n <= 0 {
        Seq::empty()
    } else {
        insert_place(keys, sorted_places(keys, n - 1), (n - 1) as usize)
    }
}

proof fn lemma_insert_place_at(keys: Seq<Seq<char>>, sorted: Seq<usize>, x: usize, p: int)
    requires
        0 <= p <= sorted.len(),
        forall|j: int|
            p <= j < sorted.len() ==> text_order(keys[(#[trigger] sorted[j]) as int], keys[x as int], 0)
                == VersionOrder::Greater,
        p > 0 ==> text_order(keys[sorted[p - 1] as int], keys[x as int], 0)
            != VersionOrder::Greater,
    ensures
        insert_place(keys, sorted, x) == sorted.insert(p, x),
    decreases sorted.len() - p,
{
    if p == sorted.len() {
        assert(sorted.insert(p, x) =~= sorted.push(x));
    } else {
        lemma_insert_place_at(keys, sorted.drop_last(), x, p);
        assert(sorted.insert(p, x) =~= sorted.drop_last().insert(p, x).push(sorted.last()));
    }
}

/// The places of the texts, sorted by their texts: every place once, the
/// places of equal texts in their own order.
pub fn sorted_order(keys: &Vec<String>) -> (r: Vec<usize>)
    ensures
        r@ == sorted_places(keys.deep_view(), keys.len() as int),
        r.len() == keys.len(),
        forall|k: int| 0 <= k < r.len() ==> (#[trigger] r[k]) < keys.len(),
        in_text_order(keys.deep_view(), r@),
        r@.to_multiset() == places_below(keys.len() as int).to_multiset(),
{
    let ghost all = keys.deep_view();
    let mut sorted: Vec<usize> = Vec::new();
    let mut i: usize = 0;
    while i < keys.len()
        invariant
            i <= keys.len(),
            all == keys.deep_view(),
            sorted@ == sorted_places(all, i as int),
            sorted.len() == i,
            forall|k: int| 0 <= k < sorted.len() ==> (#[trigger] sorted[k]) < keys.len(),
        decreases keys.len() - i,
    {
        let ghost before = sorted@;
        let mut p: usize = sorted.len();
        while p > 0 && compare_texts(keys[sorted[p - 1]].as_str(), keys[i].as_str())
            == VersionOrder::Greater
            invariant
                p <= sorted.len(),
                i < keys.len(),
                all == keys.deep_view(),
                sorted@ == before,
                forall|k: int| 0 <= k < sorted.len() ==> (#[trigger] sorted[k]) < keys.len(),
                forall|j: int|
                    p <= j < sorted.len() ==> text_order(
                        all[(#[trigger] sorted[j]) as int],
                        all[i as int],
                        0,
                    ) == VersionOrder::Greater,
            decreases p,
        {
            p = p - 1;
        }
        proof {
            lemma_insert_place_at(all, before, i, p as int);
        }
        sorted.insert(p, i);
        i = i + 1;
    }
    proof {
        lemma_sorted_places(all, keys.len() as int);
    }
    sorted
}

/// The order of texts is transitive.
pub proof fn lemma_text_order_transitive(a: Seq<char>, b: Seq<char>, c: Seq<char>, i: int)
    requires
        0 <= i,
        text_order(a, b, i) != VersionOrder::Greater,
        text_order(b, c, i) != VersionOrder::Greater,
    ensures
        text_order(a, c, i) != VersionOrder::Greater,
    decreases a.len() - i,
{
    if i < a.len() && i < b.len() && i < c.len() {
        if (a[i] as u32) == (b[i] as u32) && (b[i] as u32) == (c[i] as u32) {
            lemma_text_order_transitive(a, b, c, i + 1);
        }
    }
}

/// Every text is equal to itself in the order of texts.
pub proof fn lemma_text_order_reflexive(a: Seq<char>, i: int)
    requires
        0 <= i,
    ensures
        text_order(a, a, i) == VersionOrder::Equal,
    decreases a.len() - i,
{
    if i < a.len() {
        lemma_text_order_reflexive(a, i + 1);
    }
}

/// A text comes after another exactly where the other comes before it.
pub proof fn lemma_text_order_converse(a: Seq<char>, b: Seq<char>, i: int)
    requires
        0 <= i,
    ensures
        text_order(a, b, i) == VersionOrder::Greater <==> text_order(b, a, i)
            == VersionOrder::Less,
    decreases a.len() + b.len() - i,
{
    if i < a.len() && i < b.len() && (a[i] as u32) == (b[i] as u32) {
        lemma_text_order_converse(a, b, i + 1);
    }
}

/// The places stand in the order of their texts.
pub open spec fn in_text_order(keys: Seq<Seq<char>>, places: Seq<usize>) -> bool {
    forall|a: int, b: int|
        #![trigger places[a], places[b]]
        0 <= a < b < places.len() ==> text_order(
            keys[places[a] as int],
            keys[places[b] as int],
            0,
        ) != VersionOrder::Greater
}

proof fn lemma_insert_place(keys: Seq<Seq<char>>, sorted: Seq<usize>, x: usize)
    requires
        in_text_order(keys, sorted),
    ensures
        in_text_order(keys, insert_place(keys, sorted, x)),
        insert_place(keys, sorted, x).to_multiset() == sorted.to_multiset().insert(x),
    decreases sorted.len(),
{
    broadcast use vstd::multiset::group_multiset_axioms;

    let r = insert_place(keys, sorted, x);
    if sorted.len() > 0 && text_order(keys[sorted.last() as int], keys[x as int], 0)
        == VersionOrder::Greater {
        let init = sorted.drop_last();
        let last = sorted.last();
        assert(sorted =~= init.push(last));
        assert forall|a: int, b: int|
            #![trigger init[a], init[b]]
            0 <= a < b < init.len() implies text_order(
            keys[init[a] as int],
            keys[init[b] as int],
            0,
        ) != VersionOrder::Greater by {
            assert(init[a] == sorted[a] && init[b] == sorted[b]);
        }
        lemma_insert_place(keys, init, x);
        let inner = insert_place(keys, init, x);
        assert(r == inner.push(last));
        vstd::seq_lib::to_multiset_build(inner, last);
        vstd::seq_lib::to_multiset_build(init, last);
        assert(r.to_multiset() =~= sorted.to_multiset().insert(x));
        lemma_text_order_converse(keys[last as int], keys[x as int], 0);
        inner.to_multiset_ensures();
        init.to_multiset_ensures();
        assert forall|a: int, b: int|
            #![trigger r[a], r[b]]
            0 <= a < b < r.len() implies text_order(keys[r[a] as int], keys[r[b] as int], 0)
            != VersionOrder::Greater by {
            if b < inner.len() {
                assert(r[a] == inner[a] && r[b] == inner[b]);
            } else {
                assert(r[b] == last);
                assert(r[a] == inner[a]);
                let y = inner[a];
                assert(inner.contains(y));
                assert(inner.to_multiset().count(y) > 0);
                if y != x {
                    assert(init.to_multiset().count(y) > 0);
                    assert(init.contains(y));
                    let j = choose|j: int| 0 <= j < init.len() && init[j] == y;
                    assert(sorted[j] == init[j]);
                    assert(sorted[sorted.len() - 1] == last);
                }
            }
        }
    } else {
        assert(r == sorted.push(x));
        vstd::seq_lib::to_multiset_build(sorted, x);
        assert forall|a: int, b: int|
            #![trigger r[a], r[b]]
            0 <= a < b < r.len() implies text_order(keys[r[a] as int], keys[r[b] as int], 0)
            != VersionOrder::Greater by {
            if b < sorted.len() {
                assert(r[a] == sorted[a] && r[b] == sorted[b]);
            } else {
                assert(r[a] == sorted[a]);
                let top = sorted[sorted.len() - 1];
                lemma_text_order_reflexive(keys[top as int], 0);
                if a < sorted.len() - 1 {
                    assert(text_order(keys[sorted[a] as int], keys[top as int], 0)
                        != VersionOrder::Greater);
                }
                lemma_text_order_transitive(
                    keys[sorted[a] as int],
                    keys[top as int],
                    keys[x as int],
                    0,
                );
            }
        }
    }
}

/// The places below `n`, in their own order.
pub open spec fn places_below(n: int) -> Seq<usize> {
    Seq::new(n as nat, |i: int| i as usize)
}

/// The places that `sorted_places` gives stand in the order of their
/// texts, and they are the places below `n`, each once.
pub proof fn lemma_sorted_places(keys: Seq<Seq<char>>, n: int)
    requires
        0 <= n <= usize::MAX,
    ensures
        in_text_order(keys, sorted_places(keys, n)),
        sorted_places(keys, n).to_multiset() == places_below(n).to_multiset(),
    decreases n,
{
    if n > 0 {
        lemma_sorted_places(keys, n - 1);
        lemma_insert_place(keys, sorted_places(keys, n - 1), (n - 1) as usize);
        assert(places_below(n) =~= places_below(n - 1).push((n - 1) as usize));
        vstd::seq_lib::to_multiset_build(places_below(n - 1), (n - 1) as usize);
    } else {
        assert(sorted_places(keys, n) =~= places_below(n));
    }
}

/// The pieces of a text hold no separator, and with the separator put
/// between them again they make the text.
pub proof fn lemma_split_joins(s: Seq<char>, sep: char)
    ensures
        split_on(s, sep).len() >= 1,
        forall|k: int|
            0 <= k < split_on(s, sep).len() ==> !(#[trigger] split_on(s, sep)[k]).contains(sep),
        crate::text::joined(split_on(s, sep), seq![sep]) == s,
    decreases s.len(),
{
    let pieces = split_on(s, sep);
    if s.len() == 0 {
        assert(pieces[0] =~= Seq::<char>::empty());
        assert(crate::text::joined(pieces, seq![sep]) =~= s);
    } else {
        let init = s.drop_last();
        let r = split_on(init, sep);
        lemma_split_joins(init, sep);
        assert(s =~= init.push(s.last()));
        if s.last() == sep {
            assert(pieces == r.push(Seq::empty()));
            assert(pieces.drop_last() =~= r);
            assert(crate::text::joined(pieces, seq![sep]) =~= s);
            assert forall|k: int| 0 <= k < pieces.len() implies !(#[trigger] pieces[k]).contains(
                sep,
            ) by {
                if k < r.len() {
                    assert(pieces[k] == r[k]);
                }
            }
        } else {
            let grown = r.last().push(s.last());
            assert(pieces == r.update(r.len() - 1, grown));
            assert(pieces.drop_last() =~= r.drop_last());
            assert(pieces.last() == grown);
            if r.len() == 1 {
                assert(crate::text::joined(r, seq![sep]) == r[0]);
                assert(crate::text::joined(pieces, seq![sep]) =~= s);
            } else {
                assert(crate::text::joined(r, seq![sep]) == crate::text::joined(
                    r.drop_last(),
                    seq![sep],
                ) + seq![sep] + r.last());
                assert(crate::text::joined(pieces, seq![sep]) =~= s);
            }
            assert forall|k: int| 0 <= k < pieces.len() implies !(#[trigger] pieces[k]).contains(
                sep,
            ) by {
                if k < r.len() - 1 {
                    assert(pieces[k] == r[k]);
                } else {
                    assert(!r.last().contains(sep));
                    if grown.contains(sep) {
                        let t = choose|t: int| 0 <= t < grown.len() && grown[t] == sep;
                        if t < r.last().len() {
                            assert(r.last()[t] == sep);
                        }
                    }
                }
            }
        }
    }
}

} // verus!
