//! The tree of environment specifications and the state that a descent
//! through it accumulates.

use vstd::prelude::*;
use indexmap::IndexMap;
use crate::ordered_map::{
    distinct_keys, lemma_upsert_distinct, lists_clone, lists_entries, lists_insert, lists_new,
    lists_of, upsert, KeyIndex,
};
use crate::version::{
    first_occurrences, normalize_pys, normalized_versions, python_versions_compatible,
    versions_compatible,
};

verus! {

/// Lists of variants by key, in the order of the keys.
pub type Variants = Seq<(Seq<char>, Seq<Seq<char>>)>;

/// One node of the specification tree. What a node leaves unset it has from
/// its parent.
pub struct PyVenv {
    pub name: Option<String>,
    pub command: Option<String>,
    pub pys: Vec<String>,
    pub pkgs: IndexMap<String, Vec<String>>,
    pub env: IndexMap<String, Vec<String>>,
    pub create: Option<bool>,
    pub skip_dev_install: Option<bool>,
    pub venvs: Vec<PyVenv>,
}

/// What a descent from the root to a node has accumulated.
pub struct ResolvedSpec {
    pub name: Option<String>,
    pub command: Option<String>,
    pub pys: Option<Vec<String>>,
    pub pkgs: IndexMap<String, Vec<String>>,
    pub env: IndexMap<String, Vec<String>>,
    pub create: bool,
    pub skip_dev_install: bool,
}

/// The accumulated state as plain values.
pub struct ResolvedSpecView {
    pub name: Option<Seq<char>>,
    pub command: Option<Seq<char>>,
    pub pys: Option<Seq<Seq<char>>>,
    pub pkgs: Variants,
    pub env: Variants,
    pub create: bool,
    pub skip_dev_install: bool,
}

pub open spec fn text_of(s: Option<String>) -> Option<Seq<char>> {
    match s {
        Some(t) => Some(t@),
        None => None,
    }
}

impl View for ResolvedSpec {
    type V = ResolvedSpecView;

    open spec fn view(&self) -> ResolvedSpecView {
        ResolvedSpecView {
            name: text_of(self.name),
            command: text_of(self.command),
            pys: match self.pys {
                Some(p) => Some(p.deep_view()),
                None => None,
            },
            pkgs: lists_of(self.pkgs),
            env: lists_of(self.env),
            create: self.create,
            skip_dev_install: self.skip_dev_install,
        }
    }
}

/// The state before the root: nothing is set.
pub open spec fn initial_state() -> ResolvedSpecView {
    ResolvedSpecView {
        name: None,
        command: None,
        pys: None,
        pkgs: Seq::empty(),
        env: Seq::empty(),
        create: false,
        skip_dev_install: false,
    }
}

/// The lists of `base` after the first `n` entries of `over` were laid over
/// them: an entry with variants replaces the whole list of its key, or is
/// added; an entry without variants changes nothing.
pub open spec fn overlaid(base: Variants, over: Variants, n: int) -> Variants
    decreases n,
{
    if n <= 0 {
        base
    } else {
        let prev = overlaid(base, over, n - 1);
        if over[n - 1].1.len() > 0 {
            upsert(prev, over[n - 1].0, over[n - 1].1)
        } else {
            prev
        }
    }
}

/// Whether some version of the child can overlap with some version of the
/// parent.
pub open spec fn any_compatible(parents: Seq<Seq<char>>, children: Seq<Seq<char>>) -> bool {
    exists|i: int, j: int|
        0 <= i < children.len() && 0 <= j < parents.len() && versions_compatible(
            #[trigger] parents[j],
            #[trigger] children[i],
        )
}

/// Whether the version can overlap with some version of the parent.
pub open spec fn compatible_with_some(parents: Seq<Seq<char>>, child: Seq<char>) -> bool {
    exists|j: int| 0 <= j < parents.len() && versions_compatible(#[trigger] parents[j], child)
}

/// Those of the first `n` versions of the child that can overlap with some
/// version of the parent, in the child's order.
pub open spec fn narrowed(parents: Seq<Seq<char>>, children: Seq<Seq<char>>, n: int) -> Seq<
    Seq<char>,
>
    decreases n,
{
    if n <= 0 {
        Seq::empty()
    } else if compatible_with_some(parents, children[n - 1]) {
        narrowed(parents, children, n - 1).push(children[n - 1])
    } else {
        narrowed(parents, children, n - 1)
    }
}

/// The versions after a node. A node that names none has those of its
/// parent. A node that names versions has its own where its parent has
/// none; below a parent with versions it has those of its own that can
/// overlap with some version of the parent.
pub open spec fn merged_pys(state: ResolvedSpecView, node: PyVenv) -> Option<Seq<Seq<char>>> {
    if node.pys.len() > 0 {
        match state.pys {
            Some(parents) => Some(
                narrowed(parents, node.pys.deep_view(), node.pys.len() as int),
            ),
            None => Some(node.pys.deep_view()),
        }
    } else {
        state.pys
    }
}

/// Whether the node's branch is cut: no version is left.
pub open spec fn pruned(state: ResolvedSpecView, node: PyVenv) -> bool {
    merged_pys(state, node) matches Some(p) && p.len() == 0
}

/// Where no version of the child can overlap with a version of the parent,
/// none is left.
pub proof fn lemma_narrowed_to_nothing(parents: Seq<Seq<char>>, children: Seq<Seq<char>>, n: int)
    requires
        0 <= n <= children.len(),
        !any_compatible(parents, children),
    ensures
        narrowed(parents, children, n).len() == 0,
    decreases n,
{
    if n > 0 {
        lemma_narrowed_to_nothing(parents, children, n - 1);
        if compatible_with_some(parents, children[n - 1]) {
            let j = choose|j: int|
                0 <= j < parents.len() && versions_compatible(#[trigger] parents[j], children[n - 1]);
            assert(versions_compatible(parents[j], children[n - 1]));
        }
    }
}

/// What is left of the child's versions are versions of the child, each of
/// which can overlap with some version of the parent.
pub proof fn lemma_narrowed_members(parents: Seq<Seq<char>>, children: Seq<Seq<char>>, n: int)
    requires
        0 <= n <= children.len(),
    ensures
        forall|k: int|
            0 <= k < narrowed(parents, children, n).len() ==> children.contains(
                #[trigger] narrowed(parents, children, n)[k],
            ) && compatible_with_some(parents, narrowed(parents, children, n)[k]),
    decreases n,
{
    if n > 0 {
        lemma_narrowed_members(parents, children, n - 1);
        let prev = narrowed(parents, children, n - 1);
        let now = narrowed(parents, children, n);
        assert forall|k: int| 0 <= k < now.len() implies children.contains(#[trigger] now[k])
            && compatible_with_some(parents, now[k]) by {
            if k < prev.len() {
                assert(now[k] == prev[k]);
            } else {
                assert(now[k] == children[n - 1]);
            }
        }
    }
}

/// The state below a node, unless the node's branch is cut. Names, commands
/// and flags of the node replace those of the parent; so does each list of
/// packages or variables that is not empty.
pub open spec fn merged(state: ResolvedSpecView, node: PyVenv) -> Option<ResolvedSpecView> {
    if pruned(state, node) {
        None
    } else {
        Some(
            ResolvedSpecView {
                name: if node.name is Some {
                    text_of(node.name)
                } else {
                    state.name
                },
                command: if node.command is Some {
                    text_of(node.command)
                } else {
                    state.command
                },
                pys: merged_pys(state, node),
                pkgs: overlaid(state.pkgs, lists_of(node.pkgs), lists_of(node.pkgs).len() as int),
                env: overlaid(state.env, lists_of(node.env), lists_of(node.env).len() as int),
                create: if node.create is Some {
                    node.create->0
                } else {
                    state.create
                },
                skip_dev_install: if node.skip_dev_install is Some {
                    node.skip_dev_install->0
                } else {
                    state.skip_dev_install
                },
            },
        )
    }
}

/// Below a parent with versions, the versions of a node that names some
/// are narrowed: each version that is left is one of the node's own and can
/// overlap with some version of the parent.
pub proof fn lemma_merged_versions_narrowed(state: ResolvedSpecView, node: PyVenv)
    requires
        state.pys is Some,
        node.pys.len() > 0,
        merged(state, node) is Some,
    ensures
        merged(state, node)->0.pys is Some,
        merged(state, node)->0.pys->0.len() > 0,
        forall|k: int|
            0 <= k < merged(state, node)->0.pys->0.len() ==> node.pys.deep_view().contains(
                #[trigger] merged(state, node)->0.pys->0[k],
            ) && compatible_with_some(state.pys->0, merged(state, node)->0.pys->0[k]),
{
    lemma_narrowed_members(state.pys->0, node.pys.deep_view(), node.pys.len() as int);
}

/// A copy of a list of texts.
pub fn clone_texts(v: &Vec<String>) -> (r: Vec<String>)
    ensures
        r.deep_view() == v.deep_view(),
{
    let mut r: Vec<String> = Vec::new();
    let mut i: usize = 0;
    while i < v.len()
        invariant
            i <= v.len(),
            r.len() == i,
            forall|j: int| 0 <= j < i ==> r[j]@ == v[j]@,
        decreases v.len() - i,
    {
        r.push(v[i].clone());
        i = i + 1;
    }
    assert(r.deep_view() =~= v.deep_view());
    r
}

/// A copy of a text that may be absent.
pub fn clone_text(s: &Option<String>) -> (r: Option<String>)
    ensures
        text_of(r) == text_of(*s),
{
    match s {
        Some(t) => Some(t.clone()),
        None => None,
    }
}

fn overlay(base: &IndexMap<String, Vec<String>>, over: &IndexMap<String, Vec<String>>) -> (r:
    IndexMap<String, Vec<String>>)
    ensures
        lists_of(r) == overlaid(lists_of(*base), lists_of(*over), lists_of(*over).len() as int),
{
    let mut r = lists_clone(base);
    let entries = lists_entries(over);
    let mut i: usize = 0;
    while i < entries.len()
        invariant
            i <= entries.len(),
            entries.deep_view() == lists_of(*over),
            lists_of(r) == overlaid(lists_of(*base), lists_of(*over), i as int),
        decreases entries.len() - i,
    {
        assert(entries.deep_view()[i as int] == (
            entries[i as int].0@,
            entries[i as int].1.deep_view(),
        ));
        if entries[i].1.len() > 0 {
            lists_insert(&mut r, entries[i].0.clone(), clone_texts(&entries[i].1));
        }
        i = i + 1;
    }
    r
}

fn compatible_with_any(parents: &Vec<String>, child: &str) -> (r: bool)
    ensures
        r == compatible_with_some(parents.deep_view(), child@),
{
    let mut j: usize = 0;
    while j < parents.len()
        invariant
            j <= parents.len(),
            forall|b: int|
                0 <= b < j ==> !versions_compatible(#[trigger] parents.deep_view()[b], child@),
        decreases parents.len() - j,
    {
        if python_versions_compatible(parents[j].as_str(), child) {
            assert(versions_compatible(parents.deep_view()[j as int], child@));
            return true;
        }
        j = j + 1;
    }
    false
}

/// The versions of the child that can overlap with some version of the
/// parent, in the child's order.
fn narrow(parents: &Vec<String>, children: &Vec<String>) -> (r: Vec<String>)
    ensures
        r.deep_view() == narrowed(parents.deep_view(), children.deep_view(), children.len() as int),
{
    let mut kept: Vec<String> = Vec::new();
    let mut i: usize = 0;
    assert(kept.deep_view() =~= Seq::<Seq<char>>::empty());
    while i < children.len()
        invariant
            i <= children.len(),
            kept.deep_view() == narrowed(parents.deep_view(), children.deep_view(), i as int),
        decreases children.len() - i,
    {
        let ghost before = kept.deep_view();
        assert(children.deep_view()[i as int] == children[i as int]@);
        if compatible_with_any(parents, children[i].as_str()) {
            kept.push(children[i].clone());
            assert(kept.deep_view() =~= before.push(children[i as int]@));
        }
        i = i + 1;
    }
    kept
}

impl ResolvedSpec {
    /// The state before the root.
    pub fn new() -> (r: Self)
        ensures
            r@ == initial_state(),
    {
        ResolvedSpec {
            name: None,
            command: None,
            pys: None,
            pkgs: lists_new(),
            env: lists_new(),
            create: false,
            skip_dev_install: false,
        }
    }

    /// The state below `venv`, or nothing where the branch is cut.
    pub fn merge(&self, venv: &PyVenv) -> (r: Option<Self>)
        ensures
            match r {
                Some(next) => merged(self@, *venv) == Some(next@),
                None => merged(self@, *venv) is None,
            },
    {
        let pys: Option<Vec<String>> = if venv.pys.len() > 0 {
            match &self.pys {
                Some(parent_pys) => Some(narrow(parent_pys, &venv.pys)),
                None => Some(clone_texts(&venv.pys)),
            }
        } else {
            match &self.pys {
                Some(parent_pys) => Some(clone_texts(parent_pys)),
                None => None,
            }
        };
        match &pys {
            Some(values) => {
                if values.len() == 0 {
                    return None;
                }
            },
            None => {},
        }
        let next = ResolvedSpec {
            name: if venv.name.is_some() {
                clone_text(&venv.name)
            } else {
                clone_text(&self.name)
            },
            command: if venv.command.is_some() {
                clone_text(&venv.command)
            } else {
                clone_text(&self.command)
            },
            pys,
            pkgs: overlay(&self.pkgs, &venv.pkgs),
            env: overlay(&self.env, &venv.env),
            create: match venv.create {
                Some(c) => c,
                None => self.create,
            },
            skip_dev_install: match venv.skip_dev_install {
                Some(s) => s,
                None => self.skip_dev_install,
            },
        };
        Some(next)
    }
}

/// Every text that occurs in `s` occurs among its first occurrences, and no
/// other.
pub proof fn lemma_first_occurrences_contains(s: Seq<Seq<char>>, x: Seq<char>)
    ensures
        first_occurrences(s).contains(x) <==> s.contains(x),
    decreases s.len(),
{
    if s.len() > 0 {
        lemma_first_occurrences_contains(s.drop_last(), x);
        lemma_first_occurrences_contains(s.drop_last(), s.last());
        let f = first_occurrences(s.drop_last());
        if s.contains(x) {
            let i = choose|i: int| 0 <= i < s.len() && s[i] == x;
            if i < s.len() - 1 {
                assert(s.drop_last()[i] == x);
                assert(f.contains(x));
                let k = choose|k: int| 0 <= k < f.len() && f[k] == x;
                assert(first_occurrences(s)[k] == x);
            } else {
                if s.drop_last().contains(x) {
                    let k = choose|k: int| 0 <= k < f.len() && f[k] == x;
                    assert(first_occurrences(s)[k] == x);
                } else {
                    assert(first_occurrences(s).last() == x);
                }
            }
        }
        if first_occurrences(s).contains(x) {
            let k = choose|k: int| 0 <= k < first_occurrences(s).len() && first_occurrences(s)[k] == x;
            if k < f.len() {
                assert(f[k] == x);
                assert(f.contains(x));
                let i = choose|i: int| 0 <= i < s.drop_last().len() && s.drop_last()[i] == x;
                assert(s[i] == x);
            } else {
                assert(s[s.len() - 1] == x);
            }
        }
    }
}

/// No text stands twice among the first occurrences.
pub proof fn lemma_first_occurrences_distinct(s: Seq<Seq<char>>)
    ensures
        forall|i: int, j: int|
            0 <= i < j < first_occurrences(s).len() ==> first_occurrences(s)[i]
                != first_occurrences(s)[j],
    decreases s.len(),
{
    if s.len() > 0 {
        lemma_first_occurrences_distinct(s.drop_last());
        lemma_first_occurrences_contains(s.drop_last(), s.last());
        let f = first_occurrences(s.drop_last());
        let r = first_occurrences(s);
        assert forall|i: int, j: int| 0 <= i < j < r.len() implies r[i] != r[j] by {
            if j < f.len() {
                assert(r[i] == f[i] && r[j] == f[j]);
            } else {
                assert(r[i] == f[i]);
                assert(f.contains(f[i]));
            }
        }
    }
}

/// Drops every text that occurred before, keeping the order of the rest.
pub fn dedup_preserving_order(values: Vec<String>) -> (r: Vec<String>)
    ensures
        r.deep_view() == first_occurrences(values.deep_view()),
{
    let mut seen = KeyIndex::new();
    let mut out: Vec<String> = Vec::new();
    let mut i: usize = 0;
    assert(values.deep_view().take(0) =~= Seq::<Seq<char>>::empty());
    assert(out.deep_view() =~= Seq::<Seq<char>>::empty());
    while i < values.len()
        invariant
            i <= values.len(),
            seen.wf(),
            seen.keys() == out.deep_view(),
            out.deep_view() == first_occurrences(values.deep_view().take(i as int)),
        decreases values.len() - i,
    {
        let ghost before = out.deep_view();
        proof {
            let t = values.deep_view().take(i + 1);
            assert(t.drop_last() =~= values.deep_view().take(i as int));
            assert(t.last() == values[i as int]@);
            lemma_first_occurrences_contains(t.drop_last(), values[i as int]@);
        }
        if seen.position(values[i].as_str()).is_none() {
            seen.push(values[i].clone(), out.len());
            out.push(values[i].clone());
            assert(out.deep_view() =~= before.push(values[i as int]@));
        }
        i = i + 1;
    }
    assert(values.deep_view().take(values.len() as int) =~= values.deep_view());
    out
}

/// The lists of the first `n` entries, each without repeated variants.
pub open spec fn deduplicated(entries: Variants, n: int) -> Variants
    decreases n,
{
    if n <= 0 {
        Seq::empty()
    } else {
        deduplicated(entries, n - 1).push((entries[n - 1].0, first_occurrences(entries[n - 1].1)))
    }
}

fn dedup_lists(m: &IndexMap<String, Vec<String>>) -> (r: IndexMap<String, Vec<String>>)
    ensures
        lists_of(r) == deduplicated(lists_of(*m), lists_of(*m).len() as int),
{
    let entries = lists_entries(m);
    let mut r = lists_new();
    let mut i: usize = 0;
    while i < entries.len()
        invariant
            i <= entries.len(),
            entries.deep_view() == lists_of(*m),
            distinct_keys(entries.deep_view()),
            lists_of(r) == deduplicated(lists_of(*m), i as int),
            distinct_keys(lists_of(r)),
            forall|k: int| 0 <= k < i ==> (#[trigger] lists_of(r)[k]).0 == entries.deep_view()[k].0,
            lists_of(r).len() == i,
        decreases entries.len() - i,
    {
        let ghost before = lists_of(r);
        let ghost e = entries.deep_view()[i as int];
        assert(e == (entries[i as int].0@, entries[i as int].1.deep_view()));
        let values = dedup_preserving_order(clone_texts(&entries[i].1));
        proof {
            crate::ordered_map::lemma_position_of(before, e.0);
            if crate::ordered_map::position_of(before, e.0) is Some {
                let p = crate::ordered_map::position_of(before, e.0)->0;
                assert(before[p].0 == entries.deep_view()[p].0);
                assert(entries.deep_view()[p].0 != entries.deep_view()[i as int].0);
            }
            lemma_upsert_distinct(before, e.0, values.deep_view());
        }
        lists_insert(&mut r, entries[i].0.clone(), values);
        i = i + 1;
    }
    r
}

impl PyVenv {
    /// A node of the tree. The versions are normalised and repeated
    /// variants of a package or variable are dropped.
    pub fn new(
        name: Option<String>,
        command: Option<String>,
        pys: Vec<String>,
        pkgs: IndexMap<String, Vec<String>>,
        env: IndexMap<String, Vec<String>>,
        venvs: Vec<PyVenv>,
        create: Option<bool>,
        skip_dev_install: Option<bool>,
    ) -> (r: Self)
        ensures
            r.name == name,
            r.command == command,
            r.pys.deep_view() == normalized_versions(pys.deep_view()),
            lists_of(r.pkgs) == deduplicated(lists_of(pkgs), lists_of(pkgs).len() as int),
            lists_of(r.env) == deduplicated(lists_of(env), lists_of(env).len() as int),
            r.venvs == venvs,
            r.create == create,
            r.skip_dev_install == skip_dev_install,
    {
        PyVenv {
            name,
            command,
            pys: normalize_pys(pys),
            pkgs: dedup_lists(&pkgs),
            env: dedup_lists(&env),
            create,
            skip_dev_install,
            venvs,
        }
    }
}

} // verus!
