//! What the shell is offered to complete a version, a name or a selector.

use vstd::prelude::*;
use vstd::string::StringExecFns;
use indexmap::IndexMap;
use crate::cmdline::{entries_text, format_envs, format_pkgs, unique_entries};
use crate::config::Selector;
use crate::ordered_map::{pairs_entries, pairs_insert, pairs_new, pairs_of, upsert};
use crate::resolve::{venvs_view, ResolvedVenvs};
use crate::selector::{select_execution_contexts, selected_by, Selection};
use crate::spec_tree::dedup_preserving_order;
use crate::targets::plain_pattern;
use crate::text::{has_prefix, starts_with};
use crate::venv::{ContextView, Pairs, RiotVenv, VenvView};
use crate::version::{first_occurrences, sort_versions, sorted_order, sorted_places, sorted_versions};

verus! {

/// Completes interpreter versions.
pub struct PythonCompleter;

/// Completes names of environments.
pub struct NameCompleter;

/// Completes selectors: names and hashes.
pub struct SelectorCompleter;

/// Completes hashes.
pub struct HashCompleter;

/// The versions of the first `n` environments that begin with the hint, in
/// order and with repetitions.
pub open spec fn versions_like(venvs: Seq<VenvView>, hint: Seq<char>, n: int) -> Seq<Seq<char>>
    decreases n,
{
    if n <= 0 {
        Seq::empty()
    } else if has_prefix(venvs[n - 1].python, hint) {
        versions_like(venvs, hint, n - 1).push(venvs[n - 1].python)
    } else {
        versions_like(venvs, hint, n - 1)
    }
}

/// The names of the environments, in order.
pub open spec fn names_of(venvs: Seq<VenvView>) -> Seq<Seq<char>> {
    Seq::new(venvs.len(), |i: int| venvs[i].name)
}

/// The texts in the order of their characters.
pub open spec fn sorted_texts(texts: Seq<Seq<char>>) -> Seq<Seq<char>> {
    let order = sorted_places(texts, texts.len() as int);
    Seq::new(texts.len(), |k: int| texts[order[k] as int])
}

impl PythonCompleter {
    /// The versions of the environments that begin with the hint, each
    /// once, in the order of versions.
    pub fn candidates(&self, venvs: &Vec<RiotVenv>, hint: &str) -> (r: Vec<String>)
        ensures
            r.deep_view() == sorted_versions(
                first_occurrences(versions_like(venvs_view(venvs@), hint@, venvs.len() as int)),
            ),
    {
        let ghost all = venvs_view(venvs@);
        let mut found: Vec<String> = Vec::new();
        let mut i: usize = 0;
        assert(found.deep_view() =~= versions_like(all, hint@, 0));
        while i < venvs.len()
            invariant
                i <= venvs.len(),
                all == venvs_view(venvs@),
                found.deep_view() == versions_like(all, hint@, i as int),
            decreases venvs.len() - i,
        {
            let ghost before = found.deep_view();
            assert(all[i as int] == venvs[i as int]@);
            if starts_with(venvs[i].python.as_str(), hint) {
                found.push(venvs[i].python.clone());
                assert(found.deep_view() =~= before.push(venvs[i as int].python@));
            }
            i = i + 1;
        }
        let unique = dedup_preserving_order(found);
        sort_versions(&unique)
    }
}

fn sort_texts(texts: &Vec<String>) -> (r: Vec<String>)
    ensures
        r.deep_view() == sorted_texts(texts.deep_view()),
{
    let order = sorted_order(texts);
    let mut out: Vec<String> = Vec::new();
    let mut k: usize = 0;
    while k < order.len()
        invariant
            k <= order.len(),
            order.len() == texts.len(),
            forall|t: int| 0 <= t < order.len() ==> (#[trigger] order[t]) < texts.len(),
            out.len() == k,
            forall|t: int| 0 <= t < k ==> (#[trigger] out[t])@ == texts[order[t] as int]@,
        decreases order.len() - k,
    {
        out.push(texts[order[k]].clone());
        k = k + 1;
    }
    assert(out.deep_view() =~= sorted_texts(texts.deep_view()));
    out
}

/// The environments that a text selects as a pattern; none where the
/// selection fails.
pub open spec fn completing(venvs: Seq<VenvView>, current: Seq<char>) -> Seq<VenvView> {
    match selected_by(venvs, plain_pattern(current), None) {
        Selection::Found(found) => found,
        _ => Seq::empty(),
    }
}

fn select_contexts(table: &ResolvedVenvs, pattern: &str) -> (r: Vec<RiotVenv>)
    requires
        table.wf(),
    ensures
        venvs_view(r@) == completing(table@, pattern@),
{
    match select_execution_contexts(table, Selector::Pattern(pattern.to_owned())) {
        Ok(found) => found,
        Err(_) => {
            let none: Vec<RiotVenv> = Vec::new();
            assert(venvs_view(none@) =~= Seq::<VenvView>::empty());
            none
        },
    }
}

impl NameCompleter {
    /// The names of the environments that the text selects, each once, in
    /// the order of their characters.
    pub fn candidates(&self, table: &ResolvedVenvs, current: &str) -> (r: Vec<String>)
        requires
            table.wf(),
        ensures
            r.deep_view() == sorted_texts(
                first_occurrences(names_of(completing(table@, current@))),
            ),
    {
        let selected = select_contexts(table, current);
        let mut names: Vec<String> = Vec::new();
        let mut i: usize = 0;
        while i < selected.len()
            invariant
                i <= selected.len(),
                names.len() == i,
                forall|k: int| 0 <= k < i ==> (#[trigger] names[k])@ == selected[k]@.name,
            decreases selected.len() - i,
        {
            names.push(selected[i].name.clone());
            i = i + 1;
        }
        assert(names.deep_view() =~= names_of(venvs_view(selected@)));
        let unique = dedup_preserving_order(names);
        sort_texts(&unique)
    }
}

/// What a candidate says of the packages of an environment: those that it
/// does not share, behind a space; nothing for an environment without
/// packages.
pub open spec fn pkgs_detail(venv: VenvView) -> Seq<char> {
    if venv.pkgs.len() == 0 {
        Seq::empty()
    } else {
        seq![' '] + entries_text(
            unique_entries(venv.pkgs, venv.shared_pkgs, venv.pkgs.len() as int),
            Seq::empty(),
        )
    }
}

/// What a candidate says of an environment: its name, its version and its
/// packages.
pub open spec fn venv_help(venv: VenvView) -> Seq<char> {
    venv.name + " ("@ + venv.python + ")"@ + pkgs_detail(venv)
}

/// What a candidate says of a context: what it says of the environment,
/// and the variables that the context does not share, where the contexts of
/// the environment share any.
pub open spec fn context_help(venv: VenvView, context: ContextView) -> Seq<char> {
    venv_help(venv) + (if venv.shared_env.len() == 0 {
        Seq::empty()
    } else {
        seq![' '] + entries_text(
            unique_entries(context.env, venv.shared_env, context.env.len() as int),
            seq!['='],
        )
    })
}

/// The candidates after the first `n` contexts of an environment were
/// added.
pub open spec fn with_context_candidates(entries: Pairs, venv: VenvView, n: int) -> Pairs
    decreases n,
{
    if n <= 0 {
        entries
    } else {
        upsert(
            with_context_candidates(entries, venv, n - 1),
            venv.contexts[n - 1].hash,
            context_help(venv, venv.contexts[n - 1]),
        )
    }
}

/// The candidates after the first `n` environments were added: for each
/// its name, where names are asked for, its hash and the hashes of its
/// contexts, each with what it says. A candidate that comes again keeps its
/// place and says what it said last.
pub open spec fn selector_candidates(selected: Seq<VenvView>, with_names: bool, n: int) -> Pairs
    decreases n,
{
    if n <= 0 {
        Seq::empty()
    } else {
        let prev = selector_candidates(selected, with_names, n - 1);
        let venv = selected[n - 1];
        let named = if with_names {
            upsert(prev, venv.name, Seq::empty())
        } else {
            prev
        };
        with_context_candidates(
            upsert(named, venv.hash, venv_help(venv)),
            venv,
            venv.contexts.len() as int,
        )
    }
}

fn help_of(venv: &RiotVenv) -> (r: String)
    ensures
        r@ == venv_help(venv@),
{
    let mut help = venv.name.clone();
    help.append(" (");
    help.append(venv.python.as_str());
    help.append(")");
    let entries = pairs_entries(&venv.pkgs);
    assert(entries.deep_view().len() == venv@.pkgs.len());
    if entries.len() > 0 {
        help.append(" ");
        let detail = format_pkgs(&venv.pkgs, &venv.shared_pkgs);
        help.append(detail.as_str());
        proof {
            reveal_strlit(" ");
            assert(" "@ =~= seq![' ']);
            assert(help@ =~= venv_help(venv@));
        }
    } else {
        assert(help@ =~= venv_help(venv@));
    }
    help
}

/// The candidates for a selector among the selected environments.
pub fn complete_selector(selected: &Vec<RiotVenv>, with_names: bool) -> (r: Vec<(String, String)>)
    ensures
        r.deep_view() == selector_candidates(
            venvs_view(selected@),
            with_names,
            selected.len() as int,
        ),
{
    let ghost all = venvs_view(selected@);
    let mut candidates: IndexMap<String, String> = pairs_new();
    let mut i: usize = 0;
    while i < selected.len()
        invariant
            i <= selected.len(),
            all == venvs_view(selected@),
            pairs_of(candidates) == selector_candidates(all, with_names, i as int),
        decreases selected.len() - i,
    {
        let venv = &selected[i];
        assert(all[i as int] == venv@);
        if with_names {
            pairs_insert(&mut candidates, venv.name.clone(), String::new());
        }
        let help = help_of(venv);
        pairs_insert(&mut candidates, venv.hash.clone(), help.clone());
        let ghost start = pairs_of(candidates);
        let shared = pairs_entries(&venv.shared_env);
        assert(shared.deep_view().len() == venv@.shared_env.len());
        let mut k: usize = 0;
        while k < venv.execution_contexts.len()
            invariant
                k <= venv.execution_contexts.len(),
                help@ == venv_help(venv@),
                shared.len() == venv@.shared_env.len(),
                pairs_of(candidates) == with_context_candidates(start, venv@, k as int),
            decreases venv.execution_contexts.len() - k,
        {
            let context = &venv.execution_contexts[k];
            assert(venv@.contexts[k as int] == context@);
            let mut text = help.clone();
            if shared.len() > 0 {
                text.append(" ");
                let detail = format_envs(&context.env, &venv.shared_env);
                text.append(detail.as_str());
                proof {
                    reveal_strlit(" ");
                    assert(" "@ =~= seq![' ']);
                    assert(text@ =~= context_help(venv@, context@));
                }
            } else {
                assert(text@ =~= context_help(venv@, context@));
            }
            pairs_insert(&mut candidates, context.hash.clone(), text);
            k = k + 1;
        }
        i = i + 1;
    }
    pairs_entries(&candidates)
}

impl SelectorCompleter {
    /// The names and hashes of the environments that the text selects, and
    /// the hashes of their contexts.
    pub fn candidates(&self, table: &ResolvedVenvs, current: &str) -> (r: Vec<(String, String)>)
        requires
            table.wf(),
        ensures
            r.deep_view() == selector_candidates(
                completing(table@, current@),
                true,
                completing(table@, current@).len() as int,
            ),
    {
        let selected = select_contexts(table, current);
        complete_selector(&selected, true)
    }
}

impl HashCompleter {
    /// The hashes of the environments that the text selects, and the
    /// hashes of their contexts.
    pub fn candidates(&self, table: &ResolvedVenvs, current: &str) -> (r: Vec<(String, String)>)
        requires
            table.wf(),
        ensures
            r.deep_view() == selector_candidates(
                completing(table@, current@),
                false,
                completing(table@, current@).len() as int,
            ),
    {
        let selected = select_contexts(table, current);
        complete_selector(&selected, false)
    }
}

} // verus!
