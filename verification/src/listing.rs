//! What a listing of environments shows, before it is coloured.

use vstd::prelude::*;
use crate::cmdline::{entries_text, format_envs, format_pkgs, unique_entries};
use crate::completion::sorted_texts;
use crate::resolve::venvs_view;
use crate::targets::{contexts_by_hash, sort_contexts, venv_hashes};
use crate::venv::{contexts_view, ContextView, RiotVenv, VenvView};
use crate::version::sorted_order;

verus! {

/// A text without the white space at its beginning and at its end.
pub uninterp spec fn trimmed(text: Seq<char>) -> Seq<char>;

/// Drops the white space at the beginning and at the end of a text.
///
/// Trusted: `str::trim` of the standard library, whose result depends on
/// the text alone.
#[verifier::external_body]
pub(crate) fn trim(text: &str) -> (r: String)
    ensures
        r@ == trimmed(text@),
{
    text.trim().to_owned()
}

/// The environments that have a context, in order.
pub open spec fn having_contexts(venvs: Seq<VenvView>, n: int) -> Seq<VenvView>
    decreases n,
{
    if n <= 0 {
        Seq::empty()
    } else if venvs[n - 1].contexts.len() > 0 {
        having_contexts(venvs, n - 1).push(venvs[n - 1])
    } else {
        having_contexts(venvs, n - 1)
    }
}

/// Drops the environments without context.
pub fn with_contexts_only(venvs: &Vec<RiotVenv>) -> (r: Vec<RiotVenv>)
    ensures
        venvs_view(r@) == having_contexts(venvs_view(venvs@), venvs.len() as int),
{
    let ghost all = venvs_view(venvs@);
    let mut out: Vec<RiotVenv> = Vec::new();
    let mut i: usize = 0;
    assert(venvs_view(out@) =~= having_contexts(all, 0));
    while i < venvs.len()
        invariant
            i <= venvs.len(),
            all == venvs_view(venvs@),
            venvs_view(out@) == having_contexts(all, i as int),
        decreases venvs.len() - i,
    {
        let ghost before = venvs_view(out@);
        assert(all[i as int] == venvs[i as int]@);
        if venvs[i].execution_contexts.len() > 0 {
            out.push(venvs[i].clone());
            assert(venvs_view(out@) =~= before.push(venvs[i as int]@));
        }
        i = i + 1;
    }
    out
}

/// The hashes of the environments, in the order of their characters.
pub fn sorted_hashes(venvs: &Vec<RiotVenv>) -> (r: Vec<String>)
    ensures
        r.deep_view() == sorted_texts(venv_hashes(venvs_view(venvs@))),
{
    let mut keys: Vec<String> = Vec::new();
    let mut i: usize = 0;
    while i < venvs.len()
        invariant
            i <= venvs.len(),
            keys.len() == i,
            forall|k: int| 0 <= k < i ==> (#[trigger] keys[k])@ == venvs[k]@.hash,
        decreases venvs.len() - i,
    {
        keys.push(venvs[i].hash.clone());
        i = i + 1;
    }
    assert(keys.deep_view() =~= venv_hashes(venvs_view(venvs@)));
    let order = sorted_order(&keys);
    let mut out: Vec<String> = Vec::new();
    let mut k: usize = 0;
    while k < order.len()
        invariant
            k <= order.len(),
            order.len() == keys.len(),
            forall|t: int| 0 <= t < order.len() ==> (#[trigger] order[t]) < keys.len(),
            out.len() == k,
            forall|t: int| 0 <= t < k ==> (#[trigger] out[t])@ == keys[order[t] as int]@,
        decreases order.len() - k,
    {
        out.push(keys[order[k]].clone());
        k = k + 1;
    }
    assert(out.deep_view() =~= sorted_texts(keys.deep_view()));
    out
}

/// How the command of a context is shown.
#[derive(Debug, PartialEq, Eq)]
pub enum CommandDisplay {
    /// The context has no command.
    NotConfigured,
    /// The command of the context is empty.
    Empty,
    /// The command.
    Text(String),
}

/// How the command of a context is shown.
pub fn command_display(command: &Option<String>) -> (r: CommandDisplay)
    ensures
        match r {
            CommandDisplay::NotConfigured => command is None,
            CommandDisplay::Empty => command matches Some(c) && c@.len() == 0,
            CommandDisplay::Text(t) => command matches Some(c) && c@.len() > 0 && t@ == c@,
        },
{
    match command {
        None => CommandDisplay::NotConfigured,
        Some(c) => if c.as_str().is_empty() {
            CommandDisplay::Empty
        } else {
            CommandDisplay::Text(c.clone())
        },
    }
}

/// The row of a context in a listing.
#[derive(Debug)]
pub struct ContextRow {
    /// Whether the row is the last of its environment.
    pub last: bool,
    pub hash: String,
    pub command: CommandDisplay,
    /// The variables that the context does not share with the others;
    /// empty where there is none.
    pub env: String,
}

/// The row of an environment in a listing, with the rows of its contexts
/// in the order of their hashes.
#[derive(Debug)]
pub struct VenvRow {
    pub hash: String,
    pub name: String,
    pub python: String,
    /// The packages that the environment does not share with the others of
    /// its name; empty where there is none.
    pub deps: String,
    pub contexts: Vec<ContextRow>,
}

/// The packages that a row shows.
pub open spec fn row_deps(venv: VenvView) -> Seq<char> {
    trimmed(
        entries_text(
            unique_entries(venv.pkgs, venv.shared_pkgs, venv.pkgs.len() as int),
            Seq::empty(),
        ),
    )
}

/// The variables that the row of a context shows.
pub open spec fn row_env(venv: VenvView, context: ContextView) -> Seq<char> {
    trimmed(
        entries_text(
            unique_entries(context.env, venv.shared_env, context.env.len() as int),
            seq!['='],
        ),
    )
}

/// Whether a row shows the environment `venv`, its contexts in the order
/// of their hashes.
pub open spec fn shows(row: VenvRow, venv: VenvView) -> bool {
    let sorted = contexts_by_hash(venv.contexts);
    &&& row.hash@ == venv.hash
    &&& row.name@ == venv.name
    &&& row.python@ == venv.python
    &&& row.deps@ == row_deps(venv)
    &&& row.contexts.len() == sorted.len()
    &&& forall|k: int|
        0 <= k < sorted.len() ==> {
            let r = #[trigger] row.contexts[k];
            &&& r.last == (k + 1 == sorted.len())
            &&& r.hash@ == sorted[k].hash
            &&& r.env@ == row_env(venv, sorted[k])
            &&& match r.command {
                CommandDisplay::NotConfigured => sorted[k].command is None,
                CommandDisplay::Empty => sorted[k].command == Some(Seq::<char>::empty()),
                CommandDisplay::Text(t) => sorted[k].command == Some(t@) && t@.len() > 0,
            }
        }
}

/// The row of an environment.
pub fn venv_row(venv: &RiotVenv) -> (r: VenvRow)
    ensures
        shows(r, venv@),
{
    let deps_raw = format_pkgs(&venv.pkgs, &venv.shared_pkgs);
    let deps = trim(deps_raw.as_str());
    let contexts = sort_contexts(&venv.execution_contexts);
    let ghost sorted = contexts_by_hash(venv@.contexts);
    assert(contexts_view(contexts@) == sorted);
    let total = contexts.len();
    let mut rows: Vec<ContextRow> = Vec::new();
    let mut k: usize = 0;
    while k < contexts.len()
        invariant
            k <= contexts.len(),
            total == contexts.len(),
            sorted == contexts_view(contexts@),
            rows.len() == k,
            forall|t: int|
                0 <= t < k ==> {
                    let r = #[trigger] rows[t];
                    &&& r.last == (t + 1 == sorted.len())
                    &&& r.hash@ == sorted[t].hash
                    &&& r.env@ == row_env(venv@, sorted[t])
                    &&& match r.command {
                        CommandDisplay::NotConfigured => sorted[t].command is None,
                        CommandDisplay::Empty => sorted[t].command == Some(Seq::<char>::empty()),
                        CommandDisplay::Text(t2) => sorted[t].command == Some(t2@) && t2@.len()
                            > 0,
                    }
                },
        decreases contexts.len() - k,
    {
        let context = &contexts[k];
        assert(sorted[k as int] == context@);
        let env_raw = format_envs(&context.env, &venv.shared_env);
        let env = trim(env_raw.as_str());
        let command = command_display(&context.command);
        proof {
            match command {
                CommandDisplay::Empty => {
                    assert(context.command->0@ =~= Seq::<char>::empty());
                },
                _ => {},
            }
        }
        rows.push(ContextRow { last: k + 1 == total, hash: context.hash.clone(), command, env });
        k = k + 1;
    }
    VenvRow {
        hash: venv.hash.clone(),
        name: venv.name.clone(),
        python: venv.python.clone(),
        deps,
        contexts: rows,
    }
}

/// The rows of a listing: one for each environment, in order.
pub fn hierarchy(venvs: &Vec<RiotVenv>) -> (r: Vec<VenvRow>)
    ensures
        r.len() == venvs.len(),
        forall|i: int| 0 <= i < venvs.len() ==> shows(#[trigger] r[i], venvs[i]@),
{
    let mut rows: Vec<VenvRow> = Vec::new();
    let mut i: usize = 0;
    while i < venvs.len()
        invariant
            i <= venvs.len(),
            rows.len() == i,
            forall|k: int| 0 <= k < i ==> shows(#[trigger] rows[k], venvs[k]@),
        decreases venvs.len() - i,
    {
        rows.push(venv_row(&venvs[i]));
        i = i + 1;
    }
    rows
}

} // verus!
