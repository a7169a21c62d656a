//! The one environment that a command works on, and the order in which
//! environments are listed.

use vstd::prelude::*;
use crate::cmdline::{collect_context_indices, context_counts, context_places};
use crate::config::{RunConfig, Selector};
use crate::ordered_map::pairs_new;
use crate::resolve::{venvs_view, ResolvedVenvs};
use crate::selector::{
    contexts_with_hash, select_execution_contexts, selected_by, SelectError, Selection,
};
use crate::text::str_equal;
use crate::venv::{contexts_view, ContextView, ExecutionContext, RiotVenv, VenvView};
use crate::version::{sorted_order, sorted_places};

verus! {

/// Why no single environment could be found for a hash.
#[derive(Debug)]
pub enum TargetError {
    /// The selection failed.
    Selection(SelectError),
    /// The hash stands for no environment, or for more than one.
    NotUnique,
}

/// The context in which a shell runs in an environment that was named by
/// its own hash: no command, no variables, and the hash of the environment.
pub open spec fn shell_context(venv: VenvView) -> ContextView {
    ContextView {
        command: None,
        pytest_target: None,
        env: Seq::empty(),
        create: false,
        skip_dev_install: false,
        hash: venv.hash,
    }
}

/// The context in which a shell runs in an environment that was named by
/// its own hash.
pub fn make_venv_shell_context(venv: &RiotVenv) -> (r: ExecutionContext)
    ensures
        r@ == shell_context(venv@),
{
    ExecutionContext {
        command: None,
        pytest_target: None,
        env: pairs_new(),
        create: false,
        skip_dev_install: false,
        hash: venv.hash.clone(),
    }
}

/// What a hash stands for.
pub enum Target {
    Found(VenvView),
    NotUnique,
    InvalidPattern,
    MatchFailed,
}

/// The pattern that a text is as a selector: the empty pattern for `*`.
pub open spec fn plain_pattern(text: Seq<char>) -> Seq<char> {
    if text == seq!['*'] {
        Seq::empty()
    } else {
        text
    }
}

/// The environment that a hash stands for among the environments of a
/// table: the hash must select one environment. Of its contexts those with
/// this hash are kept; where there is none, the hash is that of the
/// environment, which gets the context of a shell. More than one
/// environment, or more than one context, is no target.
pub open spec fn target_of(venvs: Seq<VenvView>, hash: Seq<char>) -> Target {
    match selected_by(venvs, plain_pattern(hash), None) {
        Selection::InvalidPattern => Target::InvalidPattern,
        Selection::MatchFailed => Target::MatchFailed,
        Selection::Found(found) => {
            if found.len() != 1 {
                Target::NotUnique
            } else {
                let kept = contexts_with_hash(found[0].contexts, hash);
                if kept.len() >= 2 {
                    Target::NotUnique
                } else if kept.len() == 1 {
                    Target::Found(VenvView { contexts: kept, ..found[0] })
                } else {
                    Target::Found(
                        VenvView { contexts: seq![shell_context(found[0])], ..found[0] },
                    )
                }
            }
        },
    }
}

/// The environment that a hash stands for.
pub fn resolve_target(riot_venvs: &ResolvedVenvs, hash: &str) -> (r: Result<RiotVenv, TargetError>)
    requires
        riot_venvs.wf(),
    ensures
        match r {
            Ok(venv) => target_of(riot_venvs@, hash@) == Target::Found(venv@),
            Err(TargetError::NotUnique) => target_of(riot_venvs@, hash@) == Target::NotUnique,
            Err(TargetError::Selection(SelectError::InvalidPattern(_))) => target_of(
                riot_venvs@,
                hash@,
            ) == Target::InvalidPattern,
            Err(TargetError::Selection(SelectError::MatchFailed(_))) => target_of(
                riot_venvs@,
                hash@,
            ) == Target::MatchFailed,
        },
{
    let selector = Selector::Pattern(hash.to_owned());
    let mut venvs = match select_execution_contexts(riot_venvs, selector) {
        Ok(venvs) => venvs,
        Err(e) => {
            return Err(TargetError::Selection(e));
        },
    };
    if venvs.len() != 1 {
        return Err(TargetError::NotUnique);
    }
    let mut venv = match venvs.pop() {
        Some(venv) => venv,
        None => {
            return Err(TargetError::NotUnique);
        },
    };
    let ghost found = venv@;
    let mut kept: Vec<ExecutionContext> = Vec::new();
    let mut i: usize = 0;
    let ghost all = venv@.contexts;
    assert(all.take(0) =~= Seq::<ContextView>::empty());
    assert(contexts_view(kept@) =~= Seq::<ContextView>::empty());
    while i < venv.execution_contexts.len()
        invariant
            i <= venv.execution_contexts.len(),
            venv@ == found,
            all == found.contexts,
            contexts_view(kept@) == contexts_with_hash(all.take(i as int), hash@),
        decreases venv.execution_contexts.len() - i,
    {
        let ghost before = contexts_view(kept@);
        proof {
            assert(all.take(i + 1).drop_last() =~= all.take(i as int));
            assert(all.take(i + 1).last() == venv.execution_contexts[i as int]@);
        }
        if str_equal(venv.execution_contexts[i].hash.as_str(), hash) {
            kept.push(venv.execution_contexts[i].clone());
            assert(contexts_view(kept@) =~= before.push(venv.execution_contexts[i as int]@));
        }
        i = i + 1;
    }
    assert(all.take(all.len() as int) =~= all);
    let n_ctx = kept.len();
    if n_ctx >= 2 {
        return Err(TargetError::NotUnique);
    }
    if n_ctx == 0 {
        kept.push(make_venv_shell_context(&venv));
        assert(contexts_view(kept@) =~= seq![shell_context(found)]);
    }
    venv.execution_contexts = kept;
    Ok(venv)
}

/// The first of the first `n` contexts, by their places, that has no
/// command: its hash.
pub open spec fn first_without_command(
    selected: Seq<VenvView>,
    places: Seq<(usize, usize)>,
    n: int,
) -> Option<Seq<char>>
    decreases n,
{
    if n <= 0 {
        None
    } else {
        match first_without_command(selected, places, n - 1) {
            Some(h) => Some(h),
            None => {
                let context = selected[places[n - 1].0 as int].contexts[places[n - 1].1 as int];
                if context.command is None {
                    Some(context.hash)
                } else {
                    None
                }
            },
        }
    }
}

proof fn lemma_without_command_stays(
    selected: Seq<VenvView>,
    places: Seq<(usize, usize)>,
    n: int,
    m: int,
)
    requires
        0 <= n <= m,
        first_without_command(selected, places, n) is Some,
    ensures
        first_without_command(selected, places, m) == first_without_command(selected, places, n),
    decreases m - n,
{
    if m > n {
        lemma_without_command_stays(selected, places, n, m - 1);
    }
}

proof fn lemma_places_within(counts: Seq<nat>, n: int)
    requires
        0 <= n <= counts.len(),
        counts.len() <= usize::MAX,
        forall|i: int| 0 <= i < counts.len() ==> #[trigger] counts[i] <= usize::MAX,
    ensures
        forall|t: int|
            0 <= t < context_places(counts, n).len() ==> {
                let place = #[trigger] context_places(counts, n)[t];
                place.0 < n && place.1 < counts[place.0 as int]
            },
    decreases n,
{
    if n > 0 {
        lemma_places_within(counts, n - 1);
        let prev = context_places(counts, n - 1);
        let all = context_places(counts, n);
        assert forall|t: int| 0 <= t < all.len() implies {
            let place = #[trigger] all[t];
            place.0 < n && place.1 < counts[place.0 as int]
        } by {
            if t < prev.len() {
                assert(all[t] == prev[t]);
            } else {
                assert(all[t] == ((n - 1) as usize, (t - prev.len()) as usize));
            }
        }
    }
}

/// The context that cannot be run because neither it nor the run has a
/// command: the hash of the first such context of the selected
/// environments, in order. There is none where the run overrides the
/// command.
pub fn missing_command(selected: &Vec<RiotVenv>, run_config: &RunConfig) -> (r: Option<String>)
    ensures
        match r {
            Some(hash) => run_config.command_override is None && first_without_command(
                venvs_view(selected@),
                context_places(context_counts(selected@), selected.len() as int),
                context_places(context_counts(selected@), selected.len() as int).len() as int,
            ) == Some(hash@),
            None => run_config.command_override is Some || first_without_command(
                venvs_view(selected@),
                context_places(context_counts(selected@), selected.len() as int),
                context_places(context_counts(selected@), selected.len() as int).len() as int,
            ) is None,
        },
{
    if run_config.command_override.is_some() {
        return None;
    }
    let places = collect_context_indices(selected);
    proof {
        lemma_places_within(context_counts(selected@), selected.len() as int);
    }
    let ghost all = venvs_view(selected@);
    let mut i: usize = 0;
    while i < places.len()
        invariant
            i <= places.len(),
            all == venvs_view(selected@),
            run_config.command_override is None,
            places@ == context_places(context_counts(selected@), selected.len() as int),
            forall|t: int|
                0 <= t < places.len() ==> (#[trigger] places[t]).0 < selected.len() && places[t].1
                    < selected[places[t].0 as int].execution_contexts.len(),
            first_without_command(all, places@, i as int) is None,
        decreases places.len() - i,
    {
        let (v, c) = places[i];
        let context = &selected[v].execution_contexts[c];
        assert(all[v as int].contexts[c as int] == context@);
        if context.command.is_none() {
            proof {
                lemma_without_command_stays(all, places@, i + 1, places.len() as int);
            }
            return Some(context.hash.clone());
        }
        i = i + 1;
    }
    None
}

/// The hashes of the environments, in order.
pub open spec fn venv_hashes(venvs: Seq<VenvView>) -> Seq<Seq<char>> {
    Seq::new(venvs.len(), |i: int| venvs[i].hash)
}

/// The hashes of the contexts, in order.
pub open spec fn context_hashes(contexts: Seq<ContextView>) -> Seq<Seq<char>> {
    Seq::new(contexts.len(), |i: int| contexts[i].hash)
}

/// The contexts in the order of their hashes.
pub open spec fn contexts_by_hash(contexts: Seq<ContextView>) -> Seq<ContextView> {
    let order = sorted_places(context_hashes(contexts), contexts.len() as int);
    Seq::new(contexts.len(), |k: int| contexts[order[k] as int])
}

/// The environments in the order of their hashes, the contexts of each in
/// the order of theirs.
pub open spec fn listed(venvs: Seq<VenvView>) -> Seq<VenvView> {
    let order = sorted_places(venv_hashes(venvs), venvs.len() as int);
    Seq::new(
        venvs.len(),
        |k: int|
            VenvView {
                contexts: contexts_by_hash(venvs[order[k] as int].contexts),
                ..venvs[order[k] as int]
            },
    )
}

/// The contexts in the order of their hashes.
pub fn sort_contexts(contexts: &Vec<ExecutionContext>) -> (r: Vec<ExecutionContext>)
    ensures
        contexts_view(r@) == contexts_by_hash(contexts_view(contexts@)),
{
    let mut keys: Vec<String> = Vec::new();
    let mut i: usize = 0;
    while i < contexts.len()
        invariant
            i <= contexts.len(),
            keys.len() == i,
            forall|k: int| 0 <= k < i ==> (#[trigger] keys[k])@ == contexts[k]@.hash,
        decreases contexts.len() - i,
    {
        keys.push(contexts[i].hash.clone());
        i = i + 1;
    }
    assert(keys.deep_view() =~= context_hashes(contexts_view(contexts@)));
    let order = sorted_order(&keys);
    let mut out: Vec<ExecutionContext> = Vec::new();
    let mut k: usize = 0;
    while k < order.len()
        invariant
            k <= order.len(),
            order.len() == contexts.len(),
            forall|t: int| 0 <= t < order.len() ==> (#[trigger] order[t]) < contexts.len(),
            out.len() == k,
            forall|t: int| 0 <= t < k ==> (#[trigger] out[t])@ == contexts[order[t] as int]@,
        decreases order.len() - k,
    {
        out.push(contexts[order[k]].clone());
        k = k + 1;
    }
    assert(contexts_view(out@) =~= contexts_by_hash(contexts_view(contexts@)));
    out
}

/// The environments in the order of their hashes, the contexts of each in
/// the order of theirs.
pub fn sort_for_listing(venvs: &Vec<RiotVenv>) -> (r: Vec<RiotVenv>)
    ensures
        venvs_view(r@) == listed(venvs_view(venvs@)),
{
    let mut keys: Vec<String> = Vec::new();
    let mut i: usize = 0;
    while i < venvs.len()
        invariant
            i <= venvs.len(),
            keys.len() == i,
            forall|k: int| 0 <= k < i ==> (#[trigger] keys[k])@ == venvs[k]@.hash,
        decreases venvs.len() - i,
    {
        keys.push(venvs[i].hash.clone());
        i = i + 1;
    }
    assert(keys.deep_view() =~= venv_hashes(venvs_view(venvs@)));
    let order = sorted_order(&keys);
    let ghost want = listed(venvs_view(venvs@));
    let mut out: Vec<RiotVenv> = Vec::new();
    let mut k: usize = 0;
    while k < order.len()
        invariant
            k <= order.len(),
            order.len() == venvs.len(),
            order@ == sorted_places(venv_hashes(venvs_view(venvs@)), venvs.len() as int),
            forall|t: int| 0 <= t < order.len() ==> (#[trigger] order[t]) < venvs.len(),
            want == listed(venvs_view(venvs@)),
            out.len() == k,
            forall|t: int| 0 <= t < k ==> (#[trigger] out[t])@ == want[t],
        decreases order.len() - k,
    {
        let source = &venvs[order[k]];
        let mut venv = source.clone();
        venv.execution_contexts = sort_contexts(&source.execution_contexts);
        assert(venvs_view(venvs@)[order[k as int] as int] == source@);
        out.push(venv);
        k = k + 1;
    }
    assert(venvs_view(out@) =~= want);
    out
}

} // verus!
