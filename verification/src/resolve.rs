//! Resolution: from the tree of specifications to the environments it
//! describes, each with its execution contexts.

use vstd::prelude::*;
use indexmap::IndexMap;
use crate::hashing::{
    add_quote, context_hash_text, environment_hash, environment_hash_of, quoted, RiotHasher,
};
use crate::ordered_map::{
    lists_get, lists_of, lookup, pairs_clone, pairs_get, pairs_new, pairs_of, KeyIndex,
};
use crate::product::{expand_product, maps_view, product};
use crate::shared::{refs_view, shared_entries, shared_pairs};
use crate::spec_tree::{
    clone_text, clone_texts, initial_state, merged, PyVenv, ResolvedSpec, ResolvedSpecView,
    Variants,
};
use crate::text::{has_prefix, str_equal};
use crate::venv::{
    contexts_view, new_context, ContextView, ExecutionContext, Pairs, RiotVenv, VenvView,
};

verus! {

/// Why a tree could not be resolved.
#[derive(Clone, Copy, Debug, PartialEq, Eq, Structural)]
pub enum ResolveError {
    /// A leaf has more combinations of packages or of variables than can be
    /// counted.
    TooManyVariants,
    /// The table of quotes lacks a text that goes into a hash: the name, a
    /// version or the command of a leaf.
    MissingQuote,
}

/// The quoted form of a text; it is only asked for where the table holds
/// one.
pub open spec fn form_of(quotes: Pairs, text: Seq<char>) -> Seq<char> {
    quoted(quotes, text)->0
}

/// The quoted form of a command, where there is one.
pub open spec fn command_form(quotes: Pairs, command: Option<Seq<char>>) -> Option<Seq<char>> {
    match command {
        Some(c) => Some(form_of(quotes, c)),
        None => None,
    }
}

/// The table of quotes holds every text of the state that goes into a
/// hash: the name, each version, and the command where there is one.
pub open spec fn leaf_quoted(state: ResolvedSpecView, quotes: Pairs) -> bool {
    &&& state.name matches Some(name) ==> quoted(quotes, name) is Some
    &&& state.pys matches Some(pys) ==> forall|i: int|
        0 <= i < pys.len() ==> quoted(quotes, #[trigger] pys[i]) is Some
    &&& state.command matches Some(command) ==> quoted(quotes, command) is Some
}

/// The environments as plain values.
pub open spec fn venvs_view(venvs: Seq<RiotVenv>) -> Seq<VenvView> {
    Seq::new(venvs.len(), |i: int| venvs[i]@)
}

/// The hashes of the environments, in order.
pub open spec fn hashes_of(venvs: Seq<VenvView>) -> Seq<Seq<char>> {
    Seq::new(venvs.len(), |i: int| venvs[i].hash)
}

/// Where the environment with the given hash stands.
pub open spec fn hash_position(venvs: Seq<VenvView>, hash: Seq<char>) -> Option<int>
    decreases venvs.len(),
{
    if venvs.len() == 0 {
        None
    } else if venvs.last().hash == hash {
        Some(venvs.len() - 1)
    } else {
        hash_position(venvs.drop_last(), hash)
    }
}

/// No two environments have the same hash.
pub open spec fn distinct_hashes(venvs: Seq<VenvView>) -> bool {
    forall|i: int, j: int|
        0 <= i < j < venvs.len() ==> (#[trigger] venvs[i]).hash != (#[trigger] venvs[j]).hash
}

/// `hash_position` finds the hash where it stands, and nothing where it does
/// not occur.
pub proof fn lemma_hash_position(venvs: Seq<VenvView>, hash: Seq<char>)
    ensures
        match hash_position(venvs, hash) {
            Some(i) => 0 <= i < venvs.len() && venvs[i].hash == hash,
            None => forall|i: int| 0 <= i < venvs.len() ==> (#[trigger] venvs[i]).hash != hash,
        },
    decreases venvs.len(),
{
    if venvs.len() > 0 && venvs.last().hash != hash {
        lemma_hash_position(venvs.drop_last(), hash);
        if hash_position(venvs, hash) is None {
            assert forall|i: int| 0 <= i < venvs.len() implies (#[trigger] venvs[i]).hash
                != hash by {
                if i < venvs.len() - 1 {
                    assert(venvs.drop_last()[i] == venvs[i]);
                }
            }
        }
    }
}

/// Whether one of the contexts has the given hash.
pub open spec fn has_context(contexts: Seq<ContextView>, hash: Seq<char>) -> bool {
    exists|i: int| 0 <= i < contexts.len() && (#[trigger] contexts[i]).hash == hash
}

/// The contexts after the first `n` variants of the variables were added:
/// each makes one context, which is left out where a context with its hash
/// is there already.
pub open spec fn with_contexts(
    contexts: Seq<ContextView>,
    state: ResolvedSpecView,
    base_hash: Seq<char>,
    env_variants: Seq<Pairs>,
    quotes: Pairs,
    n: int,
) -> Seq<ContextView>
    decreases n,
{
    if n <= 0 {
        contexts
    } else {
        let prev = with_contexts(contexts, state, base_hash, env_variants, quotes, n - 1);
        let c = new_context(
            state.command,
            command_form(quotes, state.command),
            env_variants[n - 1],
            state.create,
            state.skip_dev_install,
            base_hash,
        );
        if has_context(prev, c.hash) {
            prev
        } else {
            prev.push(c)
        }
    }
}

/// The services declared for a name; none where the name is not listed.
pub open spec fn services_for(services: Variants, name: Seq<char>) -> Seq<Seq<char>> {
    match lookup(services, name) {
        Some(s) => s,
        None => Seq::empty(),
    }
}

/// The environment, with the contexts of every variant of the variables
/// added to its own.
pub open spec fn with_variants(
    venv: VenvView,
    state: ResolvedSpecView,
    env_variants: Seq<Pairs>,
    quotes: Pairs,
) -> VenvView {
    VenvView {
        contexts: with_contexts(
            venv.contexts,
            state,
            venv.hash,
            env_variants,
            quotes,
            env_variants.len() as int,
        ),
        ..venv
    }
}

/// The hash of the environment of a name, a version and packages, with
/// the name and the version quoted as the table says.
pub open spec fn hash_in(quotes: Pairs, name: Seq<char>, python: Seq<char>, pkgs: Pairs) -> Seq<
    char,
> {
    environment_hash(form_of(quotes, name), form_of(quotes, python), pkgs)
}

/// The environment of a name, a version and packages, before it has
/// contexts.
pub open spec fn fresh_environment(
    name: Seq<char>,
    python: Seq<char>,
    pkgs: Pairs,
    services: Variants,
    quotes: Pairs,
) -> VenvView {
    VenvView {
        name,
        python,
        pkgs,
        hash: hash_in(quotes, name, python, pkgs),
        services: services_for(services, name),
        contexts: Seq::empty(),
        shared_pkgs: Seq::empty(),
        shared_env: Seq::empty(),
    }
}

/// The environments after one combination of version and packages was
/// added: paths that arrive at the same hash share one environment, which
/// stays where it first stood.
pub open spec fn with_environment(
    acc: Seq<VenvView>,
    state: ResolvedSpecView,
    name: Seq<char>,
    python: Seq<char>,
    pkgs: Pairs,
    services: Variants,
    env_variants: Seq<Pairs>,
    quotes: Pairs,
) -> Seq<VenvView> {
    match hash_position(acc, hash_in(quotes, name, python, pkgs)) {
        Some(i) => acc.update(i, with_variants(acc[i], state, env_variants, quotes)),
        None => acc.push(
            with_variants(
                fresh_environment(name, python, pkgs, services, quotes),
                state,
                env_variants,
                quotes,
            ),
        ),
    }
}

/// The environments after the first `n` combinations of packages were
/// added for one version.
pub open spec fn with_package_variants(
    acc: Seq<VenvView>,
    state: ResolvedSpecView,
    name: Seq<char>,
    python: Seq<char>,
    pkg_variants: Seq<Pairs>,
    services: Variants,
    env_variants: Seq<Pairs>,
    quotes: Pairs,
    n: int,
) -> Seq<VenvView>
    decreases n,
{
    if n <= 0 {
        acc
    } else {
        with_environment(
            with_package_variants(
                acc,
                state,
                name,
                python,
                pkg_variants,
                services,
                env_variants,
                quotes,
                n - 1,
            ),
            state,
            name,
            python,
            pkg_variants[n - 1],
            services,
            env_variants,
            quotes,
        )
    }
}

/// The environments after the first `n` versions were added.
pub open spec fn with_pythons(
    acc: Seq<VenvView>,
    state: ResolvedSpecView,
    name: Seq<char>,
    pys: Seq<Seq<char>>,
    pkg_variants: Seq<Pairs>,
    services: Variants,
    env_variants: Seq<Pairs>,
    quotes: Pairs,
    n: int,
) -> Seq<VenvView>
    decreases n,
{
    if n <= 0 {
        acc
    } else {
        with_package_variants(
            with_pythons(
                acc,
                state,
                name,
                pys,
                pkg_variants,
                services,
                env_variants,
                quotes,
                n - 1,
            ),
            state,
            name,
            pys[n - 1],
            pkg_variants,
            services,
            env_variants,
            quotes,
            pkg_variants.len() as int,
        )
    }
}

/// The environments after a leaf with the accumulated `state`, or why
/// there are none. A leaf without a name or without versions adds nothing,
/// and so does one with a package or a variable that has no variant. A leaf
/// with more combinations than can be counted is an error; so is one of whose
/// texts the table of quotes lacks one.
pub open spec fn with_leaf(
    acc: Seq<VenvView>,
    state: ResolvedSpecView,
    services: Variants,
    quotes: Pairs,
) -> Result<Seq<VenvView>, ResolveError> {
    if state.name is Some && state.pys is Some {
        if product(state.pkgs).len() > usize::MAX || product(state.env).len() > usize::MAX {
            Err(ResolveError::TooManyVariants)
        } else if product(state.pkgs).len() == 0 || product(state.env).len() == 0 {
            Ok(acc)
        } else if !leaf_quoted(state, quotes) {
            Err(ResolveError::MissingQuote)
        } else {
            Ok(
                with_pythons(
                    acc,
                    state,
                    state.name->0,
                    state.pys->0,
                    product(state.pkgs),
                    services,
                    product(state.env),
                    quotes,
                    state.pys->0.len() as int,
                ),
            )
        }
    } else {
        Ok(acc)
    }
}

/// The environments after the subtree of `node` was walked, its parent
/// having accumulated `state`, or the first error of the walk. A branch
/// that is cut adds nothing and is no error.
pub open spec fn resolved_node(
    node: PyVenv,
    state: ResolvedSpecView,
    acc: Seq<VenvView>,
    services: Variants,
    quotes: Pairs,
) -> Result<Seq<VenvView>, ResolveError>
    decreases node, node.venvs.len() + 1,
{
    match merged(state, node) {
        None => Ok(acc),
        Some(next) => {
            if node.venvs.len() == 0 {
                with_leaf(acc, next, services, quotes)
            } else {
                resolved_children(node, next, acc, services, quotes, node.venvs.len() as int)
            }
        },
    }
}

/// The environments after the first `n` children of `parent` were walked,
/// or the first error among them.
pub open spec fn resolved_children(
    parent: PyVenv,
    state: ResolvedSpecView,
    acc: Seq<VenvView>,
    services: Variants,
    quotes: Pairs,
    n: int,
) -> Result<Seq<VenvView>, ResolveError>
    decreases parent, n,
{
    if n <= 0 || n > parent.venvs.len() {
        Ok(acc)
    } else {
        match resolved_children(parent, state, acc, services, quotes, n - 1) {
            Err(e) => Err(e),
            Ok(a) => resolved_node(parent.venvs[n - 1], state, a, services, quotes),
        }
    }
}

/// Whether the environments of `before` are still there in `after`: each
/// at its place, with its hash, name, version and packages, and with the
/// contexts it had in front of those that were added.
pub open spec fn kept(before: Seq<VenvView>, after: Seq<VenvView>) -> bool {
    &&& before.len() <= after.len()
    &&& forall|i: int| 0 <= i < before.len() ==> grown_from(#[trigger] after[i], before[i])
}

/// Whether `after` is `before` with contexts added at the end.
pub open spec fn grown_from(after: VenvView, before: VenvView) -> bool {
    &&& after.hash == before.hash
    &&& after.name == before.name
    &&& after.python == before.python
    &&& after.pkgs == before.pkgs
    &&& before.contexts.len() <= after.contexts.len()
    &&& forall|k: int| 0 <= k < before.contexts.len() ==> after.contexts[k] == before.contexts[k]
}

/// The contexts of an environment have hashes that begin with the hash of
/// the environment and `@`, and no two of them have the same hash.
pub open spec fn contexts_wf(venv: VenvView) -> bool {
    &&& forall|k: int|
        0 <= k < venv.contexts.len() ==> has_prefix(
            (#[trigger] venv.contexts[k]).hash,
            venv.hash + seq!['@'],
        )
    &&& forall|a: int, b: int|
        0 <= a < b < venv.contexts.len() ==> (#[trigger] venv.contexts[a]).hash
            != (#[trigger] venv.contexts[b]).hash
}

/// Adding contexts keeps the contexts of an environment well-formed.
pub proof fn lemma_with_contexts_wf(
    venv: VenvView,
    state: ResolvedSpecView,
    env_variants: Seq<Pairs>,
    quotes: Pairs,
    n: int,
)
    requires
        contexts_wf(venv),
    ensures
        contexts_wf(
            VenvView {
                contexts: with_contexts(venv.contexts, state, venv.hash, env_variants, quotes, n),
                ..venv
            },
        ),
    decreases n,
{
    if n > 0 {
        lemma_with_contexts_wf(venv, state, env_variants, quotes, n - 1);
        let prev = with_contexts(venv.contexts, state, venv.hash, env_variants, quotes, n - 1);
        let c = new_context(
            state.command,
            command_form(quotes, state.command),
            env_variants[n - 1],
            state.create,
            state.skip_dev_install,
            venv.hash,
        );
        let next = with_contexts(venv.contexts, state, venv.hash, env_variants, quotes, n);
        if !has_context(prev, c.hash) {
            assert(c.hash.subrange(0, (venv.hash + seq!['@']).len() as int) =~= venv.hash
                + seq!['@']);
            assert forall|a: int, b: int| 0 <= a < b < next.len() implies (#[trigger] next[a]).hash
                != (#[trigger] next[b]).hash by {
                assert(next[a] == prev[a]);
                if b < prev.len() {
                    assert(next[b] == prev[b]);
                }
            }
            assert forall|k: int| 0 <= k < next.len() implies has_prefix(
                (#[trigger] next[k]).hash,
                venv.hash + seq!['@'],
            ) by {
                if k < prev.len() {
                    assert(next[k] == prev[k]);
                }
            }
        }
    }
}

/// The resolved environments in the order in which they were first
/// reached, with an index from hash to place.
pub struct ResolvedVenvs {
    venvs: Vec<RiotVenv>,
    index: KeyIndex,
}

impl View for ResolvedVenvs {
    type V = Seq<VenvView>;

    closed spec fn view(&self) -> Seq<VenvView> {
        venvs_view(self.venvs@)
    }
}

impl ResolvedVenvs {
    /// The index holds the hash of each environment at its place, and no
    /// hash twice.
    pub closed spec fn wf(&self) -> bool {
        &&& self.index.wf()
        &&& self.index.keys() == hashes_of(self@)
        &&& forall|i: int| 0 <= i < self@.len() ==> contexts_wf(#[trigger] self@[i])
    }

    /// The contexts of every environment of a well-formed table are
    /// well-formed.
    pub proof fn lemma_contexts_wf(&self)
        requires
            self.wf(),
        ensures
            forall|i: int| 0 <= i < self@.len() ==> contexts_wf(#[trigger] self@[i]),
    {
    }

    /// No two environments of a well-formed table have the same hash.
    pub proof fn lemma_distinct_hashes(&self)
        requires
            self.wf(),
        ensures
            distinct_hashes(self@),
    {
        self.index.lemma_keys_distinct();
        assert forall|i: int, j: int| 0 <= i < j < self@.len() implies (#[trigger] self@[i]).hash
            != (#[trigger] self@[j]).hash by {
            assert(self.index.keys()[i] == self@[i].hash);
            assert(self.index.keys()[j] == self@[j].hash);
        }
    }

    /// A table without environments.
    pub fn new() -> (r: Self)
        ensures
            r.wf(),
            r@ == Seq::<VenvView>::empty(),
    {
        let r = ResolvedVenvs { venvs: Vec::new(), index: KeyIndex::new() };
        assert(r@ =~= Seq::<VenvView>::empty());
        assert(hashes_of(r@) =~= Seq::<Seq<char>>::empty());
        r
    }

    /// The number of environments.
    pub fn len(&self) -> (n: usize)
        ensures
            n == self@.len(),
    {
        self.venvs.len()
    }

    /// The environment at place `i`.
    pub fn get(&self, i: usize) -> (r: &RiotVenv)
        requires
            i < self@.len(),
        ensures
            r@ == self@[i as int],
    {
        &self.venvs[i]
    }

    /// Where the environment with the given hash stands.
    pub fn position(&self, hash: &str) -> (r: Option<usize>)
        requires
            self.wf(),
        ensures
            match r {
                Some(i) => hash_position(self@, hash@) == Some(i as int),
                None => hash_position(self@, hash@) is None,
            },
    {
        let r = self.index.position(hash);
        proof {
            self.lemma_distinct_hashes();
            lemma_hash_position(self@, hash@);
            match r {
                Some(i) => {
                    assert(self.index.keys()[i as int] == self@[i as int].hash);
                },
                None => {
                    if hash_position(self@, hash@) is Some {
                        let p = hash_position(self@, hash@)->0;
                        assert(self.index.keys()[p] == hash@);
                    }
                },
            }
        }
        r
    }

    /// Sets the test target of context `k` of environment `i`.
    pub fn set_pytest_target(&mut self, i: usize, k: usize, target: Option<String>)
        requires
            old(self).wf(),
            i < old(self)@.len(),
            k < old(self)@[i as int].contexts.len(),
        ensures
            final(self).wf(),
            final(self)@ == old(self)@.update(
                i as int,
                VenvView {
                    contexts: old(self)@[i as int].contexts.update(
                        k as int,
                        ContextView {
                            pytest_target: crate::spec_tree::text_of(target),
                            ..old(self)@[i as int].contexts[k as int]
                        },
                    ),
                    ..old(self)@[i as int]
                },
            ),
    {
        let ghost before = self@;
        let ghost contexts = self@[i as int].contexts;
        assert(contexts_wf(before[i as int]));
        self.venvs[i].execution_contexts[k].pytest_target = target;
        proof {
            let after = self@[i as int].contexts;
            assert(after =~= contexts.update(
                k as int,
                ContextView {
                    pytest_target: crate::spec_tree::text_of(target),
                    ..contexts[k as int]
                },
            ));
            assert(self@ =~= before.update(
                i as int,
                VenvView { contexts: after, ..before[i as int] },
            ));
            assert(hashes_of(self@) =~= hashes_of(before));
            assert(contexts_wf(self@[i as int])) by {
                assert forall|a: int| 0 <= a < after.len() implies (#[trigger] after[a]).hash
                    == contexts[a].hash by {}
            }
            assert forall|j: int| 0 <= j < self@.len() implies contexts_wf(
                #[trigger] self@[j],
            ) by {
                if j != i {
                    assert(self@[j] == before[j]);
                }
            }
        }
    }

    /// Adds an environment whose hash is new.
    pub fn push(&mut self, venv: RiotVenv)
        requires
            old(self).wf(),
            hash_position(old(self)@, venv@.hash) is None,
            contexts_wf(venv@),
        ensures
            final(self).wf(),
            final(self)@ == old(self)@.push(venv@),
    {
        proof {
            lemma_hash_position(self@, venv@.hash);
            if self.index.keys().contains(venv@.hash) {
                let p = choose|p: int|
                    0 <= p < self.index.keys().len() && self.index.keys()[p] == venv@.hash;
                assert(self@[p].hash == venv@.hash);
            }
        }
        self.index.push(venv.hash.clone(), self.venvs.len());
        self.venvs.push(venv);
        assert(self@ =~= old(self)@.push(venv@));
        assert(hashes_of(self@) =~= hashes_of(old(self)@).push(venv@.hash));
    }
}

fn context_present(contexts: &Vec<ExecutionContext>, hash: &str) -> (r: bool)
    ensures
        r == has_context(contexts_view(contexts@), hash@),
{
    let mut i: usize = 0;
    while i < contexts.len()
        invariant
            i <= contexts.len(),
            forall|j: int| 0 <= j < i ==> (#[trigger] contexts_view(contexts@)[j]).hash != hash@,
        decreases contexts.len() - i,
    {
        if str_equal(contexts[i].hash.as_str(), hash) {
            assert(contexts_view(contexts@)[i as int].hash == hash@);
            return true;
        }
        i = i + 1;
    }
    false
}

/// The text of a quoted command, where there is one.
pub open spec fn borrowed_text(text: Option<&String>) -> Option<Seq<char>> {
    match text {
        Some(t) => Some(t@),
        None => None,
    }
}

/// The hashes of the contexts that the variants of the variables make, in
/// order; `quoted_command` is the command as it is quoted.
fn context_hashes(
    state: &ResolvedSpec,
    quoted_command: Option<&String>,
    env_variants: &Vec<IndexMap<String, String>>,
) -> (hashes: Vec<String>)
    ensures
        hashes.len() == env_variants.len(),
        forall|i: int|
            0 <= i < hashes.len() ==> (#[trigger] hashes[i])@ == context_hash_text(
                borrowed_text(quoted_command),
                maps_view(env_variants@)[i],
                state.create,
                state.skip_dev_install,
            ),
{
    let mut hashes: Vec<String> = Vec::new();
    let mut i: usize = 0;
    while i < env_variants.len()
        invariant
            i <= env_variants.len(),
            hashes.len() == i,
            forall|k: int|
                0 <= k < i ==> (#[trigger] hashes[k])@ == context_hash_text(
                    borrowed_text(quoted_command),
                    maps_view(env_variants@)[k],
                    state.create,
                    state.skip_dev_install,
                ),
        decreases env_variants.len() - i,
    {
        assert(maps_view(env_variants@)[i as int] == pairs_of(env_variants[i as int]));
        hashes.push(
            RiotHasher::context_hash(
                quoted_command,
                &env_variants[i],
                state.create,
                state.skip_dev_install,
            ),
        );
        i = i + 1;
    }
    hashes
}

/// Adds to an environment the contexts of every variant of the variables;
/// `hashes` holds the hash of each.
fn add_contexts(
    venv: &mut RiotVenv,
    state: &ResolvedSpec,
    env_variants: &Vec<IndexMap<String, String>>,
    hashes: &Vec<String>,
    quotes: &IndexMap<String, String>,
)
    requires
        hashes.len() == env_variants.len(),
        forall|i: int|
            0 <= i < hashes.len() ==> (#[trigger] hashes[i])@ == context_hash_text(
                command_form(pairs_of(*quotes), state@.command),
                maps_view(env_variants@)[i],
                state.create,
                state.skip_dev_install,
            ),
    ensures
        final(venv)@ == with_variants(
            old(venv)@,
            state@,
            maps_view(env_variants@),
            pairs_of(*quotes),
        ),
        grown_from(final(venv)@, old(venv)@),
{
    let mut i: usize = 0;
    while i < env_variants.len()
        invariant
            i <= env_variants.len(),
            hashes.len() == env_variants.len(),
            forall|k: int|
                0 <= k < hashes.len() ==> (#[trigger] hashes[k])@ == context_hash_text(
                    command_form(pairs_of(*quotes), state@.command),
                    maps_view(env_variants@)[k],
                    state.create,
                    state.skip_dev_install,
                ),
            venv@ == (VenvView {
                contexts: with_contexts(
                    old(venv)@.contexts,
                    state@,
                    old(venv)@.hash,
                    maps_view(env_variants@),
                    pairs_of(*quotes),
                    i as int,
                ),
                ..old(venv)@
            }),
            grown_from(venv@, old(venv)@),
        decreases env_variants.len() - i,
    {
        let ghost before = venv@.contexts;
        let env = &env_variants[i];
        assert(maps_view(env_variants@)[i as int] == pairs_of(*env));
        let context = ExecutionContext::new(
            clone_text(&state.command),
            pairs_clone(env),
            state.create,
            state.skip_dev_install,
            venv.hash.as_str(),
            hashes[i].as_str(),
        );
        assert(context@ == new_context(
            state@.command,
            command_form(pairs_of(*quotes), state@.command),
            pairs_of(*env),
            state.create,
            state.skip_dev_install,
            old(venv)@.hash,
        ));
        if !context_present(&venv.execution_contexts, context.hash.as_str()) {
            venv.execution_contexts.push(context);
            assert(contexts_view(venv.execution_contexts@) =~= before.push(context@));
        }
        i = i + 1;
    }
}

fn services_of(services: &IndexMap<String, Vec<String>>, name: &str) -> (r: Vec<String>)
    ensures
        r.deep_view() == services_for(lists_of(*services), name@),
{
    match lists_get(services, name) {
        Some(list) => clone_texts(list),
        None => {
            let r: Vec<String> = Vec::new();
            assert(r.deep_view() =~= Seq::<Seq<char>>::empty());
            r
        },
    }
}

/// What is kept twice is kept.
pub proof fn lemma_kept_transitive(first: Seq<VenvView>, second: Seq<VenvView>, third: Seq<VenvView>)
    requires
        kept(first, second),
        kept(second, third),
    ensures
        kept(first, third),
{
    assert forall|i: int| 0 <= i < first.len() implies grown_from(#[trigger] third[i], first[i]) by {
        assert(grown_from(second[i], first[i]));
        assert(grown_from(third[i], second[i]));
    }
}

/// Adds one combination of version and packages with all its contexts;
/// `hash` is the hash of the environment and `hashes` holds those of the
/// contexts.
fn add_environment(
    acc: &mut ResolvedVenvs,
    state: &ResolvedSpec,
    name: &str,
    python: &str,
    hash: String,
    pkgs: &IndexMap<String, String>,
    services: &IndexMap<String, Vec<String>>,
    env_variants: &Vec<IndexMap<String, String>>,
    hashes: &Vec<String>,
    quotes: &IndexMap<String, String>,
)
    requires
        old(acc).wf(),
        hash@ == hash_in(pairs_of(*quotes), name@, python@, pairs_of(*pkgs)),
        hashes.len() == env_variants.len(),
        forall|i: int|
            0 <= i < hashes.len() ==> (#[trigger] hashes[i])@ == context_hash_text(
                command_form(pairs_of(*quotes), state@.command),
                maps_view(env_variants@)[i],
                state.create,
                state.skip_dev_install,
            ),
    ensures
        final(acc).wf(),
        final(acc)@ == with_environment(
            old(acc)@,
            state@,
            name@,
            python@,
            pairs_of(*pkgs),
            lists_of(*services),
            maps_view(env_variants@),
            pairs_of(*quotes),
        ),
        kept(old(acc)@, final(acc)@),
{
    match acc.position(hash.as_str()) {
        Some(i) => {
            proof {
                lemma_hash_position(acc@, hash@);
                lemma_with_contexts_wf(
                    acc@[i as int],
                    state@,
                    maps_view(env_variants@),
                    pairs_of(*quotes),
                    env_variants.len() as int,
                );
            }
            add_contexts(&mut acc.venvs[i], state, env_variants, hashes, quotes);
            assert(acc@ =~= old(acc)@.update(
                i as int,
                with_variants(
                    old(acc)@[i as int],
                    state@,
                    maps_view(env_variants@),
                    pairs_of(*quotes),
                ),
            ));
            assert(hashes_of(acc@) =~= hashes_of(old(acc)@));
        },
        None => {
            let mut venv = RiotVenv::new(
                name.to_owned(),
                python.to_owned(),
                pairs_clone(pkgs),
                hash,
                services_of(services, name),
            );
            assert(venv@ == fresh_environment(
                name@,
                python@,
                pairs_of(*pkgs),
                lists_of(*services),
                pairs_of(*quotes),
            ));
            proof {
                lemma_with_contexts_wf(
                    venv@,
                    state@,
                    maps_view(env_variants@),
                    pairs_of(*quotes),
                    env_variants.len() as int,
                );
            }
            add_contexts(&mut venv, state, env_variants, hashes, quotes);
            acc.push(venv);
        },
    }
}

/// The quoted form of each version, in order; nothing where the table
/// lacks one of them.
fn quoted_versions<'a>(quotes: &'a IndexMap<String, String>, pys: &Vec<String>) -> (r: Option<
    Vec<&'a String>,
>)
    ensures
        match r {
            Some(forms) => forms.len() == pys.len() && forall|i: int|
                0 <= i < pys.len() ==> quoted(pairs_of(*quotes), #[trigger] pys[i]@) == Some(
                    forms[i]@,
                ),
            None => exists|i: int|
                0 <= i < pys.len() && quoted(pairs_of(*quotes), #[trigger] pys[i]@) is None,
        },
{
    let mut forms: Vec<&'a String> = Vec::new();
    let mut i: usize = 0;
    while i < pys.len()
        invariant
            i <= pys.len(),
            forms.len() == i,
            forall|k: int|
                0 <= k < i ==> quoted(pairs_of(*quotes), #[trigger] pys[k]@) == Some(forms[k]@),
        decreases pys.len() - i,
    {
        match pairs_get(quotes, pys[i].as_str()) {
            Some(form) => {
                forms.push(form);
            },
            None => {
                assert(quoted(pairs_of(*quotes), pys[i as int]@) is None);
                return None;
            },
        }
        i = i + 1;
    }
    Some(forms)
}

/// Adds what a leaf with the accumulated `state` describes. An error
/// leaves the environments as they were.
fn add_leaf(
    acc: &mut ResolvedVenvs,
    state: &ResolvedSpec,
    services: &IndexMap<String, Vec<String>>,
    quotes: &IndexMap<String, String>,
) -> (r: Result<(), ResolveError>)
    requires
        old(acc).wf(),
    ensures
        final(acc).wf(),
        kept(old(acc)@, final(acc)@),
        match r {
            Ok(_) => with_leaf(old(acc)@, state@, lists_of(*services), pairs_of(*quotes)) == Ok::<
                Seq<VenvView>,
                ResolveError,
            >(final(acc)@),
            Err(e) => with_leaf(old(acc)@, state@, lists_of(*services), pairs_of(*quotes)) == Err::<
                Seq<VenvView>,
                ResolveError,
            >(e) && final(acc)@ == old(acc)@,
        },
{
    match (&state.name, &state.pys) {
        (Some(name), Some(pys)) => {
            let pkg_variants = match expand_product(&state.pkgs) {
                Some(v) => v,
                None => {
                    return Err(ResolveError::TooManyVariants);
                },
            };
            let env_variants = match expand_product(&state.env) {
                Some(v) => v,
                None => {
                    return Err(ResolveError::TooManyVariants);
                },
            };
            assert(maps_view(pkg_variants@).len() == pkg_variants.len());
            assert(maps_view(env_variants@).len() == env_variants.len());
            assert(state@.name == Some(name@));
            assert(state@.pys == Some(pys.deep_view()));
            if pkg_variants.len() == 0 || env_variants.len() == 0 {
                return Ok(());
            }
            let quoted_name = match pairs_get(quotes, name.as_str()) {
                Some(form) => form,
                None => {
                    return Err(ResolveError::MissingQuote);
                },
            };
            let quoted_command = match &state.command {
                Some(command) => {
                    assert(state@.command == Some(command@));
                    match pairs_get(quotes, command.as_str()) {
                        Some(form) => Some(form),
                        None => {
                            return Err(ResolveError::MissingQuote);
                        },
                    }
                },
                None => None,
            };
            let quoted_pys = match quoted_versions(quotes, pys) {
                Some(forms) => forms,
                None => {
                    proof {
                        let i = choose|i: int|
                            0 <= i < pys.len() && quoted(pairs_of(*quotes), #[trigger] pys[i]@)
                                is None;
                        assert(pys.deep_view()[i] == pys[i]@);
                    }
                    return Err(ResolveError::MissingQuote);
                },
            };
            assert(leaf_quoted(state@, pairs_of(*quotes))) by {
                assert forall|i: int| 0 <= i < pys.deep_view().len() implies quoted(
                    pairs_of(*quotes),
                    #[trigger] pys.deep_view()[i],
                ) is Some by {
                    assert(pys.deep_view()[i] == pys[i]@);
                }
            }
            assert(borrowed_text(quoted_command) == command_form(
                pairs_of(*quotes),
                state@.command,
            ));
            let hashes = context_hashes(state, quoted_command, &env_variants);
            let mut p: usize = 0;
            while p < pys.len()
                invariant
                    p <= pys.len(),
                    acc.wf(),
                    kept(old(acc)@, acc@),
                    quoted_pys.len() == pys.len(),
                    forall|i: int|
                        0 <= i < pys.len() ==> quoted(pairs_of(*quotes), #[trigger] pys[i]@)
                            == Some(quoted_pys[i]@),
                    quoted(pairs_of(*quotes), name@) == Some(quoted_name@),
                    hashes.len() == env_variants.len(),
                    forall|i: int|
                        0 <= i < hashes.len() ==> (#[trigger] hashes[i])@ == context_hash_text(
                            command_form(pairs_of(*quotes), state@.command),
                            maps_view(env_variants@)[i],
                            state.create,
                            state.skip_dev_install,
                        ),
                    maps_view(pkg_variants@) == product(state@.pkgs),
                    maps_view(env_variants@) == product(state@.env),
                    state@.name == Some(name@),
                    state@.pys == Some(pys.deep_view()),
                    acc@ == with_pythons(
                        old(acc)@,
                        state@,
                        name@,
                        pys.deep_view(),
                        maps_view(pkg_variants@),
                        lists_of(*services),
                        maps_view(env_variants@),
                        pairs_of(*quotes),
                        p as int,
                    ),
                decreases pys.len() - p,
            {
                let ghost start = acc@;
                let mut k: usize = 0;
                while k < pkg_variants.len()
                    invariant
                        k <= pkg_variants.len(),
                        p < pys.len(),
                        acc.wf(),
                        kept(old(acc)@, acc@),
                        quoted_pys.len() == pys.len(),
                        quoted(pairs_of(*quotes), pys[p as int]@) == Some(quoted_pys[p as int]@),
                        quoted(pairs_of(*quotes), name@) == Some(quoted_name@),
                        hashes.len() == env_variants.len(),
                        forall|i: int|
                            0 <= i < hashes.len() ==> (#[trigger] hashes[i])@
                                == context_hash_text(
                                command_form(pairs_of(*quotes), state@.command),
                                maps_view(env_variants@)[i],
                                state.create,
                                state.skip_dev_install,
                            ),
                        acc@ == with_package_variants(
                            start,
                            state@,
                            name@,
                            pys.deep_view()[p as int],
                            maps_view(pkg_variants@),
                            lists_of(*services),
                            maps_view(env_variants@),
                            pairs_of(*quotes),
                            k as int,
                        ),
                    decreases pkg_variants.len() - k,
                {
                    assert(maps_view(pkg_variants@)[k as int] == pairs_of(pkg_variants[k as int]));
                    assert(pys.deep_view()[p as int] == pys[p as int]@);
                    let ghost before = acc@;
                    let hash = environment_hash_of(
                        quoted_name.as_str(),
                        quoted_pys[p].as_str(),
                        &pkg_variants[k],
                    );
                    add_environment(
                        acc,
                        state,
                        name.as_str(),
                        pys[p].as_str(),
                        hash,
                        &pkg_variants[k],
                        services,
                        &env_variants,
                        &hashes,
                        quotes,
                    );
                    proof {
                        lemma_kept_transitive(old(acc)@, before, acc@);
                    }
                    k = k + 1;
                }
                p = p + 1;
            }
            Ok(())
        },
        _ => Ok(()),
    }
}

/// Walks the subtree of `venv` and adds the environments of its leaves to
/// `acc`; `state` is what the parent of `venv` has accumulated, and `quotes`
/// holds the quoted form of each text that goes into a hash. The walk ends
/// at the first error. Whatever the outcome, the environments that were
/// there before are kept; a branch that is cut, and a leaf without a name or
/// without versions, add nothing and are no error.
pub fn collect_riot_venvs(
    venv: &PyVenv,
    state: &ResolvedSpec,
    acc: &mut ResolvedVenvs,
    services: &IndexMap<String, Vec<String>>,
    quotes: &IndexMap<String, String>,
) -> (r: Result<(), ResolveError>)
    requires
        old(acc).wf(),
    ensures
        final(acc).wf(),
        kept(old(acc)@, final(acc)@),
        match r {
            Ok(_) => resolved_node(
                *venv,
                state@,
                old(acc)@,
                lists_of(*services),
                pairs_of(*quotes),
            ) == Ok::<Seq<VenvView>, ResolveError>(final(acc)@),
            Err(e) => resolved_node(
                *venv,
                state@,
                old(acc)@,
                lists_of(*services),
                pairs_of(*quotes),
            ) == Err::<Seq<VenvView>, ResolveError>(e),
        },
        merged(state@, *venv) is None ==> r is Ok && final(acc)@ == old(acc)@,
        (merged(state@, *venv) matches Some(next) && venv.venvs.len() == 0 && (next.name is None
            || next.pys is None)) ==> r is Ok && final(acc)@ == old(acc)@,
    decreases venv,
{
    let next_state = match state.merge(venv) {
        Some(next) => next,
        None => {
            return Ok(());
        },
    };
    if venv.venvs.len() == 0 {
        return add_leaf(acc, &next_state, services, quotes);
    }
    let mut i: usize = 0;
    while i < venv.venvs.len()
        invariant
            i <= venv.venvs.len(),
            venv.venvs.len() > 0,
            merged(state@, *venv) == Some(next_state@),
            acc.wf(),
            kept(old(acc)@, acc@),
            resolved_children(
                *venv,
                next_state@,
                old(acc)@,
                lists_of(*services),
                pairs_of(*quotes),
                i as int,
            ) == Ok::<Seq<VenvView>, ResolveError>(acc@),
        decreases venv.venvs.len() - i,
    {
        let ghost before = acc@;
        let r = collect_riot_venvs(&venv.venvs[i], &next_state, acc, services, quotes);
        proof {
            lemma_kept_transitive(old(acc)@, before, acc@);
        }
        match r {
            Ok(_) => {},
            Err(e) => {
                proof {
                    lemma_children_error(
                        *venv,
                        next_state@,
                        old(acc)@,
                        lists_of(*services),
                        pairs_of(*quotes),
                        i + 1,
                        venv.venvs.len() as int,
                    );
                }
                return Err(e);
            },
        }
        i = i + 1;
    }
    Ok(())
}

/// Once a child cannot be resolved, the walk of the children ends with its
/// error.
proof fn lemma_children_error(
    parent: PyVenv,
    state: ResolvedSpecView,
    acc: Seq<VenvView>,
    services: Variants,
    quotes: Pairs,
    n: int,
    m: int,
)
    requires
        1 <= n <= m <= parent.venvs.len(),
        resolved_children(parent, state, acc, services, quotes, n) is Err,
    ensures
        resolved_children(parent, state, acc, services, quotes, m) == resolved_children(
            parent,
            state,
            acc,
            services,
            quotes,
            n,
        ),
    decreases m - n,
{
    if m > n {
        lemma_children_error(parent, state, acc, services, quotes, n, m - 1);
    }
}

/// The variables of each context.
pub open spec fn context_envs(contexts: Seq<ContextView>) -> Seq<Pairs> {
    Seq::new(contexts.len(), |i: int| contexts[i].env)
}

/// The environment, with the variables that all its contexts share.
pub open spec fn with_shared_env(venv: VenvView) -> VenvView {
    VenvView { shared_env: shared_pairs(context_envs(venv.contexts)), ..venv }
}

/// The environments that a tree describes, each with the variables that
/// all its contexts share, or the first error of the walk.
pub open spec fn normalized(root: PyVenv, services: Variants, quotes: Pairs) -> Result<
    Seq<VenvView>,
    ResolveError,
> {
    match resolved_node(root, initial_state(), Seq::empty(), services, quotes) {
        Ok(venvs) => Ok(Seq::new(venvs.len(), |i: int| with_shared_env(venvs[i]))),
        Err(e) => Err(e),
    }
}

fn set_shared_env(venv: &mut RiotVenv)
    ensures
        final(venv)@ == with_shared_env(old(venv)@),
{
    let mut maps: Vec<&IndexMap<String, String>> = Vec::new();
    let mut i: usize = 0;
    while i < venv.execution_contexts.len()
        invariant
            i <= venv.execution_contexts.len(),
            maps.len() == i,
            forall|j: int|
                0 <= j < i ==> pairs_of(*#[trigger] maps[j]) == venv.execution_contexts[j]@.env,
        decreases venv.execution_contexts.len() - i,
    {
        maps.push(&venv.execution_contexts[i].env);
        i = i + 1;
    }
    assert(refs_view(maps@) =~= context_envs(venv@.contexts));
    let shared = shared_entries(&maps);
    venv.shared_env = shared;
}

/// Resolves the tree below `root` into its environments, in the order in
/// which the walk first reaches them. `services` lists the services that
/// each name declares, and `quotes` holds the quoted form of each text that
/// goes into a hash.
pub fn normalize_venvs(
    root: &PyVenv,
    services: &IndexMap<String, Vec<String>>,
    quotes: &IndexMap<String, String>,
) -> (r: Result<ResolvedVenvs, ResolveError>)
    ensures
        match r {
            Ok(table) => table.wf() && normalized(*root, lists_of(*services), pairs_of(*quotes))
                == Ok::<Seq<VenvView>, ResolveError>(table@),
            Err(e) => normalized(*root, lists_of(*services), pairs_of(*quotes)) == Err::<
                Seq<VenvView>,
                ResolveError,
            >(e),
        },
{
    let mut table = ResolvedVenvs::new();
    let state = ResolvedSpec::new();
    match collect_riot_venvs(root, &state, &mut table, services, quotes) {
        Ok(_) => {},
        Err(e) => {
            return Err(e);
        },
    }
    let ghost resolved = table@;
    let mut i: usize = 0;
    while i < table.venvs.len()
        invariant
            i <= table.venvs.len(),
            table.wf(),
            table@.len() == resolved.len(),
            forall|j: int| 0 <= j < i ==> #[trigger] table@[j] == with_shared_env(resolved[j]),
            forall|j: int| i <= j < resolved.len() ==> #[trigger] table@[j] == resolved[j],
        decreases table.venvs.len() - i,
    {
        let ghost before = table@;
        let ghost before_venvs = table.venvs@;
        set_shared_env(&mut table.venvs[i]);
        proof {
            assert(table.venvs@.len() == before_venvs.len());
            assert forall|j: int| 0 <= j < before.len() && j != i implies #[trigger] table@[j]
                == before[j] by {
                assert(table.venvs@[j] == before_venvs[j]);
            }
            assert(table@[i as int] == with_shared_env(before[i as int]));
            assert(hashes_of(table@) =~= hashes_of(before));
            assert forall|j: int| 0 <= j < i + 1 implies #[trigger] table@[j] == with_shared_env(
                resolved[j],
            ) by {
                if j < i {
                    assert(before[j] == with_shared_env(resolved[j]));
                } else {
                    assert(before[j] == resolved[j]);
                }
            }
            assert forall|j: int| i + 1 <= j < resolved.len() implies #[trigger] table@[j]
                == resolved[j] by {
                assert(before[j] == resolved[j]);
            }
        }
        i = i + 1;
    }
    assert(table@ =~= Seq::new(resolved.len(), |i: int| with_shared_env(resolved[i])));
    Ok(table)
}

/// Whether the table holds a quoted form for the name, the command and
/// each version of the node and of every node below it.
pub open spec fn covers(quotes: Pairs, node: PyVenv) -> bool
    decreases node,
{
    &&& node.name matches Some(name) ==> quoted(quotes, name@) is Some
    &&& node.command matches Some(command) ==> quoted(quotes, command@) is Some
    &&& forall|i: int| 0 <= i < node.pys.len() ==> quoted(quotes, #[trigger] node.pys[i]@) is Some
    &&& forall|i: int| 0 <= i < node.venvs.len() ==> covers(quotes, #[trigger] node.venvs[i])
}

/// Whether `after` holds every quote of `before`.
pub open spec fn extends(before: Pairs, after: Pairs) -> bool {
    forall|text: Seq<char>| #[trigger]
        quoted(before, text) is Some ==> quoted(after, text) == quoted(before, text)
}

/// A table that holds more still covers the node.
pub proof fn lemma_covers_extends(before: Pairs, after: Pairs, node: PyVenv)
    requires
        covers(before, node),
        extends(before, after),
    ensures
        covers(after, node),
    decreases node,
{
    assert forall|i: int| 0 <= i < node.venvs.len() implies covers(
        after,
        #[trigger] node.venvs[i],
    ) by {
        lemma_covers_extends(before, after, node.venvs[i]);
    }
}

/// Adds to the table a quoted form for each text of the subtree of `node`
/// that it lacks.
pub fn add_tree_quotes(node: &PyVenv, quotes: &mut IndexMap<String, String>)
    ensures
        covers(pairs_of(*final(quotes)), *node),
        extends(pairs_of(*old(quotes)), pairs_of(*final(quotes))),
    decreases node,
{
    match &node.name {
        Some(name) => {
            add_quote(quotes, name.as_str());
        },
        None => {},
    }
    match &node.command {
        Some(command) => {
            add_quote(quotes, command.as_str());
        },
        None => {},
    }
    let mut i: usize = 0;
    while i < node.pys.len()
        invariant
            i <= node.pys.len(),
            extends(pairs_of(*old(quotes)), pairs_of(*quotes)),
            node.name matches Some(name) ==> quoted(pairs_of(*quotes), name@) is Some,
            node.command matches Some(command) ==> quoted(pairs_of(*quotes), command@) is Some,
            forall|k: int| 0 <= k < i ==> quoted(pairs_of(*quotes), #[trigger] node.pys[k]@) is Some,
        decreases node.pys.len() - i,
    {
        add_quote(quotes, node.pys[i].as_str());
        i = i + 1;
    }
    let mut j: usize = 0;
    while j < node.venvs.len()
        invariant
            j <= node.venvs.len(),
            extends(pairs_of(*old(quotes)), pairs_of(*quotes)),
            node.name matches Some(name) ==> quoted(pairs_of(*quotes), name@) is Some,
            node.command matches Some(command) ==> quoted(pairs_of(*quotes), command@) is Some,
            forall|k: int|
                0 <= k < node.pys.len() ==> quoted(pairs_of(*quotes), #[trigger] node.pys[k]@)
                    is Some,
            forall|k: int| 0 <= k < j ==> covers(pairs_of(*quotes), #[trigger] node.venvs[k]),
        decreases node.venvs.len() - j,
    {
        let ghost before = pairs_of(*quotes);
        add_tree_quotes(&node.venvs[j], quotes);
        proof {
            assert forall|k: int| 0 <= k < j implies covers(
                pairs_of(*quotes),
                #[trigger] node.venvs[k],
            ) by {
                lemma_covers_extends(before, pairs_of(*quotes), node.venvs[k]);
            }
        }
        j = j + 1;
    }
}

/// A table with a quoted form for each name, command and version of the
/// tree: the form that the interpreter gives, or Rust's where the
/// interpreter cannot be asked.
pub fn quote_tree(root: &PyVenv) -> (quotes: IndexMap<String, String>)
    ensures
        covers(pairs_of(quotes), *root),
{
    let mut quotes = pairs_new();
    add_tree_quotes(root, &mut quotes);
    quotes
}

/// Below a node that the table covers, with a state whose texts the table
/// holds, no quote is missing.
pub proof fn lemma_covered_node(
    node: PyVenv,
    state: ResolvedSpecView,
    acc: Seq<VenvView>,
    services: Variants,
    quotes: Pairs,
)
    requires
        covers(quotes, node),
        leaf_quoted(state, quotes),
    ensures
        resolved_node(node, state, acc, services, quotes) != Err::<Seq<VenvView>, ResolveError>(
            ResolveError::MissingQuote,
        ),
    decreases node, node.venvs.len() + 1,
{
    match merged(state, node) {
        None => {},
        Some(next) => {
            assert(leaf_quoted(next, quotes)) by {
                if node.pys.len() > 0 {
                    assert forall|i: int| 0 <= i < node.pys.deep_view().len() implies quoted(
                        quotes,
                        #[trigger] node.pys.deep_view()[i],
                    ) is Some by {
                        assert(node.pys.deep_view()[i] == node.pys[i]@);
                    }
                    if state.pys is Some {
                        let left = crate::spec_tree::narrowed(
                            state.pys->0,
                            node.pys.deep_view(),
                            node.pys.len() as int,
                        );
                        crate::spec_tree::lemma_narrowed_members(
                            state.pys->0,
                            node.pys.deep_view(),
                            node.pys.len() as int,
                        );
                        assert forall|i: int| 0 <= i < left.len() implies quoted(
                            quotes,
                            #[trigger] left[i],
                        ) is Some by {
                            assert(node.pys.deep_view().contains(left[i]));
                        }
                    }
                }
            }
            if node.venvs.len() > 0 {
                lemma_covered_children(node, next, acc, services, quotes, node.venvs.len() as int);
            }
        },
    }
}

/// Among children that the table covers, no quote is missing.
pub proof fn lemma_covered_children(
    parent: PyVenv,
    state: ResolvedSpecView,
    acc: Seq<VenvView>,
    services: Variants,
    quotes: Pairs,
    n: int,
)
    requires
        covers(quotes, parent),
        leaf_quoted(state, quotes),
    ensures
        resolved_children(parent, state, acc, services, quotes, n) != Err::<
            Seq<VenvView>,
            ResolveError,
        >(ResolveError::MissingQuote),
    decreases parent, n,
{
    if 0 < n <= parent.venvs.len() {
        lemma_covered_children(parent, state, acc, services, quotes, n - 1);
        match resolved_children(parent, state, acc, services, quotes, n - 1) {
            Ok(a) => {
                assert(covers(quotes, parent.venvs[n - 1]));
                lemma_covered_node(parent.venvs[n - 1], state, a, services, quotes);
            },
            Err(_) => {},
        }
    }
}

/// With a table that covers the tree, resolution fails only where a leaf
/// has too many combinations.
pub proof fn lemma_covered_tree_resolves(root: PyVenv, services: Variants, quotes: Pairs)
    requires
        covers(quotes, root),
    ensures
        normalized(root, services, quotes) is Err ==> normalized(root, services, quotes) == Err::<
            Seq<VenvView>,
            ResolveError,
        >(ResolveError::TooManyVariants),
{
    lemma_covered_node(root, initial_state(), Seq::empty(), services, quotes);
}

/// Resolves the tree below `root` with the quotes that `quote_tree` makes
/// for it. No quote is missing then: resolution fails only where a leaf has
/// more combinations than can be counted.
pub fn normalize_tree(root: &PyVenv, services: &IndexMap<String, Vec<String>>) -> (r: Result<
    ResolvedVenvs,
    ResolveError,
>)
    ensures
        exists|quotes: Pairs| #[trigger]
            covers(quotes, *root) && match r {
                Ok(table) => table.wf() && normalized(*root, lists_of(*services), quotes) == Ok::<
                    Seq<VenvView>,
                    ResolveError,
                >(table@),
                Err(e) => e == ResolveError::TooManyVariants && normalized(
                    *root,
                    lists_of(*services),
                    quotes,
                ) == Err::<Seq<VenvView>, ResolveError>(e),
            },
{
    let quotes = quote_tree(root);
    proof {
        lemma_covered_tree_resolves(*root, lists_of(*services), pairs_of(quotes));
    }
    normalize_venvs(root, services, &quotes)
}

/// Resolution is a function of the tree, the services and the quotes: two
/// runs on the same values give the same environments and contexts, and so
/// the same hashes.
pub proof fn lemma_resolution_deterministic(
    root: PyVenv,
    services: Variants,
    quotes: Pairs,
    first: ResolvedVenvs,
    second: ResolvedVenvs,
)
    requires
        normalized(root, services, quotes) == Ok::<Seq<VenvView>, ResolveError>(first@),
        normalized(root, services, quotes) == Ok::<Seq<VenvView>, ResolveError>(second@),
    ensures
        first@ == second@,
        hashes_of(first@) == hashes_of(second@),
{
}

/// A node whose versions overlap with none of those of its parent adds
/// nothing, whatever stands below it, and is no error.
pub proof fn lemma_incompatible_branch_adds_nothing(
    node: PyVenv,
    state: ResolvedSpecView,
    acc: Seq<VenvView>,
    services: Variants,
    quotes: Pairs,
)
    requires
        node.pys.len() > 0,
        state.pys is Some,
        !crate::spec_tree::any_compatible(state.pys->0, node.pys.deep_view()),
    ensures
        merged(state, node) is None,
        resolved_node(node, state, acc, services, quotes) == Ok::<Seq<VenvView>, ResolveError>(acc),
{
    crate::spec_tree::lemma_narrowed_to_nothing(
        state.pys->0,
        node.pys.deep_view(),
        node.pys.len() as int,
    );
}

} // verus!
