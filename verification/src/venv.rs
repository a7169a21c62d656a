//! Resolved environments and their execution contexts.

use vstd::prelude::*;
use vstd::string::StringExecFns;
use indexmap::IndexMap;
use crate::hashing::context_hash_text;
use crate::ordered_map::{pairs_clone, pairs_new, pairs_of};
use crate::spec_tree::{clone_text, clone_texts, text_of};
use crate::text::push_char;

verus! {

/// Values by key, in the order of the keys.
pub type Pairs = Seq<(Seq<char>, Seq<char>)>;

/// One concrete way to run in an environment: a command and variables.
#[derive(Debug)]
pub struct ExecutionContext {
    pub command: Option<String>,
    pub pytest_target: Option<String>,
    pub env: IndexMap<String, String>,
    pub create: bool,
    pub skip_dev_install: bool,
    pub hash: String,
}

/// An execution context as plain values.
pub struct ContextView {
    pub command: Option<Seq<char>>,
    pub pytest_target: Option<Seq<char>>,
    pub env: Pairs,
    pub create: bool,
    pub skip_dev_install: bool,
    pub hash: Seq<char>,
}

impl View for ExecutionContext {
    type V = ContextView;

    open spec fn view(&self) -> ContextView {
        ContextView {
            command: text_of(self.command),
            pytest_target: text_of(self.pytest_target),
            env: pairs_of(self.env),
            create: self.create,
            skip_dev_install: self.skip_dev_install,
            hash: self.hash@,
        }
    }
}

/// A fully resolved environment: one interpreter version and one set of
/// packages, with the contexts that run in it.
#[derive(Debug)]
pub struct RiotVenv {
    pub name: String,
    pub python: String,
    pub pkgs: IndexMap<String, String>,
    pub hash: String,
    pub services: Vec<String>,
    pub execution_contexts: Vec<ExecutionContext>,
    pub shared_pkgs: IndexMap<String, String>,
    pub shared_env: IndexMap<String, String>,
}

/// A resolved environment as plain values.
pub struct VenvView {
    pub name: Seq<char>,
    pub python: Seq<char>,
    pub pkgs: Pairs,
    pub hash: Seq<char>,
    pub services: Seq<Seq<char>>,
    pub contexts: Seq<ContextView>,
    pub shared_pkgs: Pairs,
    pub shared_env: Pairs,
}

/// The contexts as plain values.
pub open spec fn contexts_view(contexts: Seq<ExecutionContext>) -> Seq<ContextView> {
    Seq::new(contexts.len(), |i: int| contexts[i]@)
}

impl View for RiotVenv {
    type V = VenvView;

    open spec fn view(&self) -> VenvView {
        VenvView {
            name: self.name@,
            python: self.python@,
            pkgs: pairs_of(self.pkgs),
            hash: self.hash@,
            services: self.services.deep_view(),
            contexts: contexts_view(self.execution_contexts@),
            shared_pkgs: pairs_of(self.shared_pkgs),
            shared_env: pairs_of(self.shared_env),
        }
    }
}

/// The hash of a context under the environment with hash `base_hash`.
pub open spec fn compound_hash(base_hash: Seq<char>, ctx_hash: Seq<char>) -> Seq<char> {
    base_hash + seq!['@'] + ctx_hash
}

/// The context that a command, variables and flags make under the
/// environment with hash `base_hash`; `quoted_command` is the command as it
/// is quoted for the hash.
pub open spec fn new_context(
    command: Option<Seq<char>>,
    quoted_command: Option<Seq<char>>,
    env: Pairs,
    create: bool,
    skip_dev_install: bool,
    base_hash: Seq<char>,
) -> ContextView {
    ContextView {
        command,
        pytest_target: None,
        env,
        create,
        skip_dev_install,
        hash: compound_hash(
            base_hash,
            context_hash_text(quoted_command, env, create, skip_dev_install),
        ),
    }
}

impl Clone for ExecutionContext {
    fn clone(&self) -> (r: Self)
        ensures
            r@ == self@,
    {
        ExecutionContext {
            command: clone_text(&self.command),
            pytest_target: clone_text(&self.pytest_target),
            env: pairs_clone(&self.env),
            create: self.create,
            skip_dev_install: self.skip_dev_install,
            hash: self.hash.clone(),
        }
    }
}

/// A copy of a list of contexts.
pub fn clone_contexts(v: &Vec<ExecutionContext>) -> (r: Vec<ExecutionContext>)
    ensures
        contexts_view(r@) == contexts_view(v@),
{
    let mut r: Vec<ExecutionContext> = Vec::new();
    let mut i: usize = 0;
    while i < v.len()
        invariant
            i <= v.len(),
            r.len() == i,
            forall|j: int| 0 <= j < i ==> r[j]@ == v[j]@,
        decreases v.len() - i,
    {
        r.push(v[i].clone());
        i = i + 1;
    }
    assert(contexts_view(r@) =~= contexts_view(v@));
    r
}

impl Clone for RiotVenv {
    fn clone(&self) -> (r: Self)
        ensures
            r@ == self@,
    {
        RiotVenv {
            name: self.name.clone(),
            python: self.python.clone(),
            pkgs: pairs_clone(&self.pkgs),
            hash: self.hash.clone(),
            services: clone_texts(&self.services),
            execution_contexts: clone_contexts(&self.execution_contexts),
            shared_pkgs: pairs_clone(&self.shared_pkgs),
            shared_env: pairs_clone(&self.shared_env),
        }
    }
}

impl ExecutionContext {
    /// The context that runs `command` with the variables `env` in the
    /// environment with hash `base_hash`; `ctx_hash` is the context's own
    /// part of the hash. No test target is set.
    pub fn new(
        command: Option<String>,
        env: IndexMap<String, String>,
        create: bool,
        skip_dev_install: bool,
        base_hash: &str,
        ctx_hash: &str,
    ) -> (r: Self)
        ensures
            r@ == (ContextView {
                command: text_of(command),
                pytest_target: None,
                env: pairs_of(env),
                create,
                skip_dev_install,
                hash: compound_hash(base_hash@, ctx_hash@),
            }),
    {
        let mut hash = String::from_str(base_hash);
        push_char(&mut hash, '@');
        hash.append(ctx_hash);
        assert(hash@ =~= compound_hash(base_hash@, ctx_hash@));
        ExecutionContext { command, pytest_target: None, env, create, skip_dev_install, hash }
    }
}

impl RiotVenv {
    /// An environment without contexts.
    pub fn new(
        name: String,
        python: String,
        pkgs: IndexMap<String, String>,
        hash: String,
        services: Vec<String>,
    ) -> (r: Self)
        ensures
            r@ == (VenvView {
                name: name@,
                python: python@,
                pkgs: pairs_of(pkgs),
                hash: hash@,
                services: services.deep_view(),
                contexts: Seq::empty(),
                shared_pkgs: Seq::empty(),
                shared_env: Seq::empty(),
            }),
    {
        let r = RiotVenv {
            name,
            python,
            pkgs,
            hash,
            services,
            execution_contexts: Vec::new(),
            shared_pkgs: pairs_new(),
            shared_env: pairs_new(),
        };
        assert(contexts_view(r.execution_contexts@) =~= Seq::empty());
        r
    }
}

} // verus!
