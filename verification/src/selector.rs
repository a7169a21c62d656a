//! Selection of resolved environments by hash, by compound hash, or by a
//! pattern for their names.

use vstd::prelude::*;
use fancy_regex::Regex;
use indexmap::IndexMap;
use crate::config::Selector;
use crate::ordered_map::pairs_of;
use crate::resolve::{hash_position, lemma_hash_position, venvs_view, ResolvedVenvs};
use crate::shared::{refs_view, shared_entries, shared_pairs};
use crate::spec_tree::clone_texts;
use crate::text::{chars_of, str_equal};
use crate::venv::{contexts_view, ContextView, ExecutionContext, Pairs, RiotVenv, VenvView};

verus! {

/// A failure of the `fancy_regex` crate; nothing is known of it.
#[verifier::external_type_specification]
#[verifier::external_body]
pub struct ExRegexError(fancy_regex::Error);

/// Whether the text is a regular expression that can be compiled.
pub uninterp spec fn regex_compiles(pattern: Seq<char>) -> bool;

/// Whether the regular expression that the pattern compiles to, with the
/// options that the engine starts with, matches somewhere in the text;
/// nothing where the search gives up.
pub uninterp spec fn regex_matches(pattern: Seq<char>, text: Seq<char>) -> Option<bool>;

/// Why a pattern cannot be compiled; nothing where it can.
///
/// Trusted: `fancy_regex::Regex::new` succeeds on the patterns that can be
/// parsed and compiled, which depends on the pattern alone.
#[verifier::external_body]
pub(crate) fn regex_fault(pattern: &str) -> (r: Option<fancy_regex::Error>)
    ensures
        r is None <==> regex_compiles(pattern@),
{
    Regex::new(pattern).err()
}

/// Whether the regular expression that the pattern compiles to matches
/// somewhere in the text.
///
/// Trusted: `fancy_regex::Regex::new` followed by `Regex::is_match`. The
/// pattern is compiled here, with the options that the engine starts with,
/// so that the result, a match, no match, or a failed search, depends on the
/// pattern and the text alone.
#[verifier::external_body]
pub(crate) fn regex_is_match(pattern: &str, text: &str) -> (r: Result<bool, fancy_regex::Error>)
    requires
        regex_compiles(pattern@),
    ensures
        match r {
            Ok(b) => regex_matches(pattern@, text@) == Some(b),
            Err(_) => regex_matches(pattern@, text@) is None,
        },
{
    Regex::new(pattern)?.is_match(text)
}

/// What the regular-expression engine says of a failure.
///
/// Trusted: the `Display` of `fancy_regex::Error`; nothing is claimed of
/// the text.
#[verifier::external_body]
pub(crate) fn regex_error_text(err: &fancy_regex::Error) -> String {
    format!("{err}")
}

/// Why a selection failed.
#[derive(Debug)]
pub enum SelectError {
    /// The pattern is no regular expression; with the engine's message.
    InvalidPattern(String),
    /// The search for the pattern in a name gave up; with the engine's
    /// message.
    MatchFailed(String),
}

/// The number of characters of a short hash.
pub const HASH_DIGITS: usize = crate::hashing::SHORT_HASH_LEN;

pub open spec fn is_hex_lower(c: char) -> bool {
    ('0' <= c && c <= '9') || ('a' <= c && c <= 'f')
}

/// Whether the text has the shape of a short hash: seven lowercase
/// hexadecimal digits.
pub open spec fn short_hash_text(s: Seq<char>) -> bool {
    &&& s.len() == HASH_DIGITS
    &&& forall|i: int| 0 <= i < s.len() ==> is_hex_lower(#[trigger] s[i])
}

/// The environment's hash in a compound hash: two short hashes with `@`
/// between them; nothing for a text of another shape.
pub open spec fn compound_base(s: Seq<char>) -> Option<Seq<char>> {
    if s.len() == 2 * HASH_DIGITS + 1 && s[HASH_DIGITS as int] == '@' && short_hash_text(
        s.take(HASH_DIGITS as int),
    ) && short_hash_text(s.skip(HASH_DIGITS + 1)) {
        Some(s.take(HASH_DIGITS as int))
    } else {
        None
    }
}

fn all_hex(v: &Vec<char>, from: usize, to: usize) -> (r: bool)
    requires
        from <= to <= v.len(),
    ensures
        r == (forall|i: int| from <= i < to ==> is_hex_lower(#[trigger] v@[i])),
{
    let mut i: usize = from;
    while i < to
        invariant
            from <= i <= to <= v.len(),
            forall|j: int| from <= j < i ==> is_hex_lower(#[trigger] v@[j]),
        decreases to - i,
    {
        let c = v[i];
        if !((c >= '0' && c <= '9') || (c >= 'a' && c <= 'f')) {
            return false;
        }
        i = i + 1;
    }
    true
}

/// Whether the text has the shape of a short hash.
pub fn is_short_hash(ident: &str) -> (r: bool)
    ensures
        r == short_hash_text(ident@),
{
    let v = chars_of(ident);
    if v.len() != HASH_DIGITS {
        return false;
    }
    all_hex(&v, 0, HASH_DIGITS)
}

/// The environment's hash in a compound hash.
pub fn parse_ctx_hash(ident: &str) -> (r: Option<String>)
    ensures
        match r {
            Some(base) => compound_base(ident@) == Some(base@),
            None => compound_base(ident@) is None,
        },
{
    let v = chars_of(ident);
    if v.len() != 2 * HASH_DIGITS + 1 || v[HASH_DIGITS] != '@' {
        return None;
    }
    let left = all_hex(&v, 0, HASH_DIGITS);
    let right = all_hex(&v, HASH_DIGITS + 1, 2 * HASH_DIGITS + 1);
    proof {
        let a = ident@.take(HASH_DIGITS as int);
        let b = ident@.skip(HASH_DIGITS + 1);
        assert(forall|i: int| 0 <= i < a.len() ==> a[i] == v@[i]);
        assert(forall|i: int| 0 <= i < b.len() ==> b[i] == v@[i + HASH_DIGITS + 1]);
        if left {
            assert(short_hash_text(a));
        } else {
            let i = choose|i: int| 0 <= i < HASH_DIGITS && !is_hex_lower(#[trigger] v@[i]);
            assert(!is_hex_lower(a[i]));
        }
        if right {
            assert(short_hash_text(b));
        } else {
            let i = choose|i: int|
                HASH_DIGITS + 1 <= i < 2 * HASH_DIGITS + 1 && !is_hex_lower(#[trigger] v@[i]);
            assert(!is_hex_lower(b[i - HASH_DIGITS - 1]));
        }
    }
    if left && right {
        Some(crate::text::string_of_range(&v, 0, HASH_DIGITS))
    } else {
        None
    }
}

/// The pattern that a selector gives; the empty pattern, which every name
/// matches, where it gives none or gives `*`.
pub open spec fn pattern_of(selector: Selector) -> Seq<char> {
    let p = match selector {
        Selector::All => Seq::empty(),
        Selector::Pattern(p) => p@,
        Selector::Generic { python, pattern } => match pattern {
            Some(p) => p@,
            None => Seq::empty(),
        },
    };
    if p == seq!['*'] {
        Seq::empty()
    } else {
        p
    }
}

/// The interpreter versions that a selector asks for, if it names any.
pub open spec fn pythons_of(selector: Selector) -> Option<Seq<Seq<char>>> {
    match selector {
        Selector::Generic { python, pattern } => match python {
            Some(p) => Some(p.deep_view()),
            None => None,
        },
        _ => None,
    }
}

/// The environments whose version is one of `pythons`; all of them where
/// no versions are given.
pub open spec fn of_pythons(venvs: Seq<VenvView>, pythons: Option<Seq<Seq<char>>>) -> Seq<VenvView>
    decreases venvs.len(),
{
    if venvs.len() == 0 {
        Seq::empty()
    } else if pythons is None || pythons->0.contains(venvs.last().python) {
        of_pythons(venvs.drop_last(), pythons).push(venvs.last())
    } else {
        of_pythons(venvs.drop_last(), pythons)
    }
}

/// The packages of the environments with the given name, in order.
pub open spec fn group_pkgs(venvs: Seq<VenvView>, name: Seq<char>) -> Seq<Pairs>
    decreases venvs.len(),
{
    if venvs.len() == 0 {
        Seq::empty()
    } else if venvs.last().name == name {
        group_pkgs(venvs.drop_last(), name).push(venvs.last().pkgs)
    } else {
        group_pkgs(venvs.drop_last(), name)
    }
}

/// The environment, with the packages that all environments of its name
/// among `venvs` share.
pub open spec fn with_shared_pkgs(venvs: Seq<VenvView>, venv: VenvView) -> VenvView {
    VenvView { shared_pkgs: shared_pairs(group_pkgs(venvs, venv.name)), ..venv }
}

/// The contexts with the given hash, in order.
pub open spec fn contexts_with_hash(contexts: Seq<ContextView>, hash: Seq<char>) -> Seq<
    ContextView,
>
    decreases contexts.len(),
{
    if contexts.len() == 0 {
        Seq::empty()
    } else if contexts.last().hash == hash {
        contexts_with_hash(contexts.drop_last(), hash).push(contexts.last())
    } else {
        contexts_with_hash(contexts.drop_last(), hash)
    }
}

/// Those of the first `n` candidates whose name the pattern matches.
pub open spec fn named_like(candidates: Seq<VenvView>, pattern: Seq<char>, n: int) -> Seq<VenvView>
    decreases n,
{
    if n <= 0 {
        Seq::empty()
    } else if regex_matches(pattern, candidates[n - 1].name) == Some(true) {
        named_like(candidates, pattern, n - 1).push(
            with_shared_pkgs(candidates, candidates[n - 1]),
        )
    } else {
        named_like(candidates, pattern, n - 1)
    }
}

/// Whether the search for the pattern gives up on one of the first `n`
/// names.
pub open spec fn search_fails(candidates: Seq<VenvView>, pattern: Seq<char>, n: int) -> bool {
    exists|i: int|
        0 <= i < n && i < candidates.len() && regex_matches(
            pattern,
            (#[trigger] candidates[i]).name,
        ) is None
}

/// The outcome of a selection.
pub enum Selection {
    Found(Seq<VenvView>),
    InvalidPattern,
    MatchFailed,
}

/// Every candidate, each with the packages that the candidates of its
/// name share.
pub open spec fn all_candidates(candidates: Seq<VenvView>) -> Seq<VenvView> {
    Seq::new(candidates.len(), |i: int| with_shared_pkgs(candidates, candidates[i]))
}

/// What a pattern selects among candidates. The empty pattern selects
/// every candidate. A short hash selects the environment with that hash; a
/// compound hash selects the environment of its first half, narrowed to the
/// contexts with the compound hash; any other text is a regular expression
/// and selects the environments whose names it matches.
pub open spec fn selected_among(candidates: Seq<VenvView>, pattern: Seq<char>) -> Selection {
    if pattern.len() == 0 {
        Selection::Found(all_candidates(candidates))
    } else if short_hash_text(pattern) {
        match hash_position(candidates, pattern) {
            Some(i) => Selection::Found(seq![with_shared_pkgs(candidates, candidates[i])]),
            None => Selection::Found(Seq::empty()),
        }
    } else if compound_base(pattern) is Some {
        match hash_position(candidates, compound_base(pattern)->0) {
            Some(i) => Selection::Found(
                seq![
                    VenvView {
                        contexts: contexts_with_hash(candidates[i].contexts, pattern),
                        ..with_shared_pkgs(candidates, candidates[i])
                    },
                ],
            ),
            None => Selection::Found(Seq::empty()),
        }
    } else if !regex_compiles(pattern) {
        Selection::InvalidPattern
    } else if search_fails(candidates, pattern, candidates.len() as int) {
        Selection::MatchFailed
    } else {
        Selection::Found(named_like(candidates, pattern, candidates.len() as int))
    }
}

/// What a pattern selects among the environments of the given versions.
pub open spec fn selected_by(
    venvs: Seq<VenvView>,
    pattern: Seq<char>,
    pythons: Option<Seq<Seq<char>>>,
) -> Selection {
    selected_among(of_pythons(venvs, pythons), pattern)
}

/// Without versions to choose by, every environment is a candidate.
pub proof fn lemma_of_pythons_all(venvs: Seq<VenvView>)
    ensures
        of_pythons(venvs, None) == venvs,
    decreases venvs.len(),
{
    if venvs.len() > 0 {
        lemma_of_pythons_all(venvs.drop_last());
        assert(venvs.drop_last().push(venvs.last()) =~= venvs);
    }
}

fn contains_text(list: &Vec<String>, text: &str) -> (r: bool)
    ensures
        r == list.deep_view().contains(text@),
{
    let mut i: usize = 0;
    while i < list.len()
        invariant
            i <= list.len(),
            forall|j: int| 0 <= j < i ==> list.deep_view()[j] != text@,
        decreases list.len() - i,
    {
        if str_equal(list[i].as_str(), text) {
            assert(list.deep_view()[i as int] == text@);
            return true;
        }
        i = i + 1;
    }
    false
}

/// Every candidate stands in the table, and in the table's order.
proof fn lemma_of_pythons_sub(venvs: Seq<VenvView>, pythons: Option<Seq<Seq<char>>>)
    ensures
        forall|t: int|
            0 <= t < of_pythons(venvs, pythons).len() ==> exists|s: int|
                0 <= s < venvs.len() && venvs[s] == #[trigger] of_pythons(venvs, pythons)[t],
    decreases venvs.len(),
{
    if venvs.len() > 0 {
        lemma_of_pythons_sub(venvs.drop_last(), pythons);
        let prev = of_pythons(venvs.drop_last(), pythons);
        assert forall|t: int| 0 <= t < of_pythons(venvs, pythons).len() implies exists|s: int|
            0 <= s < venvs.len() && venvs[s] == #[trigger] of_pythons(venvs, pythons)[t] by {
            if t < prev.len() {
                let s = choose|s: int| 0 <= s < venvs.len() - 1 && venvs.drop_last()[s] == prev[t];
                assert(venvs[s] == of_pythons(venvs, pythons)[t]);
            } else {
                assert(venvs[venvs.len() - 1] == of_pythons(venvs, pythons)[t]);
            }
        }
    }
}

fn candidates_of(table: &ResolvedVenvs, pythons: &Vec<String>) -> (r: ResolvedVenvs)
    requires
        table.wf(),
    ensures
        r.wf(),
        r@ == of_pythons(table@, Some(pythons.deep_view())),
{
    let mut r = ResolvedVenvs::new();
    let mut i: usize = 0;
    assert(table@.take(0) =~= Seq::<VenvView>::empty());
    while i < table.len()
        invariant
            i <= table@.len(),
            table.wf(),
            r.wf(),
            r@ == of_pythons(table@.take(i as int), Some(pythons.deep_view())),
        decreases table@.len() - i,
    {
        let venv = table.get(i);
        proof {
            assert(table@.take(i + 1).drop_last() =~= table@.take(i as int));
            assert(table@.take(i + 1).last() == table@[i as int]);
        }
        if contains_text(pythons, venv.python.as_str()) {
            proof {
                table.lemma_distinct_hashes();
                table.lemma_contexts_wf();
                lemma_of_pythons_sub(table@.take(i as int), Some(pythons.deep_view()));
                lemma_hash_position(r@, venv@.hash);
                if hash_position(r@, venv@.hash) is Some {
                    let p = hash_position(r@, venv@.hash)->0;
                    let s = choose|s: int|
                        0 <= s < i && table@.take(i as int)[s] == r@[p];
                    assert(table@[s].hash == table@[i as int].hash);
                }
            }
            r.push(venv.clone());
        }
        i = i + 1;
    }
    assert(table@.take(table@.len() as int) =~= table@);
    r
}

fn shared_pkgs_by_name(candidates: &ResolvedVenvs, name: &str) -> (r: IndexMap<String, String>)
    ensures
        pairs_of(r) == shared_pairs(group_pkgs(candidates@, name@)),
{
    let mut maps: Vec<&IndexMap<String, String>> = Vec::new();
    let mut i: usize = 0;
    assert(candidates@.take(0) =~= Seq::<VenvView>::empty());
    assert(refs_view(maps@) =~= Seq::<Pairs>::empty());
    while i < candidates.len()
        invariant
            i <= candidates@.len(),
            refs_view(maps@) == group_pkgs(candidates@.take(i as int), name@),
        decreases candidates@.len() - i,
    {
        let venv = candidates.get(i);
        let ghost before = refs_view(maps@);
        proof {
            assert(candidates@.take(i + 1).drop_last() =~= candidates@.take(i as int));
            assert(candidates@.take(i + 1).last() == candidates@[i as int]);
        }
        if str_equal(venv.name.as_str(), name) {
            maps.push(&venv.pkgs);
            assert(refs_view(maps@) =~= before.push(venv@.pkgs));
        }
        i = i + 1;
    }
    assert(candidates@.take(candidates@.len() as int) =~= candidates@);
    shared_entries(&maps)
}

fn selected_venv(candidates: &ResolvedVenvs, i: usize) -> (r: RiotVenv)
    requires
        i < candidates@.len(),
    ensures
        r@ == with_shared_pkgs(candidates@, candidates@[i as int]),
{
    let venv = candidates.get(i);
    let mut r = venv.clone();
    r.shared_pkgs = shared_pkgs_by_name(candidates, venv.name.as_str());
    r
}

fn retain_context(contexts: &Vec<ExecutionContext>, hash: &str) -> (r: Vec<ExecutionContext>)
    ensures
        contexts_view(r@) == contexts_with_hash(contexts_view(contexts@), hash@),
{
    let mut r: Vec<ExecutionContext> = Vec::new();
    let mut i: usize = 0;
    let ghost all = contexts_view(contexts@);
    assert(all.take(0) =~= Seq::<ContextView>::empty());
    assert(contexts_view(r@) =~= Seq::<ContextView>::empty());
    while i < contexts.len()
        invariant
            i <= contexts.len(),
            all == contexts_view(contexts@),
            contexts_view(r@) == contexts_with_hash(all.take(i as int), hash@),
        decreases contexts.len() - i,
    {
        let ghost before = contexts_view(r@);
        proof {
            assert(all.take(i + 1).drop_last() =~= all.take(i as int));
            assert(all.take(i + 1).last() == contexts[i as int]@);
        }
        if str_equal(contexts[i].hash.as_str(), hash) {
            r.push(contexts[i].clone());
            assert(contexts_view(r@) =~= before.push(contexts[i as int]@));
        }
        i = i + 1;
    }
    assert(all.take(contexts.len() as int) =~= all);
    r
}

fn select_among(candidates: &ResolvedVenvs, pattern: &str) -> (r: Result<Vec<RiotVenv>, SelectError>)
    requires
        candidates.wf(),
    ensures
        match r {
            Ok(v) => selected_among(candidates@, pattern@) == Selection::Found(venvs_view(v@)),
            Err(SelectError::InvalidPattern(_)) => selected_among(candidates@, pattern@)
                == Selection::InvalidPattern,
            Err(SelectError::MatchFailed(_)) => selected_among(candidates@, pattern@)
                == Selection::MatchFailed,
        },
{
    let mut found: Vec<RiotVenv> = Vec::new();
    assert(venvs_view(found@) =~= Seq::<VenvView>::empty());
    if pattern.is_empty() {
        let mut i: usize = 0;
        while i < candidates.len()
            invariant
                i <= candidates@.len(),
                pattern@.len() == 0,
                found.len() == i,
                forall|k: int|
                    0 <= k < i ==> (#[trigger] found[k])@ == with_shared_pkgs(
                        candidates@,
                        candidates@[k],
                    ),
            decreases candidates@.len() - i,
        {
            let venv = selected_venv(candidates, i);
            found.push(venv);
            i = i + 1;
        }
        assert(venvs_view(found@) =~= all_candidates(candidates@));
        return Ok(found);
    }
    if is_short_hash(pattern) {
        match candidates.position(pattern) {
            Some(i) => {
                proof {
                    lemma_hash_position(candidates@, pattern@);
                }
                let venv = selected_venv(candidates, i);
                found.push(venv);
                assert(venvs_view(found@) =~= seq![
                    with_shared_pkgs(candidates@, candidates@[i as int]),
                ]);
            },
            None => {},
        }
        return Ok(found);
    }
    match parse_ctx_hash(pattern) {
        Some(base) => {
            match candidates.position(base.as_str()) {
                Some(i) => {
                    proof {
                        lemma_hash_position(candidates@, base@);
                    }
                    let mut venv = selected_venv(candidates, i);
                    venv.execution_contexts = retain_context(&venv.execution_contexts, pattern);
                    found.push(venv);
                    assert(venvs_view(found@) =~= seq![
                        VenvView {
                            contexts: contexts_with_hash(
                                candidates@[i as int].contexts,
                                pattern@,
                            ),
                            ..with_shared_pkgs(candidates@, candidates@[i as int])
                        },
                    ]);
                },
                None => {},
            }
            return Ok(found);
        },
        None => {},
    }
    match regex_fault(pattern) {
        Some(err) => {
            return Err(SelectError::InvalidPattern(regex_error_text(&err)));
        },
        None => {},
    }
    let mut i: usize = 0;
    while i < candidates.len()
        invariant
            i <= candidates@.len(),
            !search_fails(candidates@, pattern@, i as int),
            venvs_view(found@) == named_like(candidates@, pattern@, i as int),
            pattern@.len() > 0,
            !short_hash_text(pattern@),
            compound_base(pattern@) is None,
            regex_compiles(pattern@),
        decreases candidates@.len() - i,
    {
        let ghost before = venvs_view(found@);
        match regex_is_match(pattern, candidates.get(i).name.as_str()) {
            Ok(matched) => {
                if matched {
                    let venv = selected_venv(candidates, i);
                    found.push(venv);
                    assert(venvs_view(found@) =~= before.push(
                        with_shared_pkgs(candidates@, candidates@[i as int]),
                    ));
                }
            },
            Err(err) => {
                assert(search_fails(candidates@, pattern@, candidates@.len() as int)) by {
                    assert(regex_matches(pattern@, candidates@[i as int].name) is None);
                }
                return Err(SelectError::MatchFailed(regex_error_text(&err)));
            },
        }
        i = i + 1;
    }
    Ok(found)
}

/// Selects environments of the table: by the versions that the selector
/// names, then by its pattern. A pattern that is no regular expression is
/// an error.
pub fn select_execution_contexts(riot_venvs: &ResolvedVenvs, selector: Selector) -> (r: Result<
    Vec<RiotVenv>,
    SelectError,
>)
    requires
        riot_venvs.wf(),
    ensures
        match r {
            Ok(v) => selected_by(riot_venvs@, pattern_of(selector), pythons_of(selector))
                == Selection::Found(venvs_view(v@)),
            Err(SelectError::InvalidPattern(_)) => selected_by(
                riot_venvs@,
                pattern_of(selector),
                pythons_of(selector),
            ) == Selection::InvalidPattern,
            Err(SelectError::MatchFailed(_)) => selected_by(
                riot_venvs@,
                pattern_of(selector),
                pythons_of(selector),
            ) == Selection::MatchFailed,
        },
{
    let (given, python_selector): (String, Option<Vec<String>>) = match &selector {
        Selector::All => (String::new(), None),
        Selector::Pattern(pattern) => (pattern.clone(), None),
        Selector::Generic { python, pattern } => (
            match pattern {
                Some(p) => p.clone(),
                None => String::new(),
            },
            match python {
                Some(p) => Some(clone_texts(p)),
                None => None,
            },
        ),
    };
    let pattern_selector = if str_equal(given.as_str(), "*") {
        String::new()
    } else {
        given
    };
    proof {
        reveal_strlit("*");
        assert("*"@ =~= seq!['*']);
        assert(pattern_selector@ == pattern_of(selector));
    }
    match python_selector {
        Some(pythons) => {
            let candidates = candidates_of(riot_venvs, &pythons);
            select_among(&candidates, pattern_selector.as_str())
        },
        None => {
            proof {
                lemma_of_pythons_all(riot_venvs@);
            }
            select_among(riot_venvs, pattern_selector.as_str())
        },
    }
}

/// Among contexts with distinct hashes, the hash of a context selects this
/// context and no other.
proof fn lemma_contexts_with_hash_unique(contexts: Seq<ContextView>, k: int)
    requires
        0 <= k < contexts.len(),
        forall|a: int, b: int|
            0 <= a < b < contexts.len() ==> (#[trigger] contexts[a]).hash
                != (#[trigger] contexts[b]).hash,
    ensures
        contexts_with_hash(contexts, contexts[k].hash) == seq![contexts[k]],
    decreases contexts.len(),
{
    let init = contexts.drop_last();
    let h = contexts[k].hash;
    if k == contexts.len() - 1 {
        lemma_contexts_with_hash_none(init, h, contexts);
        assert(contexts_with_hash(init, h).push(contexts.last()) =~= seq![contexts[k]]);
    } else {
        assert(init[k] == contexts[k]);
        assert forall|a: int, b: int| 0 <= a < b < init.len() implies (#[trigger] init[a]).hash
            != (#[trigger] init[b]).hash by {
            assert(init[a] == contexts[a]);
            assert(init[b] == contexts[b]);
        }
        lemma_contexts_with_hash_unique(init, k);
        assert(contexts[k].hash != contexts[contexts.len() - 1].hash);
    }
}

proof fn lemma_contexts_with_hash_none(part: Seq<ContextView>, h: Seq<char>, all: Seq<ContextView>)
    requires
        part.len() <= all.len(),
        forall|a: int| 0 <= a < part.len() ==> part[a] == all[a] && (#[trigger] all[a]).hash != h,
    ensures
        contexts_with_hash(part, h) == Seq::<ContextView>::empty(),
    decreases part.len(),
{
    if part.len() > 0 {
        assert(part.last() == all[part.len() - 1]);
        assert forall|a: int| 0 <= a < part.drop_last().len() implies part.drop_last()[a]
            == all[a] && (#[trigger] all[a]).hash != h by {
            assert(part.drop_last()[a] == part[a]);
        }
        lemma_contexts_with_hash_none(part.drop_last(), h, all);
    }
}

/// Selecting by the hash of an environment of the table gives exactly this
/// environment with all its contexts, provided that the hash has the shape
/// of a short hash. What the selection adds are the packages that the
/// environment shares with those of its name.
pub proof fn lemma_select_own_hash(table: ResolvedVenvs, i: int)
    requires
        table.wf(),
        0 <= i < table@.len(),
        short_hash_text(table@[i].hash),
    ensures
        selected_by(table@, table@[i].hash, None) == Selection::Found(
            seq![with_shared_pkgs(table@, table@[i])],
        ),
        with_shared_pkgs(table@, table@[i]).contexts == table@[i].contexts,
{
    lemma_of_pythons_all(table@);
    table.lemma_distinct_hashes();
    lemma_hash_position(table@, table@[i].hash);
}

/// Selecting by the compound hash of a context gives the environment of
/// this context, narrowed to this one context, provided that the hashes
/// have the shape of a short hash and of a compound hash.
pub proof fn lemma_select_own_context(table: ResolvedVenvs, i: int, k: int)
    requires
        table.wf(),
        0 <= i < table@.len(),
        0 <= k < table@[i].contexts.len(),
        short_hash_text(table@[i].hash),
        compound_base(table@[i].contexts[k].hash) is Some,
    ensures
        selected_by(table@, table@[i].contexts[k].hash, None) == Selection::Found(
            seq![
                VenvView {
                    contexts: seq![table@[i].contexts[k]],
                    ..with_shared_pkgs(table@, table@[i])
                },
            ],
        ),
{
    let venv = table@[i];
    let c = venv.contexts[k];
    lemma_of_pythons_all(table@);
    table.lemma_distinct_hashes();
    table.lemma_contexts_wf();
    assert(crate::resolve::contexts_wf(venv));
    let prefix = venv.hash + seq!['@'];
    assert(crate::text::has_prefix(c.hash, prefix));
    assert(c.hash.subrange(0, 8) == prefix);
    assert(c.hash.take(HASH_DIGITS as int) =~= venv.hash) by {
        assert forall|t: int| 0 <= t < 7 implies c.hash[t] == venv.hash[t] by {
            assert(c.hash.subrange(0, 8)[t] == prefix[t]);
        }
    }
    lemma_hash_position(table@, venv.hash);
    lemma_contexts_with_hash_unique(venv.contexts, k);
}

proof fn lemma_hex_char_lower(d: nat)
    requires
        d < 16,
    ensures
        is_hex_lower(crate::hashing::hex_char(d)),
{
    let c = crate::hashing::hex_char(d);
    if d < 10 {
        assert(c as u32 == 48 + d);
        assert('0' as u32 == 48 && '9' as u32 == 57);
    } else {
        assert(c as u32 == 87 + d);
        assert('a' as u32 == 97 && 'f' as u32 == 102);
    }
}

proof fn lemma_hex_digits_shape(n: nat)
    ensures
        forall|i: int|
            0 <= i < crate::hashing::hex_digits(n).len() ==> is_hex_lower(
                #[trigger] crate::hashing::hex_digits(n)[i],
            ),
        crate::hashing::hex_digits(n).len() >= 1,
    decreases n,
{
    lemma_hex_char_lower(n % 16);
    if n >= 16 {
        lemma_hex_digits_shape(n / 16);
    }
}

/// Sixteen to the power of `k`.
spec fn sixteen_to(k: nat) -> nat
    decreases k,
{
    if k == 0 {
        1
    } else {
        16 * sixteen_to((k - 1) as nat)
    }
}

proof fn lemma_hex_digits_long(n: nat, k: nat)
    requires
        k >= 1,
        n >= sixteen_to((k - 1) as nat),
    ensures
        crate::hashing::hex_digits(n).len() >= k,
    decreases k,
{
    if k > 1 {
        let below = sixteen_to((k - 2) as nat);
        assert(sixteen_to((k - 1) as nat) == 16 * below);
        assert(below >= 1) by {
            lemma_sixteen_positive((k - 2) as nat);
        }
        assert(n / 16 >= below) by (nonlinear_arith)
            requires
                n >= 16 * below,
        ;
        lemma_hex_digits_long(n / 16, (k - 1) as nat);
    }
}

proof fn lemma_sixteen_positive(k: nat)
    ensures
        sixteen_to(k) >= 1,
    decreases k,
{
    if k > 0 {
        lemma_sixteen_positive((k - 1) as nat);
    }
}

/// The short hash of a digest is made of lowercase hexadecimal digits, at
/// least one and at most seven. It has all seven, the shape by which a
/// selector knows a hash, where the digest folds to a number of at least
/// seven hexadecimal digits.
pub proof fn lemma_short_hash_shape(digest: Seq<u8>)
    ensures
        1 <= crate::hashing::short_hash(digest).len() <= HASH_DIGITS,
        forall|i: int|
            0 <= i < crate::hashing::short_hash(digest).len() ==> is_hex_lower(
                #[trigger] crate::hashing::short_hash(digest)[i],
            ),
        crate::hashing::folded(digest, crate::hashing::hash_modulus()) >= 0x100_0000
            ==> short_hash_text(crate::hashing::short_hash(digest)),
{
    let n = crate::hashing::folded(digest, crate::hashing::hash_modulus());
    lemma_hex_digits_shape(n);
    let digits = crate::hashing::hex_digits(n);
    let h = crate::hashing::short_hash(digest);
    assert forall|i: int| 0 <= i < h.len() implies is_hex_lower(#[trigger] h[i]) by {
        assert(h[i] == digits[i]);
    }
    if n >= 0x100_0000 {
        reveal_with_fuel(sixteen_to, 7);
        assert(sixteen_to(6) == 0x100_0000);
        lemma_hex_digits_long(n, 7);
    }
}

/// A selector that asks for all, gives no pattern or gives `*` selects
/// every environment of the versions it names, whatever the environments
/// are called.
pub proof fn lemma_select_all(venvs: Seq<VenvView>, pythons: Option<Seq<Seq<char>>>)
    ensures
        selected_by(venvs, Seq::empty(), pythons) == Selection::Found(
            all_candidates(of_pythons(venvs, pythons)),
        ),
        selected_by(venvs, Seq::empty(), None) == Selection::Found(all_candidates(venvs)),
{
    lemma_of_pythons_all(venvs);
}

} // verus!
