//! Command lines and other texts that are handed to a shell, to the
//! interpreter or to the installer.

use vstd::prelude::*;
use vstd::string::StringExecFns;
use indexmap::IndexMap;
use crate::config::RunConfig;
use crate::ordered_map::{pairs_entries, pairs_of};
use crate::spec_tree::text_of;
use crate::text::{
    chars_of, contains_text, join, joined, occurs_in, push_char, replace_all, replaced,
};
use crate::venv::{ContextView, ExecutionContext, Pairs, RiotVenv};

verus! {

/// The characters of an argument as they stand between single quotes: a
/// single quote closes the quotes, stands escaped, and opens them again.
pub open spec fn escaped_body(arg: Seq<char>) -> Seq<char>
    decreases arg.len(),
{
    if arg.len() == 0 {
        Seq::empty()
    } else if arg.last() == '\'' {
        escaped_body(arg.drop_last()) + seq!['\'', '\\', '\'', '\'']
    } else {
        escaped_body(arg.drop_last()).push(arg.last())
    }
}

/// An argument quoted for a shell.
pub open spec fn escaped_arg(arg: Seq<char>) -> Seq<char> {
    seq!['\''] + escaped_body(arg) + seq!['\'']
}

/// Quotes an argument for a shell: between single quotes, each single
/// quote of its own escaped. The empty argument is two quotes.
pub fn escape_cmdarg(arg: &str) -> (r: String)
    ensures
        r@ == escaped_arg(arg@),
{
    let v = chars_of(arg);
    let mut escaped = String::new();
    push_char(&mut escaped, '\'');
    let mut i: usize = 0;
    assert(v@.take(0) =~= Seq::<char>::empty());
    while i < v.len()
        invariant
            i <= v.len(),
            escaped@ == seq!['\''] + escaped_body(v@.take(i as int)),
        decreases v.len() - i,
    {
        let ghost before = escaped@;
        proof {
            assert(v@.take(i + 1).drop_last() =~= v@.take(i as int));
        }
        if v[i] == '\'' {
            escaped.append("'\\''");
            proof {
                reveal_strlit("'\\''");
                assert("'\\''"@ =~= seq!['\'', '\\', '\'', '\'']);
                assert(escaped@ =~= seq!['\''] + escaped_body(v@.take(i + 1)));
            }
        } else {
            push_char(&mut escaped, v[i]);
            assert(escaped@ =~= seq!['\''] + escaped_body(v@.take(i + 1)));
        }
        i = i + 1;
    }
    assert(v@.take(v.len() as int) =~= v@);
    push_char(&mut escaped, '\'');
    escaped
}

/// The arguments quoted, in order.
pub open spec fn escaped_args(args: Seq<Seq<char>>) -> Seq<Seq<char>> {
    Seq::new(args.len(), |i: int| escaped_arg(args[i]))
}

/// The arguments quoted and separated by single spaces.
pub fn format_cmdargs(args: &Vec<String>) -> (r: String)
    ensures
        r@ == joined(escaped_args(args.deep_view()), seq![' ']),
{
    let mut quoted: Vec<String> = Vec::new();
    let mut i: usize = 0;
    while i < args.len()
        invariant
            i <= args.len(),
            quoted.len() == i,
            forall|k: int| 0 <= k < i ==> (#[trigger] quoted[k])@ == escaped_arg(args[k]@),
        decreases args.len() - i,
    {
        quoted.push(escape_cmdarg(args[i].as_str()));
        i = i + 1;
    }
    assert(quoted.deep_view() =~= escaped_args(args.deep_view()));
    proof {
        reveal_strlit(" ");
        assert(" "@ =~= seq![' ']);
    }
    join(&quoted, " ")
}

/// The place in a command where the arguments of a run go.
pub open spec fn placeholder() -> Seq<char> {
    "{cmdargs}"@
}

/// The command line that a template and arguments make: the arguments,
/// quoted, in the place of every placeholder; a template without
/// placeholder gets one at its end.
pub open spec fn command_line_text(template: Seq<char>, cmdargs: Seq<Seq<char>>) -> Seq<char> {
    let full = if occurs_in(template, placeholder()) {
        template
    } else {
        template + " {cmdargs}"@
    };
    replaced(full, placeholder(), joined(escaped_args(cmdargs), seq![' ']))
}

/// The command line of a run.
pub fn build_command_line(template: &str, cmdargs: &Vec<String>) -> (r: String)
    ensures
        r@ == command_line_text(template@, cmdargs.deep_view()),
{
    let mut command_template = template.to_owned();
    let t = chars_of(template);
    let p = chars_of("{cmdargs}");
    if !contains_text(&t, &p) {
        command_template.append(" {cmdargs}");
    }
    proof {
        reveal_strlit("{cmdargs}");
    }
    let args = format_cmdargs(cmdargs);
    replace_all(command_template.as_str(), "{cmdargs}", args.as_str())
}

/// The template of the command that a context runs: the override of the
/// run where there is one, else the context's own command.
pub open spec fn template_of(run_config: RunConfig, context: ContextView) -> Option<Seq<char>> {
    if run_config.command_override is Some {
        text_of(run_config.command_override)
    } else {
        context.command
    }
}

/// The template of the command that a context runs.
pub fn command_template(run_config: &RunConfig, context: &ExecutionContext) -> (r: Option<String>)
    ensures
        text_of(r) == template_of(*run_config, context@),
{
    match &run_config.command_override {
        Some(command) => Some(command.clone()),
        None => match &context.command {
            Some(command) => Some(command.clone()),
            None => None,
        },
    }
}

/// The places of all contexts: environment by environment, each context
/// with the place of its environment and its own.
pub open spec fn context_places(counts: Seq<nat>, n: int) -> Seq<(usize, usize)>
    decreases n,
{
    if n <= 0 {
        Seq::empty()
    } else {
        context_places(counts, n - 1) + Seq::new(
            counts[n - 1],
            |k: int| ((n - 1) as usize, k as usize),
        )
    }
}

/// The numbers of contexts of the environments.
pub open spec fn context_counts(selected: Seq<RiotVenv>) -> Seq<nat> {
    Seq::new(selected.len(), |i: int| selected[i].execution_contexts.len() as nat)
}

/// The places of all contexts of the selected environments, in order.
pub fn collect_context_indices(selected: &Vec<RiotVenv>) -> (r: Vec<(usize, usize)>)
    ensures
        r@ == context_places(context_counts(selected@), selected.len() as int),
{
    let ghost counts = context_counts(selected@);
    let mut out: Vec<(usize, usize)> = Vec::new();
    let mut i: usize = 0;
    while i < selected.len()
        invariant
            i <= selected.len(),
            counts == context_counts(selected@),
            out@ == context_places(counts, i as int),
        decreases selected.len() - i,
    {
        let ghost before = out@;
        let n = selected[i].execution_contexts.len();
        let mut k: usize = 0;
        assert(out@ =~= before + Seq::new(0, |t: int| (i, t as usize)));
        while k < n
            invariant
                k <= n,
                i < selected.len(),
                n == counts[i as int],
                out@ == before + Seq::new(k as nat, |t: int| (i, t as usize)),
            decreases n - k,
        {
            out.push((i, k));
            k = k + 1;
            assert(out@ =~= before + Seq::new(k as nat, |t: int| (i, t as usize)));
        }
        assert(Seq::new(n as nat, |t: int| (i, t as usize)) =~= Seq::new(
            counts[i as int],
            |t: int| (i, t as usize),
        ));
        i = i + 1;
    }
    out
}

/// The entries of `map` whose key is not among those of `shared`, in order.
pub open spec fn unique_entries(map: Pairs, shared: Pairs, n: int) -> Pairs
    decreases n,
{
    if n <= 0 {
        Seq::empty()
    } else if crate::ordered_map::position_of(shared, map[n - 1].0) is None {
        unique_entries(map, shared, n - 1).push(map[n - 1])
    } else {
        unique_entries(map, shared, n - 1)
    }
}

/// The entries written one after another: key, `between`, value and a
/// space.
pub open spec fn entries_text(entries: Pairs, between: Seq<char>) -> Seq<char>
    decreases entries.len(),
{
    if entries.len() == 0 {
        Seq::empty()
    } else {
        entries_text(entries.drop_last(), between) + entries.last().0 + between + entries.last().1
            + seq![' ']
    }
}

fn format_unique_entries(
    map: &IndexMap<String, String>,
    shared: &IndexMap<String, String>,
    between: &str,
) -> (r: String)
    ensures
        r@ == entries_text(
            unique_entries(pairs_of(*map), pairs_of(*shared), pairs_of(*map).len() as int),
            between@,
        ),
{
    let entries = pairs_entries(map);
    let ghost all = pairs_of(*map);
    let ghost others = pairs_of(*shared);
    let mut buf = String::new();
    let mut i: usize = 0;
    while i < entries.len()
        invariant
            i <= entries.len(),
            all == entries.deep_view(),
            all == pairs_of(*map),
            others == pairs_of(*shared),
            buf@ == entries_text(unique_entries(all, others, i as int), between@),
        decreases entries.len() - i,
    {
        let ghost before = unique_entries(all, others, i as int);
        assert(all[i as int] == (entries[i as int].0@, entries[i as int].1@));
        match crate::ordered_map::pairs_get(shared, entries[i].0.as_str()) {
            Some(_) => {},
            None => {
                buf.append(entries[i].0.as_str());
                buf.append(between);
                buf.append(entries[i].1.as_str());
                push_char(&mut buf, ' ');
                proof {
                    let next = before.push(all[i as int]);
                    assert(next.drop_last() =~= before);
                    assert(buf@ =~= entries_text(next, between@));
                }
            },
        }
        i = i + 1;
    }
    buf
}

/// The packages that an environment does not share with the others of its
/// name, each as name and version with a space behind it.
pub fn format_pkgs(all_pkgs: &IndexMap<String, String>, shared_pkgs: &IndexMap<String, String>) -> (r:
    String)
    ensures
        r@ == entries_text(
            unique_entries(
                pairs_of(*all_pkgs),
                pairs_of(*shared_pkgs),
                pairs_of(*all_pkgs).len() as int,
            ),
            Seq::empty(),
        ),
{
    proof {
        reveal_strlit("");
        assert(""@ =~= Seq::<char>::empty());
    }
    format_unique_entries(all_pkgs, shared_pkgs, "")
}

/// The variables that a context does not share with the others of its
/// environment, each as `key=value` with a space behind it.
pub fn format_envs(all_envs: &IndexMap<String, String>, shared_envs: &IndexMap<String, String>) -> (r:
    String)
    ensures
        r@ == entries_text(
            unique_entries(
                pairs_of(*all_envs),
                pairs_of(*shared_envs),
                pairs_of(*all_envs).len() as int,
            ),
            seq!['='],
        ),
{
    proof {
        reveal_strlit("=");
        assert("="@ =~= seq!['=']);
    }
    format_unique_entries(all_envs, shared_envs, "=")
}

/// The packages as the installer reads them from a file: one line for
/// each, name and version; nothing where there are none.
pub open spec fn requirements_text(pkgs: Pairs) -> Seq<char>
    decreases pkgs.len(),
{
    if pkgs.len() == 0 {
        Seq::empty()
    } else {
        requirements_text(pkgs.drop_last()) + pkgs.last().0 + pkgs.last().1 + seq!['\n']
    }
}

/// The packages as the installer reads them from a file.
pub fn format_requirements(pkgs: &IndexMap<String, String>) -> (r: String)
    ensures
        r@ == requirements_text(pairs_of(*pkgs)),
{
    let entries = pairs_entries(pkgs);
    let mut buf = String::new();
    let mut i: usize = 0;
    assert(entries.deep_view().take(0) =~= Seq::<(Seq<char>, Seq<char>)>::empty());
    while i < entries.len()
        invariant
            i <= entries.len(),
            buf@ == requirements_text(entries.deep_view().take(i as int)),
        decreases entries.len() - i,
    {
        proof {
            let t = entries.deep_view().take(i + 1);
            assert(t.drop_last() =~= entries.deep_view().take(i as int));
            assert(t.last() == (entries[i as int].0@, entries[i as int].1@));
        }
        buf.append(entries[i].0.as_str());
        buf.append(entries[i].1.as_str());
        push_char(&mut buf, '\n');
        i = i + 1;
    }
    assert(entries.deep_view().take(entries.len() as int) =~= entries.deep_view());
    buf
}

} // verus!
