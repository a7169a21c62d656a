//! What building the selected environments takes: which installs are
//! needed, and the texts that are written into an environment.

use vstd::prelude::*;
use vstd::string::StringExecFns;
use vstd::utf8::valid_utf8;
use indexmap::IndexMap;
use crate::hashing::hex_char;
use crate::ordered_map::{pairs_entries, pairs_of};
use crate::venv::Pairs;
use crate::spec_tree::dedup_preserving_order;
use crate::text::{chars_of, push_char};
use crate::venv::{ContextView, RiotVenv, VenvView};
use crate::version::first_occurrences;

verus! {

/// Whether a character is a control character.
pub open spec fn is_control_char(c: char) -> bool {
    (c as u32) <= 0x1f || (0x7f <= (c as u32) && (c as u32) <= 0x9f)
}

/// A character as it stands in a string literal of Python between double
/// quotes.
pub open spec fn literal_char(c: char) -> Seq<char> {
    if c == '\\' {
        seq!['\\', '\\']
    } else if c == '"' {
        seq!['\\', '"']
    } else if c == '\n' {
        seq!['\\', 'n']
    } else if c == '\r' {
        seq!['\\', 'r']
    } else if c == '\t' {
        seq!['\\', 't']
    } else if is_control_char(c) {
        seq!['\\', 'x', hex_char((c as u32 / 16) as nat), hex_char((c as u32 % 16) as nat)]
    } else {
        seq![c]
    }
}

/// The characters of a text as they stand in a string literal.
pub open spec fn literal_body(s: Seq<char>) -> Seq<char>
    decreases s.len(),
{
    if s.len() == 0 {
        Seq::empty()
    } else {
        literal_body(s.drop_last()) + literal_char(s.last())
    }
}

/// A text as a string literal of Python.
pub open spec fn string_literal(s: Seq<char>) -> Seq<char> {
    seq!['"'] + literal_body(s) + seq!['"']
}

fn hex_digit(d: u32) -> (c: char)
    requires
        d < 16,
    ensures
        c == hex_char(d as nat),
{
    if d < 10 {
        (48u8 + d as u8) as char
    } else {
        (97u8 + (d as u8 - 10)) as char
    }
}

/// Writes a text as a string literal of Python: between double quotes,
/// with backslashes, quotes, line ends, tabs and control characters escaped.
pub fn python_string_literal(value: &str) -> (r: String)
    ensures
        r@ == string_literal(value@),
{
    let v = chars_of(value);
    let mut literal = String::new();
    push_char(&mut literal, '"');
    let mut i: usize = 0;
    assert(v@.take(0) =~= Seq::<char>::empty());
    while i < v.len()
        invariant
            i <= v.len(),
            literal@ == seq!['"'] + literal_body(v@.take(i as int)),
        decreases v.len() - i,
    {
        let ghost before = literal@;
        proof {
            assert(v@.take(i + 1).drop_last() =~= v@.take(i as int));
        }
        let ch = v[i];
        let code: u32 = ch as u32;
        if ch == '\\' {
            push_char(&mut literal, '\\');
            push_char(&mut literal, '\\');
        } else if ch == '"' {
            push_char(&mut literal, '\\');
            push_char(&mut literal, '"');
        } else if ch == '\n' {
            push_char(&mut literal, '\\');
            push_char(&mut literal, 'n');
        } else if ch == '\r' {
            push_char(&mut literal, '\\');
            push_char(&mut literal, 'r');
        } else if ch == '\t' {
            push_char(&mut literal, '\\');
            push_char(&mut literal, 't');
        } else if code <= 0x1f || (0x7f <= code && code <= 0x9f) {
            push_char(&mut literal, '\\');
            push_char(&mut literal, 'x');
            push_char(&mut literal, hex_digit(code / 16));
            push_char(&mut literal, hex_digit(code % 16));
        } else {
            push_char(&mut literal, ch);
        }
        assert(literal@ =~= before + literal_char(ch));
        assert(literal@ =~= seq!['"'] + literal_body(v@.take(i + 1)));
        i = i + 1;
    }
    assert(v@.take(v.len() as int) =~= v@);
    push_char(&mut literal, '"');
    literal
}

/// Whether the bytes are text in UTF-8.
///
/// Trusted: `std::str::from_utf8` succeeds on the byte strings that are
/// valid UTF-8 and on no others.
#[verifier::external_body]
pub(crate) fn is_valid_utf8(bytes: &[u8]) -> (r: bool)
    ensures
        r == valid_utf8(bytes@),
{
    std::str::from_utf8(bytes).is_ok()
}

/// A byte with an upper-case ASCII letter made lower case.
pub open spec fn ascii_lower(b: u8) -> u8 {
    if 65 <= b && b <= 90 {
        (b + 32) as u8
    } else {
        b
    }
}

/// The bytes of the word `python`.
pub open spec fn python_word() -> Seq<u8> {
    seq![112u8, 121u8, 116u8, 104u8, 111u8, 110u8]
}

/// Whether `python` stands at place `i` of the line, in whatever case.
pub open spec fn python_at(line: Seq<u8>, i: int) -> bool {
    &&& 0 <= i
    &&& i + 6 <= line.len()
    &&& forall|k: int| 0 <= k < 6 ==> ascii_lower(#[trigger] line[i + k]) == python_word()[k]
}

/// Whether the line names `python`, in whatever case.
pub open spec fn mentions_python(line: Seq<u8>) -> bool {
    exists|i: int| python_at(line, i)
}

/// Where the first line of the content ends: at its first line feed, or
/// at the end of the content.
pub open spec fn first_line_end(content: Seq<u8>, i: int) -> int
    decreases content.len() - i,
{
    if i < 0 || i >= content.len() {
        content.len() as int
    } else if content[i] == 10 {
        i
    } else {
        first_line_end(content, i + 1)
    }
}

/// The content of a script with its first line replaced by `shebang`,
/// where the script begins with `#!` and its first line is text that names
/// `python`; nothing for other content.
pub open spec fn with_shebang(content: Seq<u8>, shebang: Seq<u8>) -> Option<Seq<u8>> {
    let end = first_line_end(content, 0);
    if content.len() >= 2 && content[0] == 35 && content[1] == 33 && valid_utf8(
        content.take(end),
    ) && mentions_python(content.take(end)) {
        if end < content.len() {
            Some(shebang + content.skip(end + 1))
        } else {
            Some(shebang)
        }
    } else {
        None
    }
}

fn lower(b: u8) -> (r: u8)
    ensures
        r == ascii_lower(b),
{
    if 65 <= b && b <= 90 {
        b + 32
    } else {
        b
    }
}

fn names_python(content: &[u8], end: usize) -> (r: bool)
    requires
        end <= content.len(),
    ensures
        r == mentions_python(content@.take(end as int)),
{
    let ghost line = content@.take(end as int);
    if end < 6 {
        assert(forall|i: int| !python_at(line, i));
        return false;
    }
    let last: usize = end - 6;
    let mut i: usize = 0;
    while i <= last
        invariant
            end <= content.len(),
            last + 6 == end,
            i <= last + 1,
            line == content@.take(end as int),
            forall|j: int| 0 <= j < i ==> !python_at(line, j),
        decreases end - i,
    {
        let found = lower(content[i]) == 112 && lower(content[i + 1]) == 121 && lower(
            content[i + 2],
        ) == 116 && lower(content[i + 3]) == 104 && lower(content[i + 4]) == 111 && lower(
            content[i + 5],
        ) == 110;
        if found {
            assert(python_at(line, i as int)) by {
                assert forall|k: int| 0 <= k < 6 implies ascii_lower(#[trigger] line[i + k])
                    == python_word()[k] by {
                    assert(line[i + k] == content@[i + k]);
                }
            }
            return true;
        } else {
            assert(!python_at(line, i as int)) by {
                if python_at(line, i as int) {
                    assert(ascii_lower(line[i + 0]) == python_word()[0]);
                    assert(ascii_lower(line[i + 1]) == python_word()[1]);
                    assert(ascii_lower(line[i + 2]) == python_word()[2]);
                    assert(ascii_lower(line[i + 3]) == python_word()[3]);
                    assert(ascii_lower(line[i + 4]) == python_word()[4]);
                    assert(ascii_lower(line[i + 5]) == python_word()[5]);
                }
            }
        }
        i = i + 1;
    }
    assert(forall|j: int| !python_at(line, j));
    false
}

/// Replaces the first line of a script by `python_shebang`, where the
/// script begins with `#!` and its first line names `python`.
pub fn rewrite_python_shebang(content: &[u8], python_shebang: &str) -> (r: Option<Vec<u8>>)
    ensures
        match r {
            Some(bytes) => with_shebang(content@, vstd::utf8::encode_utf8(python_shebang@))
                == Some(bytes@),
            None => with_shebang(content@, vstd::utf8::encode_utf8(python_shebang@)) is None,
        },
{
    if content.len() < 2 || content[0] != 35 || content[1] != 33 {
        return None;
    }
    let mut line_end: usize = 0;
    while line_end < content.len() && content[line_end] != 10
        invariant
            line_end <= content.len(),
            first_line_end(content@, 0) == first_line_end(content@, line_end as int),
        decreases content.len() - line_end,
    {
        line_end = line_end + 1;
    }
    assert(line_end == first_line_end(content@, 0));
    let line = vstd::slice::slice_subrange(content, 0, line_end);
    assert(line@ =~= content@.take(line_end as int));
    if !is_valid_utf8(line) {
        return None;
    }
    if !names_python(content, line_end) {
        return None;
    }
    let mut rewritten: Vec<u8> = Vec::new();
    rewritten.extend_from_slice(python_shebang.as_bytes());
    if line_end < content.len() {
        let rest = vstd::slice::slice_subrange(content, line_end + 1, content.len());
        rewritten.extend_from_slice(rest);
        assert(rewritten@ =~= vstd::utf8::encode_utf8(python_shebang@) + content@.skip(
            line_end + 1,
        ));
    }
    Some(rewritten)
}

/// The step in which the project is installed for an interpreter version.
pub fn dev_install_step(python: &str) -> (r: String)
    ensures
        r@ == "dev install "@ + python@,
{
    let mut r = String::from_str("dev install ");
    r.append(python);
    r
}

/// The step in which the dependencies of an environment are installed.
pub fn deps_install_step(hash: &str) -> (r: String)
    ensures
        r@ == "deps install "@ + hash@,
{
    let mut r = String::from_str("deps install ");
    r.append(hash);
    r
}

/// The step in which an execution context is created.
pub fn create_context_step(hash: &str) -> (r: String)
    ensures
        r@ == "create execution context "@ + hash@,
{
    let mut r = String::from_str("create execution context ");
    r.append(hash);
    r
}

/// Whether one of the contexts wants the project installed.
pub open spec fn wants_dev_install(contexts: Seq<ContextView>) -> bool {
    exists|k: int| 0 <= k < contexts.len() && !(#[trigger] contexts[k]).skip_dev_install
}

/// The versions of the first `n` environments that want the project
/// installed, in order and with repetitions.
pub open spec fn dev_versions(selected: Seq<VenvView>, n: int) -> Seq<Seq<char>>
    decreases n,
{
    if n <= 0 {
        Seq::empty()
    } else if wants_dev_install(selected[n - 1].contexts) {
        dev_versions(selected, n - 1).push(selected[n - 1].python)
    } else {
        dev_versions(selected, n - 1)
    }
}

/// The places of those of the first `n` environments that have a context.
pub open spec fn deps_places(selected: Seq<VenvView>, n: int) -> Seq<usize>
    decreases n,
{
    if n <= 0 {
        Seq::empty()
    } else if selected[n - 1].contexts.len() > 0 {
        deps_places(selected, n - 1).push((n - 1) as usize)
    } else {
        deps_places(selected, n - 1)
    }
}

/// The installs that the selected environments need before their contexts
/// are created.
pub struct BuildPlan {
    /// The interpreter versions for which the project is installed.
    pub dev_pythons: Vec<String>,
    /// The places of the environments whose dependencies are installed.
    pub deps_targets: Vec<usize>,
}

fn any_wants_dev(venv: &RiotVenv) -> (r: bool)
    ensures
        r == wants_dev_install(venv@.contexts),
{
    let mut k: usize = 0;
    while k < venv.execution_contexts.len()
        invariant
            k <= venv.execution_contexts.len(),
            forall|j: int| 0 <= j < k ==> (#[trigger] venv@.contexts[j]).skip_dev_install,
        decreases venv.execution_contexts.len() - k,
    {
        assert(venv@.contexts[k as int] == venv.execution_contexts[k as int]@);
        if !venv.execution_contexts[k].skip_dev_install {
            assert(!venv@.contexts[k as int].skip_dev_install);
            return true;
        }
        k = k + 1;
    }
    false
}

/// Plans the installs for the selected environments: the project is
/// installed once for each interpreter version of an environment with a
/// context that wants it, and the dependencies once for each environment
/// that has a context.
pub fn plan_build(selected: &Vec<RiotVenv>) -> (plan: BuildPlan)
    ensures
        plan.dev_pythons.deep_view() == first_occurrences(
            dev_versions(crate::resolve::venvs_view(selected@), selected.len() as int),
        ),
        plan.deps_targets@ == deps_places(
            crate::resolve::venvs_view(selected@),
            selected.len() as int,
        ),
{
    let ghost all = crate::resolve::venvs_view(selected@);
    let mut versions: Vec<String> = Vec::new();
    let mut deps_targets: Vec<usize> = Vec::new();
    let mut i: usize = 0;
    assert(versions.deep_view() =~= dev_versions(all, 0));
    while i < selected.len()
        invariant
            i <= selected.len(),
            all == crate::resolve::venvs_view(selected@),
            versions.deep_view() == dev_versions(all, i as int),
            deps_targets@ == deps_places(all, i as int),
        decreases selected.len() - i,
    {
        let ghost before = versions.deep_view();
        assert(all[i as int] == selected[i as int]@);
        if any_wants_dev(&selected[i]) {
            versions.push(selected[i].python.clone());
            assert(versions.deep_view() =~= before.push(selected[i as int].python@));
        }
        if selected[i].execution_contexts.len() > 0 {
            deps_targets.push(i);
        }
        i = i + 1;
    }
    BuildPlan { dev_pythons: dedup_preserving_order(versions), deps_targets }
}

/// The line that sets one variable when the interpreter starts.
pub open spec fn environ_line(entry: (Seq<char>, Seq<char>)) -> Seq<char> {
    "os.environ["@ + string_literal(entry.0) + "] = "@ + string_literal(entry.1) + seq!['\n']
}

/// The lines that set the variables, in order.
pub open spec fn environ_lines(env: Pairs) -> Seq<char>
    decreases env.len(),
{
    if env.len() == 0 {
        Seq::empty()
    } else {
        environ_lines(env.drop_last()) + environ_line(env.last())
    }
}

/// The lines that make the test runner load the plugin.
pub open spec fn plugin_lines() -> Seq<char> {
    "# rt pytest plugin\n"@
        + "plugins = [p.strip() for p in os.environ.get('PYTEST_PLUGINS', '').split(',') if p.strip()]\n"@
        + "if \"rt\" not in plugins:\n"@ + "    plugins.append(\"rt\")\n"@
        + "os.environ['PYTEST_PLUGINS'] = ','.join(plugins)\n"@ + seq!['\n']
}

/// The module that the interpreter of a context runs when it starts: it
/// sets the variables of the context, then those of the project's
/// configuration, and makes the test runner load the plugin where there is
/// one.
pub open spec fn sitecustomize_text(env: Pairs, run_env: Pairs, with_plugin: bool) -> Seq<char> {
    "# Environment variables from riotfile.py\n"@ + "import os\n"@ + environ_lines(env) + seq![
        '\n',
    ] + "# Environment variables from rt.toml\n"@ + environ_lines(run_env) + seq!['\n'] + (
    if with_plugin {
        plugin_lines()
    } else {
        Seq::empty()
    })
}

fn push_environ(out: &mut String, env: &IndexMap<String, String>)
    ensures
        final(out)@ == old(out)@ + environ_lines(pairs_of(*env)),
{
    let entries = pairs_entries(env);
    let mut i: usize = 0;
    assert(entries.deep_view().take(0) =~= Seq::<(Seq<char>, Seq<char>)>::empty());
    assert(out@ =~= old(out)@ + environ_lines(entries.deep_view().take(0)));
    while i < entries.len()
        invariant
            i <= entries.len(),
            out@ == old(out)@ + environ_lines(entries.deep_view().take(i as int)),
        decreases entries.len() - i,
    {
        let ghost before = out@;
        proof {
            let t = entries.deep_view().take(i + 1);
            assert(t.drop_last() =~= entries.deep_view().take(i as int));
            assert(t.last() == (entries[i as int].0@, entries[i as int].1@));
        }
        out.append("os.environ[");
        let key = python_string_literal(entries[i].0.as_str());
        out.append(key.as_str());
        out.append("] = ");
        let value = python_string_literal(entries[i].1.as_str());
        out.append(value.as_str());
        push_char(out, '\n');
        assert(out@ =~= before + environ_line((entries[i as int].0@, entries[i as int].1@)));
        i = i + 1;
        assert(out@ =~= old(out)@ + environ_lines(entries.deep_view().take(i as int)));
    }
    assert(entries.deep_view().take(entries.len() as int) =~= entries.deep_view());
}

/// Writes the module that the interpreter of a context runs when it
/// starts.
pub fn sitecustomize(
    env: &IndexMap<String, String>,
    run_env: &IndexMap<String, String>,
    with_plugin: bool,
) -> (r: String)
    ensures
        r@ == sitecustomize_text(pairs_of(*env), pairs_of(*run_env), with_plugin),
{
    let mut out = String::from_str("# Environment variables from riotfile.py\n");
    out.append("import os\n");
    push_environ(&mut out, env);
    push_char(&mut out, '\n');
    out.append("# Environment variables from rt.toml\n");
    push_environ(&mut out, run_env);
    push_char(&mut out, '\n');
    if with_plugin {
        out.append("# rt pytest plugin\n");
        out.append(
            "plugins = [p.strip() for p in os.environ.get('PYTEST_PLUGINS', '').split(',') if p.strip()]\n",
        );
        out.append("if \"rt\" not in plugins:\n");
        out.append("    plugins.append(\"rt\")\n");
        out.append("os.environ['PYTEST_PLUGINS'] = ','.join(plugins)\n");
        push_char(&mut out, '\n');
    }
    assert(out@ =~= sitecustomize_text(pairs_of(*env), pairs_of(*run_env), with_plugin));
    out
}

/// A file that adds directories to the interpreter's path: one line for
/// each directory.
pub open spec fn pth_text(directories: Seq<Seq<char>>) -> Seq<char>
    decreases directories.len(),
{
    if directories.len() == 0 {
        Seq::empty()
    } else {
        pth_text(directories.drop_last()) + directories.last() + seq!['\n']
    }
}

/// Writes a file that adds directories to the interpreter's path.
pub fn pth_file(directories: &Vec<String>) -> (r: String)
    ensures
        r@ == pth_text(directories.deep_view()),
{
    let mut out = String::new();
    let mut i: usize = 0;
    assert(directories.deep_view().take(0) =~= Seq::<Seq<char>>::empty());
    while i < directories.len()
        invariant
            i <= directories.len(),
            out@ == pth_text(directories.deep_view().take(i as int)),
        decreases directories.len() - i,
    {
        proof {
            let t = directories.deep_view().take(i + 1);
            assert(t.drop_last() =~= directories.deep_view().take(i as int));
            assert(t.last() == directories[i as int]@);
        }
        out.append(directories[i].as_str());
        push_char(&mut out, '\n');
        i = i + 1;
    }
    assert(directories.deep_view().take(directories.len() as int) =~= directories.deep_view());
    out
}

/// Where the packages of the environment of a context lie, below the
/// directory of the environment.
pub fn site_packages_path(venv_dir: &str, python: &str) -> (r: String)
    ensures
        r@ == crate::paths::joined_path(
            venv_dir@,
            "lib/python"@ + python@ + "/site-packages"@,
        ),
{
    let mut rel = String::from_str("lib/python");
    rel.append(python);
    rel.append("/site-packages");
    crate::paths::join_path(venv_dir, rel.as_str())
}

/// What is done with a directory that may have been built before.
#[derive(Clone, Copy, Debug, PartialEq, Eq, Structural)]
pub enum BuildAction {
    /// The directory is complete and is used as it is.
    UseCached,
    /// The directory is built, from nothing.
    Rebuild,
}

/// Decides whether a directory is built: a directory with its marker is
/// used as it is, unless a rebuild is forced.
pub fn build_action(force_reinstall: bool, marker_exists: bool) -> (r: BuildAction)
    ensures
        r == (if !force_reinstall && marker_exists {
            BuildAction::UseCached
        } else {
            BuildAction::Rebuild
        }),
{
    if !force_reinstall && marker_exists {
        BuildAction::UseCached
    } else {
        BuildAction::Rebuild
    }
}

} // verus!
