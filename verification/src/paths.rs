//! Where the environments and what is installed for them lie below the
//! root directory. Paths are texts with `/` between their components.

use vstd::prelude::*;
use vstd::string::StringExecFns;
use crate::text::{chars_of, push_char};

verus! {

/// What the directory of every environment begins with.
pub const VENV_PREFIX: &'static str = "venv_";

/// The file that marks a directory as completely built.
pub const DONE_MARKER: &'static str = ".riot_done";

/// The directory of the compiled requirements below the root.
pub const REQUIREMENTS_DIR: &'static str = "requirements";

/// The directory of the development installs below the root.
pub const VENV_SELF_DIR: &'static str = "venv_self";

/// The directory of the installed dependencies below the root.
pub const VENV_DEPS_DIR: &'static str = "venv_deps";

/// A text with every occurrence of one character replaced by another.
pub open spec fn with_char_replaced(s: Seq<char>, from: char, to: char) -> Seq<char> {
    Seq::new(s.len(), |i: int| if s[i] == from {
        to
    } else {
        s[i]
    })
}

/// A text without the occurrences of one character.
pub open spec fn without_char(s: Seq<char>, c: char) -> Seq<char>
    decreases s.len(),
{
    if s.len() == 0 {
        Seq::empty()
    } else if s.last() == c {
        without_char(s.drop_last(), c)
    } else {
        without_char(s.drop_last(), c).push(s.last())
    }
}

/// A relative path below a directory: the two with one `/` between them,
/// which is left out where the directory is empty or ends with one.
pub open spec fn joined_path(base: Seq<char>, rel: Seq<char>) -> Seq<char> {
    if base.len() == 0 || base.last() == '/' {
        base + rel
    } else {
        base + seq!['/'] + rel
    }
}

/// The path of `rel`, which is relative, below the directory `base`.
pub fn join_path(base: &str, rel: &str) -> (r: String)
    ensures
        r@ == joined_path(base@, rel@),
{
    let b = chars_of(base);
    let mut r = base.to_owned();
    if b.len() > 0 && b[b.len() - 1] != '/' {
        push_char(&mut r, '/');
    }
    r.append(rel);
    r
}

/// The name of the directory of an environment or context: the prefix and
/// the hash, with `_` in the place of `@`.
pub open spec fn venv_dir_text(short_hash: Seq<char>) -> Seq<char> {
    VENV_PREFIX@ + with_char_replaced(short_hash, '@', '_')
}

/// The name of the directory of an environment or context.
pub fn venv_dir_name(short_hash: &str) -> (r: String)
    ensures
        r@ == venv_dir_text(short_hash@),
{
    let v = chars_of(short_hash);
    let mut r = String::from_str(VENV_PREFIX);
    let mut i: usize = 0;
    while i < v.len()
        invariant
            i <= v.len(),
            r@ == VENV_PREFIX@ + with_char_replaced(v@, '@', '_').take(i as int),
        decreases v.len() - i,
    {
        let c = if v[i] == '@' {
            '_'
        } else {
            v[i]
        };
        push_char(&mut r, c);
        i = i + 1;
        assert(with_char_replaced(v@, '@', '_').take(i as int) =~= with_char_replaced(
            v@,
            '@',
            '_',
        ).take(i - 1).push(c));
        assert(r@ =~= VENV_PREFIX@ + with_char_replaced(v@, '@', '_').take(i as int));
    }
    assert(with_char_replaced(v@, '@', '_').take(v.len() as int) =~= with_char_replaced(
        v@,
        '@',
        '_',
    ));
    r
}

/// The directory of an environment or context below the root.
pub fn venv_path(riot_root: &str, short_hash: &str) -> (r: String)
    ensures
        r@ == joined_path(riot_root@, venv_dir_text(short_hash@)),
{
    let name = venv_dir_name(short_hash);
    join_path(riot_root, name.as_str())
}

/// The interpreter of an environment or context.
pub fn venv_python_path(riot_root: &str, short_hash: &str) -> (r: String)
    ensures
        r@ == joined_path(joined_path(riot_root@, venv_dir_text(short_hash@)), "bin/python"@),
{
    let dir = venv_path(riot_root, short_hash);
    join_path(dir.as_str(), "bin/python")
}

/// The script that activates an environment or context.
pub fn activation_path(hash: &str, riot_root: &str) -> (r: String)
    ensures
        r@ == joined_path(joined_path(riot_root@, venv_dir_text(hash@)), "bin/activate"@),
{
    let dir = venv_path(riot_root, hash);
    join_path(dir.as_str(), "bin/activate")
}

/// The directory of the development install for an interpreter version:
/// `self_py` and the version without its dots, below the directory of the
/// development installs.
pub fn get_dev_install_path(riot_root: &str, python: &str) -> (r: String)
    ensures
        r@ == joined_path(
            joined_path(riot_root@, VENV_SELF_DIR@),
            "self_py"@ + without_char(python@, '.'),
        ),
{
    let v = chars_of(python);
    let mut name = String::from_str("self_py");
    let mut i: usize = 0;
    assert(v@.take(0) =~= Seq::<char>::empty());
    while i < v.len()
        invariant
            i <= v.len(),
            name@ == "self_py"@ + without_char(v@.take(i as int), '.'),
        decreases v.len() - i,
    {
        proof {
            assert(v@.take(i + 1).drop_last() =~= v@.take(i as int));
        }
        if v[i] != '.' {
            push_char(&mut name, v[i]);
            assert(name@ =~= "self_py"@ + without_char(v@.take(i + 1), '.'));
        }
        i = i + 1;
    }
    assert(v@.take(v.len() as int) =~= v@);
    let dir = join_path(riot_root, VENV_SELF_DIR);
    join_path(dir.as_str(), name.as_str())
}

/// The directory of the installed dependencies of an environment: `deps_`
/// and the hash, below the directory of the dependencies.
pub fn get_deps_install_path(riot_root: &str, hash: &str) -> (r: String)
    ensures
        r@ == joined_path(joined_path(riot_root@, VENV_DEPS_DIR@), "deps_"@ + hash@),
{
    let mut name = String::from_str("deps_");
    name.append(hash);
    let dir = join_path(riot_root, VENV_DEPS_DIR);
    join_path(dir.as_str(), name.as_str())
}

/// The file of the compiled requirements of an environment.
pub fn requirements_path(riot_root: &str, hash: &str) -> (r: String)
    ensures
        r@ == joined_path(joined_path(riot_root@, REQUIREMENTS_DIR@), hash@ + ".txt"@),
{
    let mut name = hash.to_owned();
    name.append(".txt");
    let dir = join_path(riot_root, REQUIREMENTS_DIR);
    join_path(dir.as_str(), name.as_str())
}

/// Whether the entry of the root directory with the given name is the
/// directory of an environment, which cleaning removes.
pub fn is_clean_target(name: &str, is_dir: bool) -> (r: bool)
    ensures
        r == (is_dir && name@ != REQUIREMENTS_DIR@ && crate::text::has_prefix(
            name@,
            VENV_PREFIX@,
        )),
{
    is_dir && !crate::text::str_equal(name, REQUIREMENTS_DIR) && crate::text::starts_with(
        name,
        VENV_PREFIX,
    )
}

} // verus!
