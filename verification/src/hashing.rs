//! Short content hashes of environments and of execution contexts.
//!
//! A hash is made of a list of texts: their UTF-8 bytes are digested with
//! SHA-256, the digest is folded byte by byte into a remainder modulo a
//! Mersenne prime, and the first seven hexadecimal digits of the remainder are
//! the hash.
//!
//! Names, versions and commands go into these texts in quoted form. How a
//! text is quoted is decided outside this library, so the quoted forms are
//! data here: the hashes are functions of the quoted texts, and a table from
//! text to quoted text says which form belongs to which text.

use vstd::prelude::*;
use vstd::string::StringExecFns;
use vstd::utf8::encode_utf8;
use indexmap::IndexMap;
use pyo3::types::{PyAnyMethods, PyString};
use pyo3::Python;
use sha2::{Digest, Sha256};
use crate::ordered_map::{lookup, pairs_entries, pairs_get, pairs_insert, pairs_of};
use crate::text::{push_char, string_of_range};

verus! {

/// The modulus of the fold where pointers have 64 bits: 2^61 - 1.
pub const HASH_MODULUS_64: u128 = 0x1fff_ffff_ffff_ffff;

/// The modulus of the fold where pointers have 32 bits: 2^31 - 1.
pub const HASH_MODULUS_32: u128 = 0x7fff_ffff;

/// The number of hexadecimal digits of a short hash.
pub const SHORT_HASH_LEN: usize = 7;

/// The SHA-256 digest of a byte string.
pub uninterp spec fn sha256_digest(data: Seq<u8>) -> Seq<u8>;

/// Digests `data` with SHA-256.
///
/// Trusted: `sha2::Sha256::digest` returns the SHA-256 digest of its
/// argument, which depends on the bytes alone.
#[verifier::external_body]
pub(crate) fn sha256(data: &[u8]) -> (r: Vec<u8>)
    ensures
        r@ == sha256_digest(data@),
{
    Sha256::digest(data).to_vec()
}

/// The representation of a string as Python's `repr` writes it, where
/// the interpreter can be asked.
///
/// Trusted: `Python::try_attach`, `PyString::from_bytes` and
/// `PyAnyMethods::repr` of pyo3. What comes back is decided by the
/// interpreter that runs in the process, so nothing is claimed of it.
#[verifier::external_body]
pub(crate) fn python_repr_str(value: &str) -> Option<String> {
    Python::try_attach(|py| {
        let text = PyString::from_bytes(py, value.as_bytes()).ok()?;
        text.repr().ok()?.extract::<String>().ok()
    }).flatten()
}

/// A text between quotes as Rust's `Debug` writes it.
///
/// Trusted: the `Debug` of `str` in the standard library; nothing is
/// claimed of the result.
#[verifier::external_body]
pub(crate) fn debug_quoted(value: &str) -> String {
    format!("{value:?}")
}

/// Quotes a text: as the interpreter's `repr` does, and as Rust's `Debug`
/// does where the interpreter cannot be asked.
fn quote_text(value: &str) -> String {
    match python_repr_str(value) {
        Some(quoted) => quoted,
        None => debug_quoted(value),
    }
}

/// The quoted form that a table of quotes holds for a text.
pub open spec fn quoted(quotes: Seq<(Seq<char>, Seq<char>)>, text: Seq<char>) -> Option<Seq<char>> {
    lookup(quotes, text)
}

/// Adds the quoted form of a text to a table of quotes, unless the table
/// holds one for it. The form is the one that the interpreter's `repr`
/// gives, or the one of Rust's `Debug` where the interpreter cannot be asked.
pub fn add_quote(quotes: &mut IndexMap<String, String>, text: &str)
    ensures
        quoted(pairs_of(*final(quotes)), text@) is Some,
        quoted(pairs_of(*old(quotes)), text@) is Some ==> pairs_of(*final(quotes)) == pairs_of(
            *old(quotes),
        ),
        quoted(pairs_of(*old(quotes)), text@) is None ==> exists|form: Seq<char>|
            pairs_of(*final(quotes)) == pairs_of(*old(quotes)).push((text@, form)),
        forall|other: Seq<char>|
            quoted(pairs_of(*old(quotes)), other) is Some ==> quoted(
                pairs_of(*final(quotes)),
                other,
            ) == quoted(pairs_of(*old(quotes)), other),
{
    let ghost before = pairs_of(*quotes);
    match pairs_get(quotes, text) {
        Some(_) => {},
        None => {
            let form = quote_text(text);
            pairs_insert(quotes, text.to_owned(), form);
            proof {
                crate::ordered_map::lemma_position_of(before, text@);
                let after = before.push((text@, form@));
                assert(pairs_of(*quotes) == after);
                crate::ordered_map::lemma_position_of(after, text@);
                assert forall|other: Seq<char>| quoted(before, other) is Some implies quoted(
                    after,
                    other,
                ) == quoted(before, other) by {
                    lemma_lookup_push(before, (text@, form@), other);
                }
                assert(after.drop_last() =~= before);
            }
        },
    }
}

/// A new entry at the end leaves what is found for every other key, and
/// is found for its own key.
pub proof fn lemma_lookup_push(
    entries: Seq<(Seq<char>, Seq<char>)>,
    entry: (Seq<char>, Seq<char>),
    key: Seq<char>,
)
    ensures
        key != entry.0 ==> lookup(entries.push(entry), key) == lookup(entries, key),
        lookup(entries.push(entry), entry.0) == Some(entry.1),
{
    assert(entries.push(entry).drop_last() =~= entries);
    crate::ordered_map::lemma_position_of(entries, key);
}

/// The modulus of the fold on this machine.
pub open spec fn hash_modulus() -> nat {
    if usize::BITS == 64 {
        HASH_MODULUS_64 as nat
    } else {
        HASH_MODULUS_32 as nat
    }
}

/// The digest folded into a remainder: each byte shifts the remainder by
/// eight bits, is added, and the sum is reduced modulo `m`.
pub open spec fn folded(digest: Seq<u8>, m: nat) -> nat
    decreases digest.len(),
{
    if digest.len() == 0 {
        0
    } else {
        (folded(digest.drop_last(), m) * 256 + digest.last() as nat) % m
    }
}

/// The lowercase hexadecimal digit of a value below 16.
pub open spec fn hex_char(d: nat) -> char {
    if d < 10 {
        ((48 + d) as u8) as char
    } else {
        ((97 + (d - 10)) as u8) as char
    }
}

/// The lowercase hexadecimal digits of a number, without leading zeros.
pub open spec fn hex_digits(n: nat) -> Seq<char>
    decreases n,
{
    if n < 16 {
        seq![hex_char(n)]
    } else {
        hex_digits(n / 16).push(hex_char(n % 16))
    }
}

/// The first characters of `s`, at most `n` of them.
pub open spec fn leading(s: Seq<char>, n: nat) -> Seq<char> {
    if s.len() <= n {
        s
    } else {
        s.take(n as int)
    }
}

/// The short hash that a digest stands for.
pub open spec fn short_hash(digest: Seq<u8>) -> Seq<char> {
    leading(hex_digits(folded(digest, hash_modulus())), SHORT_HASH_LEN as nat)
}

/// The UTF-8 bytes of the parts, one after another.
pub open spec fn bytes_of_parts(parts: Seq<Seq<char>>) -> Seq<u8>
    decreases parts.len(),
{
    if parts.len() == 0 {
        Seq::empty()
    } else {
        bytes_of_parts(parts.drop_last()) + encode_utf8(parts.last())
    }
}

/// The short hash of a list of texts.
pub open spec fn hash_of_parts(parts: Seq<Seq<char>>) -> Seq<char> {
    short_hash(sha256_digest(bytes_of_parts(parts)))
}

/// One package as the installer is given it: name and version suffix
/// between single quotes.
pub open spec fn quoted_dep(entry: (Seq<char>, Seq<char>)) -> Seq<char> {
    seq!['\''] + entry.0 + entry.1 + seq!['\'']
}

/// The packages quoted and separated by single spaces.
pub open spec fn pip_deps_text(pkgs: Seq<(Seq<char>, Seq<char>)>) -> Seq<char>
    decreases pkgs.len(),
{
    if pkgs.len() == 0 {
        Seq::empty()
    } else if pkgs.len() == 1 {
        quoted_dep(pkgs[0])
    } else {
        pip_deps_text(pkgs.drop_last()) + seq![' '] + quoted_dep(pkgs.last())
    }
}

/// How an interpreter is written whose version hint is quoted as given.
pub open spec fn interpreter_text(quoted_hint: Seq<char>) -> Seq<char> {
    "Interpreter(_hint="@ + quoted_hint + ")"@
}

/// The texts from which the hash of an environment is made: the quoted
/// name, the interpreter with the quoted version, and the packages.
pub open spec fn environment_hash_parts(
    quoted_name: Seq<char>,
    quoted_python: Seq<char>,
    pkgs: Seq<(Seq<char>, Seq<char>)>,
) -> Seq<Seq<char>> {
    seq![quoted_name, interpreter_text(quoted_python), pip_deps_text(pkgs)]
}

/// The hash of an environment whose name and version are quoted as given.
pub open spec fn environment_hash(
    quoted_name: Seq<char>,
    quoted_python: Seq<char>,
    pkgs: Seq<(Seq<char>, Seq<char>)>,
) -> Seq<char> {
    hash_of_parts(environment_hash_parts(quoted_name, quoted_python, pkgs))
}

/// The variables written `key=value` and separated by `|`.
pub open spec fn env_text(env: Seq<(Seq<char>, Seq<char>)>) -> Seq<char>
    decreases env.len(),
{
    if env.len() == 0 {
        Seq::empty()
    } else if env.len() == 1 {
        env[0].0 + seq!['='] + env[0].1
    } else {
        env_text(env.drop_last()) + seq!['|'] + (env.last().0 + seq!['='] + env.last().1)
    }
}

pub open spec fn flag_text(flag: bool) -> Seq<char> {
    if flag {
        "true"@
    } else {
        "false"@
    }
}

/// The texts from which the hash of an execution context is made: the
/// command as it is quoted, or `None` where there is none, the variables,
/// and the two flags.
pub open spec fn context_hash_parts(
    command: Option<Seq<char>>,
    env: Seq<(Seq<char>, Seq<char>)>,
    create: bool,
    skip_dev_install: bool,
) -> Seq<Seq<char>> {
    seq![
        match command {
            Some(quoted_command) => quoted_command,
            None => "None"@,
        },
        env_text(env),
        flag_text(create),
        flag_text(skip_dev_install),
    ]
}

/// The hash of an execution context whose command is quoted as given,
/// without the hash of its environment.
pub open spec fn context_hash_text(
    command: Option<Seq<char>>,
    env: Seq<(Seq<char>, Seq<char>)>,
    create: bool,
    skip_dev_install: bool,
) -> Seq<char> {
    hash_of_parts(context_hash_parts(command, env, create, skip_dev_install))
}

fn hex_digit(d: u8) -> (c: char)
    requires
        d < 16,
    ensures
        c == hex_char(d as nat),
{
    if d < 10 {
        (48u8 + d) as char
    } else {
        (97u8 + (d - 10)) as char
    }
}

fn push_hex(out: &mut String, n: u128)
    ensures
        final(out)@ == old(out)@ + hex_digits(n as nat),
    decreases n,
{
    if n >= 16 {
        push_hex(out, n / 16);
    }
    push_char(out, hex_digit((n % 16) as u8));
    assert(final(out)@ =~= old(out)@ + hex_digits(n as nat));
}

/// Writes a number as Rust's `{:#x}` writes it: `0x` and the lowercase
/// hexadecimal digits.
pub fn format_hex(value: u128) -> (r: String)
    ensures
        r@ == seq!['0', 'x'] + hex_digits(value as nat),
{
    let mut r = String::new();
    push_char(&mut r, '0');
    push_char(&mut r, 'x');
    assert(r@ =~= seq!['0', 'x']);
    push_hex(&mut r, value);
    r
}

/// What is left of a text after its first two characters, cut to seven.
pub open spec fn hash_of_hex(hex_str: Seq<char>) -> Seq<char> {
    if hex_str.len() <= 2 {
        Seq::empty()
    } else {
        leading(hex_str.skip(2), SHORT_HASH_LEN as nat)
    }
}

/// Takes the short hash out of a hexadecimal literal: drops the `0x` and
/// keeps the first seven digits.
pub fn extract_hash(hex_str: &str) -> (r: String)
    ensures
        r@ == hash_of_hex(hex_str@),
{
    let v = crate::text::chars_of(hex_str);
    if v.len() <= 2 {
        return String::new();
    }
    let end: usize = if v.len() - 2 <= SHORT_HASH_LEN {
        v.len()
    } else {
        2 + SHORT_HASH_LEN
    };
    let r = string_of_range(&v, 2, end);
    assert(r@ =~= hash_of_hex(hex_str@));
    r
}

/// Folds a digest into the short hash it stands for.
pub fn fold_digest(digest: &[u8]) -> (r: String)
    ensures
        r@ == short_hash(digest@),
{
    let modulus: u128 = if usize::BITS == 64 {
        HASH_MODULUS_64
    } else {
        HASH_MODULUS_32
    };
    let mut remainder: u128 = 0;
    let mut i: usize = 0;
    assert(digest@.take(0) =~= Seq::<u8>::empty());
    while i < digest.len()
        invariant
            i <= digest.len(),
            modulus == hash_modulus(),
            modulus <= HASH_MODULUS_64,
            modulus > 0,
            remainder == folded(digest@.take(i as int), modulus as nat),
            remainder < modulus,
        decreases digest.len() - i,
    {
        proof {
            assert(digest@.take(i + 1).drop_last() =~= digest@.take(i as int));
        }
        remainder = (remainder * 256 + digest[i] as u128) % modulus;
        i = i + 1;
    }
    assert(digest@.take(digest.len() as int) =~= digest@);
    // The remainder of a positive modulus is never negative, so the value
    // that stands for "no hash" cannot come up; it is moved aside all the same.
    let mut hash_value: i128 = remainder as i128;
    if hash_value == -1 {
        hash_value = -2;
    }
    let hex_str = format_hex(hash_value as u128);
    let r = extract_hash(hex_str.as_str());
    proof {
        let digits = hex_digits(remainder as nat);
        assert(hex_str@.skip(2) =~= digits);
        assert(digits.len() > 0) by {
            lemma_hex_digits_nonempty(remainder as nat);
        }
    }
    r
}

proof fn lemma_hex_digits_nonempty(n: nat)
    ensures
        hex_digits(n).len() > 0,
    decreases n,
{
    if n >= 16 {
        lemma_hex_digits_nonempty(n / 16);
    }
}

/// Computes short hashes from lists of texts.
pub struct RiotHasher;

impl RiotHasher {
    /// The short hash of the parts.
    pub fn hash_parts(parts: &Vec<String>) -> (r: String)
        ensures
            r@ == hash_of_parts(parts.deep_view()),
    {
        let mut bytes: Vec<u8> = Vec::new();
        let mut i: usize = 0;
        assert(parts.deep_view().take(0) =~= Seq::<Seq<char>>::empty());
        while i < parts.len()
            invariant
                i <= parts.len(),
                bytes@ == bytes_of_parts(parts.deep_view().take(i as int)),
            decreases parts.len() - i,
        {
            proof {
                let t = parts.deep_view().take(i + 1);
                assert(t.drop_last() =~= parts.deep_view().take(i as int));
                assert(t.last() == parts[i as int]@);
            }
            bytes.extend_from_slice(parts[i].as_str().as_bytes());
            i = i + 1;
        }
        assert(parts.deep_view().take(parts.len() as int) =~= parts.deep_view());
        let digest = sha256(bytes.as_slice());
        fold_digest(digest.as_slice())
    }

    /// The hash of an execution context, without the hash of its
    /// environment; `quoted_command` is the command as it is quoted.
    pub fn context_hash(
        quoted_command: Option<&String>,
        env: &IndexMap<String, String>,
        create: bool,
        skip_dev_install: bool,
    ) -> (r: String)
        ensures
            r@ == context_hash_text(
                match quoted_command {
                    Some(c) => Some(c@),
                    None => None,
                },
                pairs_of(*env),
                create,
                skip_dev_install,
            ),
    {
        let command_repr = match quoted_command {
            Some(value) => value.clone(),
            None => String::from_str("None"),
        };
        let entries = pairs_entries(env);
        let mut env_repr = String::new();
        let mut i: usize = 0;
        assert(entries.deep_view().take(0) =~= Seq::<(Seq<char>, Seq<char>)>::empty());
        while i < entries.len()
            invariant
                i <= entries.len(),
                env_repr@ == env_text(entries.deep_view().take(i as int)),
            decreases entries.len() - i,
        {
            proof {
                let t = entries.deep_view().take(i + 1);
                assert(t.drop_last() =~= entries.deep_view().take(i as int));
                assert(t.last() == (entries[i as int].0@, entries[i as int].1@));
            }
            let ghost before = env_repr@;
            if i > 0 {
                push_char(&mut env_repr, '|');
            }
            env_repr.append(entries[i].0.as_str());
            push_char(&mut env_repr, '=');
            env_repr.append(entries[i].1.as_str());
            proof {
                let e = (entries[i as int].0@, entries[i as int].1@);
                if i > 0 {
                    assert(env_repr@ =~= before + seq!['|'] + (e.0 + seq!['='] + e.1));
                } else {
                    assert(env_repr@ =~= e.0 + seq!['='] + e.1);
                }
            }
            i = i + 1;
        }
        assert(entries.deep_view().take(entries.len() as int) =~= entries.deep_view());
        let mut parts: Vec<String> = Vec::new();
        parts.push(command_repr);
        parts.push(env_repr);
        parts.push(flag(create));
        parts.push(flag(skip_dev_install));
        assert(parts.deep_view() =~= context_hash_parts(
            match quoted_command {
                Some(c) => Some(c@),
                None => None,
            },
            pairs_of(*env),
            create,
            skip_dev_install,
        ));
        Self::hash_parts(&parts)
    }
}

fn flag(value: bool) -> (r: String)
    ensures
        r@ == flag_text(value),
{
    if value {
        String::from_str("true")
    } else {
        String::from_str("false")
    }
}

/// The packages quoted and separated by single spaces, as the installer is
/// given them.
pub fn pip_deps(pkgs: &IndexMap<String, String>) -> (r: String)
    ensures
        r@ == pip_deps_text(pairs_of(*pkgs)),
{
    let entries = pairs_entries(pkgs);
    let mut r = String::new();
    let mut i: usize = 0;
    assert(entries.deep_view().take(0) =~= Seq::<(Seq<char>, Seq<char>)>::empty());
    while i < entries.len()
        invariant
            i <= entries.len(),
            r@ == pip_deps_text(entries.deep_view().take(i as int)),
        decreases entries.len() - i,
    {
        proof {
            let t = entries.deep_view().take(i + 1);
            assert(t.drop_last() =~= entries.deep_view().take(i as int));
            assert(t.last() == (entries[i as int].0@, entries[i as int].1@));
        }
        let ghost before = r@;
        if i > 0 {
            push_char(&mut r, ' ');
        }
        push_char(&mut r, '\'');
        r.append(entries[i].0.as_str());
        r.append(entries[i].1.as_str());
        push_char(&mut r, '\'');
        proof {
            let e = (entries[i as int].0@, entries[i as int].1@);
            if i > 0 {
                assert(r@ =~= before + seq![' '] + quoted_dep(e));
            } else {
                assert(r@ =~= quoted_dep(e));
            }
        }
        i = i + 1;
    }
    assert(entries.deep_view().take(entries.len() as int) =~= entries.deep_view());
    r
}

/// How an interpreter is written whose version hint is quoted as given.
pub fn interpreter_repr(quoted_hint: &str) -> (r: String)
    ensures
        r@ == interpreter_text(quoted_hint@),
{
    let mut r = String::from_str("Interpreter(_hint=");
    r.append(quoted_hint);
    r.append(")");
    r
}

/// The hash of the environment with the given packages whose name and
/// interpreter version are quoted as given.
pub fn environment_hash_of(quoted_name: &str, quoted_python: &str, pkgs: &IndexMap<String, String>) -> (r:
    String)
    ensures
        r@ == environment_hash(quoted_name@, quoted_python@, pairs_of(*pkgs)),
{
    let mut parts: Vec<String> = Vec::new();
    parts.push(quoted_name.to_owned());
    parts.push(interpreter_repr(quoted_python));
    parts.push(pip_deps(pkgs));
    assert(parts.deep_view() =~= environment_hash_parts(
        quoted_name@,
        quoted_python@,
        pairs_of(*pkgs),
    ));
    RiotHasher::hash_parts(&parts)
}

} // verus!
