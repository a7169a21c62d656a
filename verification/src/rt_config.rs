//! The variables that a project's configuration file sets for builds and
//! for runs.

use vstd::prelude::*;
use vstd::string::StringExecFns;
use indexmap::IndexMap;
use crate::ordered_map::{pairs_insert, pairs_new, pairs_of, upsert};
use crate::venv::Pairs;

verus! {

/// A failure of the `toml` crate to read a document.
#[verifier::external_type_specification]
#[verifier::external_body]
pub struct ExTomlError(toml::de::Error);

/// What a document holds at the place of a section.
#[derive(Debug)]
pub enum Section {
    /// Nothing.
    Missing,
    /// Something that is no table.
    NotATable,
    /// A table: its keys, each with its value where that is a text.
    Table(Vec<(String, Option<String>)>),
}

/// A section as plain values.
pub enum SectionView {
    Missing,
    NotATable,
    Table(Seq<(Seq<char>, Option<Seq<char>>)>),
}

impl View for Section {
    type V = SectionView;

    open spec fn view(&self) -> SectionView {
        match self {
            Section::Missing => SectionView::Missing,
            Section::NotATable => SectionView::NotATable,
            Section::Table(entries) => SectionView::Table(entries_view(entries@)),
        }
    }
}

/// What a document holds at the place `inner` of its table `outer`;
/// nothing where the text is no document.
pub uninterp spec fn toml_section(
    contents: Seq<char>,
    outer: Seq<char>,
    inner: Seq<char>,
) -> Option<SectionView>;

/// Reads a document and hands out what it holds at the place `inner` of
/// its table `outer`.
///
/// Trusted: `toml::from_str` for a `toml::Value`, `toml::Value::get` with a
/// text as index, `toml::Value::as_table`, the table's `iter` and
/// `toml::Value::as_str`. What they give depends on the text and the two
/// keys alone.
#[verifier::external_body]
pub(crate) fn read_section(contents: &str, outer: &str, inner: &str) -> (r: Result<
    Section,
    toml::de::Error,
>)
    ensures
        match r {
            Ok(section) => toml_section(contents@, outer@, inner@) == Some(section@),
            Err(_) => toml_section(contents@, outer@, inner@) is None,
        },
{
    let document: toml::Value = toml::from_str(contents)?;
    Ok(match document.get(outer).and_then(|table| table.get(inner)) {
        None => Section::Missing,
        Some(value) => match value.as_table() {
            None => Section::NotATable,
            Some(table) => Section::Table(
                table.iter().map(|(k, v)| (k.clone(), v.as_str().map(str::to_owned))).collect(),
            ),
        },
    })
}

/// What the parser says of a document that it cannot read.
///
/// Trusted: the `Display` of `toml::de::Error`; nothing is claimed of the
/// text.
#[verifier::external_body]
pub(crate) fn document_error_text(err: &toml::de::Error) -> String {
    format!("{err}")
}

/// What is wrong with a configuration file.
#[derive(Debug)]
pub enum ConfigError {
    /// The file is no document; with the parser's message.
    Unreadable(String),
    /// A section is no table; with the name of the section.
    NotATable(String),
    /// A value is no text; with the name of the section and the key.
    NotAString(String),
}

/// The name of a key in a section.
pub open spec fn key_path(section_name: Seq<char>, key: Seq<char>) -> Seq<char> {
    section_name + seq!['.'] + key
}

/// The first of the first `n` entries whose value is no text: its place.
pub open spec fn first_not_text(entries: Seq<(Seq<char>, Option<Seq<char>>)>, n: int) -> Option<
    int,
>
    decreases n,
{
    if n <= 0 {
        None
    } else {
        match first_not_text(entries, n - 1) {
            Some(i) => Some(i),
            None => if entries[n - 1].1 is None {
                Some(n - 1)
            } else {
                None
            },
        }
    }
}

/// The variables of the first `n` entries, the later of two entries with
/// one key counting.
pub open spec fn variables_of(entries: Seq<(Seq<char>, Option<Seq<char>>)>, n: int) -> Pairs
    decreases n,
{
    if n <= 0 {
        Seq::empty()
    } else {
        match entries[n - 1].1 {
            Some(text) => upsert(variables_of(entries, n - 1), entries[n - 1].0, text),
            None => variables_of(entries, n - 1),
        }
    }
}

/// The entries as plain values.
pub open spec fn entries_view(entries: Seq<(String, Option<String>)>) -> Seq<
    (Seq<char>, Option<Seq<char>>),
> {
    Seq::new(
        entries.len(),
        |i: int| (entries[i].0@, crate::spec_tree::text_of(entries[i].1)),
    )
}

proof fn lemma_not_text_stays(entries: Seq<(Seq<char>, Option<Seq<char>>)>, n: int, m: int)
    requires
        0 <= n <= m,
        first_not_text(entries, n) is Some,
    ensures
        first_not_text(entries, m) == first_not_text(entries, n),
    decreases m - n,
{
    if m > n {
        lemma_not_text_stays(entries, n, m - 1);
    }
}

/// The variables that the entries of a section set. Every value must be a
/// text: the first that is none is an error, named by section and key.
pub fn env_from_entries(entries: &Vec<(String, Option<String>)>, section_name: &str) -> (r: Result<
    IndexMap<String, String>,
    ConfigError,
>)
    ensures
        match r {
            Ok(env) => first_not_text(entries_view(entries@), entries.len() as int) is None
                && pairs_of(env) == variables_of(entries_view(entries@), entries.len() as int),
            Err(ConfigError::NotAString(path)) => first_not_text(
                entries_view(entries@),
                entries.len() as int,
            ) matches Some(i) && path@ == key_path(section_name@, entries_view(entries@)[i].0),
            Err(_) => false,
        },
{
    let ghost all = entries_view(entries@);
    let mut env = pairs_new();
    let mut i: usize = 0;
    while i < entries.len()
        invariant
            i <= entries.len(),
            all == entries_view(entries@),
            first_not_text(all, i as int) is None,
            pairs_of(env) == variables_of(all, i as int),
        decreases entries.len() - i,
    {
        assert(all[i as int] == (entries[i as int].0@, crate::spec_tree::text_of(entries[i as int].1)));
        match &entries[i].1 {
            Some(text) => {
                pairs_insert(&mut env, entries[i].0.clone(), text.clone());
            },
            None => {
                let mut path = section_name.to_owned();
                path.append(".");
                path.append(entries[i].0.as_str());
                proof {
                    reveal_strlit(".");
                    assert(path@ =~= key_path(section_name@, all[i as int].0));
                    lemma_not_text_stays(all, i + 1, entries.len() as int);
                }
                return Err(ConfigError::NotAString(path));
            },
        }
        i = i + 1;
    }
    Ok(env)
}

/// What is wrong with a configuration file, as plain values.
pub enum ConfigFault {
    Unreadable,
    NotATable(Seq<char>),
    NotAString(Seq<char>),
}

/// The variables that a section sets. A section that is missing sets
/// none; one that is no table is an error, named by the section; in a table
/// every value must be a text, and the first that is none is an error, named
/// by section and key.
pub open spec fn env_of_section(section: SectionView, section_name: Seq<char>) -> Result<
    Pairs,
    ConfigFault,
> {
    match section {
        SectionView::Missing => Ok(Seq::empty()),
        SectionView::NotATable => Err(ConfigFault::NotATable(section_name)),
        SectionView::Table(entries) => match first_not_text(entries, entries.len() as int) {
            Some(i) => Err(ConfigFault::NotAString(key_path(section_name, entries[i].0))),
            None => Ok(variables_of(entries, entries.len() as int)),
        },
    }
}

/// An outcome as plain values.
pub open spec fn env_outcome(r: Result<IndexMap<String, String>, ConfigError>) -> Result<
    Pairs,
    ConfigFault,
> {
    match r {
        Ok(env) => Ok(pairs_of(env)),
        Err(ConfigError::Unreadable(_)) => Err(ConfigFault::Unreadable),
        Err(ConfigError::NotATable(s)) => Err(ConfigFault::NotATable(s@)),
        Err(ConfigError::NotAString(p)) => Err(ConfigFault::NotAString(p@)),
    }
}

/// The variables that a section of the document sets.
pub fn parse_env_table(section: &Section, section_name: &str) -> (r: Result<
    IndexMap<String, String>,
    ConfigError,
>)
    ensures
        env_outcome(r) == env_of_section(section@, section_name@),
{
    match section {
        Section::Missing => Ok(pairs_new()),
        Section::NotATable => Err(ConfigError::NotATable(section_name.to_owned())),
        Section::Table(entries) => env_from_entries(entries, section_name),
    }
}

/// The variables that a document sets for builds and for runs: those of
/// `env.build` and those of `env.run`. A text that is no document is an
/// error; so is what is wrong with the section for builds, and after it what
/// is wrong with the section for runs.
pub open spec fn loaded(contents: Seq<char>) -> Result<(Pairs, Pairs), ConfigFault> {
    match toml_section(contents, "env"@, "build"@) {
        None => Err(ConfigFault::Unreadable),
        Some(build) => match env_of_section(build, "env.build"@) {
            Err(fault) => Err(fault),
            Ok(build_env) => match toml_section(contents, "env"@, "run"@) {
                None => Err(ConfigFault::Unreadable),
                Some(run) => match env_of_section(run, "env.run"@) {
                    Err(fault) => Err(fault),
                    Ok(run_env) => Ok((build_env, run_env)),
                },
            },
        },
    }
}

/// The outcome of reading a configuration file, as plain values.
pub open spec fn loaded_view(
    r: Result<(IndexMap<String, String>, IndexMap<String, String>), ConfigError>,
) -> Result<(Pairs, Pairs), ConfigFault> {
    match r {
        Ok(both) => Ok((pairs_of(both.0), pairs_of(both.1))),
        Err(ConfigError::Unreadable(_)) => Err(ConfigFault::Unreadable),
        Err(ConfigError::NotATable(s)) => Err(ConfigFault::NotATable(s@)),
        Err(ConfigError::NotAString(p)) => Err(ConfigFault::NotAString(p@)),
    }
}

/// The variables that a configuration file sets: those of `env.build` for
/// builds, and those of `env.run` for runs.
pub fn load_rt_toml(contents: &str) -> (r: Result<
    (IndexMap<String, String>, IndexMap<String, String>),
    ConfigError,
>)
    ensures
        loaded_view(r) == loaded(contents@),
{
    let build = match read_section(contents, "env", "build") {
        Ok(section) => section,
        Err(err) => {
            return Err(ConfigError::Unreadable(document_error_text(&err)));
        },
    };
    let build_env = match parse_env_table(&build, "env.build") {
        Ok(env) => env,
        Err(e) => {
            return Err(e);
        },
    };
    let run = match read_section(contents, "env", "run") {
        Ok(section) => section,
        Err(err) => {
            return Err(ConfigError::Unreadable(document_error_text(&err)));
        },
    };
    let run_env = match parse_env_table(&run, "env.run") {
        Ok(env) => env,
        Err(e) => {
            return Err(e);
        },
    };
    Ok((build_env, run_env))
}

/// What a user is told of a configuration error.
pub fn config_error_message(error: &ConfigError) -> (r: String)
    ensures
        match error {
            ConfigError::Unreadable(m) => r@ == "failed to parse rt.toml: "@ + m@,
            ConfigError::NotATable(s) => r@ == s@
                + " must be a table of string key/value pairs"@,
            ConfigError::NotAString(p) => r@ == p@ + " must be a string"@,
        },
{
    match error {
        ConfigError::Unreadable(m) => {
            let mut r = String::from_str("failed to parse rt.toml: ");
            r.append(m.as_str());
            r
        },
        ConfigError::NotATable(s) => {
            let mut r = s.clone();
            r.append(" must be a table of string key/value pairs");
            r
        },
        ConfigError::NotAString(p) => {
            let mut r = p.clone();
            r.append(" must be a string");
            r
        },
    }
}

} // verus!
