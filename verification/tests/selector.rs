use indexmap::IndexMap;
use riot::completion::{
    complete_selector, HashCompleter, NameCompleter, PythonCompleter, SelectorCompleter,
};
use riot::config::{RunConfig, Selector};
use riot::resolve::{normalize_venvs, quote_tree, ResolvedVenvs};
use riot::selector::{is_short_hash, parse_ctx_hash, select_execution_contexts, SelectError};
use riot::spec_tree::PyVenv;
use riot::targets::{
    make_venv_shell_context, missing_command, resolve_target, sort_contexts, sort_for_listing,
    TargetError,
};
use riot::venv::RiotVenv;

fn lists(entries: &[(&str, &[&str])]) -> IndexMap<String, Vec<String>> {
    let mut m = IndexMap::new();
    for (k, v) in entries {
        m.insert(k.to_string(), v.iter().map(|s| s.to_string()).collect());
    }
    m
}

fn map_of(entries: &[(&str, &str)]) -> IndexMap<String, String> {
    let mut m = IndexMap::new();
    for (k, v) in entries {
        m.insert(k.to_string(), v.to_string());
    }
    m
}

fn leaf(name: &str, pkgs: &[(&str, &[&str])], env: &[(&str, &[&str])]) -> PyVenv {
    PyVenv::new(
        Some(name.to_string()),
        None,
        vec![],
        lists(pkgs),
        lists(env),
        vec![],
        None,
        None,
    )
}

fn sample() -> ResolvedVenvs {
    pyo3::Python::initialize();
    let root = PyVenv::new(
        None,
        Some("run {cmdargs}".to_string()),
        vec!["3.11".to_string(), "3.12".to_string()],
        IndexMap::new(),
        IndexMap::new(),
        vec![
            leaf("svc", &[("x", &[""])], &[("A", &["1", "2"]), ("B", &["1"])]),
            leaf("one", &[("p", &["==1"]), ("q", &["==2", "==3"])], &[]),
            leaf("two", &[("p", &["==1"])], &[]),
        ],
        None,
        None,
    );
    normalize_venvs(&root, &IndexMap::new(), &quotes_of(&root)).unwrap()
}

fn quotes_of(root: &PyVenv) -> IndexMap<String, String> {
    pyo3::Python::initialize();
    quote_tree(root)
}

fn names(venvs: &[RiotVenv]) -> Vec<(String, String)> {
    venvs.iter().map(|v| (v.name.clone(), v.python.clone())).collect()
}

fn pair(a: &str, b: &str) -> (String, String) {
    (a.to_string(), b.to_string())
}

#[test]
fn short_hashes_have_seven_lowercase_hex_digits() {
    assert!(is_short_hash("0123abc"));
    assert!(is_short_hash("abcdef0"));
    assert!(!is_short_hash("0123ab"));
    assert!(!is_short_hash("0123abcd"));
    assert!(!is_short_hash("0123abg"));
    assert!(!is_short_hash("0123ABC"));
    assert!(!is_short_hash(""));
    assert!(!is_short_hash("012é"));
}

#[test]
fn compound_hashes_are_two_short_hashes() {
    assert_eq!(parse_ctx_hash("0123abc@def4567"), Some("0123abc".to_string()));
    assert_eq!(parse_ctx_hash("0123abc@def456"), None);
    assert_eq!(parse_ctx_hash("0123abc@def45678"), None);
    assert_eq!(parse_ctx_hash("0123abc_def4567"), None);
    assert_eq!(parse_ctx_hash("0123abc@def456@"), None);
    assert_eq!(parse_ctx_hash("0123abc"), None);
    assert_eq!(parse_ctx_hash("0123abX@def4567"), None);
    assert_eq!(parse_ctx_hash("0123abc@def456X"), None);
    assert_eq!(parse_ctx_hash("@"), None);
}

#[test]
fn all_selects_everything_in_order() {
    let table = sample();
    let all = select_execution_contexts(&table, Selector::All).unwrap();
    assert_eq!(all.len(), table.len());
    assert_eq!(all.len(), 8);
    assert_eq!(
        names(&all),
        vec![
            pair("svc", "3.11"),
            pair("svc", "3.12"),
            pair("one", "3.11"),
            pair("one", "3.11"),
            pair("one", "3.12"),
            pair("one", "3.12"),
            pair("two", "3.11"),
            pair("two", "3.12"),
        ]
    );
    let star = select_execution_contexts(&table, Selector::Pattern("*".to_string())).unwrap();
    assert_eq!(names(&star), names(&all));
    let empty = select_execution_contexts(
        &table,
        Selector::Generic { python: None, pattern: None },
    )
    .unwrap();
    assert_eq!(names(&empty), names(&all));
}

#[test]
fn selecting_by_its_own_hash_gives_the_environment() {
    let table = sample();
    for i in 0..table.len() {
        let venv = table.get(i);
        let found =
            select_execution_contexts(&table, Selector::Pattern(venv.hash.clone())).unwrap();
        assert_eq!(found.len(), 1);
        assert_eq!(found[0].hash, venv.hash);
        assert_eq!(found[0].name, venv.name);
        assert_eq!(found[0].python, venv.python);
        assert_eq!(found[0].pkgs, venv.pkgs);
        assert_eq!(found[0].execution_contexts.len(), venv.execution_contexts.len());
        for (a, b) in found[0].execution_contexts.iter().zip(venv.execution_contexts.iter()) {
            assert_eq!(a.hash, b.hash);
            assert_eq!(a.env, b.env);
        }
    }
}

#[test]
fn selecting_by_a_compound_hash_gives_one_context() {
    let table = sample();
    for i in 0..table.len() {
        let venv = table.get(i);
        for ctx in &venv.execution_contexts {
            let found =
                select_execution_contexts(&table, Selector::Pattern(ctx.hash.clone())).unwrap();
            assert_eq!(found.len(), 1);
            assert_eq!(found[0].hash, venv.hash);
            assert_eq!(found[0].execution_contexts.len(), 1);
            assert_eq!(found[0].execution_contexts[0].hash, ctx.hash);
            assert_eq!(found[0].execution_contexts[0].env, ctx.env);
            assert_eq!(found[0].shared_env, venv.shared_env);
        }
    }
}

#[test]
fn an_unknown_hash_selects_nothing() {
    let table = sample();
    let found = select_execution_contexts(&table, Selector::Pattern("0000000".to_string()));
    assert!(found.unwrap().is_empty());
    let found =
        select_execution_contexts(&table, Selector::Pattern("0000000@0000000".to_string()));
    assert!(found.unwrap().is_empty());
    let hash = table.get(0).hash.clone();
    let found =
        select_execution_contexts(&table, Selector::Pattern(format!("{hash}@0000000"))).unwrap();
    assert_eq!(found.len(), 1);
    assert!(found[0].execution_contexts.is_empty());
}

#[test]
fn a_pattern_selects_by_name() {
    let table = sample();
    let found = select_execution_contexts(&table, Selector::Pattern("^o".to_string())).unwrap();
    assert_eq!(found.len(), 4);
    assert!(found.iter().all(|v| v.name == "one"));
    let found = select_execution_contexts(&table, Selector::Pattern("o".to_string())).unwrap();
    assert_eq!(found.len(), 6);
    let found =
        select_execution_contexts(&table, Selector::Pattern("^(svc|two)$".to_string())).unwrap();
    assert_eq!(
        names(&found),
        vec![pair("svc", "3.11"), pair("svc", "3.12"), pair("two", "3.11"), pair("two", "3.12")]
    );
    let found = select_execution_contexts(&table, Selector::Pattern("nothing".to_string()));
    assert!(found.unwrap().is_empty());
    let found = select_execution_contexts(&table, Selector::Pattern("(?<!w)o".to_string()));
    assert!(found.unwrap().iter().all(|v| v.name == "one"));
}

#[test]
fn a_malformed_pattern_is_an_error() {
    let table = sample();
    let failed = select_execution_contexts(&table, Selector::Pattern("(unclosed".to_string()));
    assert!(matches!(failed, Err(SelectError::InvalidPattern(_))));
    let failed = select_execution_contexts(&table, Selector::Pattern("a**+".to_string()));
    assert!(matches!(failed, Err(SelectError::InvalidPattern(_))));
    let empty = ResolvedVenvs::new();
    let failed = select_execution_contexts(&empty, Selector::Pattern("[".to_string()));
    assert!(matches!(failed, Err(SelectError::InvalidPattern(_))));
}

#[test]
fn versions_narrow_the_candidates() {
    let table = sample();
    let selector =
        Selector::Generic { python: Some(vec!["3.12".to_string()]), pattern: None };
    let found = select_execution_contexts(&table, selector).unwrap();
    assert_eq!(found.len(), 4);
    assert!(found.iter().all(|v| v.python == "3.12"));
    let selector = Selector::Generic {
        python: Some(vec!["3.12".to_string(), "3.11".to_string()]),
        pattern: Some("two".to_string()),
    };
    let found = select_execution_contexts(&table, selector).unwrap();
    assert_eq!(names(&found), vec![pair("two", "3.11"), pair("two", "3.12")]);
    let selector = Selector::Generic { python: Some(vec!["3".to_string()]), pattern: None };
    assert!(select_execution_contexts(&table, selector).unwrap().is_empty());
    let selector = Selector::Generic { python: Some(vec![]), pattern: None };
    assert!(select_execution_contexts(&table, selector).unwrap().is_empty());
}

#[test]
fn versions_narrow_before_a_hash_is_looked_up() {
    let table = sample();
    let venv = table.get(0);
    assert_eq!(venv.python, "3.11");
    let selector = Selector::Generic {
        python: Some(vec!["3.12".to_string()]),
        pattern: Some(venv.hash.clone()),
    };
    assert!(select_execution_contexts(&table, selector).unwrap().is_empty());
    let selector = Selector::Generic {
        python: Some(vec!["3.11".to_string()]),
        pattern: Some(venv.hash.clone()),
    };
    assert_eq!(select_execution_contexts(&table, selector).unwrap().len(), 1);
}

#[test]
fn shared_packages_are_those_of_the_name() {
    let table = sample();
    let found = select_execution_contexts(&table, Selector::Pattern("one".to_string())).unwrap();
    for venv in &found {
        assert_eq!(venv.shared_pkgs, map_of(&[("p", "==1")]));
    }
    let found = select_execution_contexts(&table, Selector::Pattern("two".to_string())).unwrap();
    for venv in &found {
        assert_eq!(venv.shared_pkgs, map_of(&[("p", "==1")]));
    }
    let selector = Selector::Generic {
        python: Some(vec!["3.11".to_string()]),
        pattern: Some("svc".to_string()),
    };
    let found = select_execution_contexts(&table, selector).unwrap();
    assert_eq!(found[0].shared_pkgs, map_of(&[("x", "")]));
    assert_eq!(found[0].shared_env, map_of(&[("B", "1")]));
}

#[test]
fn a_target_is_one_environment_with_one_context() {
    let table = sample();
    let venv = table.get(0);
    let ctx = &venv.execution_contexts[1];
    let target = resolve_target(&table, &ctx.hash).unwrap();
    assert_eq!(target.hash, venv.hash);
    assert_eq!(target.execution_contexts.len(), 1);
    assert_eq!(target.execution_contexts[0].hash, ctx.hash);
    let target = resolve_target(&table, &venv.hash).unwrap();
    assert_eq!(target.hash, venv.hash);
    assert_eq!(target.execution_contexts.len(), 1);
    assert_eq!(target.execution_contexts[0].hash, venv.hash);
    assert_eq!(target.execution_contexts[0].command, None);
    assert!(target.execution_contexts[0].env.is_empty());
}

#[test]
fn a_target_must_be_unique() {
    let table = sample();
    assert!(matches!(resolve_target(&table, "one"), Err(TargetError::NotUnique)));
    assert!(matches!(resolve_target(&table, "0000000"), Err(TargetError::NotUnique)));
    assert!(matches!(resolve_target(&table, "nothing"), Err(TargetError::NotUnique)));
    assert!(matches!(
        resolve_target(&table, "("),
        Err(TargetError::Selection(SelectError::InvalidPattern(_)))
    ));
}

#[test]
fn the_shell_context_has_the_hash_of_the_environment() {
    let table = sample();
    let ctx = make_venv_shell_context(table.get(2));
    assert_eq!(ctx.hash, table.get(2).hash);
    assert_eq!(ctx.command, None);
    assert_eq!(ctx.pytest_target, None);
    assert!(!ctx.create);
    assert!(!ctx.skip_dev_install);
}

#[test]
fn missing_commands_are_found() {
    let with = sample();
    let all = select_execution_contexts(&with, Selector::All).unwrap();
    let plain = RunConfig {
        command_override: None,
        cmdargs: vec![],
        action_label: "Execute".to_string(),
    };
    assert_eq!(missing_command(&all, &plain), None);
    let root = PyVenv::new(
        None,
        None,
        vec!["3.11".to_string()],
        IndexMap::new(),
        IndexMap::new(),
        vec![
            PyVenv::new(
                Some("has".to_string()),
                Some("run".to_string()),
                vec![],
                IndexMap::new(),
                IndexMap::new(),
                vec![],
                None,
                None,
            ),
            leaf("lacks", &[], &[("A", &["1", "2"])]),
        ],
        None,
        None,
    );
    pyo3::Python::initialize();
    let table = normalize_venvs(&root, &IndexMap::new(), &quotes_of(&root)).unwrap();
    let all = select_execution_contexts(&table, Selector::All).unwrap();
    assert_eq!(missing_command(&all, &plain), Some(all[1].execution_contexts[0].hash.clone()));
    let overridden = RunConfig {
        command_override: Some("echo".to_string()),
        cmdargs: vec![],
        action_label: "Execute".to_string(),
    };
    assert_eq!(missing_command(&all, &overridden), None);
}

#[test]
fn listing_sorts_by_hash() {
    let table = sample();
    let all = select_execution_contexts(&table, Selector::All).unwrap();
    let listed = sort_for_listing(&all);
    let mut expected: Vec<String> = all.iter().map(|v| v.hash.clone()).collect();
    expected.sort();
    assert_eq!(listed.iter().map(|v| v.hash.clone()).collect::<Vec<_>>(), expected);
    for venv in &listed {
        let got: Vec<String> = venv.execution_contexts.iter().map(|c| c.hash.clone()).collect();
        let mut sorted = got.clone();
        sorted.sort();
        assert_eq!(got, sorted);
    }
    let contexts = sort_contexts(&table.get(0).execution_contexts);
    assert_eq!(contexts.len(), 2);
    assert!(contexts[0].hash < contexts[1].hash);
}

#[test]
fn versions_are_completed_in_order() {
    let table = sample();
    let all = select_execution_contexts(&table, Selector::All).unwrap();
    assert_eq!(PythonCompleter.candidates(&all, "3"), vec!["3.11", "3.12"]);
    assert_eq!(PythonCompleter.candidates(&all, "3.12"), vec!["3.12"]);
    assert_eq!(PythonCompleter.candidates(&all, ""), vec!["3.11", "3.12"]);
    assert!(PythonCompleter.candidates(&all, "2").is_empty());
}

#[test]
fn names_are_completed_once_and_sorted() {
    let table = sample();
    assert_eq!(NameCompleter.candidates(&table, ""), vec!["one", "svc", "two"]);
    assert_eq!(NameCompleter.candidates(&table, "o"), vec!["one", "two"]);
    assert!(NameCompleter.candidates(&table, "(").is_empty());
}

#[test]
fn selectors_are_completed_with_help() {
    let table = sample();
    let found = HashCompleter.candidates(&table, "^two$");
    let a = table.get(6);
    let b = table.get(7);
    assert_eq!(
        found,
        vec![
            (a.hash.clone(), "two (3.11) ".to_string()),
            (a.execution_contexts[0].hash.clone(), "two (3.11) ".to_string()),
            (b.hash.clone(), "two (3.12) ".to_string()),
            (b.execution_contexts[0].hash.clone(), "two (3.12) ".to_string()),
        ]
    );
    let found = SelectorCompleter.candidates(&table, "^two$");
    assert_eq!(found.len(), 5);
    assert_eq!(found[0], ("two".to_string(), String::new()));
    let selected = select_execution_contexts(&table, Selector::Pattern("svc".to_string())).unwrap();
    let found = complete_selector(&selected, false);
    assert_eq!(found[0], (selected[0].hash.clone(), "svc (3.11) ".to_string()));
    assert_eq!(
        found[1],
        (selected[0].execution_contexts[0].hash.clone(), "svc (3.11)  A=1 ".to_string())
    );
    assert_eq!(
        found[2],
        (selected[0].execution_contexts[1].hash.clone(), "svc (3.11)  A=2 ".to_string())
    );
    let selected = select_execution_contexts(&table, Selector::Pattern("one".to_string())).unwrap();
    let found = complete_selector(&selected, false);
    assert_eq!(found[0].1, "one (3.11) q==2 ");
}

#[test]
fn a_search_that_gives_up_is_an_error() {
    let root = PyVenv::new(
        Some("aaaaaaaaaaaaaaaaaaaaaaaaaaaaaaaaaaaaaaaa!".to_string()),
        None,
        vec!["3.10".to_string()],
        IndexMap::new(),
        IndexMap::new(),
        vec![],
        None,
        None,
    );
    pyo3::Python::initialize();
    let table = normalize_venvs(&root, &IndexMap::new(), &quotes_of(&root)).unwrap();
    let failed =
        select_execution_contexts(&table, Selector::Pattern("^(a|a)*(?!.)x".to_string()));
    assert!(matches!(failed, Err(SelectError::MatchFailed(_))));
    let found = select_execution_contexts(&table, Selector::Pattern("^a+!$".to_string()));
    assert_eq!(found.unwrap().len(), 1);
}

#[test]
fn all_is_selected_whatever_the_names_are() {
    pyo3::Python::initialize();
    let root = PyVenv::new(
        None,
        None,
        vec!["3.10".to_string()],
        IndexMap::new(),
        IndexMap::new(),
        vec![
            leaf("", &[("p", &["==1"])], &[]),
            leaf("line\nbreak", &[("p", &["==1"])], &[]),
            leaf("x", &[("p", &["==1"]), ("q", &["==2"])], &[]),
            leaf("x", &[("p", &["==1"]), ("q", &["==3"])], &[]),
        ],
        None,
        None,
    );
    let table = normalize_venvs(&root, &IndexMap::new(), &quotes_of(&root)).unwrap();
    assert_eq!(table.len(), 4);
    for selector in [
        Selector::All,
        Selector::Pattern(String::new()),
        Selector::Pattern("*".to_string()),
        Selector::Generic { python: None, pattern: None },
        Selector::Generic { python: Some(vec!["3.10".to_string()]), pattern: Some("*".to_string()) },
    ] {
        let all = select_execution_contexts(&table, selector).unwrap();
        assert_eq!(
            all.iter().map(|v| v.name.as_str()).collect::<Vec<_>>(),
            vec!["", "line\nbreak", "x", "x"]
        );
        assert_eq!(all[2].shared_pkgs, map_of(&[("p", "==1")]));
        assert_eq!(all[0].shared_pkgs, map_of(&[("p", "==1")]));
    }
}
