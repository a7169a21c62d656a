use indexmap::IndexMap;
use riot::builder::{
    create_context_step, deps_install_step, dev_install_step, plan_build, python_string_literal,
    rewrite_python_shebang,
};
use riot::cmdline::{
    build_command_line, collect_context_indices, command_template, escape_cmdarg, format_cmdargs,
    format_envs, format_pkgs, format_requirements,
};
use riot::config::RunConfig;
use riot::paths::{
    activation_path, get_deps_install_path, get_dev_install_path, is_clean_target, join_path,
    requirements_path, venv_dir_name, venv_path, venv_python_path,
};
use riot::pytest::{candidates_among, choose_pytest_target, pytest_target_candidates};
use riot::venv::{ExecutionContext, RiotVenv};

fn words(items: &[&str]) -> Vec<String> {
    items.iter().map(|s| s.to_string()).collect()
}

fn dict(entries: &[(&str, &str)]) -> IndexMap<String, String> {
    let mut m = IndexMap::new();
    for (k, v) in entries {
        m.insert(k.to_string(), v.to_string());
    }
    m
}

fn context(hash: &str, command: Option<&str>, skip_dev_install: bool) -> ExecutionContext {
    ExecutionContext {
        command: command.map(|s| s.to_string()),
        pytest_target: None,
        env: IndexMap::new(),
        create: false,
        skip_dev_install,
        hash: hash.to_string(),
    }
}

fn venv(hash: &str, python: &str, contexts: Vec<ExecutionContext>) -> RiotVenv {
    let mut v = RiotVenv::new(
        "name".to_string(),
        python.to_string(),
        IndexMap::new(),
        hash.to_string(),
        vec![],
    );
    v.execution_contexts = contexts;
    v
}

#[test]
fn arguments_are_quoted_for_the_shell() {
    assert_eq!(escape_cmdarg(""), "''");
    assert_eq!(escape_cmdarg("plain"), "'plain'");
    assert_eq!(escape_cmdarg("two words"), "'two words'");
    assert_eq!(escape_cmdarg("it's"), "'it'\\''s'");
    assert_eq!(escape_cmdarg("'"), "''\\'''");
    assert_eq!(escape_cmdarg("$HOME \"x\""), "'$HOME \"x\"'");
}

#[test]
fn arguments_are_joined_with_spaces() {
    assert_eq!(format_cmdargs(&words(&[])), "");
    assert_eq!(format_cmdargs(&words(&["-k", "test one"])), "'-k' 'test one'");
    assert_eq!(format_cmdargs(&words(&[""])), "''");
}

#[test]
fn command_lines_get_their_arguments() {
    assert_eq!(build_command_line("pytest {cmdargs}", &words(&["-x"])), "pytest '-x'");
    assert_eq!(build_command_line("pytest", &words(&["-x", "a b"])), "pytest '-x' 'a b'");
    assert_eq!(build_command_line("pytest", &words(&[])), "pytest ");
    assert_eq!(
        build_command_line("a {cmdargs} && b {cmdargs}", &words(&["1"])),
        "a '1' && b '1'"
    );
    assert_eq!(build_command_line("", &words(&["x"])), " 'x'");
    assert_eq!(
        build_command_line("echo {cmdargs}", &words(&["{cmdargs}"])),
        "echo '{cmdargs}'"
    );
}

#[test]
fn the_override_wins_over_the_command() {
    let plain =
        RunConfig { command_override: None, cmdargs: vec![], action_label: "Execute".to_string() };
    let overridden = RunConfig {
        command_override: Some("echo".to_string()),
        cmdargs: vec![],
        action_label: "Execute".to_string(),
    };
    let with = context("a@b", Some("pytest"), false);
    let without = context("a@c", None, false);
    assert_eq!(command_template(&plain, &with), Some("pytest".to_string()));
    assert_eq!(command_template(&plain, &without), None);
    assert_eq!(command_template(&overridden, &with), Some("echo".to_string()));
    assert_eq!(command_template(&overridden, &without), Some("echo".to_string()));
}

#[test]
fn contexts_are_listed_by_place() {
    let selected = vec![
        venv("a", "3.10", vec![context("a@1", None, false), context("a@2", None, false)]),
        venv("b", "3.10", vec![]),
        venv("c", "3.11", vec![context("c@1", None, true)]),
    ];
    assert_eq!(collect_context_indices(&selected), vec![(0, 0), (0, 1), (2, 0)]);
    assert!(collect_context_indices(&vec![]).is_empty());
}

#[test]
fn unshared_entries_are_written() {
    let all = dict(&[("a", "==1"), ("b", ">=2"), ("c", "")]);
    assert_eq!(format_pkgs(&all, &dict(&[("b", ">=2")])), "a==1 c ");
    assert_eq!(format_pkgs(&all, &dict(&[])), "a==1 b>=2 c ");
    assert_eq!(format_pkgs(&all, &dict(&[("a", "other"), ("b", ""), ("c", "")])), "");
    assert_eq!(format_envs(&dict(&[("K", "v"), ("L", "w x")]), &dict(&[("K", "v")])), "L=w x ");
    assert_eq!(format_envs(&dict(&[]), &dict(&[])), "");
}

#[test]
fn requirements_are_one_line_each() {
    assert_eq!(format_requirements(&dict(&[])), "");
    assert_eq!(format_requirements(&dict(&[("a", "==1")])), "a==1\n");
    assert_eq!(format_requirements(&dict(&[("a", "==1"), ("b", "")])), "a==1\nb\n");
}

#[test]
fn string_literals_escape_what_python_needs() {
    assert_eq!(python_string_literal(""), "\"\"");
    assert_eq!(python_string_literal("plain"), "\"plain\"");
    assert_eq!(python_string_literal("a\"b"), "\"a\\\"b\"");
    assert_eq!(python_string_literal("a\\b"), "\"a\\\\b\"");
    assert_eq!(python_string_literal("l1\nl2\r\tz"), "\"l1\\nl2\\r\\tz\"");
    assert_eq!(python_string_literal("\x00\x1b\x7f\u{9f}"), "\"\\x00\\x1b\\x7f\\x9f\"");
    assert_eq!(python_string_literal("\u{a0}\u{e9}'"), "\"\u{a0}\u{e9}'\"");
}

#[test]
fn shebangs_of_python_are_rewritten() {
    let shebang = "#!/venv/bin/python\n";
    assert_eq!(
        rewrite_python_shebang(b"#!/usr/bin/python3\nprint(1)\n", shebang),
        Some(b"#!/venv/bin/python\nprint(1)\n".to_vec())
    );
    assert_eq!(
        rewrite_python_shebang(b"#!/usr/bin/env PyThOn", shebang),
        Some(b"#!/venv/bin/python\n".to_vec())
    );
    assert_eq!(
        rewrite_python_shebang(b"#!python\n", shebang),
        Some(b"#!/venv/bin/python\n".to_vec())
    );
    assert_eq!(
        rewrite_python_shebang(b"#!/bin/python\n\xff\xfe", shebang),
        Some(b"#!/venv/bin/python\n\xff\xfe".to_vec())
    );
}

#[test]
fn other_files_are_left_alone() {
    let shebang = "#!/venv/bin/python\n";
    assert_eq!(rewrite_python_shebang(b"#!/bin/sh\necho python\n", shebang), None);
    assert_eq!(rewrite_python_shebang(b"print('python')\n", shebang), None);
    assert_eq!(rewrite_python_shebang(b"", shebang), None);
    assert_eq!(rewrite_python_shebang(b"#", shebang), None);
    assert_eq!(rewrite_python_shebang(b"#!", shebang), None);
    assert_eq!(rewrite_python_shebang(b"#!pytho\nn", shebang), None);
    assert_eq!(rewrite_python_shebang(b"#!/bin/python\xff\n", shebang), None);
    assert_eq!(rewrite_python_shebang(b" #!/bin/python\n", shebang), None);
}

#[test]
fn steps_are_named_after_what_they_build() {
    assert_eq!(dev_install_step("3.10"), "dev install 3.10");
    assert_eq!(deps_install_step("1234567"), "deps install 1234567");
    assert_eq!(create_context_step("1234567@89abcde"), "create execution context 1234567@89abcde");
}

#[test]
fn installs_are_planned_once() {
    let selected = vec![
        venv("a", "3.10", vec![context("a@1", None, true), context("a@2", None, false)]),
        venv("b", "3.11", vec![context("b@1", None, true)]),
        venv("c", "3.10", vec![context("c@1", None, false)]),
        venv("d", "3.12", vec![]),
        venv("e", "3.9", vec![context("e@1", None, false)]),
    ];
    let plan = plan_build(&selected);
    assert_eq!(plan.dev_pythons, vec!["3.10", "3.9"]);
    assert_eq!(plan.deps_targets, vec![0, 1, 2, 4]);
    let plan = plan_build(&vec![]);
    assert!(plan.dev_pythons.is_empty());
    assert!(plan.deps_targets.is_empty());
}

#[test]
fn paths_are_joined_with_one_slash() {
    assert_eq!(join_path("/root", "name"), "/root/name");
    assert_eq!(join_path("/root/", "name"), "/root/name");
    assert_eq!(join_path("", "name"), "name");
    assert_eq!(join_path("rel/dir", "a/b"), "rel/dir/a/b");
    assert_eq!(join_path("/", "x"), "/x");
    for (base, rel) in [("/root", "name"), ("/root/", "name"), ("", "name"), ("a", "b/c")] {
        let expected = std::path::Path::new(base).join(rel);
        assert_eq!(join_path(base, rel), expected.to_string_lossy());
    }
}

#[test]
fn environments_lie_below_the_root() {
    assert_eq!(venv_dir_name("1234567"), "venv_1234567");
    assert_eq!(venv_dir_name("1234567@89abcde"), "venv_1234567_89abcde");
    assert_eq!(venv_dir_name("a@b@c"), "venv_a_b_c");
    assert_eq!(venv_path("/p/.riot", "1234567@89abcde"), "/p/.riot/venv_1234567_89abcde");
    assert_eq!(venv_python_path("/p/.riot", "1234567"), "/p/.riot/venv_1234567/bin/python");
    assert_eq!(activation_path("1234567", "/p/.riot"), "/p/.riot/venv_1234567/bin/activate");
    assert_eq!(get_dev_install_path("/p/.riot", "3.10"), "/p/.riot/venv_self/self_py310");
    assert_eq!(get_dev_install_path("/p/.riot/", "3"), "/p/.riot/venv_self/self_py3");
    assert_eq!(get_deps_install_path("/p/.riot", "1234567"), "/p/.riot/venv_deps/deps_1234567");
    assert_eq!(requirements_path("/p/.riot", "1234567"), "/p/.riot/requirements/1234567.txt");
}

#[test]
fn cleaning_removes_the_directories_of_environments() {
    assert!(is_clean_target("venv_1234567", true));
    assert!(is_clean_target("venv_self", true));
    assert!(is_clean_target("venv_", true));
    assert!(!is_clean_target("venv_1234567", false));
    assert!(!is_clean_target("requirements", true));
    assert!(!is_clean_target("other", true));
    assert!(!is_clean_target("xvenv_1", true));
    assert!(!is_clean_target("", true));
}

#[test]
fn targets_stand_behind_pytest() {
    assert_eq!(
        pytest_target_candidates("pytest -v tests/unit {cmdargs} tests/other.py"),
        words(&["tests/unit", "tests/other.py"])
    );
    assert_eq!(
        pytest_target_candidates("python -m pytest --cov=x 'my tests' -k name"),
        words(&["my tests", "name"])
    );
    assert_eq!(pytest_target_candidates("before pytest pytest after"), words(&["pytest", "after"]));
    assert!(pytest_target_candidates("python -m unittest tests").is_empty());
    assert!(pytest_target_candidates("pytest").is_empty());
    assert!(pytest_target_candidates("").is_empty());
    assert!(pytest_target_candidates("pytest 'unclosed").is_empty());
    assert!(pytest_target_candidates("py.test tests").is_empty());
    assert_eq!(pytest_target_candidates("pytest '' a{b c"), words(&["", "c"]));
}

#[test]
fn candidates_are_taken_from_words() {
    assert_eq!(candidates_among(&words(&["a", "pytest", "-x", "b", "{c}", "d"])), words(&["b", "d"]));
    assert!(candidates_among(&words(&["a", "b"])).is_empty());
    assert!(candidates_among(&words(&[])).is_empty());
}

#[test]
fn the_first_usable_candidate_is_the_target() {
    let candidates = words(&["a", "b", "c"]);
    assert_eq!(choose_pytest_target(&candidates, &vec![false, true, true]), Some("b".to_string()));
    assert_eq!(choose_pytest_target(&candidates, &vec![true, false, false]), Some("a".to_string()));
    assert_eq!(choose_pytest_target(&candidates, &vec![false, false, false]), None);
    assert_eq!(choose_pytest_target(&vec![], &vec![]), None);
}
