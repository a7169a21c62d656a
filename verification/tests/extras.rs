use indexmap::IndexMap;
use riot::builder::{build_action, pth_file, site_packages_path, sitecustomize, BuildAction};
use riot::cli_args::{filter_cli_args, prepare_cli_args};
use riot::command::{
    create_venv_args, deps_install_args, dev_install_args, run_command_args, shell_args,
    ManagedCommand, StdinConfig,
};
use riot::display::StepStatus;
use riot::listing::{
    command_display, hierarchy, sorted_hashes, venv_row, with_contexts_only, CommandDisplay,
};
use riot::progress::{OutputPolicy, ProgressLogger, StepId};
use riot::rt_config::{
    config_error_message, env_from_entries, load_rt_toml, parse_env_table, ConfigError, Section,
};
use riot::venv::{ExecutionContext, RiotVenv};
use std::sync::Arc;

struct Quiet(OutputPolicy);

impl ProgressLogger for Quiet {
    fn register_step(&self, _id: &StepId, _label: &str) {}

    fn start(&self, _id: &StepId) {}

    fn finish(&self, _id: &StepId, _status: StepStatus) {}

    fn append_output(&self, _id: &StepId, _line: String) {}

    fn policy(&self) -> OutputPolicy {
        self.0
    }

    fn output_policy(&self) -> OutputPolicy {
        self.0
    }
}

fn list(items: &[&str]) -> Vec<String> {
    items.iter().map(|s| s.to_string()).collect()
}

fn table(entries: &[(&str, &str)]) -> IndexMap<String, String> {
    let mut m = IndexMap::new();
    for (k, v) in entries {
        m.insert(k.to_string(), v.to_string());
    }
    m
}

fn both(entries: &[(&str, &str)]) -> Vec<(String, String)> {
    entries.iter().map(|(k, v)| (k.to_string(), v.to_string())).collect()
}

fn ctx(hash: &str, command: Option<&str>, env: &[(&str, &str)]) -> ExecutionContext {
    ExecutionContext {
        command: command.map(|s| s.to_string()),
        pytest_target: None,
        env: table(env),
        create: false,
        skip_dev_install: false,
        hash: hash.to_string(),
    }
}

fn env_of(hash: &str, pkgs: &[(&str, &str)], contexts: Vec<ExecutionContext>) -> RiotVenv {
    let mut v = RiotVenv::new(
        format!("name-{hash}"),
        "3.10".to_string(),
        table(pkgs),
        hash.to_string(),
        vec![],
    );
    v.execution_contexts = contexts;
    v
}

#[test]
fn a_command_collects_what_it_is_given() {
    let sink = Arc::new(Quiet(OutputPolicy::Capture));
    let cmd = ManagedCommand::new("prog", StepId::new("s"), Arc::clone(&sink))
        .arg("one")
        .args(&list(&["two", "three"]))
        .env("A", "1")
        .envs(&table(&[("B", "2"), ("C", "3")]))
        .env("A", "4")
        .current_dir("/work")
        .stdin(StdinConfig::Null);
    assert_eq!(cmd.program, "prog");
    assert_eq!(cmd.arguments, list(&["one", "two", "three"]));
    assert_eq!(cmd.variables, both(&[("A", "1"), ("B", "2"), ("C", "3"), ("A", "4")]));
    assert_eq!(cmd.directory.as_deref(), Some("/work"));
    assert_eq!(cmd.input, StdinConfig::Null);
    assert_eq!(cmd.step_id.as_str(), "s");
    assert!(cmd.captures_output());
    assert!(Arc::ptr_eq(&cmd.sink, &sink));
    let plain = ManagedCommand::new("prog", StepId::new("s"), Arc::new(Quiet(OutputPolicy::Inherit)));
    assert!(!plain.captures_output());
    assert!(plain.arguments.is_empty());
    assert!(plain.variables.is_empty());
    assert_eq!(plain.directory, None);
    assert_eq!(plain.input, StdinConfig::Inherit);
}

#[test]
fn the_installer_is_run_without_configuration() {
    let sink = Arc::new(Quiet(OutputPolicy::Capture));
    let cmd = ManagedCommand::new_uv("pip", Arc::clone(&sink), StepId::new("deps"));
    assert!(Arc::ptr_eq(&cmd.sink, &sink));
    assert_eq!(cmd.program, "uv");
    assert_eq!(cmd.arguments, list(&["pip", "--no-config", "--color=always"]));
    assert_eq!(
        cmd.variables,
        both(&[("UV_PYTHON_PREFERENCE", "only-managed"), ("FORCE_COLOR", "1")])
    );
    assert_eq!(cmd.step_id.as_str(), "deps");
}

#[test]
fn arguments_of_the_steps() {
    assert_eq!(
        dev_install_args("3.10", "/r/venv_self/self_py310"),
        list(&[
            "install",
            "-v",
            "--system",
            "--python",
            "3.10",
            "--target",
            "/r/venv_self/self_py310",
            "-e",
            "."
        ])
    );
    assert_eq!(
        deps_install_args("3.10", "/r/venv_deps/deps_x", "/tmp/req.txt"),
        list(&[
            "install",
            "--system",
            "--python",
            "3.10",
            "--target",
            "/r/venv_deps/deps_x",
            "--requirement",
            "/tmp/req.txt"
        ])
    );
    assert_eq!(
        create_venv_args("3.10", "/r/venv_x"),
        list(&["--python", "3.10", "--clear", "/r/venv_x"])
    );
    assert_eq!(
        run_command_args("/r/venv_x/bin/python", "pytest '-x'"),
        list(&["--no-project", "--python", "/r/venv_x/bin/python", "--", "sh", "-c", "pytest '-x'"])
    );
    assert_eq!(
        shell_args("/r/venv_x/bin/python", "/bin/zsh"),
        list(&[
            "run",
            "--no-config",
            "--color=always",
            "--no-project",
            "--python",
            "/r/venv_x/bin/python",
            "--",
            "/bin/zsh"
        ])
    );
}

#[test]
fn sitecustomize_sets_the_variables() {
    assert_eq!(
        sitecustomize(&table(&[("A", "1"), ("B", "two \"words\"")]), &table(&[("R", "x\ny")]), false),
        "# Environment variables from riotfile.py\n\
         import os\n\
         os.environ[\"A\"] = \"1\"\n\
         os.environ[\"B\"] = \"two \\\"words\\\"\"\n\
         \n\
         # Environment variables from rt.toml\n\
         os.environ[\"R\"] = \"x\\ny\"\n\
         \n"
    );
    assert_eq!(
        sitecustomize(&table(&[]), &table(&[]), true),
        "# Environment variables from riotfile.py\n\
         import os\n\
         \n\
         # Environment variables from rt.toml\n\
         \n\
         # rt pytest plugin\n\
         plugins = [p.strip() for p in os.environ.get('PYTEST_PLUGINS', '').split(',') if p.strip()]\n\
         if \"rt\" not in plugins:\n    plugins.append(\"rt\")\n\
         os.environ['PYTEST_PLUGINS'] = ','.join(plugins)\n\
         \n"
    );
}

#[test]
fn path_files_list_directories() {
    assert_eq!(pth_file(&list(&[])), "");
    assert_eq!(pth_file(&list(&["/a"])), "/a\n");
    assert_eq!(pth_file(&list(&["/a/b", "/c"])), "/a/b\n/c\n");
    assert_eq!(site_packages_path("/r/venv_x", "3.10"), "/r/venv_x/lib/python3.10/site-packages");
}

#[test]
fn a_marker_saves_the_build_unless_forced() {
    assert_eq!(build_action(false, true), BuildAction::UseCached);
    assert_eq!(build_action(false, false), BuildAction::Rebuild);
    assert_eq!(build_action(true, true), BuildAction::Rebuild);
    assert_eq!(build_action(true, false), BuildAction::Rebuild);
}

#[test]
fn the_configuration_sets_variables() {
    let (build, run) = load_rt_toml(
        "[env.build]\nCC = \"clang\"\nAA = \"1\"\n\n[env.run]\nDEBUG = \"yes\"\n\n[other]\nx = 1\n",
    )
    .unwrap();
    assert_eq!(build, table(&[("AA", "1"), ("CC", "clang")]));
    assert_eq!(run, table(&[("DEBUG", "yes")]));
    let (build, run) = load_rt_toml("").unwrap();
    assert!(build.is_empty());
    assert!(run.is_empty());
    let (build, run) = load_rt_toml("env = 3\n").unwrap();
    assert!(build.is_empty());
    assert!(run.is_empty());
    let (build, run) = load_rt_toml("[env.run]\nA = \"b\"\n").unwrap();
    assert!(build.is_empty());
    assert_eq!(run, table(&[("A", "b")]));
}

#[test]
fn a_wrong_configuration_is_an_error() {
    match load_rt_toml("[env.build]\nCC = 3\n") {
        Err(ConfigError::NotAString(path)) => assert_eq!(path, "env.build.CC"),
        other => panic!("{other:?}"),
    }
    match load_rt_toml("[env]\nrun = \"text\"\n") {
        Err(ConfigError::NotATable(section)) => assert_eq!(section, "env.run"),
        other => panic!("{other:?}"),
    }
    match load_rt_toml("[env.build\n") {
        Err(ConfigError::Unreadable(message)) => assert!(!message.is_empty()),
        other => panic!("{other:?}"),
    }
    assert_eq!(
        config_error_message(&ConfigError::NotAString("env.run.X".to_string())),
        "env.run.X must be a string"
    );
    assert_eq!(
        config_error_message(&ConfigError::NotATable("env.run".to_string())),
        "env.run must be a table of string key/value pairs"
    );
    assert_eq!(
        config_error_message(&ConfigError::Unreadable("bad".to_string())),
        "failed to parse rt.toml: bad"
    );
}

#[test]
fn entries_become_variables() {
    let entries = vec![
        ("A".to_string(), Some("1".to_string())),
        ("B".to_string(), Some("2".to_string())),
        ("A".to_string(), Some("3".to_string())),
    ];
    assert_eq!(env_from_entries(&entries, "s").unwrap(), table(&[("A", "3"), ("B", "2")]));
    let entries = vec![
        ("A".to_string(), Some("1".to_string())),
        ("B".to_string(), None),
        ("C".to_string(), None),
    ];
    match env_from_entries(&entries, "env.run") {
        Err(ConfigError::NotAString(path)) => assert_eq!(path, "env.run.B"),
        other => panic!("{other:?}"),
    }
    assert!(env_from_entries(&vec![], "s").unwrap().is_empty());
}

#[test]
fn the_arguments_of_the_interpreter_are_dropped() {
    assert_eq!(
        prepare_cli_args(&list(&["/usr/bin/python3", "-m", "riot", "list", "-p", "3.10"])),
        list(&["rt", "list", "-p", "3.10"])
    );
    assert_eq!(prepare_cli_args(&list(&["/venv/bin/rt", "run", "x"])), list(&["rt", "run", "x"]));
    assert_eq!(
        prepare_cli_args(&list(&["x", "/usr/bin/python3.11", "rt.py", "build", "python"])),
        list(&["rt", "build", "python"])
    );
    assert_eq!(prepare_cli_args(&list(&[])), list(&["rt"]));
    assert_eq!(prepare_cli_args(&list(&["only"])), list(&["rt"]));
    assert_eq!(prepare_cli_args(&list(&["a", "list", "-m"])), list(&["rt", "list"]));
    assert_eq!(prepare_cli_args(&list(&["a", "list", "-m", "x", "y"])), list(&["rt", "list", "y"]));
}

#[test]
fn arguments_are_filtered_by_their_stems() {
    let argv = list(&["zero", "one", "two", "three"]);
    let stems = vec![None, Some("python3".to_string()), Some("rt".to_string()), Some("rt".to_string())];
    assert_eq!(filter_cli_args(&argv, &stems), list(&["rt"]));
    let stems = vec![None, None, Some("rt".to_string()), Some("python".to_string())];
    assert_eq!(filter_cli_args(&argv, &stems), list(&["rt", "one", "two", "three"]));
    let stems = vec![None, Some("xpython".to_string()), None, None];
    assert_eq!(filter_cli_args(&argv, &stems), list(&["rt", "one", "two", "three"]));
}

#[test]
fn environments_without_contexts_are_not_listed() {
    let venvs = vec![
        env_of("bbb", &[], vec![ctx("bbb@1", None, &[])]),
        env_of("aaa", &[], vec![]),
        env_of("ccc", &[], vec![ctx("ccc@1", None, &[]), ctx("ccc@0", None, &[])]),
    ];
    let kept = with_contexts_only(&venvs);
    assert_eq!(kept.iter().map(|v| v.hash.as_str()).collect::<Vec<_>>(), vec!["bbb", "ccc"]);
    assert_eq!(sorted_hashes(&venvs), list(&["aaa", "bbb", "ccc"]));
    assert!(sorted_hashes(&vec![]).is_empty());
}

#[test]
fn commands_are_shown_by_kind() {
    assert_eq!(command_display(&None), CommandDisplay::NotConfigured);
    assert_eq!(command_display(&Some(String::new())), CommandDisplay::Empty);
    assert_eq!(
        command_display(&Some("pytest".to_string())),
        CommandDisplay::Text("pytest".to_string())
    );
}

#[test]
fn rows_show_what_is_not_shared() {
    let mut venv = env_of(
        "abc",
        &[("a", "==1"), ("b", "==2")],
        vec![
            ctx("abc@2", Some("pytest {cmdargs}"), &[("K", "1"), ("L", "x")]),
            ctx("abc@1", None, &[("K", "1")]),
            ctx("abc@3", Some(""), &[("K", "1"), ("L", "y")]),
        ],
    );
    venv.shared_pkgs = table(&[("b", "==2")]);
    venv.shared_env = table(&[("K", "1")]);
    let row = venv_row(&venv);
    assert_eq!(row.hash, "abc");
    assert_eq!(row.name, "name-abc");
    assert_eq!(row.python, "3.10");
    assert_eq!(row.deps, "a==1");
    assert_eq!(row.contexts.len(), 3);
    assert_eq!(row.contexts[0].hash, "abc@1");
    assert_eq!(row.contexts[0].command, CommandDisplay::NotConfigured);
    assert_eq!(row.contexts[0].env, "");
    assert!(!row.contexts[0].last);
    assert_eq!(row.contexts[1].hash, "abc@2");
    assert_eq!(row.contexts[1].command, CommandDisplay::Text("pytest {cmdargs}".to_string()));
    assert_eq!(row.contexts[1].env, "L=x");
    assert!(!row.contexts[1].last);
    assert_eq!(row.contexts[2].hash, "abc@3");
    assert_eq!(row.contexts[2].command, CommandDisplay::Empty);
    assert_eq!(row.contexts[2].env, "L=y");
    assert!(row.contexts[2].last);
    let rows = hierarchy(&vec![venv, env_of("zzz", &[], vec![])]);
    assert_eq!(rows.len(), 2);
    assert_eq!(rows[1].hash, "zzz");
    assert_eq!(rows[1].deps, "");
    assert!(rows[1].contexts.is_empty());
}

#[test]
fn sections_set_variables_or_are_wrong() {
    assert!(parse_env_table(&Section::Missing, "env.run").unwrap().is_empty());
    match parse_env_table(&Section::NotATable, "env.run") {
        Err(ConfigError::NotATable(section)) => assert_eq!(section, "env.run"),
        other => panic!("{other:?}"),
    }
    let entries = vec![
        ("A".to_string(), Some("1".to_string())),
        ("B".to_string(), Some("2".to_string())),
    ];
    assert_eq!(
        parse_env_table(&Section::Table(entries), "env.build").unwrap(),
        table(&[("A", "1"), ("B", "2")])
    );
    let entries = vec![("A".to_string(), None)];
    match parse_env_table(&Section::Table(entries), "env.build") {
        Err(ConfigError::NotAString(path)) => assert_eq!(path, "env.build.A"),
        other => panic!("{other:?}"),
    }
}

#[test]
fn the_section_for_builds_is_judged_first() {
    match load_rt_toml("[env]\nbuild = 1\nrun = 2\n") {
        Err(ConfigError::NotATable(section)) => assert_eq!(section, "env.build"),
        other => panic!("{other:?}"),
    }
    match load_rt_toml("[env.build]\nA = 1\n[env.run]\nB = 2\n") {
        Err(ConfigError::NotAString(path)) => assert_eq!(path, "env.build.A"),
        other => panic!("{other:?}"),
    }
    match load_rt_toml("[env.build]\nA = \"1\"\n[env.run]\nB = 2\n") {
        Err(ConfigError::NotAString(path)) => assert_eq!(path, "env.run.B"),
        other => panic!("{other:?}"),
    }
    let (build, run) = load_rt_toml("env = [1, 2]\n").unwrap();
    assert!(build.is_empty() && run.is_empty());
}

#[test]
fn a_policy_captures_or_inherits() {
    assert!(OutputPolicy::Capture.captures());
    assert!(!OutputPolicy::Inherit.captures());
}
