//! Commands that are run for a step, as values: the program, its
//! arguments, its variables and where it runs. Whoever runs one streams its
//! output to the sink of its step.

use vstd::prelude::*;
use vstd::string::StringExecFns;
use indexmap::IndexMap;
use std::sync::Arc;
use crate::ordered_map::{pairs_entries, pairs_of};
use crate::progress::{OutputPolicy, ProgressLogger, StepId};

verus! {

/// What a command reads.
#[derive(Clone, Copy, Debug, PartialEq, Eq, Structural)]
pub enum StdinConfig {
    /// What the parent reads.
    Inherit,
    /// Nothing.
    Null,
    /// A pipe from the parent.
    Piped,
}

/// A command with the step that it is run for and the sink that its output
/// goes to.
pub struct ManagedCommand<S: ProgressLogger + ?Sized = dyn ProgressLogger> {
    pub program: String,
    pub arguments: Vec<String>,
    pub variables: Vec<(String, String)>,
    pub directory: Option<String>,
    pub input: StdinConfig,
    pub step_id: StepId,
    pub sink: Arc<S>,
}

/// A command as plain values.
pub struct CommandView {
    pub program: Seq<char>,
    pub arguments: Seq<Seq<char>>,
    pub variables: Seq<(Seq<char>, Seq<char>)>,
    pub directory: Option<Seq<char>>,
    pub input: StdinConfig,
    pub step: Seq<char>,
}

impl<S: ProgressLogger + ?Sized> View for ManagedCommand<S> {
    type V = CommandView;

    open spec fn view(&self) -> CommandView {
        CommandView {
            program: self.program@,
            arguments: self.arguments.deep_view(),
            variables: self.variables.deep_view(),
            directory: crate::spec_tree::text_of(self.directory),
            input: self.input,
            step: self.step_id@,
        }
    }
}

/// The installer with a subcommand, as every step runs it: without the
/// user's configuration, with colours, and with interpreters that it manages
/// itself.
pub open spec fn uv_command(subcommand: Seq<char>, step: Seq<char>) -> CommandView {
    CommandView {
        program: "uv"@,
        arguments: seq![subcommand, "--no-config"@, "--color=always"@],
        variables: seq![("UV_PYTHON_PREFERENCE"@, "only-managed"@), ("FORCE_COLOR"@, "1"@)],
        directory: None,
        input: StdinConfig::Inherit,
        step,
    }
}

impl<S: ProgressLogger + ?Sized> ManagedCommand<S> {
    /// The command that runs `program` without arguments.
    pub fn new(program: &str, step_id: StepId, sink: Arc<S>) -> (r: Self)
        ensures
            r@ == (CommandView {
                program: program@,
                arguments: Seq::empty(),
                variables: Seq::empty(),
                directory: None,
                input: StdinConfig::Inherit,
                step: step_id@,
            }),
            r.sink == sink,
    {
        let r = ManagedCommand {
            program: program.to_owned(),
            arguments: Vec::new(),
            variables: Vec::new(),
            directory: None,
            input: StdinConfig::Inherit,
            step_id,
            sink,
        };
        assert(r.arguments.deep_view() =~= Seq::<Seq<char>>::empty());
        assert(r.variables.deep_view() =~= Seq::<(Seq<char>, Seq<char>)>::empty());
        r
    }

    /// The installer with a subcommand.
    pub fn new_uv(subcommand: &str, sink: Arc<S>, step_id: StepId) -> (r: Self)
        ensures
            r@ == uv_command(subcommand@, step_id@),
            r.sink == sink,
    {
        let r = Self::new("uv", step_id, sink).arg(subcommand).arg("--no-config").arg(
            "--color=always",
        ).env("UV_PYTHON_PREFERENCE", "only-managed").env("FORCE_COLOR", "1");
        assert(r@.arguments =~= uv_command(subcommand@, step_id@).arguments);
        assert(r@.variables =~= uv_command(subcommand@, step_id@).variables);
        r
    }

    /// Adds arguments.
    pub fn args(self, args: &Vec<String>) -> (r: Self)
        ensures
            r@ == (CommandView { arguments: self@.arguments + args.deep_view(), ..self@ }),
            r.sink == self.sink,
    {
        let mut r = self;
        let mut i: usize = 0;
        assert(r@.arguments =~= self@.arguments + args.deep_view().take(0));
        while i < args.len()
            invariant
                i <= args.len(),
                r@ == (CommandView {
                    arguments: self@.arguments + args.deep_view().take(i as int),
                    ..self@
                }),
                r.sink == self.sink,
            decreases args.len() - i,
        {
            let ghost before = r@.arguments;
            r.arguments.push(args[i].clone());
            assert(r.arguments.deep_view() =~= before.push(args[i as int]@));
            i = i + 1;
            assert(r@.arguments =~= self@.arguments + args.deep_view().take(i as int));
        }
        assert(args.deep_view().take(args.len() as int) =~= args.deep_view());
        r
    }

    /// Adds one argument.
    pub fn arg(self, arg: &str) -> (r: Self)
        ensures
            r@ == (CommandView { arguments: self@.arguments.push(arg@), ..self@ }),
            r.sink == self.sink,
    {
        let mut r = self;
        let ghost before = r@.arguments;
        r.arguments.push(arg.to_owned());
        assert(r.arguments.deep_view() =~= before.push(arg@));
        r
    }

    /// Sets a variable. Of two settings of a variable the later counts.
    pub fn env(self, key: &str, val: &str) -> (r: Self)
        ensures
            r@ == (CommandView { variables: self@.variables.push((key@, val@)), ..self@ }),
            r.sink == self.sink,
    {
        let mut r = self;
        let ghost before = r@.variables;
        r.variables.push((key.to_owned(), val.to_owned()));
        assert(r.variables.deep_view() =~= before.push((key@, val@)));
        r
    }

    /// Sets the variables of a map, in its order.
    pub fn envs(self, vars: &IndexMap<String, String>) -> (r: Self)
        ensures
            r@ == (CommandView { variables: self@.variables + pairs_of(*vars), ..self@ }),
            r.sink == self.sink,
    {
        let entries = pairs_entries(vars);
        let mut r = self;
        let mut i: usize = 0;
        assert(r@.variables =~= self@.variables + entries.deep_view().take(0));
        while i < entries.len()
            invariant
                i <= entries.len(),
                r@ == (CommandView {
                    variables: self@.variables + entries.deep_view().take(i as int),
                    ..self@
                }),
                r.sink == self.sink,
            decreases entries.len() - i,
        {
            let ghost before = r@.variables;
            r.variables.push((entries[i].0.clone(), entries[i].1.clone()));
            assert(r.variables.deep_view() =~= before.push(
                (entries[i as int].0@, entries[i as int].1@),
            ));
            i = i + 1;
            assert(r@.variables =~= self@.variables + entries.deep_view().take(i as int));
        }
        assert(entries.deep_view().take(entries.len() as int) =~= entries.deep_view());
        r
    }

    /// Sets the directory in which the command runs.
    pub fn current_dir(self, dir: &str) -> (r: Self)
        ensures
            r@ == (CommandView { directory: Some(dir@), ..self@ }),
            r.sink == self.sink,
    {
        let mut r = self;
        r.directory = Some(dir.to_owned());
        r
    }

    /// Sets what the command reads.
    pub fn stdin(self, cfg: StdinConfig) -> (r: Self)
        ensures
            r@ == (CommandView { input: cfg, ..self@ }),
            r.sink == self.sink,
    {
        let mut r = self;
        r.input = cfg;
        r
    }

    /// Whether the output of the command is captured and streamed to the
    /// sink, as the sink's policy asks; else the command writes straight to
    /// the terminal.
    pub fn captures_output(&self) -> (r: bool)
        ensures
            r == (self.sink.policy() == OutputPolicy::Capture),
    {
        self.sink.output_policy().captures()
    }
}

/// The arguments that install the project for an interpreter version into
/// a directory.
pub open spec fn dev_install_arguments(python: Seq<char>, target: Seq<char>) -> Seq<Seq<char>> {
    seq![
        "install"@,
        "-v"@,
        "--system"@,
        "--python"@,
        python,
        "--target"@,
        target,
        "-e"@,
        "."@,
    ]
}

/// The arguments that install the project for an interpreter version into
/// a directory.
pub fn dev_install_args(python: &str, target: &str) -> (r: Vec<String>)
    ensures
        r.deep_view() == dev_install_arguments(python@, target@),
{
    let mut r: Vec<String> = Vec::new();
    r.push(String::from_str("install"));
    r.push(String::from_str("-v"));
    r.push(String::from_str("--system"));
    r.push(String::from_str("--python"));
    r.push(python.to_owned());
    r.push(String::from_str("--target"));
    r.push(target.to_owned());
    r.push(String::from_str("-e"));
    r.push(String::from_str("."));
    assert(r.deep_view() =~= dev_install_arguments(python@, target@));
    r
}

/// The arguments that install the requirements of a file for an
/// interpreter version into a directory.
pub open spec fn deps_install_arguments(
    python: Seq<char>,
    target: Seq<char>,
    requirements: Seq<char>,
) -> Seq<Seq<char>> {
    seq![
        "install"@,
        "--system"@,
        "--python"@,
        python,
        "--target"@,
        target,
        "--requirement"@,
        requirements,
    ]
}

/// The arguments that install the requirements of a file for an
/// interpreter version into a directory.
pub fn deps_install_args(python: &str, target: &str, requirements: &str) -> (r: Vec<String>)
    ensures
        r.deep_view() == deps_install_arguments(python@, target@, requirements@),
{
    let mut r: Vec<String> = Vec::new();
    r.push(String::from_str("install"));
    r.push(String::from_str("--system"));
    r.push(String::from_str("--python"));
    r.push(python.to_owned());
    r.push(String::from_str("--target"));
    r.push(target.to_owned());
    r.push(String::from_str("--requirement"));
    r.push(requirements.to_owned());
    assert(r.deep_view() =~= deps_install_arguments(python@, target@, requirements@));
    r
}

/// The arguments that create the environment of a context anew.
pub fn create_venv_args(python: &str, venv_dir: &str) -> (r: Vec<String>)
    ensures
        r.deep_view() == seq!["--python"@, python@, "--clear"@, venv_dir@],
{
    let mut r: Vec<String> = Vec::new();
    r.push(String::from_str("--python"));
    r.push(python.to_owned());
    r.push(String::from_str("--clear"));
    r.push(venv_dir.to_owned());
    assert(r.deep_view() =~= seq!["--python"@, python@, "--clear"@, venv_dir@]);
    r
}

/// The arguments that run a command line in a shell with the interpreter
/// of a context.
pub fn run_command_args(python_path: &str, command_line: &str) -> (r: Vec<String>)
    ensures
        r.deep_view() == seq![
            "--no-project"@,
            "--python"@,
            python_path@,
            "--"@,
            "sh"@,
            "-c"@,
            command_line@,
        ],
{
    let mut r: Vec<String> = Vec::new();
    r.push(String::from_str("--no-project"));
    r.push(String::from_str("--python"));
    r.push(python_path.to_owned());
    r.push(String::from_str("--"));
    r.push(String::from_str("sh"));
    r.push(String::from_str("-c"));
    r.push(command_line.to_owned());
    assert(r.deep_view() =~= seq![
        "--no-project"@,
        "--python"@,
        python_path@,
        "--"@,
        "sh"@,
        "-c"@,
        command_line@,
    ]);
    r
}

/// The arguments that start a shell with the interpreter of a context.
pub fn shell_args(python_path: &str, shell: &str) -> (r: Vec<String>)
    ensures
        r.deep_view() == seq![
            "run"@,
            "--no-config"@,
            "--color=always"@,
            "--no-project"@,
            "--python"@,
            python_path@,
            "--"@,
            shell@,
        ],
{
    let mut r: Vec<String> = Vec::new();
    r.push(String::from_str("run"));
    r.push(String::from_str("--no-config"));
    r.push(String::from_str("--color=always"));
    r.push(String::from_str("--no-project"));
    r.push(String::from_str("--python"));
    r.push(python_path.to_owned());
    r.push(String::from_str("--"));
    r.push(shell.to_owned());
    assert(r.deep_view() =~= seq![
        "run"@,
        "--no-config"@,
        "--color=always"@,
        "--no-project"@,
        "--python"@,
        python_path@,
        "--"@,
        shell@,
    ]);
    r
}

} // verus!
