use riot::display::StepStatus;
use riot::progress::{
    summarize_errors, take_complete_lines, OutputPolicy, PartialLines, PlainProgressLogger,
    ProgressLogger, StepContext, StepGuard, StepId, StepOutcome, Task, TaskRunner,
};
use std::sync::{Arc, Mutex};

#[derive(Default)]
struct Recorder {
    events: Mutex<Vec<String>>,
}

impl Recorder {
    fn events(&self) -> Vec<String> {
        self.events.lock().unwrap().clone()
    }

    fn note(&self, event: String) {
        self.events.lock().unwrap().push(event);
    }
}

impl ProgressLogger for Recorder {
    fn register_step(&self, id: &StepId, label: &str) {
        self.note(format!("register {} {}", id.as_str(), label));
    }

    fn start(&self, id: &StepId) {
        self.note(format!("start {}", id.as_str()));
    }

    fn finish(&self, id: &StepId, status: StepStatus) {
        self.note(format!("finish {} {:?}", id.as_str(), status));
    }

    fn append_output(&self, id: &StepId, line: String) {
        self.note(format!("output {} {}", id.as_str(), line));
    }

    fn output_policy(&self) -> OutputPolicy {
        OutputPolicy::Capture
    }
}

type Work = Box<dyn FnOnce(StepContext<Recorder>) -> Result<StepOutcome, String>>;

fn task(id: &str, label: &str, work: Work) -> Task<Work> {
    Task::new(StepId::new(id), label, work)
}

#[test]
fn step_ids_keep_their_text() {
    let id = StepId::new("deps install 1234567");
    assert_eq!(id.as_str(), "deps install 1234567");
    assert_eq!(id.duplicate(), id);
    assert_eq!(id.clone(), id);
    assert_ne!(StepId::new("a"), StepId::new("b"));
}

#[test]
fn a_guard_reports_once() {
    let sink = Arc::new(Recorder::default());
    let mut guard = StepGuard::new(Arc::clone(&sink), StepId::new("a"));
    assert!(!guard.is_finished());
    guard.finish_with(StepStatus::Cached);
    assert!(guard.is_finished());
    guard.finish_with(StepStatus::Failed);
    guard.fail();
    assert_eq!(sink.events(), vec!["finish a Cached"]);
    StepGuard::new(Arc::clone(&sink), StepId::new("b")).done();
    StepGuard::new(Arc::clone(&sink), StepId::new("c")).cached();
    StepGuard::new(Arc::clone(&sink), StepId::new("d")).fail();
    assert_eq!(
        sink.events(),
        vec!["finish a Cached", "finish b Done", "finish c Cached", "finish d Failed"]
    );
}

#[test]
fn a_context_appends_to_its_step() {
    let sink = Arc::new(Recorder::default());
    let ctx = StepContext { sink: Arc::clone(&sink), step_id: StepId::new("s") };
    ctx.append_output("hello".to_string());
    assert_eq!(sink.events(), vec!["output s hello"]);
}

#[test]
fn chunks_are_passed_on_as_text_by_default() {
    let sink = Recorder::default();
    let id = StepId::new("s");
    sink.append_output_chunk(&id, b"");
    sink.append_output_chunk(&id, b"plain");
    sink.append_output_chunk(&id, &[0x68, 0x69, 0xff, 0x21]);
    sink.flush_output(&id);
    assert_eq!(sink.events(), vec!["output s plain", "output s hi\u{fffd}!"]);
    assert_eq!(sink.output_policy(), OutputPolicy::Capture);
}

#[test]
fn a_failing_task_does_not_stop_the_batch() {
    let sink = Arc::new(Recorder::default());
    let runner = TaskRunner::new(Arc::clone(&sink)).with_parallelism(Some(3));
    assert_eq!(runner.parallelism(), Some(3));
    let mut tasks = Vec::new();
    for i in 1..=5 {
        let work: Work = if i == 3 {
            Box::new(|ctx| {
                ctx.append_output("about to fail".to_string());
                Err("boom".to_string())
            })
        } else if i == 4 {
            Box::new(|_| Ok(StepOutcome::Cached))
        } else {
            Box::new(|_| Ok(StepOutcome::Done))
        };
        tasks.push(task(&format!("t{i}"), &format!("task {i}"), work));
    }
    let failures = runner.run(tasks);
    assert_eq!(failures, vec![("task 3".to_string(), "boom".to_string())]);
    let events = sink.events();
    assert_eq!(
        &events[..5],
        &[
            "register t1 task 1",
            "register t2 task 2",
            "register t3 task 3",
            "register t4 task 4",
            "register t5 task 5"
        ]
    );
    assert_eq!(
        &events[5..],
        &[
            "start t1",
            "finish t1 Done",
            "start t2",
            "finish t2 Done",
            "start t3",
            "output t3 about to fail",
            "finish t3 Failed",
            "start t4",
            "finish t4 Cached",
            "start t5",
            "finish t5 Done",
        ]
    );
    for i in 1..=5 {
        let finished: Vec<&String> =
            events.iter().filter(|e| e.starts_with(&format!("finish t{i} "))).collect();
        assert_eq!(finished.len(), 1);
    }
}

#[test]
fn all_failures_are_collected_in_order() {
    let sink = Arc::new(Recorder::default());
    let runner = TaskRunner::new(Arc::clone(&sink));
    assert_eq!(runner.parallelism(), None);
    let tasks: Vec<Task<Work>> = vec![
        task("a", "first", Box::new(|_| Err("one".to_string()))),
        task("b", "second", Box::new(|_| Ok(StepOutcome::Done))),
        task("c", "third", Box::new(|_| Err("three".to_string()))),
    ];
    assert_eq!(
        runner.run(tasks),
        vec![("first".to_string(), "one".to_string()), ("third".to_string(), "three".to_string())]
    );
    assert!(runner.run(Vec::<Task<Work>>::new()).is_empty());
}

#[test]
fn run_one_reports_start_and_end() {
    let sink = Arc::new(Recorder::default());
    let runner = TaskRunner::new(Arc::clone(&sink));
    let ok: Work = Box::new(|ctx| {
        assert_eq!(ctx.step_id.as_str(), "x");
        Ok(StepOutcome::Cached)
    });
    let end = runner.run_one(task("x", "label x", ok));
    assert_eq!(end.failure, None);
    assert_eq!(end.status, StepStatus::Cached);
    let bad: Work = Box::new(|_| Err("bad".to_string()));
    let end = runner.run_one(task("y", "label y", bad));
    assert_eq!(end.failure, Some(("label y".to_string(), "bad".to_string())));
    assert_eq!(end.status, StepStatus::Failed);
    assert_eq!(
        sink.events(),
        vec!["start x", "finish x Cached", "start y", "finish y Failed"]
    );
    assert!(Arc::ptr_eq(&runner.sink(), &sink));
}

#[test]
fn complete_lines_are_taken_out_of_the_buffer() {
    let mut buffer = String::new();
    assert_eq!(take_complete_lines(&mut buffer, "no newline"), Vec::<String>::new());
    assert_eq!(buffer, "no newline");
    assert_eq!(take_complete_lines(&mut buffer, " yet\nsecond\nthi"), vec!["no newline yet", "second"]);
    assert_eq!(buffer, "thi");
    assert_eq!(take_complete_lines(&mut buffer, "rd\n"), vec!["third"]);
    assert_eq!(buffer, "");
    assert_eq!(take_complete_lines(&mut buffer, "\n\n"), vec!["", ""]);
    assert_eq!(buffer, "");
    assert_eq!(take_complete_lines(&mut buffer, ""), Vec::<String>::new());
}

#[test]
fn partial_lines_are_held_by_step() {
    let mut lines = PartialLines::new();
    let a = StepId::new("a");
    let b = StepId::new("b");
    assert_eq!(lines.append_chunk(&a, b"hel"), Vec::<String>::new());
    assert_eq!(lines.append_chunk(&b, b"other\nrest"), vec!["other"]);
    assert_eq!(lines.append_chunk(&a, b""), Vec::<String>::new());
    assert_eq!(lines.append_chunk(&a, b"lo\nwor"), vec!["hello"]);
    assert_eq!(lines.append_chunk(&a, b"ld\n"), vec!["world"]);
    assert_eq!(lines.flush(&a), None);
    assert_eq!(lines.flush(&b), Some("rest".to_string()));
    assert_eq!(lines.flush(&b), None);
    assert_eq!(lines.flush(&StepId::new("unknown")), None);
    assert_eq!(lines.append_chunk(&b, &[0xff, 0x0a, 0x61]), vec!["\u{fffd}"]);
    assert_eq!(lines.flush(&b), Some("a".to_string()));
}

#[test]
fn failures_are_summarised() {
    assert!(summarize_errors(&vec![], "build").is_empty());
    assert_eq!(
        summarize_errors(&vec![("deps".to_string(), "exit 1".to_string())], "build"),
        vec!["error summary: 1 failure during build", "  1. deps: exit 1"]
    );
    let many: Vec<(String, String)> =
        (1..=11).map(|i| (format!("task {i}"), format!("error {i}"))).collect();
    let lines = summarize_errors(&many, "run");
    assert_eq!(lines.len(), 12);
    assert_eq!(lines[0], "error summary: 11 failures during run");
    assert_eq!(lines[2], "  2. task 2: error 2");
    assert_eq!(lines[11], "  11. task 11: error 11");
}

#[test]
fn the_plain_sink_announces_labels() {
    let mut plain = PlainProgressLogger::new();
    plain.register_step(&StepId::new("a"), "first");
    plain.register_step(&StepId::new("b"), "second");
    plain.register_step(&StepId::new("a"), "renamed");
    assert_eq!(plain.start(&StepId::new("a")), Some("renamed".to_string()));
    assert_eq!(plain.start(&StepId::new("b")), Some("second".to_string()));
    assert_eq!(plain.start(&StepId::new("c")), None);
    assert_eq!(plain.finish(StepStatus::Cached), Some("cached".to_string()));
    assert_eq!(plain.finish(StepStatus::Failed), Some("failed".to_string()));
    assert_eq!(plain.finish(StepStatus::Done), None);
    assert_eq!(plain.finish(StepStatus::Running), None);
    assert_eq!(plain.finish(StepStatus::Pending), None);
    assert_eq!(plain.output_policy(), OutputPolicy::Inherit);
}

#[test]
fn every_task_of_a_batch_reaches_a_terminal_status() {
    let sink = Arc::new(Recorder::default());
    let runner = TaskRunner::new(Arc::clone(&sink)).with_parallelism(Some(3));
    let mut tasks = Vec::new();
    for i in 1..=5 {
        let work: Work = if i == 3 {
            Box::new(|_| Err("boom".to_string()))
        } else if i == 5 {
            Box::new(|_| Ok(StepOutcome::Cached))
        } else {
            Box::new(|_| Ok(StepOutcome::Done))
        };
        tasks.push(task(&format!("t{i}"), &format!("task {i}"), work));
    }
    let end = runner.run_all(tasks);
    assert_eq!(
        end.statuses,
        vec![
            StepStatus::Done,
            StepStatus::Done,
            StepStatus::Failed,
            StepStatus::Done,
            StepStatus::Cached
        ]
    );
    assert_eq!(end.failures, vec![("task 3".to_string(), "boom".to_string())]);
    let finished: Vec<String> =
        sink.events().into_iter().filter(|e| e.starts_with("finish ")).collect();
    assert_eq!(
        finished,
        vec![
            "finish t1 Done",
            "finish t2 Done",
            "finish t3 Failed",
            "finish t4 Done",
            "finish t5 Cached"
        ]
    );
}

#[test]
fn the_runner_hands_out_its_own_sink() {
    let sink = Arc::new(Recorder::default());
    let other = Arc::new(Recorder::default());
    let runner = TaskRunner::new(Arc::clone(&sink)).with_parallelism(Some(2));
    assert!(Arc::ptr_eq(&runner.sink(), &sink));
    assert!(!Arc::ptr_eq(&runner.sink(), &other));
    runner.sink().start(&StepId::new("z"));
    assert_eq!(sink.events(), vec!["start z"]);
    assert!(other.events().is_empty());
}

#[test]
fn a_sink_says_its_policy() {
    assert_eq!(Recorder::default().output_policy(), OutputPolicy::Capture);
}
