use riot::display::{
    dim, output_prefix, status_icon, truncate_line, visual_width, BuildStep, StatusIcons,
    StepStatus,
};

fn icons() -> StatusIcons {
    StatusIcons {
        pending: "[pending]".to_string(),
        running: "[running]".to_string(),
        done: "[done]".to_string(),
        cached: "[cached]".to_string(),
        failed: "[failed]".to_string(),
    }
}

fn step_with_output(lines: &[&str]) -> BuildStep {
    let mut step = BuildStep::new("build".to_string());
    for line in lines {
        step.append_output(line.to_string());
    }
    step
}

#[test]
fn width_counts_visible_characters() {
    assert_eq!(visual_width(""), 0);
    assert_eq!(visual_width("hello"), 5);
    assert_eq!(visual_width("h\u{e9}llo \u{2026}"), 7);
    assert_eq!(visual_width("\x1b[31mred\x1b[0m"), 3);
    assert_eq!(visual_width("\x1b[38;5;8m[pending]\x1b[39m done"), 14);
    assert_eq!(visual_width("a\x1b[1;2;3"), 1);
    assert_eq!(visual_width("\x1b"), 0);
    assert_eq!(visual_width("\x1bx"), 1);
    assert_eq!(visual_width("\x1b\x1b[0mA"), 1);
    assert_eq!(visual_width("\x1b[mab"), 2);
    assert_eq!(visual_width("[0m"), 3);
}

#[test]
fn short_lines_are_not_cut() {
    assert_eq!(truncate_line("hello", 5), "hello");
    assert_eq!(truncate_line("hello", 80), "hello");
    assert_eq!(truncate_line("", 0), "");
    assert_eq!(truncate_line("\x1b[31mred\x1b[0m", 3), "\x1b[31mred\x1b[0m");
}

#[test]
fn long_lines_are_cut_with_an_ellipsis() {
    assert_eq!(truncate_line("hello world", 5), "hell\u{2026}");
    assert_eq!(truncate_line("hello", 4), "hel\u{2026}");
    assert_eq!(truncate_line("hello", 1), "\u{2026}");
    assert_eq!(truncate_line("hello", 0), "\u{2026}");
}

#[test]
fn cutting_keeps_escape_sequences() {
    assert_eq!(truncate_line("\x1b[31mhello\x1b[0m", 3), "\x1b[31mhe\u{2026}");
    assert_eq!(truncate_line("ab\x1b[0mcd", 3), "ab\x1b[0m\u{2026}");
    assert_eq!(truncate_line("\x1b[1ma\x1b[2mb\x1b[3mc", 2), "\x1b[1ma\x1b[2m\u{2026}");
}

#[test]
fn cut_lines_fit_the_width() {
    let lines = ["hello world", "\x1b[31mcolour\x1b[0m and more", "a\x1bb\x1b[c", "\u{e9}\u{e9}\u{e9}"];
    for line in lines {
        for width in 1..12 {
            let cut = truncate_line(line, width);
            assert!(visual_width(&cut) <= width, "{line:?} {width}");
            if visual_width(line) > width {
                assert_eq!(visual_width(&cut), width);
                assert!(cut.ends_with('\u{2026}'));
            }
        }
    }
}

#[test]
fn dim_wraps_and_keeps_dimming_after_resets() {
    assert_eq!(dim("text"), "\x1b[2mtext\x1b[0m");
    assert_eq!(dim(""), "\x1b[2m\x1b[0m");
    assert_eq!(dim("a\x1b[0mb"), "\x1b[2ma\x1b[0m\x1b[2mb\x1b[0m");
    assert_eq!(dim("\x1b[0m\x1b[0m"), "\x1b[2m\x1b[0m\x1b[2m\x1b[0m\x1b[2m\x1b[0m");
    assert_eq!(dim("\x1b[31mred"), "\x1b[2m\x1b[31mred\x1b[0m");
}

#[test]
fn output_prefix_is_a_bar() {
    assert_eq!(output_prefix(), "  \u{2502} ");
    assert_eq!(visual_width(&output_prefix()), 4);
}

#[test]
fn status_icons_name_the_status() {
    for (status, name) in [
        (StepStatus::Pending, "[pending]"),
        (StepStatus::Running, "[running]"),
        (StepStatus::Done, "[done]"),
        (StepStatus::Cached, "[cached]"),
        (StepStatus::Failed, "[failed]"),
    ] {
        let icon = status_icon(status);
        assert!(icon.contains(name));
        assert_eq!(visual_width(&icon), name.len());
    }
    let current = StatusIcons::current();
    assert_eq!(current.icon(StepStatus::Done), status_icon(StepStatus::Done));
    assert_eq!(icons().icon(StepStatus::Failed), "[failed]");
}

#[test]
fn a_new_step_is_pending() {
    let step = BuildStep::new("compile".to_string());
    assert_eq!(step.description, "compile");
    assert_eq!(step.status, StepStatus::Pending);
    assert!(step.output_lines.is_empty());
    assert!(step.start_time.is_none());
    assert!(step.end_time.is_none());
    assert_eq!(step.max_output_lines, 100);
    assert!(step.is_fully_collapsed());
}

#[test]
fn output_is_kept_up_to_the_limit() {
    let mut step = BuildStep::new("compile".to_string());
    for i in 0..250 {
        step.append_output(format!("line {i}"));
    }
    assert_eq!(step.output_lines.len(), 100);
    assert_eq!(step.output_lines[0], "line 150");
    assert_eq!(step.output_lines[99], "line 249");
    let mut small = BuildStep::new("x".to_string());
    small.max_output_lines = 2;
    small.append_output("a".to_string());
    small.append_output("b".to_string());
    small.append_output("c".to_string());
    assert_eq!(small.output_lines, vec!["b", "c"]);
    let mut none = BuildStep::new("x".to_string());
    none.max_output_lines = 0;
    none.append_output("a".to_string());
    none.append_output("b".to_string());
    assert_eq!(none.output_lines, vec!["b"]);
}

#[test]
fn output_leaves_the_times_as_they_are() {
    let mut step = BuildStep::new("compile".to_string());
    step.append_output("early".to_string());
    assert_eq!(step.start_time, None);
    assert_eq!(step.end_time, None);
    step.update_status(StepStatus::Running);
    let started = step.start_time;
    assert!(started.is_some());
    step.append_output("while running".to_string());
    assert_eq!(step.start_time, started);
    assert_eq!(step.end_time, None);
    step.update_status(StepStatus::Done);
    let ended = step.end_time;
    step.append_output("late".to_string());
    assert_eq!(step.start_time, started);
    assert_eq!(step.end_time, ended);
    assert_eq!(step.status, StepStatus::Done);
}

#[test]
fn status_updates_note_the_times_once() {
    let mut step = BuildStep::new("compile".to_string());
    step.update_status(StepStatus::Pending);
    assert!(step.start_time.is_none());
    step.update_status(StepStatus::Running);
    assert_eq!(step.status, StepStatus::Running);
    let started = step.start_time;
    assert!(started.is_some());
    assert!(step.end_time.is_none());
    assert!(!step.is_fully_collapsed());
    step.update_status(StepStatus::Running);
    assert_eq!(step.start_time, started);
    step.update_status(StepStatus::Failed);
    assert!(!step.is_fully_collapsed());
    let ended = step.end_time;
    assert!(ended.is_some());
    step.update_status(StepStatus::Done);
    assert_eq!(step.end_time, ended);
    assert_eq!(step.start_time, started);
    assert!(step.is_fully_collapsed());
    let mut cached = BuildStep::new("x".to_string());
    cached.update_status(StepStatus::Cached);
    assert!(cached.end_time.is_some());
    assert!(cached.start_time.is_none());
    assert!(cached.is_fully_collapsed());
}

#[test]
fn a_collapsed_step_is_icon_and_description() {
    let mut step = BuildStep::new("compile things".to_string());
    assert_eq!(step.render_collapsed_with(&icons()), "[pending] compile things");
    step.update_status(StepStatus::Done);
    assert_eq!(step.render_collapsed_with(&icons()), "[done] compile things");
    let rendered = step.render_collapsed();
    assert_eq!(rendered, format!("{} compile things", status_icon(StepStatus::Done)));
}

#[test]
fn an_expanded_step_shows_its_last_lines() {
    let step = step_with_output(&["one", "two", "three", "four"]);
    assert_eq!(
        step.render_expanded_with(&icons(), 2, None, false),
        vec!["[pending] build", "  \u{2502} three", "  \u{2502} four"]
    );
    assert_eq!(
        step.render_expanded_with(&icons(), 10, None, false),
        vec![
            "[pending] build",
            "  \u{2502} one",
            "  \u{2502} two",
            "  \u{2502} three",
            "  \u{2502} four"
        ]
    );
    assert_eq!(step.render_expanded_with(&icons(), 0, None, false), vec!["[pending] build"]);
}

#[test]
fn expanded_lines_are_cut_and_dimmed() {
    let step = step_with_output(&["a long line of output", "short"]);
    assert_eq!(
        step.render_expanded_with(&icons(), 5, Some(12), false),
        vec!["[pending] build", "  \u{2502} a long \u{2026}", "  \u{2502} short"]
    );
    assert_eq!(
        step.render_expanded_with(&icons(), 5, Some(12), true),
        vec![
            "[pending] build",
            "  \u{2502} \x1b[2ma long \u{2026}\x1b[0m",
            "  \u{2502} \x1b[2mshort\x1b[0m"
        ]
    );
    assert_eq!(
        step.render_expanded_with(&icons(), 1, Some(3), false),
        vec!["[pending] build", "  \u{2502} \u{2026}"]
    );
    let rendered = step.render_expanded(1, None, false);
    assert_eq!(rendered.len(), 2);
    assert_eq!(rendered[1], "  \u{2502} short");
}

#[test]
fn icons_are_painted_or_left_without_codes() {
    for (status, name, number) in [
        (StepStatus::Pending, "[pending]", "8"),
        (StepStatus::Running, "[running]", "14"),
        (StepStatus::Done, "[done]", "10"),
        (StepStatus::Cached, "[cached]", "11"),
        (StepStatus::Failed, "[failed]", "9"),
    ] {
        let icon = status_icon(status);
        let colored = format!("\x1b[38;5;{number}m{name}\x1b[39m");
        let uncolored = format!("\x1b[m{name}\x1b[m");
        assert!(icon == colored || icon == uncolored, "{icon:?}");
        assert_eq!(StatusIcons::current().icon(status), icon);
    }
}
