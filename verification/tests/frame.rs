use riot::dashboard::{terminal_dimensions, Dashboard};
use riot::display::{BuildStep, StatusIcons, StepStatus};
use riot::frame::{
    all_terminal, build_summary_line, format_duration, frame_text, lines_per_running,
    render_frame, render_step_lines, select_visible_steps, FrameMode, StepRenderStyle,
};

fn plain_icons() -> StatusIcons {
    StatusIcons {
        pending: "[pending]".to_string(),
        running: "[running]".to_string(),
        done: "[done]".to_string(),
        cached: "[cached]".to_string(),
        failed: "[failed]".to_string(),
    }
}

fn step(description: &str, status: StepStatus, output: usize) -> BuildStep {
    let mut step = BuildStep::new(description.to_string());
    step.update_status(status);
    for i in 0..output {
        step.append_output(format!("{description} out {i}"));
    }
    step
}

fn steps_of(statuses: &[StepStatus]) -> Vec<BuildStep> {
    statuses.iter().enumerate().map(|(i, s)| step(&format!("s{i}"), *s, 20)).collect()
}

use StepStatus::{Cached, Done, Failed, Pending, Running};

#[test]
fn no_height_shows_no_step() {
    let steps = steps_of(&[Running, Failed, Pending]);
    assert!(select_visible_steps(&steps, 0).is_empty());
}

#[test]
fn running_steps_are_always_shown_first() {
    let steps = steps_of(&[Pending, Running, Done, Running, Failed, Running]);
    assert_eq!(select_visible_steps(&steps, 1), vec![1, 3, 5]);
    assert_eq!(select_visible_steps(&steps, 18), vec![1, 3, 5]);
    assert_eq!(select_visible_steps(&steps, 19), vec![1, 3, 5, 4]);
    assert_eq!(select_visible_steps(&steps, 24), vec![1, 3, 5, 4, 0]);
    assert_eq!(select_visible_steps(&steps, 25), vec![1, 3, 5, 4, 0, 2]);
}

#[test]
fn the_budget_is_spent_by_status() {
    let steps = steps_of(&[Cached, Done, Pending, Failed, Cached, Done, Pending, Failed]);
    assert_eq!(select_visible_steps(&steps, 1), vec![3]);
    assert_eq!(select_visible_steps(&steps, 5), vec![3]);
    assert_eq!(select_visible_steps(&steps, 6), vec![3, 7]);
    assert_eq!(select_visible_steps(&steps, 10), vec![3, 7]);
    assert_eq!(select_visible_steps(&steps, 11), vec![3, 7, 2]);
    assert_eq!(select_visible_steps(&steps, 13), vec![3, 7, 2, 6, 1]);
    assert_eq!(select_visible_steps(&steps, 100), vec![3, 7, 2, 6, 1, 5, 0, 4]);
}

#[test]
fn running_steps_are_not_hidden_by_others() {
    let mut statuses = vec![Done; 30];
    statuses.extend([Running, Pending, Running, Failed]);
    let steps = steps_of(&statuses);
    for height in 1..40 {
        let visible = select_visible_steps(&steps, height);
        assert_eq!(&visible[..2], &[30, 32]);
    }
}

#[test]
fn running_steps_share_the_height() {
    let steps = steps_of(&[Running, Running, Failed, Done]);
    let visible = vec![0, 1, 2, 3];
    assert_eq!(lines_per_running(&steps, &visible, 45), 20);
    assert_eq!(lines_per_running(&steps, &visible, 17), 6);
    assert_eq!(lines_per_running(&steps, &visible, 3), 6);
    assert_eq!(lines_per_running(&steps, &visible, 18), 6);
    assert_eq!(lines_per_running(&steps, &visible, 19), 7);
    assert_eq!(lines_per_running(&steps, &vec![2, 3], 40), 0);
    assert_eq!(lines_per_running(&steps, &vec![0], 40), 40);
}

#[test]
fn collapsed_steps_take_one_line() {
    let icons = plain_icons();
    for status in [Pending, Done, Cached] {
        let s = step("x", status, 5);
        assert_eq!(render_step_lines(&s, &icons, StepRenderStyle::Final).len(), 1);
        let style = StepRenderStyle::Active {
            terminal_width: 80,
            lines_per_running: 10,
            remaining_height: 10,
        };
        assert_eq!(render_step_lines(&s, &icons, style).len(), 1);
    }
    let running = step("x", Running, 5);
    assert_eq!(
        render_step_lines(&running, &icons, StepRenderStyle::Final),
        vec!["[running] x"]
    );
}

#[test]
fn failed_steps_take_a_block() {
    let icons = plain_icons();
    let failed = step("f", Failed, 50);
    let style = |remaining_height| StepRenderStyle::Active {
        terminal_width: 80,
        lines_per_running: 10,
        remaining_height,
    };
    let lines = render_step_lines(&failed, &icons, style(20));
    assert_eq!(lines.len(), 5);
    assert_eq!(lines[0], "[failed] f");
    assert_eq!(lines[4], "  \u{2502} \x1b[2mf out 49\x1b[0m");
    assert_eq!(render_step_lines(&failed, &icons, style(3)).len(), 3);
    assert_eq!(render_step_lines(&failed, &icons, style(1)).len(), 1);
    assert_eq!(render_step_lines(&failed, &icons, style(0)).len(), 1);
    let last = render_step_lines(&failed, &icons, StepRenderStyle::Final);
    assert_eq!(last.len(), 31);
    assert_eq!(last[30], "  \u{2502} f out 49");
    assert_eq!(last[1], "  \u{2502} f out 20");
}

#[test]
fn running_steps_take_their_share() {
    let icons = plain_icons();
    let running = step("r", Running, 50);
    let style = |lines_per_running, remaining_height| StepRenderStyle::Active {
        terminal_width: 11,
        lines_per_running,
        remaining_height,
    };
    assert_eq!(render_step_lines(&running, &icons, style(6, 20)).len(), 7);
    assert_eq!(render_step_lines(&running, &icons, style(6, 4)).len(), 4);
    assert_eq!(render_step_lines(&running, &icons, style(0, 4)).len(), 1);
    let lines = render_step_lines(&running, &icons, style(2, 20));
    assert_eq!(
        lines,
        vec![
            "[running] r",
            "  \u{2502} \x1b[2mr out \u{2026}\x1b[0m",
            "  \u{2502} \x1b[2mr out \u{2026}\x1b[0m"
        ]
    );
    let quiet = step("q", Running, 2);
    assert_eq!(render_step_lines(&quiet, &icons, style(6, 20)).len(), 3);
}

#[test]
fn an_active_frame_fits_the_height() {
    let icons = plain_icons();
    let mut statuses = vec![Running, Failed, Running, Pending, Done, Cached, Failed];
    statuses.extend(vec![Pending; 20]);
    let steps = steps_of(&statuses);
    for height in 0..60 {
        let visible = select_visible_steps(&steps, height);
        let mode = FrameMode::Active {
            terminal_width: 40,
            step_area_height: height,
            lines_per_running: lines_per_running(&steps, &visible, height),
        };
        let lines = render_frame(&steps, &visible, &icons, "summary", mode);
        assert!(lines.len() <= height + 1, "{height}");
        assert_eq!(lines[0], "summary");
        if height >= 2 {
            assert_eq!(lines[1], "[running] s0");
            assert!(lines.contains(&"[running] s2".to_string()) || height < 8);
        }
    }
}

#[test]
fn a_frame_is_filled_step_by_step() {
    let icons = plain_icons();
    let steps = vec![step("a", Running, 3), step("b", Failed, 1), step("c", Done, 0)];
    let visible = vec![0, 1, 2];
    let mode =
        FrameMode::Active { terminal_width: 80, step_area_height: 6, lines_per_running: 2 };
    assert_eq!(
        render_frame(&steps, &visible, &icons, "sum", mode),
        vec![
            "sum",
            "[running] a",
            "  \u{2502} \x1b[2ma out 1\x1b[0m",
            "  \u{2502} \x1b[2ma out 2\x1b[0m",
            "[failed] b",
            "  \u{2502} \x1b[2mb out 0\x1b[0m",
            "[done] c",
        ]
    );
    let mode =
        FrameMode::Active { terminal_width: 80, step_area_height: 4, lines_per_running: 2 };
    assert_eq!(
        render_frame(&steps, &visible, &icons, "sum", mode),
        vec![
            "sum",
            "[running] a",
            "  \u{2502} \x1b[2ma out 1\x1b[0m",
            "  \u{2502} \x1b[2ma out 2\x1b[0m",
            "[failed] b",
        ]
    );
}

#[test]
fn the_last_frame_shows_steps_in_full() {
    let icons = plain_icons();
    let steps = vec![step("a", Done, 3), step("b", Failed, 40), step("c", Cached, 0)];
    let lines = render_frame(&steps, &vec![1, 0, 2], &icons, "sum", FrameMode::Final);
    assert_eq!(lines.len(), 1 + 31 + 1 + 1);
    assert_eq!(lines[0], "sum");
    assert_eq!(lines[1], "[failed] b");
    assert_eq!(lines[2], "  \u{2502} b out 10");
    assert_eq!(lines[32], "[done] a");
    assert_eq!(lines[33], "[cached] c");
}

#[test]
fn frame_text_ends_every_line() {
    assert_eq!(frame_text(&vec![]), "");
    assert_eq!(frame_text(&vec!["a".to_string()]), "a\n");
    assert_eq!(frame_text(&vec!["a".to_string(), String::new(), "b".to_string()]), "a\n\nb\n");
}

#[test]
fn durations_are_written_with_colons() {
    assert_eq!(format_duration(0), "0:00");
    assert_eq!(format_duration(5), "0:05");
    assert_eq!(format_duration(65), "1:05");
    assert_eq!(format_duration(600), "10:00");
    assert_eq!(format_duration(3599), "59:59");
    assert_eq!(format_duration(3600), "1:00:00");
    assert_eq!(format_duration(3661), "1:01:01");
    assert_eq!(format_duration(360000), "100:00:00");
    assert_eq!(format_duration(u64::MAX), "5124095576030431:00:15");
}

#[test]
fn the_summary_counts_by_status() {
    let icons = plain_icons();
    let steps = steps_of(&[Running, Pending, Pending, Done, Cached, Failed, Done, Done]);
    assert_eq!(
        build_summary_line(&steps, &icons, 200, 75),
        "Summary: [running] 1  [pending] 2  [done] 3  [cached] 1  [failed] 1  Progress: 5/8  Elapsed: 1:15"
    );
    assert_eq!(
        build_summary_line(&vec![], &icons, 200, 0),
        "Summary: [running] 0  [pending] 0  [done] 0  [cached] 0  [failed] 0  Progress: 0/0  Elapsed: 0:00"
    );
    assert_eq!(build_summary_line(&steps, &icons, 20, 75), "Summary: [running] \u{2026}");
}

#[test]
fn all_terminal_means_done_cached_or_failed() {
    assert!(all_terminal(&steps_of(&[])));
    assert!(all_terminal(&steps_of(&[Done, Cached, Failed])));
    assert!(!all_terminal(&steps_of(&[Done, Running])));
    assert!(!all_terminal(&steps_of(&[Pending, Done])));
}

#[test]
fn the_dashboard_keeps_steps_in_order() {
    let mut board = Dashboard::new();
    board.register_step("b", "second");
    board.register_step("a", "first");
    board.update_step_status("a", Running);
    board.append_output("a", "hello".to_string());
    board.append_output("missing", "lost".to_string());
    board.update_step_status("missing", Failed);
    let steps = board.steps();
    assert_eq!(steps.len(), 2);
    assert_eq!(steps[0].description, "second");
    assert_eq!(steps[0].status, Pending);
    assert_eq!(steps[1].description, "first");
    assert_eq!(steps[1].status, Running);
    assert_eq!(steps[1].output_lines, vec!["hello"]);
    board.register_step("a", "again");
    let steps = board.steps();
    assert_eq!(steps.len(), 2);
    assert_eq!(steps[1].description, "again");
    assert_eq!(steps[1].status, Pending);
    assert!(steps[1].output_lines.is_empty());
}

#[test]
fn one_more_frame_after_all_steps_are_over() {
    let icons = plain_icons();
    let mut board = Dashboard::new();
    board.register_step("a", "first");
    board.register_step("b", "second");
    board.update_step_status("a", Running);
    let frame = board.render_with(&icons, 80, 10, 1, false).unwrap();
    assert_eq!(frame.rewind, None);
    assert_eq!(frame.lines.len(), 3);
    assert!(!board.final_rendered());
    assert_eq!(board.lines_last_render(), 3);
    let frame = board.render_with(&icons, 80, 10, 1, false).unwrap();
    assert_eq!(frame.rewind, Some(3));
    board.update_step_status("a", Done);
    board.update_step_status("b", Running);
    board.update_step_status("b", Failed);
    assert!(!board.final_rendered());
    let last = board.render_with(&icons, 80, 10, 2, false).unwrap();
    assert_eq!(last.rewind, Some(3));
    assert_eq!(last.lines[1], "[failed] second");
    assert_eq!(last.lines[2], "[done] first");
    assert!(board.final_rendered());
    for _ in 0..5 {
        assert!(board.render_with(&icons, 80, 10, 3, false).is_none());
        assert!(board.render(80, 10, 3, false).is_none());
    }
    assert!(board.final_rendered());
    assert_eq!(board.lines_last_render(), 3);
    let at_shutdown = board.render_with(&icons, 80, 10, 4, true).unwrap();
    assert_eq!(at_shutdown.lines.len(), 3);
}

#[test]
fn events_make_a_frame_due_again() {
    let icons = plain_icons();
    let mut board = Dashboard::new();
    assert!(board.render_with(&icons, 80, 10, 0, false).is_some());
    assert!(board.final_rendered());
    assert!(board.render_with(&icons, 80, 10, 0, false).is_none());
    board.register_step("a", "first");
    assert!(!board.final_rendered());
    board.update_step_status("a", Done);
    assert!(board.render_with(&icons, 80, 10, 0, false).is_some());
    assert!(board.render_with(&icons, 80, 10, 0, false).is_none());
    board.append_output("a", "late".to_string());
    assert!(board.render_with(&icons, 80, 10, 0, false).is_some());
    assert!(board.render_with(&icons, 80, 10, 0, false).is_none());
    board.append_output("unknown", "late".to_string());
    assert!(board.render_with(&icons, 80, 10, 0, false).is_none());
}

#[test]
fn frames_fit_a_terminal_smaller_than_the_steps() {
    let icons = plain_icons();
    let mut board = Dashboard::new();
    for i in 0..40 {
        board.register_step(&format!("step{i}"), &format!("step number {i}"));
    }
    for i in 0..5 {
        board.update_step_status(&format!("step{i}"), Running);
        for k in 0..30 {
            board.append_output(&format!("step{i}"), format!("output {k} of a running step"));
        }
    }
    board.update_step_status("step7", Failed);
    for height in 1..50 {
        let frame = board.render_with(&icons, 30, height, 12, false).unwrap();
        assert!(frame.lines.len() <= height, "{height}");
        for line in &frame.lines {
            assert!(riot::display::visual_width(line) <= 30);
        }
        let others = frame
            .lines
            .iter()
            .any(|l| l.starts_with("[pending]") || l.starts_with("[failed]"));
        if height >= 36 || others {
            for i in 0..5 {
                assert!(frame.lines.contains(&format!("[running] step number {i}")));
            }
        }
        if height >= 2 {
            assert_eq!(frame.lines[1], "[running] step number 0");
        }
    }
    let frame = board.render_with(&icons, 30, 0, 12, false).unwrap();
    assert_eq!(frame.lines.len(), 1);
}

#[test]
fn two_lines_of_the_terminal_stay_free() {
    assert_eq!(terminal_dimensions(80, 24), (80, 22));
    assert_eq!(terminal_dimensions(80, 2), (80, 0));
    assert_eq!(terminal_dimensions(80, 1), (80, 0));
    assert_eq!(terminal_dimensions(0, 0), (0, 0));
    assert_eq!(terminal_dimensions(u16::MAX, u16::MAX), (65535, 65533));
}
