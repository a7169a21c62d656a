//! Frames of the dashboard: which steps a frame shows, with how many lines
//! each, and what the frame says.

use vstd::prelude::*;
use vstd::string::StringExecFns;
use crate::display::{
    collapsed_text, expanded_text, is_collapsed, is_terminal, truncate_line, truncated, BuildStep,
    StatusIcons, StepStatus, StepView,
};
use crate::text::{decimal, push_char, push_decimal, push_two_digits, two_digits};

verus! {

/// The lines that a running step is given at least.
pub const RUNNING_MIN_LINES: usize = 6;

/// The lines that a failed step takes while others run.
pub const FAILED_BLOCK_LINES: usize = 5;

/// The lines that a collapsed step takes.
pub const COLLAPSED_LINE_COST: usize = 1;

/// The output lines of a failed step in the last frame.
pub const FINAL_FAILED_LINES: usize = 30;

/// The steps as plain values.
pub open spec fn steps_view(steps: Seq<BuildStep>) -> Seq<StepView> {
    Seq::new(steps.len(), |i: int| steps[i]@)
}

/// The places of the running steps among the first `n`, in order.
pub open spec fn running_before(steps: Seq<StepView>, n: int) -> Seq<usize>
    decreases n,
{
    if n <= 0 {
        Seq::empty()
    } else if steps[n - 1].status == StepStatus::Running {
        running_before(steps, n - 1).push((n - 1) as usize)
    } else {
        running_before(steps, n - 1)
    }
}

/// The steps picked so far and the lines that are left for more.
pub struct Pick {
    pub visible: Seq<usize>,
    pub budget: nat,
}

/// What is left of `budget` after `cost`.
pub open spec fn less(budget: nat, cost: nat) -> nat {
    if budget >= cost {
        (budget - cost) as nat
    } else {
        0
    }
}

/// The pick after the steps with the given status among the first `n` were
/// offered: each is taken while lines are left, and costs `cost` of them.
pub open spec fn pick_group(
    steps: Seq<StepView>,
    status: StepStatus,
    cost: nat,
    n: int,
    start: Pick,
) -> Pick
    decreases n,
{
    if n <= 0 {
        start
    } else {
        let p = pick_group(steps, status, cost, n - 1, start);
        if steps[n - 1].status == status && p.budget > 0 {
            Pick { visible: p.visible.push((n - 1) as usize), budget: less(p.budget, cost) }
        } else {
            p
        }
    }
}

/// The places of the steps that a frame shows where `step_area_height`
/// lines are free for steps: every running step, then, while lines are left
/// beyond six for each running step, the failed steps, the pending, the done
/// and the cached ones.
pub open spec fn visible_steps(steps: Seq<StepView>, step_area_height: nat) -> Seq<usize> {
    if step_area_height == 0 {
        Seq::empty()
    } else {
        let running = running_before(steps, steps.len() as int);
        let n = steps.len() as int;
        let p0 = Pick {
            visible: running,
            budget: less(step_area_height, running.len() * RUNNING_MIN_LINES as nat),
        };
        let p1 = pick_group(steps, StepStatus::Failed, FAILED_BLOCK_LINES as nat, n, p0);
        let p2 = pick_group(steps, StepStatus::Pending, COLLAPSED_LINE_COST as nat, n, p1);
        let p3 = pick_group(steps, StepStatus::Done, COLLAPSED_LINE_COST as nat, n, p2);
        let p4 = pick_group(steps, StepStatus::Cached, COLLAPSED_LINE_COST as nat, n, p3);
        p4.visible
    }
}

/// Every place that is picked is the place of a step.
pub open spec fn places_within(visible: Seq<usize>, n: nat) -> bool {
    forall|k: int| 0 <= k < visible.len() ==> (#[trigger] visible[k]) < n
}

fn status_equal(a: StepStatus, b: StepStatus) -> (r: bool)
    ensures
        r == (a == b),
{
    match (a, b) {
        (StepStatus::Pending, StepStatus::Pending) => true,
        (StepStatus::Running, StepStatus::Running) => true,
        (StepStatus::Done, StepStatus::Done) => true,
        (StepStatus::Cached, StepStatus::Cached) => true,
        (StepStatus::Failed, StepStatus::Failed) => true,
        _ => false,
    }
}

fn pick(
    steps: &Vec<BuildStep>,
    status: StepStatus,
    cost: usize,
    visible: &mut Vec<usize>,
    budget: usize,
) -> (left: usize)
    requires
        places_within(old(visible)@, steps.len() as nat),
    ensures
        places_within(final(visible)@, steps.len() as nat),
        (Pick { visible: final(visible)@, budget: left as nat }) == pick_group(
            steps_view(steps@),
            status,
            cost as nat,
            steps.len() as int,
            Pick { visible: old(visible)@, budget: budget as nat },
        ),
{
    let mut left = budget;
    let mut i: usize = 0;
    while i < steps.len()
        invariant
            i <= steps.len(),
            places_within(visible@, steps.len() as nat),
            (Pick { visible: visible@, budget: left as nat }) == pick_group(
                steps_view(steps@),
                status,
                cost as nat,
                i as int,
                Pick { visible: old(visible)@, budget: budget as nat },
            ),
        decreases steps.len() - i,
    {
        assert(steps_view(steps@)[i as int] == steps[i as int]@);
        if status_equal(steps[i].status, status) && left > 0 {
            visible.push(i);
            left = if left >= cost {
                left - cost
            } else {
                0
            };
        }
        i = i + 1;
    }
    left
}

/// The places of the steps that a frame shows.
pub fn select_visible_steps(steps: &Vec<BuildStep>, step_area_height: usize) -> (visible: Vec<
    usize,
>)
    ensures
        visible@ == visible_steps(steps_view(steps@), step_area_height as nat),
        places_within(visible@, steps.len() as nat),
{
    let mut visible: Vec<usize> = Vec::new();
    if step_area_height == 0 {
        return visible;
    }
    let mut i: usize = 0;
    while i < steps.len()
        invariant
            i <= steps.len(),
            visible@ == running_before(steps_view(steps@), i as int),
            visible.len() <= i,
            places_within(visible@, steps.len() as nat),
        decreases steps.len() - i,
    {
        assert(steps_view(steps@)[i as int] == steps[i as int]@);
        if status_equal(steps[i].status, StepStatus::Running) {
            visible.push(i);
        }
        i = i + 1;
    }
    let reserved: usize = match visible.len().checked_mul(RUNNING_MIN_LINES) {
        Some(lines) => lines,
        None => usize::MAX,
    };
    let budget: usize = if step_area_height >= reserved {
        step_area_height - reserved
    } else {
        0
    };
    let budget = pick(steps, StepStatus::Failed, FAILED_BLOCK_LINES, &mut visible, budget);
    let budget = pick(steps, StepStatus::Pending, COLLAPSED_LINE_COST, &mut visible, budget);
    let budget = pick(steps, StepStatus::Done, COLLAPSED_LINE_COST, &mut visible, budget);
    let _ = pick(steps, StepStatus::Cached, COLLAPSED_LINE_COST, &mut visible, budget);
    visible
}

/// The number of steps with the given status among the first `n` places
/// picked.
pub open spec fn count_picked(
    steps: Seq<StepView>,
    visible: Seq<usize>,
    status: StepStatus,
    n: int,
) -> nat
    decreases n,
{
    if n <= 0 {
        0
    } else if steps[visible[n - 1] as int].status == status {
        count_picked(steps, visible, status, n - 1) + 1
    } else {
        count_picked(steps, visible, status, n - 1)
    }
}

/// The output lines that each running step may show: what the failed steps
/// leave of the height, divided evenly, and six at least.
pub open spec fn running_share(steps: Seq<StepView>, visible: Seq<usize>, height: nat) -> nat {
    let failed = count_picked(steps, visible, StepStatus::Failed, visible.len() as int);
    let running = count_picked(steps, visible, StepStatus::Running, visible.len() as int);
    if running > 0 {
        let share = less(height, failed * FAILED_BLOCK_LINES as nat) / running;
        if share >= RUNNING_MIN_LINES {
            share
        } else {
            RUNNING_MIN_LINES as nat
        }
    } else {
        0
    }
}

fn count_status(steps: &Vec<BuildStep>, visible: &Vec<usize>, status: StepStatus) -> (n: usize)
    requires
        places_within(visible@, steps.len() as nat),
    ensures
        n == count_picked(steps_view(steps@), visible@, status, visible.len() as int),
{
    let mut n: usize = 0;
    let mut k: usize = 0;
    while k < visible.len()
        invariant
            k <= visible.len(),
            n <= k,
            places_within(visible@, steps.len() as nat),
            n == count_picked(steps_view(steps@), visible@, status, k as int),
        decreases visible.len() - k,
    {
        assert(steps_view(steps@)[visible[k as int] as int] == steps[visible[k as int] as int]@);
        if status_equal(steps[visible[k]].status, status) {
            n = n + 1;
        }
        k = k + 1;
    }
    n
}

/// The output lines that each running step may show.
pub fn lines_per_running(steps: &Vec<BuildStep>, visible: &Vec<usize>, available_height: usize) -> (r:
    usize)
    requires
        places_within(visible@, steps.len() as nat),
    ensures
        r == running_share(steps_view(steps@), visible@, available_height as nat),
{
    let failed_count = count_status(steps, visible, StepStatus::Failed);
    let running_count = count_status(steps, visible, StepStatus::Running);
    let lines_for_failed: usize = match failed_count.checked_mul(FAILED_BLOCK_LINES) {
        Some(lines) => lines,
        None => usize::MAX,
    };
    let remaining_lines: usize = if available_height >= lines_for_failed {
        available_height - lines_for_failed
    } else {
        0
    };
    if running_count > 0 {
        let share = remaining_lines / running_count;
        if share >= RUNNING_MIN_LINES {
            share
        } else {
            RUNNING_MIN_LINES
        }
    } else {
        0
    }
}

/// How a frame is drawn.
#[derive(Clone, Copy)]
pub enum FrameMode {
    /// Every step is over: each is written once, in full.
    Final,
    /// Steps are running: the frame must fit the terminal.
    Active { terminal_width: usize, step_area_height: usize, lines_per_running: usize },
}

/// How a step is drawn.
#[derive(Clone, Copy)]
pub enum StepRenderStyle {
    Final,
    Active { terminal_width: usize, lines_per_running: usize, remaining_height: usize },
}

/// The smaller of two numbers.
pub open spec fn smaller(a: nat, b: nat) -> nat {
    if a <= b {
        a
    } else {
        b
    }
}

/// The lines of a step. A pending, done or cached step is one line. While
/// steps run, a failed step shows its header and up to four lines of output,
/// a running step its header and its share of output lines, both within the
/// height that remains. In the last frame a failed step shows up to thirty
/// lines of output, uncut.
pub open spec fn step_lines(icons: StatusIcons, step: StepView, style: StepRenderStyle) -> Seq<
    Seq<char>,
> {
    let icon = icons.of(step.status);
    if is_collapsed(step.status) {
        seq![collapsed_text(icon, step.description)]
    } else {
        match style {
            StepRenderStyle::Active { terminal_width, lines_per_running, remaining_height } => {
                let max_lines = if step.status == StepStatus::Failed {
                    smaller(remaining_height as nat, FAILED_BLOCK_LINES as nat)
                } else {
                    smaller(remaining_height as nat, lines_per_running as nat + 1)
                };
                expanded_text(icon, step, less(max_lines, 1), Some(terminal_width), true)
            },
            StepRenderStyle::Final => {
                if step.status == StepStatus::Failed {
                    expanded_text(icon, step, FINAL_FAILED_LINES as nat, None, false)
                } else {
                    seq![collapsed_text(icon, step.description)]
                }
            },
        }
    }
}

/// The lines of a step are its header and no more output lines than its
/// style allows.
pub proof fn lemma_step_lines_count(icons: StatusIcons, step: StepView, style: StepRenderStyle)
    ensures
        step_lines(icons, step, style).len() >= 1,
        match style {
            StepRenderStyle::Active { terminal_width, lines_per_running, remaining_height } =>
                remaining_height >= 1 ==> step_lines(icons, step, style).len()
                    <= remaining_height,
            StepRenderStyle::Final => true,
        },
{
}

/// The lines of a step.
pub fn render_step_lines(step: &BuildStep, icons: &StatusIcons, style: StepRenderStyle) -> (r: Vec<
    String,
>)
    ensures
        r.deep_view() == step_lines(*icons, step@, style),
{
    if step.is_fully_collapsed() {
        let mut lines: Vec<String> = Vec::new();
        lines.push(step.render_collapsed_with(icons));
        assert(lines.deep_view() =~= step_lines(*icons, step@, style));
        return lines;
    }
    match style {
        StepRenderStyle::Active { terminal_width, lines_per_running, remaining_height } => {
            let allowed: usize = match step.status {
                StepStatus::Failed => FAILED_BLOCK_LINES,
                _ => if lines_per_running < usize::MAX {
                    lines_per_running + 1
                } else {
                    usize::MAX
                },
            };
            let max_lines: usize = if remaining_height <= allowed {
                remaining_height
            } else {
                allowed
            };
            let max_output: usize = if max_lines >= 1 {
                max_lines - 1
            } else {
                0
            };
            step.render_expanded_with(icons, max_output, Some(terminal_width), true)
        },
        StepRenderStyle::Final => {
            match step.status {
                StepStatus::Failed => step.render_expanded_with(
                    icons,
                    FINAL_FAILED_LINES,
                    None,
                    false,
                ),
                _ => {
                    let mut lines: Vec<String> = Vec::new();
                    lines.push(step.render_collapsed_with(icons));
                    assert(lines.deep_view() =~= step_lines(*icons, step@, style));
                    lines
                },
            }
        },
    }
}

/// The lines of the steps of a last frame: the first `n` steps shown, each
/// in full.
pub open spec fn final_lines(
    steps: Seq<StepView>,
    visible: Seq<usize>,
    icons: StatusIcons,
    n: int,
) -> Seq<Seq<char>>
    decreases n,
{
    if n <= 0 {
        Seq::empty()
    } else {
        final_lines(steps, visible, icons, n - 1) + step_lines(
            icons,
            steps[visible[n - 1] as int],
            StepRenderStyle::Final,
        )
    }
}

/// The lines of the steps of a frame that must fit `height` lines: the
/// first `n` steps shown, each within the height that the steps before it
/// have left.
pub open spec fn active_lines(
    steps: Seq<StepView>,
    visible: Seq<usize>,
    icons: StatusIcons,
    terminal_width: usize,
    height: usize,
    lines_per_running: usize,
    n: int,
) -> Seq<Seq<char>>
    decreases n,
{
    if n <= 0 {
        Seq::empty()
    } else {
        let prev = active_lines(
            steps,
            visible,
            icons,
            terminal_width,
            height,
            lines_per_running,
            n - 1,
        );
        if prev.len() >= height {
            prev
        } else {
            let remaining = (height - prev.len()) as usize;
            let lines = step_lines(
                icons,
                steps[visible[n - 1] as int],
                StepRenderStyle::Active {
                    terminal_width,
                    lines_per_running,
                    remaining_height: remaining,
                },
            );
            prev + lines.take(smaller(remaining as nat, lines.len()) as int)
        }
    }
}

/// The lines of a frame: the summary and the lines of the steps shown.
pub open spec fn frame_lines(
    steps: Seq<StepView>,
    visible: Seq<usize>,
    icons: StatusIcons,
    summary: Seq<char>,
    mode: FrameMode,
) -> Seq<Seq<char>> {
    match mode {
        FrameMode::Final => seq![summary] + final_lines(
            steps,
            visible,
            icons,
            visible.len() as int,
        ),
        FrameMode::Active { terminal_width, step_area_height, lines_per_running } => seq![summary]
            + active_lines(
            steps,
            visible,
            icons,
            terminal_width,
            step_area_height,
            lines_per_running,
            visible.len() as int,
        ),
    }
}

/// The steps of a frame that must fit `height` lines take no more than
/// `height` lines.
pub proof fn lemma_active_lines_fit(
    steps: Seq<StepView>,
    visible: Seq<usize>,
    icons: StatusIcons,
    terminal_width: usize,
    height: usize,
    lines_per_running: usize,
    n: int,
)
    ensures
        active_lines(steps, visible, icons, terminal_width, height, lines_per_running, n).len()
            <= height,
    decreases n,
{
    if n > 0 {
        lemma_active_lines_fit(
            steps,
            visible,
            icons,
            terminal_width,
            height,
            lines_per_running,
            n - 1,
        );
    }
}

/// A frame drawn while steps run has no more lines than the height that
/// is free for steps and one for the summary.
pub proof fn lemma_active_frame_fits(
    steps: Seq<StepView>,
    visible: Seq<usize>,
    icons: StatusIcons,
    summary: Seq<char>,
    terminal_width: usize,
    step_area_height: usize,
    lines_per_running: usize,
)
    ensures
        frame_lines(
            steps,
            visible,
            icons,
            summary,
            FrameMode::Active { terminal_width, step_area_height, lines_per_running },
        ).len() <= step_area_height + 1,
{
    lemma_active_lines_fit(
        steps,
        visible,
        icons,
        terminal_width,
        step_area_height,
        lines_per_running,
        visible.len() as int,
    );
}

fn append_lines(out: &mut Vec<String>, lines: Vec<String>, count: usize)
    requires
        count <= lines.len(),
    ensures
        final(out).deep_view() == old(out).deep_view() + lines.deep_view().take(count as int),
{
    let mut k: usize = 0;
    assert(out.deep_view() =~= old(out).deep_view() + lines.deep_view().take(0));
    while k < count
        invariant
            k <= count <= lines.len(),
            out.deep_view() == old(out).deep_view() + lines.deep_view().take(k as int),
        decreases count - k,
    {
        let ghost before = out.deep_view();
        out.push(lines[k].clone());
        k = k + 1;
        assert(out.deep_view() =~= before.push(lines[k - 1]@));
        assert(lines.deep_view().take(k as int) =~= lines.deep_view().take(k - 1).push(
            lines[k - 1]@,
        ));
        assert(out.deep_view() =~= old(out).deep_view() + lines.deep_view().take(k as int));
    }
}

/// The lines of a frame.
pub fn render_frame(
    steps: &Vec<BuildStep>,
    visible: &Vec<usize>,
    icons: &StatusIcons,
    summary_line: &str,
    mode: FrameMode,
) -> (r: Vec<String>)
    requires
        places_within(visible@, steps.len() as nat),
    ensures
        r.deep_view() == frame_lines(steps_view(steps@), visible@, *icons, summary_line@, mode),
{
    let mut out: Vec<String> = Vec::new();
    out.push(summary_line.to_owned());
    assert(out.deep_view() =~= seq![summary_line@]);
    match mode {
        FrameMode::Final => {
            let mut k: usize = 0;
            assert(out.deep_view() =~= seq![summary_line@] + final_lines(
                steps_view(steps@),
                visible@,
                *icons,
                0,
            ));
            while k < visible.len()
                invariant
                    k <= visible.len(),
                    places_within(visible@, steps.len() as nat),
                    out.deep_view() == seq![summary_line@] + final_lines(
                        steps_view(steps@),
                        visible@,
                        *icons,
                        k as int,
                    ),
                decreases visible.len() - k,
            {
                let ghost before = out.deep_view();
                let step = &steps[visible[k]];
                assert(steps_view(steps@)[visible[k as int] as int] == step@);
                let lines = render_step_lines(step, icons, StepRenderStyle::Final);
                let count = lines.len();
                assert(lines.deep_view().take(count as int) =~= lines.deep_view());
                append_lines(&mut out, lines, count);
                k = k + 1;
                assert(out.deep_view() =~= seq![summary_line@] + final_lines(
                    steps_view(steps@),
                    visible@,
                    *icons,
                    k as int,
                ));
            }
        },
        FrameMode::Active { terminal_width, step_area_height, lines_per_running } => {
            let mut used: usize = 0;
            let mut k: usize = 0;
            assert(out.deep_view() =~= seq![summary_line@] + active_lines(
                steps_view(steps@),
                visible@,
                *icons,
                terminal_width,
                step_area_height,
                lines_per_running,
                0,
            ));
            while k < visible.len()
                invariant
                    k <= visible.len(),
                    places_within(visible@, steps.len() as nat),
                    used <= step_area_height,
                    used == active_lines(
                        steps_view(steps@),
                        visible@,
                        *icons,
                        terminal_width,
                        step_area_height,
                        lines_per_running,
                        k as int,
                    ).len(),
                    out.deep_view() == seq![summary_line@] + active_lines(
                        steps_view(steps@),
                        visible@,
                        *icons,
                        terminal_width,
                        step_area_height,
                        lines_per_running,
                        k as int,
                    ),
                decreases visible.len() - k,
            {
                if used < step_area_height {
                    let remaining_height: usize = step_area_height - used;
                    let step = &steps[visible[k]];
                    assert(steps_view(steps@)[visible[k as int] as int] == step@);
                    let lines = render_step_lines(
                        step,
                        icons,
                        StepRenderStyle::Active {
                            terminal_width,
                            lines_per_running,
                            remaining_height,
                        },
                    );
                    let count: usize = if remaining_height <= lines.len() {
                        remaining_height
                    } else {
                        lines.len()
                    };
                    append_lines(&mut out, lines, count);
                    used = used + count;
                }
                k = k + 1;
                assert(out.deep_view() =~= seq![summary_line@] + active_lines(
                    steps_view(steps@),
                    visible@,
                    *icons,
                    terminal_width,
                    step_area_height,
                    lines_per_running,
                    k as int,
                ));
            }
        },
    }
    out
}

/// The text of a frame: each line with a line feed behind it.
pub open spec fn lines_text(lines: Seq<Seq<char>>) -> Seq<char>
    decreases lines.len(),
{
    if lines.len() == 0 {
        Seq::empty()
    } else {
        lines_text(lines.drop_last()) + lines.last() + seq!['\n']
    }
}

/// The text of a frame: each line with a line feed behind it.
pub fn frame_text(lines: &Vec<String>) -> (r: String)
    ensures
        r@ == lines_text(lines.deep_view()),
{
    let mut r = String::new();
    let mut i: usize = 0;
    assert(lines.deep_view().take(0) =~= Seq::<Seq<char>>::empty());
    while i < lines.len()
        invariant
            i <= lines.len(),
            r@ == lines_text(lines.deep_view().take(i as int)),
        decreases lines.len() - i,
    {
        proof {
            let t = lines.deep_view().take(i + 1);
            assert(t.drop_last() =~= lines.deep_view().take(i as int));
            assert(t.last() == lines[i as int]@);
        }
        r.append(lines[i].as_str());
        push_char(&mut r, '\n');
        i = i + 1;
    }
    assert(lines.deep_view().take(lines.len() as int) =~= lines.deep_view());
    r
}

/// A duration in seconds as `h:mm:ss`, or as `m:ss` below an hour.
pub open spec fn duration_text(total_seconds: nat) -> Seq<char> {
    let hours = total_seconds / 3600;
    let minutes = (total_seconds % 3600) / 60;
    let seconds = total_seconds % 60;
    if hours > 0 {
        decimal(hours) + seq![':'] + two_digits(minutes) + seq![':'] + two_digits(seconds)
    } else {
        decimal(minutes) + seq![':'] + two_digits(seconds)
    }
}

/// Writes a duration in seconds as `h:mm:ss`, or as `m:ss` below an hour.
pub fn format_duration(total_seconds: u64) -> (r: String)
    ensures
        r@ == duration_text(total_seconds as nat),
{
    let hours = total_seconds / 3600;
    let minutes = (total_seconds % 3600) / 60;
    let seconds = total_seconds % 60;
    let mut r = String::new();
    if hours > 0 {
        push_decimal(&mut r, hours);
        push_char(&mut r, ':');
        push_two_digits(&mut r, minutes);
    } else {
        push_decimal(&mut r, minutes);
    }
    push_char(&mut r, ':');
    push_two_digits(&mut r, seconds);
    assert(r@ =~= duration_text(total_seconds as nat));
    r
}

/// The number of steps with the given status among the first `n`.
pub open spec fn count_steps(steps: Seq<StepView>, status: StepStatus, n: int) -> nat
    decreases n,
{
    if n <= 0 {
        0
    } else if steps[n - 1].status == status {
        count_steps(steps, status, n - 1) + 1
    } else {
        count_steps(steps, status, n - 1)
    }
}

/// The number of steps with the given status.
pub open spec fn count_of(steps: Seq<StepView>, status: StepStatus) -> nat {
    count_steps(steps, status, steps.len() as int)
}

/// One count of the summary: the icon of the status and the number of
/// steps with it.
pub open spec fn count_text(icons: StatusIcons, steps: Seq<StepView>, status: StepStatus) -> Seq<
    char,
> {
    icons.of(status) + seq![' '] + decimal(count_of(steps, status))
}

/// The summary of a frame before it is cut to the terminal's width: the
/// counts by status, the steps that are over of all steps, and the time
/// that has passed.
pub open spec fn summary_text(icons: StatusIcons, steps: Seq<StepView>, elapsed_seconds: nat) -> Seq<
    char,
> {
    let completed = count_of(steps, StepStatus::Done) + count_of(steps, StepStatus::Cached)
        + count_of(steps, StepStatus::Failed);
    "Summary: "@ + count_text(icons, steps, StepStatus::Running) + "  "@ + count_text(
        icons,
        steps,
        StepStatus::Pending,
    ) + "  "@ + count_text(icons, steps, StepStatus::Done) + "  "@ + count_text(
        icons,
        steps,
        StepStatus::Cached,
    ) + "  "@ + count_text(icons, steps, StepStatus::Failed) + "  Progress: "@ + decimal(completed)
        + seq!['/'] + decimal(steps.len()) + "  Elapsed: "@ + duration_text(elapsed_seconds)
}

/// The counts of the five statuses add up to no more than the steps.
proof fn lemma_counts(steps: Seq<StepView>, n: int)
    requires
        0 <= n <= steps.len(),
    ensures
        count_steps(steps, StepStatus::Pending, n) + count_steps(steps, StepStatus::Running, n)
            + count_steps(steps, StepStatus::Done, n) + count_steps(steps, StepStatus::Cached, n)
            + count_steps(steps, StepStatus::Failed, n) == n,
    decreases n,
{
    if n > 0 {
        lemma_counts(steps, n - 1);
    }
}

fn count_all(steps: &Vec<BuildStep>, status: StepStatus) -> (n: usize)
    ensures
        n == count_of(steps_view(steps@), status),
        n <= steps.len(),
{
    let mut n: usize = 0;
    let mut i: usize = 0;
    while i < steps.len()
        invariant
            i <= steps.len(),
            n <= i,
            n == count_steps(steps_view(steps@), status, i as int),
        decreases steps.len() - i,
    {
        assert(steps_view(steps@)[i as int] == steps[i as int]@);
        if status_equal(steps[i].status, status) {
            n = n + 1;
        }
        i = i + 1;
    }
    n
}

fn push_count(line: &mut String, icons: &StatusIcons, steps: &Vec<BuildStep>, status: StepStatus)
    ensures
        final(line)@ == old(line)@ + count_text(*icons, steps_view(steps@), status),
{
    let count = count_all(steps, status);
    line.append(icons.icon(status));
    push_char(line, ' ');
    push_decimal(line, count as u64);
    assert(final(line)@ =~= old(line)@ + count_text(*icons, steps_view(steps@), status));
}

/// The summary line of a frame, cut to the terminal's width.
pub fn build_summary_line(
    steps: &Vec<BuildStep>,
    icons: &StatusIcons,
    terminal_width: usize,
    elapsed_seconds: u64,
) -> (r: String)
    ensures
        r@ == truncated(
            summary_text(*icons, steps_view(steps@), elapsed_seconds as nat),
            terminal_width as nat,
        ),
{
    let done = count_all(steps, StepStatus::Done);
    let cached = count_all(steps, StepStatus::Cached);
    let failed = count_all(steps, StepStatus::Failed);
    proof {
        lemma_counts(steps_view(steps@), steps.len() as int);
    }
    let completed: usize = done + cached + failed;
    let mut line = String::from_str("Summary: ");
    push_count(&mut line, icons, steps, StepStatus::Running);
    line.append("  ");
    push_count(&mut line, icons, steps, StepStatus::Pending);
    line.append("  ");
    push_count(&mut line, icons, steps, StepStatus::Done);
    line.append("  ");
    push_count(&mut line, icons, steps, StepStatus::Cached);
    line.append("  ");
    push_count(&mut line, icons, steps, StepStatus::Failed);
    line.append("  Progress: ");
    push_decimal(&mut line, completed as u64);
    push_char(&mut line, '/');
    push_decimal(&mut line, steps.len() as u64);
    line.append("  Elapsed: ");
    let elapsed = format_duration(elapsed_seconds);
    line.append(elapsed.as_str());
    assert(line@ =~= summary_text(*icons, steps_view(steps@), elapsed_seconds as nat));
    truncate_line(line.as_str(), terminal_width)
}

/// Whether every step is over.
pub open spec fn all_over(steps: Seq<StepView>) -> bool {
    forall|i: int| 0 <= i < steps.len() ==> is_terminal((#[trigger] steps[i]).status)
}

/// Whether every step is over: done, cached or failed.
pub fn all_terminal(steps: &Vec<BuildStep>) -> (r: bool)
    ensures
        r == all_over(steps_view(steps@)),
{
    let mut i: usize = 0;
    while i < steps.len()
        invariant
            i <= steps.len(),
            forall|j: int| 0 <= j < i ==> is_terminal((#[trigger] steps_view(steps@)[j]).status),
        decreases steps.len() - i,
    {
        assert(steps_view(steps@)[i as int] == steps[i as int]@);
        match steps[i].status {
            StepStatus::Done | StepStatus::Cached | StepStatus::Failed => {},
            _ => {
                return false;
            },
        }
        i = i + 1;
    }
    true
}

/// The places shown begin with the places of all running steps: no running
/// step gives way to another step.
pub proof fn lemma_running_first(steps: Seq<StepView>, step_area_height: nat)
    requires
        step_area_height > 0,
    ensures
        running_before(steps, steps.len() as int).len() <= visible_steps(
            steps,
            step_area_height,
        ).len(),
        visible_steps(steps, step_area_height).take(
            running_before(steps, steps.len() as int).len() as int,
        ) == running_before(steps, steps.len() as int),
{
    let running = running_before(steps, steps.len() as int);
    let n = steps.len() as int;
    let p0 = Pick {
        visible: running,
        budget: less(step_area_height, running.len() * RUNNING_MIN_LINES as nat),
    };
    let p1 = pick_group(steps, StepStatus::Failed, FAILED_BLOCK_LINES as nat, n, p0);
    let p2 = pick_group(steps, StepStatus::Pending, COLLAPSED_LINE_COST as nat, n, p1);
    let p3 = pick_group(steps, StepStatus::Done, COLLAPSED_LINE_COST as nat, n, p2);
    let p4 = pick_group(steps, StepStatus::Cached, COLLAPSED_LINE_COST as nat, n, p3);
    lemma_pick_extends(steps, StepStatus::Failed, FAILED_BLOCK_LINES as nat, n, p0);
    lemma_pick_extends(steps, StepStatus::Pending, COLLAPSED_LINE_COST as nat, n, p1);
    lemma_pick_extends(steps, StepStatus::Done, COLLAPSED_LINE_COST as nat, n, p2);
    lemma_pick_extends(steps, StepStatus::Cached, COLLAPSED_LINE_COST as nat, n, p3);
    assert(p4.visible.take(running.len() as int) =~= running) by {
        assert(p1.visible.take(running.len() as int) == running);
        assert(p2.visible.take(running.len() as int) =~= p2.visible.take(
            p1.visible.len() as int,
        ).take(running.len() as int));
        assert(p3.visible.take(running.len() as int) =~= p3.visible.take(
            p2.visible.len() as int,
        ).take(running.len() as int));
        assert(p4.visible.take(running.len() as int) =~= p4.visible.take(
            p3.visible.len() as int,
        ).take(running.len() as int));
    }
}

/// Picking more steps keeps the steps picked before, in their places.
proof fn lemma_pick_extends(
    steps: Seq<StepView>,
    status: StepStatus,
    cost: nat,
    n: int,
    start: Pick,
)
    ensures
        start.visible.len() <= pick_group(steps, status, cost, n, start).visible.len(),
        pick_group(steps, status, cost, n, start).visible.take(start.visible.len() as int)
            == start.visible,
        pick_group(steps, status, cost, n, start).budget <= start.budget,
    decreases n,
{
    if n > 0 {
        lemma_pick_extends(steps, status, cost, n - 1, start);
        let p = pick_group(steps, status, cost, n - 1, start);
        let q = pick_group(steps, status, cost, n, start);
        assert(q.visible.take(start.visible.len() as int) =~= p.visible.take(
            start.visible.len() as int,
        ));
    } else {
        assert(start.visible.take(start.visible.len() as int) =~= start.visible);
    }
}

/// Steps that are picked take lines of the budget: what is picked and
/// what is left of the budget together do not grow. Every place picked is
/// the place of a step with the status asked for.
pub proof fn lemma_pick_count(
    steps: Seq<StepView>,
    status: StepStatus,
    cost: nat,
    n: int,
    start: Pick,
)
    requires
        cost >= 1,
        0 <= n <= steps.len(),
        steps.len() <= usize::MAX,
    ensures
        pick_group(steps, status, cost, n, start).visible.len() + pick_group(
            steps,
            status,
            cost,
            n,
            start,
        ).budget <= start.visible.len() + start.budget,
        start.visible.len() <= pick_group(steps, status, cost, n, start).visible.len(),
        forall|k: int|
            start.visible.len() <= k < pick_group(steps, status, cost, n, start).visible.len()
                ==> {
                let place = #[trigger] pick_group(steps, status, cost, n, start).visible[k];
                place < n && steps[place as int].status == status
            },
        forall|k: int|
            0 <= k < start.visible.len() ==> #[trigger] pick_group(
                steps,
                status,
                cost,
                n,
                start,
            ).visible[k] == start.visible[k],
    decreases n,
{
    if n > 0 {
        lemma_pick_count(steps, status, cost, n - 1, start);
    }
}

/// Without running steps no place of a running step is picked.
proof fn lemma_none_running(steps: Seq<StepView>, n: int)
    requires
        0 <= n <= steps.len(),
        forall|i: int| 0 <= i < steps.len() ==> (#[trigger] steps[i]).status != StepStatus::Running,
    ensures
        running_before(steps, n) == Seq::<usize>::empty(),
    decreases n,
{
    if n > 0 {
        lemma_none_running(steps, n - 1);
    }
}

/// The lines of steps that are drawn once and of which none has failed
/// are as many as the steps.
proof fn lemma_final_lines_count(
    steps: Seq<StepView>,
    visible: Seq<usize>,
    icons: StatusIcons,
    n: int,
)
    requires
        0 <= n <= visible.len(),
        forall|k: int|
            0 <= k < visible.len() ==> steps[(#[trigger] visible[k]) as int].status
                != StepStatus::Failed,
    ensures
        final_lines(steps, visible, icons, n).len() == n,
    decreases n,
{
    if n > 0 {
        lemma_final_lines_count(steps, visible, icons, n - 1);
    }
}

/// The last frame of steps of which none has failed has no more lines
/// than the height that is free for steps and one for the summary.
pub proof fn lemma_final_frame_fits(
    steps: Seq<StepView>,
    icons: StatusIcons,
    summary: Seq<char>,
    step_area_height: nat,
)
    requires
        steps.len() <= usize::MAX,
        all_over(steps),
        forall|i: int| 0 <= i < steps.len() ==> (#[trigger] steps[i]).status != StepStatus::Failed,
    ensures
        frame_lines(
            steps,
            visible_steps(steps, step_area_height),
            icons,
            summary,
            FrameMode::Final,
        ).len() <= step_area_height + 1,
{
    let visible = visible_steps(steps, step_area_height);
    if step_area_height > 0 {
        let n = steps.len() as int;
        assert forall|i: int| 0 <= i < steps.len() implies (#[trigger] steps[i]).status
            != StepStatus::Running by {
            assert(is_terminal(steps[i].status));
        }
        lemma_none_running(steps, n);
        let p0 = Pick { visible: Seq::<usize>::empty(), budget: step_area_height };
        assert(less(step_area_height, 0 * RUNNING_MIN_LINES as nat) == step_area_height);
        let p1 = pick_group(steps, StepStatus::Failed, FAILED_BLOCK_LINES as nat, n, p0);
        let p2 = pick_group(steps, StepStatus::Pending, COLLAPSED_LINE_COST as nat, n, p1);
        let p3 = pick_group(steps, StepStatus::Done, COLLAPSED_LINE_COST as nat, n, p2);
        let p4 = pick_group(steps, StepStatus::Cached, COLLAPSED_LINE_COST as nat, n, p3);
        lemma_pick_count(steps, StepStatus::Failed, FAILED_BLOCK_LINES as nat, n, p0);
        lemma_pick_count(steps, StepStatus::Pending, COLLAPSED_LINE_COST as nat, n, p1);
        lemma_pick_count(steps, StepStatus::Done, COLLAPSED_LINE_COST as nat, n, p2);
        lemma_pick_count(steps, StepStatus::Cached, COLLAPSED_LINE_COST as nat, n, p3);
        assert(visible == p4.visible);
        assert(visible.len() <= step_area_height);
        assert forall|k: int| 0 <= k < visible.len() implies steps[(#[trigger] visible[k]) as int].status
            != StepStatus::Failed by {
            let place = visible[k];
            if k < p1.visible.len() {
                assert(p4.visible[k] == p3.visible[k]);
                assert(p3.visible[k] == p2.visible[k]);
                assert(p2.visible[k] == p1.visible[k]);
                assert(p1.visible[k] < n);
            } else if k < p2.visible.len() {
                assert(p4.visible[k] == p3.visible[k]);
                assert(p3.visible[k] == p2.visible[k]);
                assert(p2.visible[k] < n);
            } else if k < p3.visible.len() {
                assert(p4.visible[k] == p3.visible[k]);
                assert(p3.visible[k] < n);
            } else {
                assert(p4.visible[k] < n);
            }
            assert(place < n);
        }
        lemma_final_lines_count(steps, visible, icons, visible.len() as int);
    }
}

} // verus!
