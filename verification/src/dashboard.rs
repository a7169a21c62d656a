//! The state of the dashboard and what each event makes of it.
//!
//! Whoever owns the terminal feeds the events in: steps that are
//! registered, change their status or produce output, and the ticks of the
//! clock, each of which may give a frame to draw.

use vstd::prelude::*;
use crate::display::{appended, is_terminal, BuildStep, StatusIcons, StepStatus, StepView};
use crate::frame::{
    all_over, all_terminal, build_summary_line, frame_lines, lemma_active_frame_fits, less,
    lines_per_running, render_frame, running_share, select_visible_steps, steps_view,
    summary_text, visible_steps, FrameMode,
};
use crate::display::truncated;
use crate::ordered_map::KeyIndex;

verus! {

/// The steps of a run, in the order in which they were registered, and
/// what the last frame left behind.
pub struct Dashboard {
    index: KeyIndex,
    steps: Vec<BuildStep>,
    lines_last_render: usize,
    final_rendered: bool,
}

/// The dashboard as plain values.
pub struct DashboardView {
    pub ids: Seq<Seq<char>>,
    pub steps: Seq<StepView>,
    pub lines_last_render: nat,
    pub final_rendered: bool,
}

/// What is to be drawn: how far the cursor goes up first, and the lines.
pub struct Frame {
    pub rewind: Option<u16>,
    pub lines: Vec<String>,
}

/// Where the id stands.
pub open spec fn id_position(ids: Seq<Seq<char>>, id: Seq<char>) -> Option<int>
    decreases ids.len(),
{
    if ids.len() == 0 {
        None
    } else if ids.last() == id {
        Some(ids.len() - 1)
    } else {
        id_position(ids.drop_last(), id)
    }
}

/// A step that was just registered.
pub open spec fn fresh_step(description: Seq<char>) -> StepView {
    StepView {
        description,
        status: StepStatus::Pending,
        output: Seq::empty(),
        started: false,
        ended: false,
        max_output_lines: crate::display::KEPT_OUTPUT_LINES as nat,
    }
}

/// The dashboard after a step was registered: a new id goes to the end, a
/// known id gets a fresh step in its place. A frame is due.
pub open spec fn registered(d: DashboardView, id: Seq<char>, description: Seq<char>) -> DashboardView {
    match id_position(d.ids, id) {
        Some(i) => DashboardView {
            steps: d.steps.update(i, fresh_step(description)),
            final_rendered: false,
            ..d
        },
        None => DashboardView {
            ids: d.ids.push(id),
            steps: d.steps.push(fresh_step(description)),
            final_rendered: false,
            ..d
        },
    }
}

/// A step after its status was set.
pub open spec fn with_status(step: StepView, status: StepStatus) -> StepView {
    StepView {
        status,
        started: step.started || status == StepStatus::Running,
        ended: step.ended || is_terminal(status),
        ..step
    }
}

/// The dashboard after the status of a step was set; an unknown id
/// changes nothing.
pub open spec fn status_updated(d: DashboardView, id: Seq<char>, status: StepStatus) -> DashboardView {
    match id_position(d.ids, id) {
        Some(i) => DashboardView {
            steps: d.steps.update(i, with_status(d.steps[i], status)),
            final_rendered: false,
            ..d
        },
        None => d,
    }
}

/// The dashboard after a step produced a line of output; an unknown id
/// changes nothing.
pub open spec fn output_appended(d: DashboardView, id: Seq<char>, line: Seq<char>) -> DashboardView {
    match id_position(d.ids, id) {
        Some(i) => DashboardView {
            steps: d.steps.update(
                i,
                StepView {
                    output: appended(d.steps[i].output, d.steps[i].max_output_lines, line),
                    ..d.steps[i]
                },
            ),
            final_rendered: false,
            ..d
        },
        None => d,
    }
}

/// Whether a tick draws a frame: while the last frame is not drawn, and
/// once more at shutdown.
pub open spec fn draws(d: DashboardView, shutting_down: bool) -> bool {
    shutting_down || !d.final_rendered
}

/// The dashboard after a frame of `lines` lines was drawn. Where every
/// step is over, this was the last frame.
pub open spec fn after_render(d: DashboardView, lines: nat) -> DashboardView {
    DashboardView { lines_last_render: lines, final_rendered: all_over(d.steps), ..d }
}

/// The lines of a terminal that a frame does not use.
pub const RESERVED_LINES: u16 = 2;

/// The room that a terminal of the given size has for a frame: its whole
/// width, and its height without the two lines that stay free.
pub fn terminal_dimensions(width: u16, height: u16) -> (r: (usize, usize))
    ensures
        r.0 == width,
        r.1 == (if height >= RESERVED_LINES {
            height - RESERVED_LINES
        } else {
            0
        }),
{
    let available: u16 = if height >= RESERVED_LINES {
        height - RESERVED_LINES
    } else {
        0
    };
    (width as usize, available as usize)
}

/// How far the cursor goes up before a frame is drawn: the lines of the
/// frame before, where there were any and they can be counted in 16 bits.
pub open spec fn cursor_rewind(lines_last_render: nat) -> Option<u16> {
    if 0 < lines_last_render <= u16::MAX {
        Some(lines_last_render as u16)
    } else {
        None
    }
}

/// The lines of the frame of the given steps on a terminal with
/// `available_height` lines: the summary and, in the lines that are left,
/// the steps.
pub open spec fn dashboard_lines(
    steps: Seq<StepView>,
    icons: StatusIcons,
    terminal_width: usize,
    available_height: usize,
    elapsed_seconds: u64,
) -> Seq<Seq<char>> {
    let summary = truncated(
        summary_text(icons, steps, elapsed_seconds as nat),
        terminal_width as nat,
    );
    let area = less(available_height as nat, 1);
    let visible = visible_steps(steps, area);
    let mode = if all_over(steps) {
        FrameMode::Final
    } else {
        FrameMode::Active {
            terminal_width,
            step_area_height: area as usize,
            lines_per_running: running_share(steps, visible, area) as usize,
        }
    };
    frame_lines(steps, visible, icons, summary, mode)
}

/// Every icon is the icon of its status.
pub open spec fn right_icons(icons: StatusIcons) -> bool {
    forall|status: StepStatus|
        crate::display::is_status_icon(#[trigger] icons.of(status), status)
}

impl View for Dashboard {
    type V = DashboardView;

    closed spec fn view(&self) -> DashboardView {
        DashboardView {
            ids: self.index.keys(),
            steps: steps_view(self.steps@),
            lines_last_render: self.lines_last_render as nat,
            final_rendered: self.final_rendered,
        }
    }
}

proof fn lemma_id_position(ids: Seq<Seq<char>>, id: Seq<char>)
    ensures
        match id_position(ids, id) {
            Some(i) => 0 <= i < ids.len() && ids[i] == id,
            None => !ids.contains(id),
        },
    decreases ids.len(),
{
    if ids.len() > 0 && ids.last() != id {
        lemma_id_position(ids.drop_last(), id);
        if id_position(ids, id) is None {
            assert forall|i: int| 0 <= i < ids.len() implies ids[i] != id by {
                if i < ids.len() - 1 {
                    assert(ids.drop_last()[i] == ids[i]);
                    assert(ids.drop_last().contains(ids[i]));
                }
            }
        }
    }
}

impl Dashboard {
    /// Every step has its id, and no id stands twice.
    pub closed spec fn wf(&self) -> bool {
        &&& self.index.wf()
        &&& self.index.keys().len() == self.steps.len()
    }

    /// A dashboard without steps; its first frame is due.
    pub fn new() -> (r: Self)
        ensures
            r.wf(),
            r@ == (DashboardView {
                ids: Seq::empty(),
                steps: Seq::empty(),
                lines_last_render: 0,
                final_rendered: false,
            }),
    {
        let r = Dashboard {
            index: KeyIndex::new(),
            steps: Vec::new(),
            lines_last_render: 0,
            final_rendered: false,
        };
        assert(steps_view(r.steps@) =~= Seq::<StepView>::empty());
        r
    }

    /// The steps, in the order in which they were registered.
    pub fn steps(&self) -> (r: &Vec<BuildStep>)
        ensures
            steps_view(r@) == self@.steps,
    {
        &self.steps
    }

    /// Whether the last frame was drawn.
    pub fn final_rendered(&self) -> (r: bool)
        ensures
            r == self@.final_rendered,
    {
        self.final_rendered
    }

    /// The number of lines of the frame drawn last.
    pub fn lines_last_render(&self) -> (r: usize)
        ensures
            r == self@.lines_last_render,
    {
        self.lines_last_render
    }

    fn find(&self, id: &str) -> (r: Option<usize>)
        requires
            self.wf(),
        ensures
            match r {
                Some(i) => id_position(self@.ids, id@) == Some(i as int) && i < self.steps.len(),
                None => id_position(self@.ids, id@) is None,
            },
    {
        let r = self.index.position(id);
        proof {
            lemma_id_position(self@.ids, id@);
            self.index.lemma_keys_distinct();
        }
        r
    }

    /// Registers a step under an id.
    pub fn register_step(&mut self, id: &str, description: &str)
        requires
            old(self).wf(),
        ensures
            final(self).wf(),
            final(self)@ == registered(old(self)@, id@, description@),
    {
        let step = BuildStep::new(description.to_owned());
        match self.find(id) {
            Some(i) => {
                self.steps[i] = step;
                assert(steps_view(self.steps@) =~= old(self)@.steps.update(
                    i as int,
                    fresh_step(description@),
                ));
            },
            None => {
                proof {
                    lemma_id_position(self@.ids, id@);
                }
                self.index.push(id.to_owned(), self.steps.len());
                self.steps.push(step);
                assert(steps_view(self.steps@) =~= old(self)@.steps.push(
                    fresh_step(description@),
                ));
            },
        }
        self.final_rendered = false;
    }

    /// Sets the status of the step with the given id.
    pub fn update_step_status(&mut self, id: &str, status: StepStatus)
        requires
            old(self).wf(),
        ensures
            final(self).wf(),
            final(self)@ == status_updated(old(self)@, id@, status),
    {
        match self.find(id) {
            Some(i) => {
                self.steps[i].update_status(status);
                assert(steps_view(self.steps@) =~= old(self)@.steps.update(
                    i as int,
                    with_status(old(self)@.steps[i as int], status),
                ));
                self.final_rendered = false;
            },
            None => {},
        }
    }

    /// Adds a line to the output of the step with the given id.
    pub fn append_output(&mut self, id: &str, line: String)
        requires
            old(self).wf(),
        ensures
            final(self).wf(),
            final(self)@ == output_appended(old(self)@, id@, line@),
    {
        match self.find(id) {
            Some(i) => {
                self.steps[i].append_output(line);
                assert(steps_view(self.steps@) =~= old(self)@.steps.update(
                    i as int,
                    StepView {
                        output: appended(
                            old(self)@.steps[i as int].output,
                            old(self)@.steps[i as int].max_output_lines,
                            line@,
                        ),
                        ..old(self)@.steps[i as int]
                    },
                ));
                self.final_rendered = false;
            },
            None => {},
        }
    }

    /// One tick with the given icons: the frame to draw, if one is due.
    pub fn render_with(
        &mut self,
        icons: &StatusIcons,
        terminal_width: usize,
        available_height: usize,
        elapsed_seconds: u64,
        shutting_down: bool,
    ) -> (r: Option<Frame>)
        requires
            old(self).wf(),
        ensures
            final(self).wf(),
            match r {
                Some(frame) => {
                    &&& draws(old(self)@, shutting_down)
                    &&& frame.rewind == cursor_rewind(old(self)@.lines_last_render)
                    &&& frame.lines.deep_view() == dashboard_lines(
                        old(self)@.steps,
                        *icons,
                        terminal_width,
                        available_height,
                        elapsed_seconds,
                    )
                    &&& final(self)@ == after_render(old(self)@, frame.lines.len() as nat)
                },
                None => !draws(old(self)@, shutting_down) && final(self)@ == old(self)@,
            },
    {
        if !(shutting_down || !self.final_rendered) {
            return None;
        }
        let summary_line = build_summary_line(
            &self.steps,
            icons,
            terminal_width,
            elapsed_seconds,
        );
        let step_area_height: usize = if available_height >= 1 {
            available_height - 1
        } else {
            0
        };
        let visible = select_visible_steps(&self.steps, step_area_height);
        let over = all_terminal(&self.steps);
        let mode = if over {
            FrameMode::Final
        } else {
            FrameMode::Active {
                terminal_width,
                step_area_height,
                lines_per_running: lines_per_running(&self.steps, &visible, step_area_height),
            }
        };
        let lines = render_frame(&self.steps, &visible, icons, summary_line.as_str(), mode);
        let rewind: Option<u16> = if self.lines_last_render > 0 && self.lines_last_render
            <= 0xffff {
            Some(self.lines_last_render as u16)
        } else {
            None
        };
        self.lines_last_render = lines.len();
        self.final_rendered = over;
        Some(Frame { rewind, lines })
    }

    /// One tick of the clock: the frame to draw, if one is due. A frame is
    /// due while the last frame has not been drawn, and once more at
    /// shutdown; the frame drawn when every step is over is the last.
    pub fn render(
        &mut self,
        terminal_width: usize,
        available_height: usize,
        elapsed_seconds: u64,
        shutting_down: bool,
    ) -> (r: Option<Frame>)
        requires
            old(self).wf(),
        ensures
            final(self).wf(),
            match r {
                Some(frame) => {
                    &&& draws(old(self)@, shutting_down)
                    &&& frame.rewind == cursor_rewind(old(self)@.lines_last_render)
                    &&& exists|icons: StatusIcons|
                        right_icons(icons) && frame.lines.deep_view() == dashboard_lines(
                            old(self)@.steps,
                            icons,
                            terminal_width,
                            available_height,
                            elapsed_seconds,
                        )
                    &&& final(self)@ == after_render(old(self)@, frame.lines.len() as nat)
                },
                None => !draws(old(self)@, shutting_down) && final(self)@ == old(self)@,
            },
    {
        let icons = StatusIcons::current();
        let r = self.render_with(
            &icons,
            terminal_width,
            available_height,
            elapsed_seconds,
            shutting_down,
        );
        proof {
            if r is Some {
                assert(right_icons(icons) && r->0.lines.deep_view() == dashboard_lines(
                    old(self)@.steps,
                    icons,
                    terminal_width,
                    available_height,
                    elapsed_seconds,
                ));
            }
        }
        r
    }
}

/// While a step is not over, a frame has no more lines than the terminal
/// has, provided that the terminal has a line at all.
pub proof fn lemma_frame_fits(
    steps: Seq<StepView>,
    icons: StatusIcons,
    terminal_width: usize,
    available_height: usize,
    elapsed_seconds: u64,
)
    requires
        available_height >= 1,
        !all_over(steps),
    ensures
        dashboard_lines(steps, icons, terminal_width, available_height, elapsed_seconds).len()
            <= available_height,
{
    let summary = truncated(
        summary_text(icons, steps, elapsed_seconds as nat),
        terminal_width as nat,
    );
    let area = less(available_height as nat, 1);
    let visible = visible_steps(steps, area);
    lemma_active_frame_fits(
        steps,
        visible,
        icons,
        summary,
        terminal_width,
        area as usize,
        running_share(steps, visible, area) as usize,
    );
}

/// The last frame of steps of which none has failed has no more lines
/// than the terminal has, provided that the terminal has a line at all. A
/// failed step shows up to thirty lines of output in the last frame,
/// whatever the height.
pub proof fn lemma_last_frame_fits(
    steps: Seq<StepView>,
    icons: StatusIcons,
    terminal_width: usize,
    available_height: usize,
    elapsed_seconds: u64,
)
    requires
        available_height >= 1,
        steps.len() <= usize::MAX,
        all_over(steps),
        forall|i: int| 0 <= i < steps.len() ==> (#[trigger] steps[i]).status != StepStatus::Failed,
    ensures
        dashboard_lines(steps, icons, terminal_width, available_height, elapsed_seconds).len()
            <= available_height,
{
    let summary = truncated(
        summary_text(icons, steps, elapsed_seconds as nat),
        terminal_width as nat,
    );
    crate::frame::lemma_final_frame_fits(steps, icons, summary, less(available_height as nat, 1));
}

/// Once every step is over, the next frame is the last: the tick after it
/// draws nothing, and neither does any later tick, as a tick that draws
/// nothing leaves the dashboard as it is. Only shutdown or a new event makes
/// a frame due again.
pub proof fn lemma_one_last_frame(d: DashboardView, lines: nat)
    requires
        all_over(d.steps),
    ensures
        after_render(d, lines).final_rendered,
        !draws(after_render(d, lines), false),
        draws(after_render(d, lines), true),
{
}

/// Every event makes a frame due.
pub proof fn lemma_events_redraw(
    d: DashboardView,
    id: Seq<char>,
    description: Seq<char>,
    status: StepStatus,
    line: Seq<char>,
)
    ensures
        draws(registered(d, id, description), false),
        id_position(d.ids, id) is Some ==> draws(status_updated(d, id, status), false),
        id_position(d.ids, id) is Some ==> draws(output_appended(d, id, line), false),
{
}

} // verus!
