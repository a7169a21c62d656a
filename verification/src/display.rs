//! Lines of the dashboard: their visible width, their truncation, and the
//! steps that they show.

use vstd::prelude::*;
use vstd::string::StringExecFns;
use crossterm::style::{Color, Stylize};
use std::collections::VecDeque;
use std::time::Instant;
use crate::text::{chars_of, push_char, replace_all, replaced, string_of_range};

verus! {

/// A point in time of the standard library; nothing is known of it.
#[verifier::external_type_specification]
#[verifier::external_body]
pub struct ExInstant(Instant);

/// The character that begins an escape sequence.
pub const ESCAPE: char = '\x1b';

/// The character that stands for what was cut off a line.
pub const ELLIPSIS: char = '\u{2026}';

/// Where a scan of a line stands with respect to escape sequences.
#[derive(Clone, Copy, Debug, PartialEq, Eq, Structural)]
pub enum Scan {
    /// In visible text.
    Text,
    /// Behind an escape character.
    Escape,
    /// Inside a sequence `ESC [ ...`, which ends with its first letter.
    Sequence,
}

pub open spec fn is_ascii_letter(c: char) -> bool {
    ('a' <= c && c <= 'z') || ('A' <= c && c <= 'Z')
}

/// Whether the character at the scan's place is visible: it is in the text
/// and is no escape character. A character behind a lone escape character is
/// in the text again.
pub open spec fn is_visible(c: char, state: Scan) -> bool {
    match state {
        Scan::Text => c != ESCAPE,
        Scan::Escape => c != '[' && c != ESCAPE,
        Scan::Sequence => false,
    }
}

/// The state of the scan behind the character.
pub open spec fn scan_next(c: char, state: Scan) -> Scan {
    match state {
        Scan::Text => if c == ESCAPE {
            Scan::Escape
        } else {
            Scan::Text
        },
        Scan::Escape => if c == '[' {
            Scan::Sequence
        } else if c == ESCAPE {
            Scan::Escape
        } else {
            Scan::Text
        },
        Scan::Sequence => if is_ascii_letter(c) {
            Scan::Text
        } else {
            Scan::Sequence
        },
    }
}

/// The number of visible characters from position `i` on.
pub open spec fn width_from(s: Seq<char>, i: int, state: Scan) -> nat
    decreases s.len() - i,
{
    if i < 0 || i >= s.len() {
        0
    } else if is_visible(s[i], state) {
        1 + width_from(s, i + 1, scan_next(s[i], state))
    } else {
        width_from(s, i + 1, scan_next(s[i], state))
    }
}

/// The number of visible characters of a line: those outside escape
/// sequences.
pub open spec fn visible_width(s: Seq<char>) -> nat {
    width_from(s, 0, Scan::Text)
}

/// Where the visible character stands that comes after `room` visible
/// characters from position `i` on; the end of the line where there is none.
pub open spec fn cut_from(s: Seq<char>, i: int, state: Scan, room: nat) -> int
    decreases s.len() - i,
{
    if i < 0 || i >= s.len() {
        s.len() as int
    } else if is_visible(s[i], state) {
        if room == 0 {
            i
        } else {
            cut_from(s, i + 1, scan_next(s[i], state), (room - 1) as nat)
        }
    } else {
        cut_from(s, i + 1, scan_next(s[i], state), room)
    }
}

/// The line cut to `max_width` visible characters: unchanged where it
/// fits; else its beginning with one visible character less than fit, the
/// escape sequences among and behind them, and an ellipsis.
pub open spec fn truncated(s: Seq<char>, max_width: nat) -> Seq<char> {
    if visible_width(s) <= max_width {
        s
    } else {
        let room = if max_width == 0 {
            0nat
        } else {
            (max_width - 1) as nat
        };
        s.take(cut_from(s, 0, Scan::Text, room)).push(ELLIPSIS)
    }
}

fn visible(c: char, state: Scan) -> (r: bool)
    ensures
        r == is_visible(c, state),
{
    match state {
        Scan::Text => c != ESCAPE,
        Scan::Escape => c != '[' && c != ESCAPE,
        Scan::Sequence => false,
    }
}

fn next_state(c: char, state: Scan) -> (r: Scan)
    ensures
        r == scan_next(c, state),
{
    match state {
        Scan::Text => if c == ESCAPE {
            Scan::Escape
        } else {
            Scan::Text
        },
        Scan::Escape => if c == '[' {
            Scan::Sequence
        } else if c == ESCAPE {
            Scan::Escape
        } else {
            Scan::Text
        },
        Scan::Sequence => if (c >= 'a' && c <= 'z') || (c >= 'A' && c <= 'Z') {
            Scan::Text
        } else {
            Scan::Sequence
        },
    }
}

fn width_of(v: &Vec<char>) -> (n: usize)
    ensures
        n == visible_width(v@),
{
    let mut n: usize = 0;
    let mut state = Scan::Text;
    let mut i: usize = 0;
    while i < v.len()
        invariant
            i <= v.len(),
            n + width_from(v@, i as int, state) == visible_width(v@),
            n <= i,
        decreases v.len() - i,
    {
        if visible(v[i], state) {
            n = n + 1;
        }
        state = next_state(v[i], state);
        i = i + 1;
    }
    n
}

/// The number of visible characters of a line: those outside escape
/// sequences.
pub fn visual_width(text: &str) -> (n: usize)
    ensures
        n == visible_width(text@),
{
    let v = chars_of(text);
    width_of(&v)
}

/// Cuts a line to `max_width` visible characters and marks the cut with an
/// ellipsis; escape sequences are kept.
pub fn truncate_line(line: &str, max_width: usize) -> (r: String)
    ensures
        r@ == truncated(line@, max_width as nat),
{
    let v = chars_of(line);
    let visual_len = width_of(&v);
    if visual_len <= max_width {
        return line.to_owned();
    }
    let target: usize = if max_width == 0 {
        0
    } else {
        max_width - 1
    };
    let mut room: usize = target;
    let mut state = Scan::Text;
    let mut i: usize = 0;
    let mut cut: usize = v.len();
    while i < v.len()
        invariant_except_break
            i <= v.len(),
            cut == v.len(),
            cut_from(v@, i as int, state, room as nat) == cut_from(
                v@,
                0,
                Scan::Text,
                target as nat,
            ),
        ensures
            cut <= v.len(),
            cut == cut_from(v@, 0, Scan::Text, target as nat),
        decreases v.len() - i,
    {
        if visible(v[i], state) {
            if room == 0 {
                cut = i;
                break ;
            }
            room = room - 1;
        }
        state = next_state(v[i], state);
        i = i + 1;
    }
    let mut r = string_of_range(&v, 0, cut);
    push_char(&mut r, ELLIPSIS);
    r
}

proof fn lemma_cut_width(s: Seq<char>, i: int, state: Scan, room: nat)
    requires
        0 <= i <= s.len(),
        width_from(s, i, state) > room,
    ensures
        i <= cut_from(s, i, state, room) < s.len(),
        width_from(s.take(cut_from(s, i, state, room)).push(ELLIPSIS), i, state) == room + 1,
    decreases s.len() - i,
{
    let c = cut_from(s, i, state, room);
    let t = s.take(c).push(ELLIPSIS);
    if is_visible(s[i], state) {
        if room == 0 {
            assert(t[i] == ELLIPSIS);
            assert(is_visible(ELLIPSIS, state));
            assert(width_from(t, i + 1, scan_next(ELLIPSIS, state)) == 0);
        } else {
            lemma_cut_width(s, i + 1, scan_next(s[i], state), (room - 1) as nat);
            assert(t[i] == s[i]);
        }
    } else {
        lemma_cut_width(s, i + 1, scan_next(s[i], state), room);
        assert(t[i] == s[i]);
    }
}

/// A line cut to a width of at least one has no more visible characters
/// than the width.
pub proof fn lemma_truncated_fits(s: Seq<char>, max_width: nat)
    requires
        max_width >= 1,
    ensures
        visible_width(truncated(s, max_width)) <= max_width,
{
    if visible_width(s) > max_width {
        lemma_cut_width(s, 0, Scan::Text, (max_width - 1) as nat);
    }
}

/// Where a step stands.
#[derive(Debug, Clone, Copy, PartialEq, Eq, Structural)]
pub enum StepStatus {
    Pending,
    Running,
    Done,
    Cached,
    Failed,
}

/// The colours of the status icons.
#[derive(Clone, Copy)]
pub enum IconColor {
    DarkGrey,
    Cyan,
    Green,
    Yellow,
    Red,
}

/// The number of a colour among the 256 colours of a terminal.
pub open spec fn color_number(color: IconColor) -> Seq<char> {
    match color {
        IconColor::DarkGrey => "8"@,
        IconColor::Cyan => "14"@,
        IconColor::Green => "10"@,
        IconColor::Yellow => "11"@,
        IconColor::Red => "9"@,
    }
}

/// A text in a colour: behind the sequence that sets the colour of the
/// foreground, and before the sequence that sets it back.
pub open spec fn colored(text: Seq<char>, color: IconColor) -> Seq<char> {
    "\x1b[38;5;"@ + color_number(color) + "m"@ + text + "\x1b[39m"@
}

/// A text where colours are switched off: between two sequences that
/// carry no code.
pub open spec fn uncolored(text: Seq<char>) -> Seq<char> {
    "\x1b[m"@ + text + "\x1b[m"@
}

/// Whether `painted` is `text` as a terminal is given it in the colour:
/// coloured, or, where the environment switches colours off, between
/// sequences without code.
pub open spec fn is_painted(painted: Seq<char>, text: Seq<char>, color: IconColor) -> bool {
    painted == colored(text, color) || painted == uncolored(text)
}

/// The text in the colour, as the terminal is to be given it.
///
/// Trusted: `Stylize::with` of crossterm and the `Display` of the styled
/// text, as they write escape sequences: the sequence that sets the
/// foreground to the colour, the text as it is, and the sequence that sets
/// the foreground back. Where the variable `NO_COLOR` of the environment is
/// set, crossterm leaves the codes out of both sequences; so the contract
/// allows either form and does not say which.
#[verifier::external_body]
pub(crate) fn paint(text: &str, color: IconColor) -> (r: String)
    ensures
        is_painted(r@, text@, color),
{
    let color = match color {
        IconColor::DarkGrey => Color::DarkGrey,
        IconColor::Cyan => Color::Cyan,
        IconColor::Green => Color::Green,
        IconColor::Yellow => Color::Yellow,
        IconColor::Red => Color::Red,
    };
    text.with(color).to_string()
}

/// The name of a status as its icon shows it.
pub open spec fn status_label(status: StepStatus) -> Seq<char> {
    match status {
        StepStatus::Pending => "[pending]"@,
        StepStatus::Running => "[running]"@,
        StepStatus::Done => "[done]"@,
        StepStatus::Cached => "[cached]"@,
        StepStatus::Failed => "[failed]"@,
    }
}

/// The colour of the icon of a status.
pub open spec fn status_color(status: StepStatus) -> IconColor {
    match status {
        StepStatus::Pending => IconColor::DarkGrey,
        StepStatus::Running => IconColor::Cyan,
        StepStatus::Done => IconColor::Green,
        StepStatus::Cached => IconColor::Yellow,
        StepStatus::Failed => IconColor::Red,
    }
}

/// Whether `icon` is the icon of the status: the name of the status in
/// brackets, painted in the colour of the status.
pub open spec fn is_status_icon(icon: Seq<char>, status: StepStatus) -> bool {
    is_painted(icon, status_label(status), status_color(status))
}

/// The icon of a status: its name in brackets, in its colour.
pub fn status_icon(status: StepStatus) -> (r: String)
    ensures
        is_status_icon(r@, status),
{
    match status {
        StepStatus::Pending => paint("[pending]", IconColor::DarkGrey),
        StepStatus::Running => paint("[running]", IconColor::Cyan),
        StepStatus::Done => paint("[done]", IconColor::Green),
        StepStatus::Cached => paint("[cached]", IconColor::Yellow),
        StepStatus::Failed => paint("[failed]", IconColor::Red),
    }
}

/// The icons of all statuses, made once for a frame.
pub struct StatusIcons {
    pub pending: String,
    pub running: String,
    pub done: String,
    pub cached: String,
    pub failed: String,
}

impl StatusIcons {
    /// The icon of a status.
    pub open spec fn of(&self, status: StepStatus) -> Seq<char> {
        match status {
            StepStatus::Pending => self.pending@,
            StepStatus::Running => self.running@,
            StepStatus::Done => self.done@,
            StepStatus::Cached => self.cached@,
            StepStatus::Failed => self.failed@,
        }
    }

    /// The icons as the terminal is to be given them now: for every
    /// status its own icon.
    pub fn current() -> (r: Self)
        ensures
            forall|status: StepStatus| is_status_icon(#[trigger] r.of(status), status),
    {
        StatusIcons {
            pending: status_icon(StepStatus::Pending),
            running: status_icon(StepStatus::Running),
            done: status_icon(StepStatus::Done),
            cached: status_icon(StepStatus::Cached),
            failed: status_icon(StepStatus::Failed),
        }
    }

    /// The icon of a status.
    pub fn icon(&self, status: StepStatus) -> (r: &str)
        ensures
            r@ == self.of(status),
    {
        match status {
            StepStatus::Pending => self.pending.as_str(),
            StepStatus::Running => self.running.as_str(),
            StepStatus::Done => self.done.as_str(),
            StepStatus::Cached => self.cached.as_str(),
            StepStatus::Failed => self.failed.as_str(),
        }
    }
}

/// A text between the codes that switch dimming on and off; a reset inside
/// the text switches dimming on again.
pub open spec fn dimmed(text: Seq<char>) -> Seq<char> {
    "\x1b[2m"@ + replaced(text, "\x1b[0m"@, "\x1b[0m\x1b[2m"@) + "\x1b[0m"@
}

/// Dims a text, colours and all.
pub fn dim(text: &str) -> (r: String)
    ensures
        r@ == dimmed(text@),
{
    proof {
        reveal_strlit("\x1b[0m");
    }
    let mut result = String::from_str("\x1b[2m");
    let processed = replace_all(text, "\x1b[0m", "\x1b[0m\x1b[2m");
    result.append(processed.as_str());
    result.append("\x1b[0m");
    result
}

/// What every line of output begins with: a vertical bar.
pub open spec fn output_prefix_text() -> Seq<char> {
    "  \u{2502} "@
}

/// What every line of output begins with.
pub fn output_prefix() -> (r: String)
    ensures
        r@ == output_prefix_text(),
{
    String::from_str("  \u{2502} ")
}

/// The number of output lines that a step keeps.
pub const KEPT_OUTPUT_LINES: usize = 100;

/// One step with the end of its output.
#[derive(Debug, Clone)]
pub struct BuildStep {
    pub description: String,
    pub status: StepStatus,
    pub output_lines: VecDeque<String>,
    pub start_time: Option<Instant>,
    pub end_time: Option<Instant>,
    pub max_output_lines: usize,
}

/// A step as plain values.
pub struct StepView {
    pub description: Seq<char>,
    pub status: StepStatus,
    pub output: Seq<Seq<char>>,
    pub started: bool,
    pub ended: bool,
    pub max_output_lines: nat,
}

impl View for BuildStep {
    type V = StepView;

    open spec fn view(&self) -> StepView {
        StepView {
            description: self.description@,
            status: self.status,
            output: self.output_lines.deep_view(),
            started: self.start_time is Some,
            ended: self.end_time is Some,
            max_output_lines: self.max_output_lines as nat,
        }
    }
}

/// The time now.
///
/// Trusted: `Instant::now` of the standard library; nothing is claimed of
/// the time.
#[verifier::external_body]
pub(crate) fn now() -> Instant {
    Instant::now()
}

/// The output after one more line: the oldest line leaves where `max`
/// lines are kept already.
pub open spec fn appended(output: Seq<Seq<char>>, max: nat, line: Seq<char>) -> Seq<Seq<char>> {
    if output.len() >= max && output.len() > 0 {
        output.skip(1).push(line)
    } else {
        output.push(line)
    }
}

/// Whether a step with this status is over.
pub open spec fn is_terminal(status: StepStatus) -> bool {
    status == StepStatus::Done || status == StepStatus::Cached || status == StepStatus::Failed
}

/// Whether a step with this status is shown as a single line.
pub open spec fn is_collapsed(status: StepStatus) -> bool {
    status == StepStatus::Pending || status == StepStatus::Done || status == StepStatus::Cached
}

/// The line of a collapsed step: icon and description.
pub open spec fn collapsed_text(icon: Seq<char>, description: Seq<char>) -> Seq<char> {
    icon + seq![' '] + description
}

/// The width that is left for output behind its prefix.
pub open spec fn output_width(terminal_width: usize) -> nat {
    if terminal_width >= 4 {
        (terminal_width - 4) as nat
    } else {
        0
    }
}

/// One line of output as it is shown: cut to the terminal's width where
/// one is given, dimmed where asked for, behind the prefix.
pub open spec fn output_text(line: Seq<char>, terminal_width: Option<usize>, apply_dim: bool) -> Seq<
    char,
> {
    let processed = match terminal_width {
        Some(w) => truncated(line, output_width(w)),
        None => line,
    };
    output_prefix_text() + (if apply_dim {
        dimmed(processed)
    } else {
        processed
    })
}

/// The number of output lines shown where at most `max` are asked for.
pub open spec fn shown_lines(available: nat, max: nat) -> nat {
    if available <= max {
        available
    } else {
        max
    }
}

/// The lines of an expanded step: its header and its last output lines.
pub open spec fn expanded_text(
    icon: Seq<char>,
    step: StepView,
    max_output_lines: nat,
    terminal_width: Option<usize>,
    apply_dim: bool,
) -> Seq<Seq<char>> {
    let shown = shown_lines(step.output.len(), max_output_lines);
    seq![collapsed_text(icon, step.description)] + Seq::new(
        shown,
        |i: int| output_text(step.output[step.output.len() - shown + i], terminal_width, apply_dim),
    )
}

impl BuildStep {
    /// A pending step without output.
    pub fn new(description: String) -> (r: Self)
        ensures
            r@ == (StepView {
                description: description@,
                status: StepStatus::Pending,
                output: Seq::empty(),
                started: false,
                ended: false,
                max_output_lines: KEPT_OUTPUT_LINES as nat,
            }),
    {
        let r = BuildStep {
            description,
            status: StepStatus::Pending,
            output_lines: VecDeque::new(),
            start_time: None,
            end_time: None,
            max_output_lines: KEPT_OUTPUT_LINES,
        };
        assert(r.output_lines.deep_view() =~= Seq::<Seq<char>>::empty());
        r
    }

    /// Adds a line of output; the oldest line leaves where the buffer is
    /// full.
    pub fn append_output(&mut self, line: String)
        ensures
            final(self)@ == (StepView {
                output: appended(old(self)@.output, old(self)@.max_output_lines, line@),
                ..old(self)@
            }),
            final(self).start_time == old(self).start_time,
            final(self).end_time == old(self).end_time,
    {
        let ghost before = self.output_lines.deep_view();
        if self.output_lines.len() >= self.max_output_lines {
            let _ = self.output_lines.pop_front();
        }
        self.output_lines.push_back(line);
        assert(self.output_lines.deep_view() =~= appended(
            before,
            self.max_output_lines as nat,
            line@,
        ));
    }

    /// Sets the status. The first time the step runs its start is noted,
    /// and the first time it is over its end.
    pub fn update_status(&mut self, status: StepStatus)
        ensures
            final(self)@ == (StepView {
                status,
                started: old(self)@.started || status == StepStatus::Running,
                ended: old(self)@.ended || is_terminal(status),
                ..old(self)@
            }),
            old(self).start_time is Some ==> final(self).start_time == old(self).start_time,
            old(self).end_time is Some ==> final(self).end_time == old(self).end_time,
    {
        self.status = status;
        match status {
            StepStatus::Running => {
                if self.start_time.is_none() {
                    self.start_time = Some(now());
                }
            },
            StepStatus::Done | StepStatus::Cached | StepStatus::Failed => {
                if self.end_time.is_none() {
                    self.end_time = Some(now());
                }
            },
            StepStatus::Pending => {},
        }
    }

    /// Whether the step is shown as a single line whatever the room.
    pub fn is_fully_collapsed(&self) -> (r: bool)
        ensures
            r == is_collapsed(self@.status),
    {
        match self.status {
            StepStatus::Pending | StepStatus::Done | StepStatus::Cached => true,
            _ => false,
        }
    }

    /// The step as a single line, with the given icons.
    pub fn render_collapsed_with(&self, icons: &StatusIcons) -> (r: String)
        ensures
            r@ == collapsed_text(icons.of(self@.status), self@.description),
    {
        let mut r = String::from_str(icons.icon(self.status));
        push_char(&mut r, ' ');
        r.append(self.description.as_str());
        r
    }

    /// The step as a single line: the icon of its status and its
    /// description.
    pub fn render_collapsed(&self) -> (r: String)
        ensures
            exists|icon: Seq<char>|
                is_status_icon(icon, self@.status) && r@ == collapsed_text(
                    icon,
                    self@.description,
                ),
    {
        let icons = StatusIcons::current();
        let r = self.render_collapsed_with(&icons);
        assert(is_status_icon(icons.of(self@.status), self@.status) && r@ == collapsed_text(
            icons.of(self@.status),
            self@.description,
        ));
        r
    }

    /// The step with its last output lines, with the given icons.
    pub fn render_expanded_with(
        &self,
        icons: &StatusIcons,
        max_output_lines: usize,
        terminal_width: Option<usize>,
        apply_dim: bool,
    ) -> (r: Vec<String>)
        ensures
            r.deep_view() == expanded_text(
                icons.of(self@.status),
                self@,
                max_output_lines as nat,
                terminal_width,
                apply_dim,
            ),
    {
        let mut lines: Vec<String> = Vec::new();
        lines.push(self.render_collapsed_with(icons));
        let available: usize = self.output_lines.len();
        let shown: usize = if available <= max_output_lines {
            available
        } else {
            max_output_lines
        };
        let first: usize = available - shown;
        let ghost want = expanded_text(
            icons.of(self@.status),
            self@,
            max_output_lines as nat,
            terminal_width,
            apply_dim,
        );
        let mut i: usize = 0;
        while i < shown
            invariant
                i <= shown,
                first + shown == available,
                available == self.output_lines@.len(),
                shown == shown_lines(self@.output.len(), max_output_lines as nat),
                want == expanded_text(
                    icons.of(self@.status),
                    self@,
                    max_output_lines as nat,
                    terminal_width,
                    apply_dim,
                ),
                lines.len() == i + 1,
                forall|j: int| 0 <= j < i + 1 ==> (#[trigger] lines[j])@ == want[j],
            decreases shown - i,
        {
            let line = &self.output_lines[first + i];
            assert(self@.output[first + i] == line@);
            let processed = match terminal_width {
                Some(width) => {
                    let available_width: usize = if width >= 4 {
                        width - 4
                    } else {
                        0
                    };
                    truncate_line(line.as_str(), available_width)
                },
                None => line.clone(),
            };
            let mut formatted = output_prefix();
            if apply_dim {
                let dimmed_line = dim(processed.as_str());
                formatted.append(dimmed_line.as_str());
            } else {
                formatted.append(processed.as_str());
            }
            assert(formatted@ == output_text(line@, terminal_width, apply_dim));
            lines.push(formatted);
            i = i + 1;
        }
        assert(lines.deep_view() =~= want);
        lines
    }

    /// The step with its last output lines: at most `max_output_lines` of
    /// them, cut to the terminal's width where one is given, dimmed where
    /// asked for.
    pub fn render_expanded(
        &self,
        max_output_lines: usize,
        terminal_width: Option<usize>,
        apply_dim: bool,
    ) -> (r: Vec<String>)
        ensures
            exists|icon: Seq<char>|
                is_status_icon(icon, self@.status) && r.deep_view() == expanded_text(
                    icon,
                    self@,
                    max_output_lines as nat,
                    terminal_width,
                    apply_dim,
                ),
    {
        let icons = StatusIcons::current();
        let r = self.render_expanded_with(&icons, max_output_lines, terminal_width, apply_dim);
        assert(is_status_icon(icons.of(self@.status), self@.status) && r.deep_view()
            == expanded_text(
            icons.of(self@.status),
            self@,
            max_output_lines as nat,
            terminal_width,
            apply_dim,
        ));
        r
    }
}

} // verus!
