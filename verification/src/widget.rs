//! The widget controller's decisions: given the requested action, the
//! target window, an optional reveal variable and whether the window is
//! currently active, compute the ordered plan of steps to perform. The
//! caller runs the plan — spawning the widget daemon and printing — and
//! supplies the activity answer, parsed by [`window_listed`].

use vstd::prelude::*;
use crate::catalog::{opt_str_view, split_on_char, split_char_spec};
use crate::sanitize::{trim_spec, trim_str};
use crate::strutil::{concat2, concat3, find_char, first_index_of, lemma_first_index_of, str_eq};

verus! {

/// What the widget controller is asked to do.
#[derive(Clone, Copy, Debug, PartialEq, Eq)]
pub enum WidgetAction {
    Open,
    Close,
    Toggle,
}

/// One step of a widget plan, performed in order by the caller.
#[derive(Clone, Debug, PartialEq, Eq)]
pub enum WidgetStep {
    /// Print a status line.
    Message(String),
    /// Run the widget daemon with these arguments and wait for it.
    Eww(Vec<String>),
    /// Close the window after a short animation delay.
    DelayedClose(String),
}

/// The mathematical shape of a [`WidgetStep`].
#[verifier::ext_equal]
pub enum StepView {
    Message(Seq<char>),
    Eww(Seq<Seq<char>>),
    DelayedClose(Seq<char>),
}

impl View for WidgetStep {
    type V = StepView;

    open spec fn view(&self) -> StepView {
        match self {
            WidgetStep::Message(m) => StepView::Message(m@),
            WidgetStep::Eww(args) => StepView::Eww(args.deep_view()),
            WidgetStep::DelayedClose(t) => StepView::DelayedClose(t@),
        }
    }
}

impl DeepView for WidgetStep {
    type V = StepView;

    open spec fn deep_view(&self) -> StepView {
        self.view()
    }
}

/// The plan that opens a window: nothing but a notice when it is already
/// active; otherwise open it, report, and set the reveal variable when one
/// is given.
pub open spec fn open_plan(t: Seq<char>, var: Option<Seq<char>>, active: bool) -> Seq<StepView> {
    if active {
        seq![StepView::Message("Window '"@ + t + "' is already active."@)]
    } else {
        let base = seq![
            StepView::Eww(seq!["open"@, t]),
            StepView::Message("Opened window '"@ + t + "'."@),
        ];
        match var {
            Some(v) => base + seq![
                StepView::Eww(seq!["update"@, v + "=true"@]),
                StepView::Message("Updated "@ + v + " to true."@),
            ],
            None => base,
        }
    }
}

/// The plan that closes a window: nothing but a notice when it is not
/// active; with a reveal variable, clear it and close after the animation
/// delay; without one, close immediately.
pub open spec fn close_plan(t: Seq<char>, var: Option<Seq<char>>, active: bool) -> Seq<StepView> {
    if !active {
        seq![StepView::Message("Window '"@ + t + "' is not active."@)]
    } else {
        match var {
            Some(v) => seq![
                StepView::Eww(seq!["update"@, v + "=false"@]),
                StepView::DelayedClose(t),
                StepView::Message("Closed '"@ + t + "' with animation."@),
            ],
            None => seq![
                StepView::Eww(seq!["close"@, t]),
                StepView::Message("Closed '"@ + t + "' immediately."@),
            ],
        }
    }
}

/// The plan each action maps to; toggling closes an active window and opens
/// an inactive one.
pub open spec fn execute_plan(
    action: WidgetAction,
    t: Seq<char>,
    var: Option<Seq<char>>,
    active: bool,
) -> Seq<StepView> {
    match action {
        WidgetAction::Open => open_plan(t, var, active),
        WidgetAction::Close => close_plan(t, var, active),
        WidgetAction::Toggle => if active {
            close_plan(t, var, active)
        } else {
            open_plan(t, var, active)
        },
    }
}

/// Builds the plan that opens `target`, exactly as [`open_plan`] says.
pub fn open_window(target: &str, reveal_var: Option<&String>, active: bool) -> (r: Vec<WidgetStep>)
    ensures
        r.deep_view() == open_plan(target@, opt_str_view(reveal_var), active),
{
    let mut steps: Vec<WidgetStep> = Vec::new();
    if active {
        steps.push(WidgetStep::Message(concat3("Window '", target, "' is already active.")));
        proof {
            assert(steps.deep_view() =~~= open_plan(target@, opt_str_view(reveal_var), active));
        }
        return steps;
    }
    let mut args: Vec<String> = Vec::new();
    args.push("open".to_owned());
    args.push(target.to_owned());
    steps.push(WidgetStep::Eww(args));
    steps.push(WidgetStep::Message(concat3("Opened window '", target, "'.")));
    match reveal_var {
        Some(v) => {
            let mut upd: Vec<String> = Vec::new();
            upd.push("update".to_owned());
            upd.push(concat2(v.as_str(), "=true"));
            steps.push(WidgetStep::Eww(upd));
            steps.push(WidgetStep::Message(concat3("Updated ", v.as_str(), " to true.")));
        },
        None => {},
    }
    proof {
        assert(steps.deep_view() =~~= open_plan(target@, opt_str_view(reveal_var), active));
    }
    steps
}

/// Builds the plan that closes `target`, exactly as [`close_plan`] says.
pub fn close_window(target: &str, reveal_var: Option<&String>, active: bool) -> (r: Vec<WidgetStep>)
    ensures
        r.deep_view() == close_plan(target@, opt_str_view(reveal_var), active),
{
    let mut steps: Vec<WidgetStep> = Vec::new();
    if !active {
        steps.push(WidgetStep::Message(concat3("Window '", target, "' is not active.")));
        proof {
            assert(steps.deep_view() =~~= close_plan(target@, opt_str_view(reveal_var), active));
        }
        return steps;
    }
    match reveal_var {
        Some(v) => {
            let mut upd: Vec<String> = Vec::new();
            upd.push("update".to_owned());
            upd.push(concat2(v.as_str(), "=false"));
            steps.push(WidgetStep::Eww(upd));
            steps.push(WidgetStep::DelayedClose(target.to_owned()));
            steps.push(WidgetStep::Message(concat3("Closed '", target, "' with animation.")));
        },
        None => {
            let mut args: Vec<String> = Vec::new();
            args.push("close".to_owned());
            args.push(target.to_owned());
            steps.push(WidgetStep::Eww(args));
            steps.push(WidgetStep::Message(concat3("Closed '", target, "' immediately.")));
        },
    }
    proof {
        assert(steps.deep_view() =~~= close_plan(target@, opt_str_view(reveal_var), active));
    }
    steps
}

/// Decides what the requested action does, given whether the target window
/// is active, and hands the caller the ordered plan to perform.
pub fn execute(action: WidgetAction, target: &str, reveal_var: Option<&String>, active: bool) -> (r:
    Vec<WidgetStep>)
    ensures
        r.deep_view() == execute_plan(action, target@, opt_str_view(reveal_var), active),
{
    match action {
        WidgetAction::Open => open_window(target, reveal_var, active),
        WidgetAction::Close => close_window(target, reveal_var, active),
        WidgetAction::Toggle => {
            if active {
                close_window(target, reveal_var, active)
            } else {
                open_window(target, reveal_var, active)
            }
        },
    }
}

/// A line without its trailing carriage return, if it carries one.
pub open spec fn strip_cr(l: Seq<char>) -> Seq<char> {
    if l.len() > 0 && l[l.len() - 1] == '\r' {
        l.drop_last()
    } else {
        l
    }
}

/// The lines of a block of text: split at newlines, a trailing carriage
/// return removed from each line, and a final empty segment (from a
/// trailing newline) dropped.
pub open spec fn lines_spec(out: Seq<char>) -> Seq<Seq<char>> {
    let parts = split_char_spec(out, '\n');
    let kept = if parts.len() > 0 && parts.last().len() == 0 {
        parts.drop_last()
    } else {
        parts
    };
    kept.map_values(|l: Seq<char>| strip_cr(l))
}

/// The line names the window: the part before the first `:` (the whole
/// line when there is none), trimmed, equals the target.
pub open spec fn line_names_window(line: Seq<char>, t: Seq<char>) -> bool {
    trim_spec(line.take(first_index_of(line, ':'))) == t
}

/// Some line of the daemon's window listing names the target.
pub open spec fn window_listed_spec(out: Seq<char>, t: Seq<char>) -> bool {
    exists|i: int|
        0 <= i < lines_spec(out).len() && line_names_window(#[trigger] lines_spec(out)[i], t)
}

/// Reads the window listing the widget daemon printed and decides whether
/// `target` is among the active windows: on each line, the name before the
/// first `:`, trimmed, is compared with the target.
pub fn window_listed(output: &str, target: &str) -> (r: bool)
    ensures
        r == window_listed_spec(output@, target@),
{
    let parts = split_on_char(output, '\n');
    let ghost pdv = parts.deep_view();
    let n: usize = if parts.len() > 0 && parts[parts.len() - 1].as_str().is_empty() {
        parts.len() - 1
    } else {
        parts.len()
    };
    let ghost lines = lines_spec(output@);
    proof {
        assert(pdv.len() == parts@.len());
        assert(n as int == lines.len());
        assert(forall|j: int| 0 <= j < n ==> lines[j] == strip_cr(pdv[j]));
    }
    let mut i: usize = 0;
    while i < n
        invariant
            i <= n,
            n <= parts@.len(),
            pdv == parts.deep_view(),
            lines == lines_spec(output@),
            n as int == lines.len(),
            forall|j: int| 0 <= j < n ==> lines[j] == strip_cr(pdv[j]),
            forall|j: int| 0 <= j < i ==> !line_names_window(lines[j], target@),
        decreases n - i,
    {
        let line = &parts[i];
        let llen = line.as_str().unicode_len();
        let stripped: &str = if llen > 0 && line.as_str().get_char(llen - 1) == '\r' {
            line.as_str().substring_char(0, llen - 1)
        } else {
            line.as_str()
        };
        proof {
            assert(line@.drop_last() =~= line@.take(llen - 1));
            assert(stripped@ == strip_cr(pdv[i as int]));
        }
        let ci = find_char(stripped, ':');
        proof {
            lemma_first_index_of(stripped@, ':');
        }
        let head = stripped.substring_char(0, ci);
        proof {
            assert(head@ =~= stripped@.take(ci as int));
        }
        let trimmed = trim_str(head);
        if str_eq(trimmed.as_str(), target) {
            proof {
                assert(line_names_window(lines[i as int], target@));
            }
            return true;
        }
        i += 1;
    }
    false
}

} // verus!
