//! The dynamic terminal report: a screen that lists every boot text and
//! every shell command with its status, redrawn in place at each event.
use vstd::prelude::*;

use crate::config::{CommandTestView, TestConfig, TestConfigView};
use crate::engine::StepRef;
use crate::text::{lemma_newlines_concat, lemma_one_line, newlines, newlines_in, one_line};
use crate::traits::{lemma_printed_concat, ops_view, printed, DrawOp, DrawOpView, Reporter, TermColor};
use crate::{RED, RESET};

verus! {

/// The rule that frames the screen.
pub const TUI_RULE: &'static str =
    "--------------------------------------------------------------------------------";

/// Where a boot text or a shell command stands.
#[derive(Debug, PartialEq, Eq)]
pub enum Status {
    Pending,
    Running,
    Success,
    /// Failed, for the reason given.
    Failed(String),
}

pub enum StatusView {
    Pending,
    Running,
    Success,
    Failed(Seq<char>),
}

impl View for Status {
    type V = StatusView;

    open spec fn view(&self) -> StatusView {
        match self {
            Status::Pending => StatusView::Pending,
            Status::Running => StatusView::Running,
            Status::Success => StatusView::Success,
            Status::Failed(r) => StatusView::Failed(r@),
        }
    }
}

/// A list of named steps as plain values.
pub open spec fn steps_view(v: Seq<(String, Status)>) -> Seq<(Seq<char>, StatusView)> {
    v.map_values(|p: (String, Status)| (p.0@, p.1@))
}

struct TuiState {
    name: String,
    command: String,
    boot_steps: Vec<(String, Status)>,
    shell_steps: Vec<(String, Status)>,
    lines_printed: u16,
}

/// Reports a run on a screen that it redraws in place.
pub struct TuiReporter {
    state: TuiState,
}

/// The screen's state as plain values.
pub struct TuiView {
    pub name: Seq<char>,
    pub command: Seq<char>,
    pub boot_steps: Seq<(Seq<char>, StatusView)>,
    pub shell_steps: Seq<(Seq<char>, StatusView)>,
    /// How many lines the last drawing printed.
    pub lines_printed: nat,
}

impl View for TuiReporter {
    type V = TuiView;

    closed spec fn view(&self) -> TuiView {
        TuiView {
            name: self.state.name@,
            command: self.state.command@,
            boot_steps: steps_view(self.state.boot_steps@),
            shell_steps: steps_view(self.state.shell_steps@),
            lines_printed: self.state.lines_printed as nat,
        }
    }
}

/// The most lines a screen of `n` steps can take.
pub open spec fn max_lines(n: nat) -> nat {
    10 + 3 * n
}

impl TuiView {
    /// Every drawing of the screen counts its lines in a `u16`.
    pub open spec fn wf(self) -> bool {
        &&& max_lines(self.boot_steps.len() + self.shell_steps.len()) <= u16::MAX
        &&& self.lines_printed <= u16::MAX
    }
}

// ---------------------------------------------------------------------------
// Statuses
// ---------------------------------------------------------------------------

/// `steps` where the step at position `i`, if there is one, has status `st`.
pub open spec fn set_status(
    steps: Seq<(Seq<char>, StatusView)>,
    i: int,
    st: StatusView,
) -> Seq<(Seq<char>, StatusView)> {
    if 0 <= i < steps.len() {
        steps.update(i, (steps[i].0, st))
    } else {
        steps
    }
}

pub open spec fn with_boot_status(v: TuiView, i: int, st: StatusView) -> TuiView {
    TuiView { boot_steps: set_status(v.boot_steps, i, st), ..v }
}

pub open spec fn with_shell_status(v: TuiView, i: int, st: StatusView) -> TuiView {
    TuiView { shell_steps: set_status(v.shell_steps, i, st), ..v }
}

/// The screen once it has been drawn.
pub open spec fn redrawn(v: TuiView) -> TuiView {
    TuiView { lines_printed: frame_lines(v), ..v }
}

// ---------------------------------------------------------------------------
// Drawing
// ---------------------------------------------------------------------------

/// The operations that draw one step.
pub open spec fn step_ops(name: Seq<char>, st: StatusView, prefix: Seq<char>) -> Seq<DrawOpView> {
    match st {
        StatusView::Pending => seq![
            DrawOpView::SetColor(TermColor::DarkGrey),
            DrawOpView::Print("  · "@ + prefix + name + "\n"@),
            DrawOpView::ResetColor,
        ],
        StatusView::Success => seq![
            DrawOpView::SetColor(TermColor::Green),
            DrawOpView::Print("  ● "@),
            DrawOpView::ResetColor,
            DrawOpView::Print(prefix + name + "\n"@),
        ],
        StatusView::Running => seq![
            DrawOpView::SetColor(TermColor::Cyan),
            DrawOpView::Print("  ▶ "@),
            DrawOpView::ResetColor,
            DrawOpView::Print(prefix + name + "\n"@),
            DrawOpView::SetColor(TermColor::DarkGrey),
            DrawOpView::Print("    │ 📦  Sending payload...\n"@),
            DrawOpView::Print("    │ ⏳ Waiting for OS response...\n"@),
            DrawOpView::ResetColor,
        ],
        StatusView::Failed(reason) => seq![
            DrawOpView::SetColor(TermColor::Red),
            DrawOpView::Print("  ● "@),
            DrawOpView::ResetColor,
            DrawOpView::Print(prefix + name + "\n"@),
            DrawOpView::Print("  "@ + RED@ + "↳ │"@ + RESET@ + " Reason: "@ + reason + "\n"@),
            DrawOpView::ResetColor,
        ],
    }
}

/// The lines that one step takes.
pub open spec fn step_lines(st: StatusView) -> nat {
    match st {
        StatusView::Pending => 1,
        StatusView::Success => 1,
        StatusView::Running => 3,
        StatusView::Failed(_) => 2,
    }
}

/// The operations that draw a list of steps, in order.
pub open spec fn steps_ops(steps: Seq<(Seq<char>, StatusView)>, prefix: Seq<char>) -> Seq<DrawOpView>
    decreases steps.len(),
{
    if steps.len() == 0 {
        Seq::empty()
    } else {
        steps_ops(steps.drop_last(), prefix) + step_ops(steps.last().0, steps.last().1, prefix)
    }
}

/// The lines that a list of steps takes.
pub open spec fn steps_lines(steps: Seq<(Seq<char>, StatusView)>) -> nat
    decreases steps.len(),
{
    if steps.len() == 0 {
        0
    } else {
        steps_lines(steps.drop_last()) + step_lines(steps.last().1)
    }
}

/// Wiping the previous drawing, when there is one.
pub open spec fn clear_ops(lines_printed: nat) -> Seq<DrawOpView> {
    if lines_printed > 0 {
        seq![
            DrawOpView::MoveUp(lines_printed as u16),
            DrawOpView::MoveToColumn(0),
            DrawOpView::ClearFromCursorDown,
        ]
    } else {
        Seq::empty()
    }
}

/// The title, the command line and the boot heading.
pub open spec fn header_ops(name: Seq<char>, command: Seq<char>) -> Seq<DrawOpView> {
    seq![
        DrawOpView::Print("\n📼 WALKMAN PLAYING: "@),
        DrawOpView::SetColor(TermColor::Cyan),
        DrawOpView::Print(name),
        DrawOpView::ResetColor,
        DrawOpView::Print("\n"@),
        DrawOpView::Print("⚙ Command: "@),
        DrawOpView::SetColor(TermColor::DarkGrey),
        DrawOpView::Print(command),
        DrawOpView::ResetColor,
        DrawOpView::Print("\n"@),
        DrawOpView::Print(TUI_RULE@ + "\n\n"@),
        DrawOpView::SetColor(TermColor::Yellow),
        DrawOpView::Print("[ BOOT SEQUENCE ]\n"@),
        DrawOpView::ResetColor,
    ]
}

/// The shell heading.
pub open spec fn middle_ops() -> Seq<DrawOpView> {
    seq![
        DrawOpView::Print("\n"@),
        DrawOpView::SetColor(TermColor::Yellow),
        DrawOpView::Print("[ SHELL INTERACTIONS ]\n"@),
        DrawOpView::ResetColor,
    ]
}

/// The closing rule.
pub open spec fn footer_ops() -> Seq<DrawOpView> {
    seq![DrawOpView::Print("\n"@ + TUI_RULE@ + "\n"@)]
}

/// The boot steps are drawn with this prefix.
pub open spec fn boot_prefix() -> Seq<char> {
    "Waiting for: "@
}

/// The shell steps are drawn with this prefix.
pub open spec fn shell_prefix() -> Seq<char> {
    "command: "@
}

/// The operations that redraw the screen `v` over its previous drawing.
pub open spec fn frame_ops(v: TuiView) -> Seq<DrawOpView> {
    clear_ops(v.lines_printed) + header_ops(v.name, v.command) + steps_ops(v.boot_steps, boot_prefix())
        + middle_ops() + steps_ops(v.shell_steps, shell_prefix()) + footer_ops()
}

/// The lines that a drawing of `v` takes.
pub open spec fn frame_lines(v: TuiView) -> nat {
    6 + steps_lines(v.boot_steps) + 2 + steps_lines(v.shell_steps) + 2
}

/// A list of steps takes at most three lines a step.
pub proof fn lemma_steps_lines_bound(steps: Seq<(Seq<char>, StatusView)>)
    ensures
        steps_lines(steps) <= 3 * steps.len(),
    decreases steps.len(),
{
    if steps.len() > 0 {
        lemma_steps_lines_bound(steps.drop_last());
    }
}

/// A status change reaches only the step at its position; every other step
/// and every name stay as they were, and a position past the end changes
/// nothing.
pub proof fn lemma_set_status_effect(steps: Seq<(Seq<char>, StatusView)>, i: int, st: StatusView)
    ensures
        set_status(steps, i, st).len() == steps.len(),
        forall|j: int| 0 <= j < steps.len() ==> #[trigger] set_status(steps, i, st)[j].0 == steps[j].0,
        0 <= i < steps.len() ==> set_status(steps, i, st)[i].1 == st,
        forall|j: int|
            0 <= j < steps.len() && j != i ==> #[trigger] set_status(steps, i, st)[j] == steps[j],
        !(0 <= i < steps.len()) ==> set_status(steps, i, st) == steps,
{
}

// ---------------------------------------------------------------------------
// Counting lines
// ---------------------------------------------------------------------------

/// No step name, and no reason of a failed step, holds a newline.
pub open spec fn steps_one_line(steps: Seq<(Seq<char>, StatusView)>) -> bool {
    forall|i: int|
        0 <= i < steps.len() ==> {
            &&& one_line(#[trigger] steps[i].0)
            &&& (steps[i].1 matches StatusView::Failed(r) ==> one_line(r))
        }
}

/// No text that the screen shows holds a newline of its own.
pub open spec fn one_line_texts(v: TuiView) -> bool {
    &&& one_line(v.name)
    &&& one_line(v.command)
    &&& steps_one_line(v.boot_steps)
    &&& steps_one_line(v.shell_steps)
}

proof fn lemma_literal_lines()
    ensures
        newlines("\n📼 WALKMAN PLAYING: "@) == 1,
        newlines("\n"@) == 1,
        newlines("\n\n"@) == 2,
        newlines("⚙ Command: "@) == 0,
        newlines(TUI_RULE@) == 0,
        newlines("[ BOOT SEQUENCE ]\n"@) == 1,
        newlines("[ SHELL INTERACTIONS ]\n"@) == 1,
        newlines("  · "@) == 0,
        newlines("  ● "@) == 0,
        newlines("  ▶ "@) == 0,
        newlines("    │ 📦  Sending payload...\n"@) == 1,
        newlines("    │ ⏳ Waiting for OS response...\n"@) == 1,
        newlines("  "@) == 0,
        newlines(RED@) == 0,
        newlines("↳ │"@) == 0,
        newlines(RESET@) == 0,
        newlines(" Reason: "@) == 0,
        one_line(boot_prefix()),
        one_line(shell_prefix()),
{
    reveal_strlit("\n📼 WALKMAN PLAYING: ");
    reveal_strlit("\n");
    reveal_strlit("\n\n");
    reveal_strlit("⚙ Command: ");
    reveal_strlit("--------------------------------------------------------------------------------");
    reveal_strlit("[ BOOT SEQUENCE ]\n");
    reveal_strlit("[ SHELL INTERACTIONS ]\n");
    reveal_strlit("  · ");
    reveal_strlit("  ● ");
    reveal_strlit("  ▶ ");
    reveal_strlit("    │ 📦  Sending payload...\n");
    reveal_strlit("    │ ⏳ Waiting for OS response...\n");
    reveal_strlit("  ");
    reveal_strlit("\x1b[31m");
    reveal_strlit("↳ │");
    reveal_strlit("\x1b[0m");
    reveal_strlit(" Reason: ");
    reveal_strlit("Waiting for: ");
    reveal_strlit("command: ");
    reveal_with_fuel(newlines_in, 90);
    assert(one_line(boot_prefix()));
    assert(one_line(shell_prefix()));
}

proof fn lemma_printed_single(op: DrawOpView)
    ensures
        printed(seq![op]) == match op {
            DrawOpView::Print(s) => s,
            _ => Seq::<char>::empty(),
        },
{
    let e = Seq::<DrawOpView>::empty();
    assert(seq![op].drop_last() =~= e);
    assert(printed(e) == Seq::<char>::empty());
    let t = match op {
        DrawOpView::Print(s) => s,
        _ => Seq::<char>::empty(),
    };
    assert(printed(seq![op]) == printed(e) + t);
    assert(Seq::<char>::empty() + t =~= t);
}

/// Appending one operation adds its text to what is printed.
proof fn lemma_printed_push(ops: Seq<DrawOpView>, op: DrawOpView)
    ensures
        printed(ops.push(op)) == printed(ops) + match op {
            DrawOpView::Print(s) => s,
            _ => Seq::<char>::empty(),
        },
{
    assert(ops.push(op).drop_last() =~= ops);
}

/// Each step takes as many lines as its drawing prints newlines.
proof fn lemma_step_lines(name: Seq<char>, st: StatusView, prefix: Seq<char>)
    requires
        one_line(name),
        one_line(prefix),
        st matches StatusView::Failed(r) ==> one_line(r),
    ensures
        newlines(printed(step_ops(name, st, prefix))) == step_lines(st),
{
    lemma_literal_lines();
    lemma_one_line(name);
    lemma_one_line(prefix);
    let line = prefix + name + "\n"@;
    lemma_newlines_concat(prefix, name);
    lemma_newlines_concat(prefix + name, "\n"@);
    assert(newlines(line) == 1);
    match st {
        StatusView::Pending => {
            let a = DrawOpView::SetColor(TermColor::DarkGrey);
            let t = "  · "@ + prefix + name + "\n"@;
            let b = DrawOpView::Print(t);
            let c = DrawOpView::ResetColor;
            lemma_printed_single(a);
            lemma_printed_push(seq![a], b);
            assert(seq![a].push(b) =~= seq![a, b]);
            lemma_printed_push(seq![a, b], c);
            assert(seq![a, b].push(c) =~= seq![a, b, c]);
            lemma_newlines_concat("  · "@, prefix);
            lemma_newlines_concat("  · "@ + prefix, name);
            lemma_newlines_concat("  · "@ + prefix + name, "\n"@);
            assert(printed(step_ops(name, st, prefix)) =~= t);
        },
        StatusView::Success => {
            let a = DrawOpView::SetColor(TermColor::Green);
            let b = DrawOpView::Print("  ● "@);
            let c = DrawOpView::ResetColor;
            let d = DrawOpView::Print(line);
            lemma_printed_single(a);
            lemma_printed_push(seq![a], b);
            assert(seq![a].push(b) =~= seq![a, b]);
            lemma_printed_push(seq![a, b], c);
            assert(seq![a, b].push(c) =~= seq![a, b, c]);
            lemma_printed_push(seq![a, b, c], d);
            assert(seq![a, b, c].push(d) =~= seq![a, b, c, d]);
            lemma_newlines_concat("  ● "@, line);
            assert(printed(step_ops(name, st, prefix)) =~= "  ● "@ + line);
        },
        StatusView::Running => {
            let a = DrawOpView::SetColor(TermColor::Cyan);
            let b = DrawOpView::Print("  ▶ "@);
            let c = DrawOpView::ResetColor;
            let d = DrawOpView::Print(line);
            let e = DrawOpView::SetColor(TermColor::DarkGrey);
            let f = DrawOpView::Print("    │ 📦  Sending payload...\n"@);
            let g = DrawOpView::Print("    │ ⏳ Waiting for OS response...\n"@);
            let h = DrawOpView::ResetColor;
            lemma_printed_single(a);
            lemma_printed_push(seq![a], b);
            assert(seq![a].push(b) =~= seq![a, b]);
            lemma_printed_push(seq![a, b], c);
            assert(seq![a, b].push(c) =~= seq![a, b, c]);
            lemma_printed_push(seq![a, b, c], d);
            assert(seq![a, b, c].push(d) =~= seq![a, b, c, d]);
            lemma_printed_push(seq![a, b, c, d], e);
            assert(seq![a, b, c, d].push(e) =~= seq![a, b, c, d, e]);
            lemma_printed_push(seq![a, b, c, d, e], f);
            assert(seq![a, b, c, d, e].push(f) =~= seq![a, b, c, d, e, f]);
            lemma_printed_push(seq![a, b, c, d, e, f], g);
            assert(seq![a, b, c, d, e, f].push(g) =~= seq![a, b, c, d, e, f, g]);
            lemma_printed_push(seq![a, b, c, d, e, f, g], h);
            assert(seq![a, b, c, d, e, f, g].push(h) =~= seq![a, b, c, d, e, f, g, h]);
            let p1 = "    │ 📦  Sending payload...\n"@;
            let p2 = "    │ ⏳ Waiting for OS response...\n"@;
            lemma_newlines_concat("  ▶ "@, line);
            lemma_newlines_concat("  ▶ "@ + line, p1);
            lemma_newlines_concat("  ▶ "@ + line + p1, p2);
            assert(printed(step_ops(name, st, prefix)) =~= "  ▶ "@ + line + p1 + p2);
        },
        StatusView::Failed(reason) => {
            lemma_one_line(reason);
            let why = "  "@ + RED@ + "↳ │"@ + RESET@ + " Reason: "@ + reason + "\n"@;
            lemma_newlines_concat("  "@, RED@);
            lemma_newlines_concat("  "@ + RED@, "↳ │"@);
            lemma_newlines_concat("  "@ + RED@ + "↳ │"@, RESET@);
            lemma_newlines_concat("  "@ + RED@ + "↳ │"@ + RESET@, " Reason: "@);
            lemma_newlines_concat("  "@ + RED@ + "↳ │"@ + RESET@ + " Reason: "@, reason);
            lemma_newlines_concat("  "@ + RED@ + "↳ │"@ + RESET@ + " Reason: "@ + reason, "\n"@);
            assert(newlines(why) == 1);
            let a = DrawOpView::SetColor(TermColor::Red);
            let b = DrawOpView::Print("  ● "@);
            let c = DrawOpView::ResetColor;
            let d = DrawOpView::Print(line);
            let e = DrawOpView::Print(why);
            let f = DrawOpView::ResetColor;
            lemma_printed_single(a);
            lemma_printed_push(seq![a], b);
            assert(seq![a].push(b) =~= seq![a, b]);
            lemma_printed_push(seq![a, b], c);
            assert(seq![a, b].push(c) =~= seq![a, b, c]);
            lemma_printed_push(seq![a, b, c], d);
            assert(seq![a, b, c].push(d) =~= seq![a, b, c, d]);
            lemma_printed_push(seq![a, b, c, d], e);
            assert(seq![a, b, c, d].push(e) =~= seq![a, b, c, d, e]);
            lemma_printed_push(seq![a, b, c, d, e], f);
            assert(seq![a, b, c, d, e].push(f) =~= seq![a, b, c, d, e, f]);
            lemma_newlines_concat("  ● "@, line);
            lemma_newlines_concat("  ● "@ + line, why);
            assert(printed(step_ops(name, st, prefix)) =~= "  ● "@ + line + why);
        },
    }
}

/// A list of steps takes as many lines as its drawing prints newlines.
proof fn lemma_steps_lines(steps: Seq<(Seq<char>, StatusView)>, prefix: Seq<char>)
    requires
        steps_one_line(steps),
        one_line(prefix),
    ensures
        newlines(printed(steps_ops(steps, prefix))) == steps_lines(steps),
    decreases steps.len(),
{
    if steps.len() == 0 {
        reveal_with_fuel(newlines_in, 1);
    } else {
        let init = steps.drop_last();
        assert forall|i: int| 0 <= i < init.len() implies {
            &&& one_line(#[trigger] init[i].0)
            &&& (init[i].1 matches StatusView::Failed(r) ==> one_line(r))
        } by {
            assert(init[i] == steps[i]);
        }
        lemma_steps_lines(init, prefix);
        let last = steps[steps.len() - 1];
        assert(one_line(last.0));
        lemma_step_lines(last.0, last.1, prefix);
        lemma_printed_concat(steps_ops(init, prefix), step_ops(last.0, last.1, prefix));
        lemma_newlines_concat(
            printed(steps_ops(init, prefix)),
            printed(step_ops(last.0, last.1, prefix)),
        );
    }
}

proof fn lemma_header_text(name: Seq<char>, command: Seq<char>)
    ensures
        printed(header_ops(name, command)) == "\n📼 WALKMAN PLAYING: "@ + name + "\n"@ + "⚙ Command: "@
            + command + "\n"@ + (TUI_RULE@ + "\n\n"@) + "[ BOOT SEQUENCE ]\n"@,
{
    let a = DrawOpView::Print("\n📼 WALKMAN PLAYING: "@);
    let b = DrawOpView::SetColor(TermColor::Cyan);
    let c = DrawOpView::Print(name);
    let d = DrawOpView::ResetColor;
    let e = DrawOpView::Print("\n"@);
    let f = DrawOpView::Print("⚙ Command: "@);
    let g = DrawOpView::SetColor(TermColor::DarkGrey);
    let h = DrawOpView::Print(command);
    let i = DrawOpView::ResetColor;
    let j = DrawOpView::Print("\n"@);
    let k = DrawOpView::Print(TUI_RULE@ + "\n\n"@);
    let l = DrawOpView::SetColor(TermColor::Yellow);
    let m = DrawOpView::Print("[ BOOT SEQUENCE ]\n"@);
    let n = DrawOpView::ResetColor;
    lemma_printed_single(a);
    lemma_printed_push(seq![a], b);
    assert(seq![a].push(b) =~= seq![a, b]);
    lemma_printed_push(seq![a, b], c);
    assert(seq![a, b].push(c) =~= seq![a, b, c]);
    lemma_printed_push(seq![a, b, c], d);
    assert(seq![a, b, c].push(d) =~= seq![a, b, c, d]);
    lemma_printed_push(seq![a, b, c, d], e);
    assert(seq![a, b, c, d].push(e) =~= seq![a, b, c, d, e]);
    lemma_printed_push(seq![a, b, c, d, e], f);
    assert(seq![a, b, c, d, e].push(f) =~= seq![a, b, c, d, e, f]);
    lemma_printed_push(seq![a, b, c, d, e, f], g);
    assert(seq![a, b, c, d, e, f].push(g) =~= seq![a, b, c, d, e, f, g]);
    lemma_printed_push(seq![a, b, c, d, e, f, g], h);
    assert(seq![a, b, c, d, e, f, g].push(h) =~= seq![a, b, c, d, e, f, g, h]);
    lemma_printed_push(seq![a, b, c, d, e, f, g, h], i);
    assert(seq![a, b, c, d, e, f, g, h].push(i) =~= seq![a, b, c, d, e, f, g, h, i]);
    lemma_printed_push(seq![a, b, c, d, e, f, g, h, i], j);
    assert(seq![a, b, c, d, e, f, g, h, i].push(j) =~= seq![a, b, c, d, e, f, g, h, i, j]);
    lemma_printed_push(seq![a, b, c, d, e, f, g, h, i, j], k);
    assert(seq![a, b, c, d, e, f, g, h, i, j].push(k) =~= seq![a, b, c, d, e, f, g, h, i, j, k]);
    lemma_printed_push(seq![a, b, c, d, e, f, g, h, i, j, k], l);
    assert(seq![a, b, c, d, e, f, g, h, i, j, k].push(l) =~= seq![a, b, c, d, e, f, g, h, i, j, k, l]);
    lemma_printed_push(seq![a, b, c, d, e, f, g, h, i, j, k, l], m);
    assert(seq![a, b, c, d, e, f, g, h, i, j, k, l].push(m) =~= seq![a, b, c, d, e, f, g, h, i, j, k, l, m]);
    lemma_printed_push(seq![a, b, c, d, e, f, g, h, i, j, k, l, m], n);
    assert(seq![a, b, c, d, e, f, g, h, i, j, k, l, m].push(n) =~= seq![a, b, c, d, e, f, g, h, i, j, k, l, m, n]);
    assert(header_ops(name, command) == seq![a, b, c, d, e, f, g, h, i, j, k, l, m, n]);
    assert(printed(header_ops(name, command)) =~= "\n📼 WALKMAN PLAYING: "@ + name + "\n"@
        + "⚙ Command: "@ + command + "\n"@ + (TUI_RULE@ + "\n\n"@) + "[ BOOT SEQUENCE ]\n"@);
}

/// A drawing of the screen prints as many newlines as the lines it counts,
/// when no text on it holds a newline of its own; so the next drawing, which
/// moves up by that count, lands where this one began.
pub proof fn lemma_frame_lines(v: TuiView)
    requires
        one_line_texts(v),
    ensures
        newlines(printed(frame_ops(v))) == frame_lines(v),
{
    lemma_literal_lines();
    lemma_one_line(v.name);
    lemma_one_line(v.command);
    // the header
    lemma_header_text(v.name, v.command);
    let h1 = "\n📼 WALKMAN PLAYING: "@;
    let h2 = h1 + v.name;
    let h3 = h2 + "\n"@;
    let h4 = h3 + "⚙ Command: "@;
    let h5 = h4 + v.command;
    let h6 = h5 + "\n"@;
    let h7 = h6 + (TUI_RULE@ + "\n\n"@);
    let h8 = h7 + "[ BOOT SEQUENCE ]\n"@;
    lemma_newlines_concat(h1, v.name);
    lemma_newlines_concat(h2, "\n"@);
    lemma_newlines_concat(h3, "⚙ Command: "@);
    lemma_newlines_concat(h4, v.command);
    lemma_newlines_concat(h5, "\n"@);
    lemma_newlines_concat(TUI_RULE@, "\n\n"@);
    lemma_newlines_concat(h6, TUI_RULE@ + "\n\n"@);
    lemma_newlines_concat(h7, "[ BOOT SEQUENCE ]\n"@);
    assert(newlines(printed(header_ops(v.name, v.command))) == 6);
    // the clearing
    let cl = clear_ops(v.lines_printed);
    lemma_clear_prints_nothing(v.lines_printed);
    reveal_with_fuel(newlines_in, 1);
    assert(newlines(printed(cl)) == 0);
    // the middle and the footer
    let m1 = DrawOpView::Print("\n"@);
    let m2 = DrawOpView::SetColor(TermColor::Yellow);
    let m3 = DrawOpView::Print("[ SHELL INTERACTIONS ]\n"@);
    let m4 = DrawOpView::ResetColor;
    lemma_printed_single(m1);
    lemma_printed_push(seq![m1], m2);
    assert(seq![m1].push(m2) =~= seq![m1, m2]);
    lemma_printed_push(seq![m1, m2], m3);
    assert(seq![m1, m2].push(m3) =~= seq![m1, m2, m3]);
    lemma_printed_push(seq![m1, m2, m3], m4);
    assert(seq![m1, m2, m3].push(m4) =~= seq![m1, m2, m3, m4]);
    assert(printed(middle_ops()) =~= "\n"@ + "[ SHELL INTERACTIONS ]\n"@);
    lemma_newlines_concat("\n"@, "[ SHELL INTERACTIONS ]\n"@);
    lemma_printed_single(DrawOpView::Print("\n"@ + TUI_RULE@ + "\n"@));
    lemma_newlines_concat("\n"@, TUI_RULE@);
    lemma_newlines_concat("\n"@ + TUI_RULE@, "\n"@);
    assert(newlines(printed(footer_ops())) == 2);
    // the steps
    lemma_steps_lines(v.boot_steps, boot_prefix());
    lemma_steps_lines(v.shell_steps, shell_prefix());
    let bo = steps_ops(v.boot_steps, boot_prefix());
    let so = steps_ops(v.shell_steps, shell_prefix());
    let ho = header_ops(v.name, v.command);
    lemma_printed_concat(cl, ho);
    lemma_printed_concat(cl + ho, bo);
    lemma_printed_concat(cl + ho + bo, middle_ops());
    lemma_printed_concat(cl + ho + bo + middle_ops(), so);
    lemma_printed_concat(cl + ho + bo + middle_ops() + so, footer_ops());
    lemma_newlines_concat(printed(cl), printed(ho));
    lemma_newlines_concat(printed(cl + ho), printed(bo));
    lemma_newlines_concat(printed(cl + ho + bo), printed(middle_ops()));
    lemma_newlines_concat(printed(cl + ho + bo + middle_ops()), printed(so));
    lemma_newlines_concat(printed(cl + ho + bo + middle_ops() + so), printed(footer_ops()));
}

/// A drawing starts by moving up over exactly the lines that the previous
/// drawing printed; a status change in between does not alter that count.
pub proof fn lemma_redraw_in_place(v: TuiView, boot: bool, i: int, st: StatusView)
    requires
        v.wf(),
        one_line_texts(v),
    ensures
        ({
            let drawn = redrawn(v);
            let next = if boot {
                with_boot_status(drawn, i, st)
            } else {
                with_shell_status(drawn, i, st)
            };
            &&& frame_ops(next).len() >= 3
            &&& frame_ops(next)[0] == DrawOpView::MoveUp(newlines(printed(frame_ops(v))) as u16)
            &&& frame_ops(next)[1] == DrawOpView::MoveToColumn(0)
            &&& frame_ops(next)[2] == DrawOpView::ClearFromCursorDown
        }),
{
    lemma_frame_lines(v);
    let drawn = redrawn(v);
    let next = if boot {
        with_boot_status(drawn, i, st)
    } else {
        with_shell_status(drawn, i, st)
    };
    assert(next.lines_printed == frame_lines(v));
    assert(frame_lines(v) > 0);
    let rest = header_ops(next.name, next.command) + steps_ops(next.boot_steps, boot_prefix())
        + middle_ops() + steps_ops(next.shell_steps, shell_prefix()) + footer_ops();
    assert(frame_ops(next) =~= clear_ops(next.lines_printed) + rest);
}

/// A drawing records as its line count exactly the newlines that it
/// prints, when no text on the screen holds a newline of its own.
pub proof fn lemma_redraw_counts_its_lines(v: TuiView)
    requires
        one_line_texts(v),
    ensures
        redrawn(v).lines_printed == newlines(printed(frame_ops(v))),
{
    lemma_frame_lines(v);
}

/// Drawing the screen again changes nothing more: the state stays as the
/// first drawing left it, and the second drawing wipes the first and prints
/// the same text.
pub proof fn lemma_redraw_twice(v: TuiView)
    ensures
        redrawn(redrawn(v)) == redrawn(v),
        printed(frame_ops(redrawn(v))) == printed(frame_ops(v)),
        frame_ops(redrawn(v)) == clear_ops(frame_lines(v)) + frame_ops(v).skip(
            clear_ops(v.lines_printed).len() as int,
        ),
{
    let w = redrawn(v);
    let rest = header_ops(v.name, v.command) + steps_ops(v.boot_steps, boot_prefix())
        + middle_ops() + steps_ops(v.shell_steps, shell_prefix()) + footer_ops();
    assert(frame_ops(v) =~= clear_ops(v.lines_printed) + rest);
    assert(frame_ops(w) =~= clear_ops(frame_lines(v)) + rest);
    assert(frame_ops(v).skip(clear_ops(v.lines_printed).len() as int) =~= rest);
    lemma_clear_prints_nothing(v.lines_printed);
    lemma_clear_prints_nothing(frame_lines(v));
    lemma_printed_concat(clear_ops(v.lines_printed), rest);
    lemma_printed_concat(clear_ops(frame_lines(v)), rest);
    assert(Seq::<char>::empty() + printed(rest) =~= printed(rest));
}

/// Wiping a drawing prints nothing.
proof fn lemma_clear_prints_nothing(n: nat)
    ensures
        printed(clear_ops(n)) == Seq::<char>::empty(),
{
    if n > 0 {
        let x = DrawOpView::MoveUp(n as u16);
        let y = DrawOpView::MoveToColumn(0);
        let z = DrawOpView::ClearFromCursorDown;
        lemma_printed_single(x);
        lemma_printed_push(seq![x], y);
        assert(seq![x].push(y) =~= seq![x, y]);
        lemma_printed_push(seq![x, y], z);
        assert(seq![x, y].push(z) =~= seq![x, y, z]);
        assert(printed(clear_ops(n)) =~= Seq::<char>::empty());
    } else {
        assert(printed(clear_ops(n)) =~= Seq::<char>::empty());
    }
}

/// Each status is drawn in its own colour, set first: pending in dark grey,
/// running in cyan, success in green and failure in red; so a failed step
/// never looks like one that passed, and its drawing prints its reason.
pub proof fn lemma_step_colours(name: Seq<char>, reason: Seq<char>, prefix: Seq<char>)
    ensures
        step_ops(name, StatusView::Pending, prefix)[0] == DrawOpView::SetColor(TermColor::DarkGrey),
        step_ops(name, StatusView::Running, prefix)[0] == DrawOpView::SetColor(TermColor::Cyan),
        step_ops(name, StatusView::Success, prefix)[0] == DrawOpView::SetColor(TermColor::Green),
        step_ops(name, StatusView::Failed(reason), prefix)[0] == DrawOpView::SetColor(
            TermColor::Red,
        ),
        step_ops(name, StatusView::Failed(reason), prefix) != step_ops(
            name,
            StatusView::Success,
            prefix,
        ),
        step_ops(name, StatusView::Failed(reason), prefix)[4] == DrawOpView::Print(
            "  "@ + RED@ + "↳ │"@ + RESET@ + " Reason: "@ + reason + "\n"@,
        ),
{
    assert(step_ops(name, StatusView::Failed(reason), prefix)[0] != step_ops(
        name,
        StatusView::Success,
        prefix,
    )[0]);
}

/// A list of steps is drawn in its own order: the steps before a step are
/// drawn before it, so the first step of the scenario comes first on the
/// screen.
pub proof fn lemma_steps_drawn_in_order(
    steps: Seq<(Seq<char>, StatusView)>,
    x: (Seq<char>, StatusView),
    prefix: Seq<char>,
)
    ensures
        steps_ops(steps.push(x), prefix) == steps_ops(steps, prefix) + step_ops(x.0, x.1, prefix),
        steps_ops(seq![x] + steps, prefix) == step_ops(x.0, x.1, prefix) + steps_ops(steps, prefix),
        steps_ops(seq![x], prefix) == step_ops(x.0, x.1, prefix),
    decreases steps.len(),
{
    assert(steps.push(x).drop_last() =~= steps);
    assert(seq![x].drop_last() =~= Seq::<(Seq<char>, StatusView)>::empty());
    assert(steps_ops(Seq::<(Seq<char>, StatusView)>::empty(), prefix) + step_ops(x.0, x.1, prefix)
        =~= step_ops(x.0, x.1, prefix));
    if steps.len() == 0 {
        assert(seq![x] + steps =~= seq![x]);
        assert(step_ops(x.0, x.1, prefix) + steps_ops(steps, prefix) =~= step_ops(x.0, x.1, prefix));
    } else {
        let init = steps.drop_last();
        let last = steps.last();
        lemma_steps_drawn_in_order(init, x, prefix);
        assert((seq![x] + steps).drop_last() =~= seq![x] + init);
        assert((seq![x] + steps).last() == last);
        assert(steps_ops(seq![x] + steps, prefix) == steps_ops(seq![x] + init, prefix) + step_ops(
            last.0,
            last.1,
            prefix,
        ));
        assert(step_ops(x.0, x.1, prefix) + steps_ops(steps, prefix) =~= step_ops(x.0, x.1, prefix)
            + steps_ops(init, prefix) + step_ops(last.0, last.1, prefix));
    }
}

proof fn lemma_step_printed(name: Seq<char>, st: StatusView, prefix: Seq<char>)
    ensures
        ({
            let line = prefix + name + "\n"@;
            printed(step_ops(name, st, prefix)) == match st {
                StatusView::Pending => "  · "@ + line,
                StatusView::Success => "  ● "@ + line,
                StatusView::Running => "  ▶ "@ + line + "    │ 📦  Sending payload...\n"@
                    + "    │ ⏳ Waiting for OS response...\n"@,
                StatusView::Failed(r) => "  ● "@ + line + ("  "@ + RED@ + "↳ │"@ + RESET@
                    + " Reason: "@ + r + "\n"@),
            }
        }),
{
    let line = prefix + name + "\n"@;
    match st {
        StatusView::Pending => {
            let a = DrawOpView::SetColor(TermColor::DarkGrey);
            let b = DrawOpView::Print("  · "@ + prefix + name + "\n"@);
            let c = DrawOpView::ResetColor;
            lemma_printed_single(a);
            lemma_printed_push(seq![a], b);
            assert(seq![a].push(b) =~= seq![a, b]);
            lemma_printed_push(seq![a, b], c);
            assert(seq![a, b].push(c) =~= seq![a, b, c]);
            assert(printed(step_ops(name, st, prefix)) =~= "  · "@ + line);
        },
        StatusView::Success => {
            let a = DrawOpView::SetColor(TermColor::Green);
            let b = DrawOpView::Print("  ● "@);
            let c = DrawOpView::ResetColor;
            let d = DrawOpView::Print(line);
            lemma_printed_single(a);
            lemma_printed_push(seq![a], b);
            assert(seq![a].push(b) =~= seq![a, b]);
            lemma_printed_push(seq![a, b], c);
            assert(seq![a, b].push(c) =~= seq![a, b, c]);
            lemma_printed_push(seq![a, b, c], d);
            assert(seq![a, b, c].push(d) =~= seq![a, b, c, d]);
            assert(printed(step_ops(name, st, prefix)) =~= "  ● "@ + line);
        },
        StatusView::Running => {
            let p1 = "    │ 📦  Sending payload...\n"@;
            let p2 = "    │ ⏳ Waiting for OS response...\n"@;
            let a = DrawOpView::SetColor(TermColor::Cyan);
            let b = DrawOpView::Print("  ▶ "@);
            let c = DrawOpView::ResetColor;
            let d = DrawOpView::Print(line);
            let e = DrawOpView::SetColor(TermColor::DarkGrey);
            let f = DrawOpView::Print(p1);
            let g = DrawOpView::Print(p2);
            let h = DrawOpView::ResetColor;
            lemma_printed_single(a);
            lemma_printed_push(seq![a], b);
            assert(seq![a].push(b) =~= seq![a, b]);
            lemma_printed_push(seq![a, b], c);
            assert(seq![a, b].push(c) =~= seq![a, b, c]);
            lemma_printed_push(seq![a, b, c], d);
            assert(seq![a, b, c].push(d) =~= seq![a, b, c, d]);
            lemma_printed_push(seq![a, b, c, d], e);
            assert(seq![a, b, c, d].push(e) =~= seq![a, b, c, d, e]);
            lemma_printed_push(seq![a, b, c, d, e], f);
            assert(seq![a, b, c, d, e].push(f) =~= seq![a, b, c, d, e, f]);
            lemma_printed_push(seq![a, b, c, d, e, f], g);
            assert(seq![a, b, c, d, e, f].push(g) =~= seq![a, b, c, d, e, f, g]);
            lemma_printed_push(seq![a, b, c, d, e, f, g], h);
            assert(seq![a, b, c, d, e, f, g].push(h) =~= seq![a, b, c, d, e, f, g, h]);
            assert(printed(step_ops(name, st, prefix)) =~= "  ▶ "@ + line + p1 + p2);
        },
        StatusView::Failed(reason) => {
            let why = "  "@ + RED@ + "↳ │"@ + RESET@ + " Reason: "@ + reason + "\n"@;
            let a = DrawOpView::SetColor(TermColor::Red);
            let b = DrawOpView::Print("  ● "@);
            let c = DrawOpView::ResetColor;
            let d = DrawOpView::Print(line);
            let e = DrawOpView::Print(why);
            let f = DrawOpView::ResetColor;
            lemma_printed_single(a);
            lemma_printed_push(seq![a], b);
            assert(seq![a].push(b) =~= seq![a, b]);
            lemma_printed_push(seq![a, b], c);
            assert(seq![a, b].push(c) =~= seq![a, b, c]);
            lemma_printed_push(seq![a, b, c], d);
            assert(seq![a, b, c].push(d) =~= seq![a, b, c, d]);
            lemma_printed_push(seq![a, b, c, d], e);
            assert(seq![a, b, c, d].push(e) =~= seq![a, b, c, d, e]);
            lemma_printed_push(seq![a, b, c, d, e], f);
            assert(seq![a, b, c, d, e].push(f) =~= seq![a, b, c, d, e, f]);
            assert(printed(step_ops(name, st, prefix)) =~= "  ● "@ + line + why);
        },
    }
}

/// Whatever its status, a step's drawing prints, after its four-character
/// status mark, a line made of the list's prefix and the step's text; a
/// failed step's drawing ends with its reason on a line of its own.
pub proof fn lemma_step_shows_its_text(name: Seq<char>, st: StatusView, prefix: Seq<char>)
    ensures
        ({
            let line = prefix + name + "\n"@;
            let text = printed(step_ops(name, st, prefix));
            &&& text.len() >= 4 + line.len()
            &&& text.subrange(4, 4 + line.len() as int) == line
            &&& (st matches StatusView::Failed(r) ==> text.subrange(
                text.len() - r.len() - 1,
                text.len() as int,
            ) == r + "\n"@)
        }),
{
    lemma_step_printed(name, st, prefix);
    reveal_strlit("  · ");
    reveal_strlit("  ● ");
    reveal_strlit("  ▶ ");
    reveal_strlit("\n");
    let line = prefix + name + "\n"@;
    let text = printed(step_ops(name, st, prefix));
    assert(text.subrange(4, 4 + line.len() as int) =~= line);
    match st {
        StatusView::Failed(r) => {
            let head = "  ● "@ + line + ("  "@ + RED@ + "↳ │"@ + RESET@ + " Reason: "@);
            assert(text =~= head + (r + "\n"@));
            assert(text.subrange(text.len() - r.len() - 1, text.len() as int) =~= r + "\n"@);
        },
        _ => {},
    }
}

// ---------------------------------------------------------------------------
// The reporter
// ---------------------------------------------------------------------------

/// The concatenation of three texts.
fn join3(a: &str, b: &str, c: &str) -> (r: String)
    ensures
        r@ == a@ + b@ + c@,
{
    let mut r = String::from_str(a);
    r.append(b);
    r.append(c);
    r
}

/// Appends the drawing of one step to `out`; returns the lines it takes.
fn draw_step(out: &mut Vec<DrawOp>, name: &String, status: &Status, prefix: &str) -> (lines: u16)
    ensures
        ops_view(final(out)@) == ops_view(old(out)@) + step_ops(name@, status@, prefix@),
        lines == step_lines(status@),
{
    let ghost o0 = out@;
    let mut lines: u16 = 1;
    match status {
        Status::Pending => {
            out.push(DrawOp::SetColor(TermColor::DarkGrey));
            let mut line = join3("  · ", prefix, name.as_str());
            line.append("\n");
            out.push(DrawOp::Print(line));
            out.push(DrawOp::ResetColor);
        },
        Status::Success => {
            out.push(DrawOp::SetColor(TermColor::Green));
            out.push(DrawOp::Print(String::from_str("  ● ")));
            out.push(DrawOp::ResetColor);
            out.push(DrawOp::Print(join3(prefix, name.as_str(), "\n")));
        },
        Status::Running => {
            out.push(DrawOp::SetColor(TermColor::Cyan));
            out.push(DrawOp::Print(String::from_str("  ▶ ")));
            out.push(DrawOp::ResetColor);
            out.push(DrawOp::Print(join3(prefix, name.as_str(), "\n")));
            out.push(DrawOp::SetColor(TermColor::DarkGrey));
            out.push(DrawOp::Print(String::from_str("    │ 📦  Sending payload...\n")));
            out.push(DrawOp::Print(String::from_str("    │ ⏳ Waiting for OS response...\n")));
            out.push(DrawOp::ResetColor);
            lines = lines + 2;
        },
        Status::Failed(reason) => {
            out.push(DrawOp::SetColor(TermColor::Red));
            out.push(DrawOp::Print(String::from_str("  ● ")));
            out.push(DrawOp::ResetColor);
            out.push(DrawOp::Print(join3(prefix, name.as_str(), "\n")));
            let mut why = join3("  ", RED, "↳ │");
            why.append(RESET);
            why.append(" Reason: ");
            why.append(reason.as_str());
            why.append("\n");
            out.push(DrawOp::Print(why));
            out.push(DrawOp::ResetColor);
            lines = lines + 1;
        },
    }
    assert(ops_view(out@) =~= ops_view(o0) + step_ops(name@, status@, prefix@));
    lines
}

/// Appends the drawing of a list of steps to `out`; returns the lines it
/// takes.
fn draw_steps(out: &mut Vec<DrawOp>, steps: &Vec<(String, Status)>, prefix: &str) -> (lines: u16)
    requires
        3 * steps.len() <= u16::MAX,
    ensures
        ops_view(final(out)@) == ops_view(old(out)@) + steps_ops(steps_view(steps@), prefix@),
        lines == steps_lines(steps_view(steps@)),
{
    let ghost o0 = out@;
    let ghost sv = steps_view(steps@);
    let mut lines: u16 = 0;
    let mut i: usize = 0;
    assert(sv.take(0) =~= Seq::<(Seq<char>, StatusView)>::empty());
    while i < steps.len()
        invariant
            sv == steps_view(steps@),
            3 * steps.len() <= u16::MAX,
            i <= steps.len(),
            ops_view(out@) == ops_view(o0) + steps_ops(sv.take(i as int), prefix@),
            lines == steps_lines(sv.take(i as int)),
        decreases steps.len() - i,
    {
        proof {
            lemma_steps_lines_bound(sv.take(i as int));
            let t = sv.take(i + 1);
            assert(t.drop_last() =~= sv.take(i as int));
            assert(t.last() == sv[i as int]);
        }
        let ghost before = ops_view(out@);
        let n = draw_step(out, &steps[i].0, &steps[i].1, prefix);
        lines = lines + n;
        assert(ops_view(out@) =~= ops_view(o0) + steps_ops(sv.take(i + 1), prefix@));
        i = i + 1;
    }
    assert(sv.take(steps.len() as int) =~= sv);
    lines
}

/// Gives `st` to the step at position `i` of `steps`, if there is one.
fn set_step_status(steps: &mut Vec<(String, Status)>, i: usize, st: Status)
    ensures
        steps_view(final(steps)@) == set_status(steps_view(old(steps)@), i as int, st@),
{
    let ghost sv = steps_view(steps@);
    let ghost stv = st@;
    if i < steps.len() {
        let label = steps[i].0.clone();
        steps.set(i, (label, st));
        assert(steps_view(steps@) =~= sv.update(i as int, (sv[i as int].0, stv)));
    }
}

/// Whether a screen for `config` fits the line count of the terminal
/// view, as `TuiReporter::new` needs.
pub fn max_lines_fit(config: &TestConfig) -> (b: bool)
    ensures
        b == (max_lines(config@.boot_sequence.len() + config@.tests.len()) <= u16::MAX),
{
    let nb = config.boot_sequence.len();
    let nt = config.shell_interactions.tests.len();
    assert(nt == config@.tests.len());
    if nb > 30000 || nt > 30000 {
        return false;
    }
    let n: u64 = (nb + nt) as u64;
    10 + 3 * n <= 65535
}

impl TuiReporter {
    /// A screen for `config`: every boot text and every shell command,
    /// all pending.
    pub fn new(config: &TestConfig) -> (res: TuiReporter)
        requires
            max_lines(config@.boot_sequence.len() + config@.tests.len()) <= u16::MAX,
        ensures
            res@.name == config@.name,
            res@.command == config@.command,
            res@.boot_steps == config@.boot_sequence.map_values(
                |s: Seq<char>| (s, StatusView::Pending),
            ),
            res@.shell_steps == config@.tests.map_values(
                |t: CommandTestView| (t.command, StatusView::Pending),
            ),
            res@.lines_printed == 0,
            res@.wf(),
    {
        let mut boot_steps: Vec<(String, Status)> = Vec::new();
        let nb = config.boot_sequence.len();
        let mut i: usize = 0;
        while i < nb
            invariant
                nb == config@.boot_sequence.len(),
                i <= nb,
                steps_view(boot_steps@) =~= config@.boot_sequence.take(i as int).map_values(
                    |s: Seq<char>| (s, StatusView::Pending),
                ),
            decreases nb - i,
        {
            let ghost before = steps_view(boot_steps@);
            boot_steps.push((config.boot_sequence[i].clone(), Status::Pending));
            assert(steps_view(boot_steps@) =~= before.push((config@.boot_sequence[i as int], StatusView::Pending)));
            assert(config@.boot_sequence.take(i + 1) =~= config@.boot_sequence.take(i as int).push(config@.boot_sequence[i as int]));
            i = i + 1;
        }
        assert(config@.boot_sequence.take(nb as int) =~= config@.boot_sequence);
        let tests = &config.shell_interactions.tests;
        let nt = tests.len();
        let mut shell_steps: Vec<(String, Status)> = Vec::new();
        let mut t: usize = 0;
        while t < nt
            invariant
                tests == &config.shell_interactions.tests,
                nt == config@.tests.len(),
                t <= nt,
                steps_view(shell_steps@) =~= config@.tests.take(t as int).map_values(
                    |c: CommandTestView| (c.command, StatusView::Pending),
                ),
            decreases nt - t,
        {
            let ghost before = steps_view(shell_steps@);
            shell_steps.push((tests[t].command.clone(), Status::Pending));
            assert(steps_view(shell_steps@) =~= before.push((config@.tests[t as int].command, StatusView::Pending)));
            assert(config@.tests.take(t + 1) =~= config@.tests.take(t as int).push(config@.tests[t as int]));
            t = t + 1;
        }
        assert(config@.tests.take(nt as int) =~= config@.tests);
        TuiReporter {
            state: TuiState {
                name: config.name.clone(),
                command: config.command.clone(),
                boot_steps,
                shell_steps,
                lines_printed: 0,
            },
        }
    }

    /// Opens a screen for `config`: the reporter of `new`, and the operation
    /// that hides the cursor while the screen is shown.
    pub fn open(config: &TestConfig) -> (res: (TuiReporter, Vec<DrawOp>))
        requires
            max_lines(config@.boot_sequence.len() + config@.tests.len()) <= u16::MAX,
        ensures
            res.0@.name == config@.name,
            res.0@.command == config@.command,
            res.0@.boot_steps == config@.boot_sequence.map_values(
                |s: Seq<char>| (s, StatusView::Pending),
            ),
            res.0@.shell_steps == config@.tests.map_values(
                |t: CommandTestView| (t.command, StatusView::Pending),
            ),
            res.0@.lines_printed == 0,
            res.0@.wf(),
            ops_view(res.1@) == seq![DrawOpView::HideCursor],
    {
        let reporter = TuiReporter::new(config);
        let mut ops: Vec<DrawOp> = Vec::new();
        ops.push(DrawOp::HideCursor);
        assert(ops_view(ops@) =~= seq![DrawOpView::HideCursor]);
        (reporter, ops)
    }

    /// The boot texts and their statuses.
    pub fn boot_steps(&self) -> (r: &Vec<(String, Status)>)
        ensures
            steps_view(r@) == self@.boot_steps,
    {
        &self.state.boot_steps
    }

    /// The shell commands and their statuses.
    pub fn shell_steps(&self) -> (r: &Vec<(String, Status)>)
        ensures
            steps_view(r@) == self@.shell_steps,
    {
        &self.state.shell_steps
    }

    /// Draws the screen over its previous drawing.
    fn redraw(&mut self) -> (ops: Vec<DrawOp>)
        requires
            old(self)@.wf(),
        ensures
            final(self)@ == redrawn(old(self)@),
            final(self)@.wf(),
            ops_view(ops@) == frame_ops(old(self)@),
    {
        let ghost v = self@;
        let mut out: Vec<DrawOp> = Vec::new();
        if self.state.lines_printed > 0 {
            out.push(DrawOp::MoveUp(self.state.lines_printed));
            out.push(DrawOp::MoveToColumn(0));
            out.push(DrawOp::ClearFromCursorDown);
        }
        out.push(DrawOp::Print(String::from_str("\n📼 WALKMAN PLAYING: ")));
        out.push(DrawOp::SetColor(TermColor::Cyan));
        out.push(DrawOp::Print(self.state.name.clone()));
        out.push(DrawOp::ResetColor);
        out.push(DrawOp::Print(String::from_str("\n")));
        out.push(DrawOp::Print(String::from_str("⚙ Command: ")));
        out.push(DrawOp::SetColor(TermColor::DarkGrey));
        out.push(DrawOp::Print(self.state.command.clone()));
        out.push(DrawOp::ResetColor);
        out.push(DrawOp::Print(String::from_str("\n")));
        let mut rule = String::from_str(TUI_RULE);
        rule.append("\n\n");
        out.push(DrawOp::Print(rule));
        out.push(DrawOp::SetColor(TermColor::Yellow));
        out.push(DrawOp::Print(String::from_str("[ BOOT SEQUENCE ]\n")));
        out.push(DrawOp::ResetColor);
        assert(ops_view(out@) =~= clear_ops(v.lines_printed) + header_ops(v.name, v.command));
        let mut lines: u16 = 6;
        proof {
            lemma_steps_lines_bound(v.boot_steps);
            lemma_steps_lines_bound(v.shell_steps);
        }
        let boot_lines = draw_steps(&mut out, &self.state.boot_steps, "Waiting for: ");
        lines = lines + boot_lines;
        assert(ops_view(out@) =~= clear_ops(v.lines_printed) + header_ops(v.name, v.command)
            + steps_ops(v.boot_steps, boot_prefix()));
        out.push(DrawOp::Print(String::from_str("\n")));
        out.push(DrawOp::SetColor(TermColor::Yellow));
        out.push(DrawOp::Print(String::from_str("[ SHELL INTERACTIONS ]\n")));
        out.push(DrawOp::ResetColor);
        lines = lines + 2;
        assert(ops_view(out@) =~= clear_ops(v.lines_printed) + header_ops(v.name, v.command)
            + steps_ops(v.boot_steps, boot_prefix()) + middle_ops());
        let shell_lines = draw_steps(&mut out, &self.state.shell_steps, "command: ");
        lines = lines + shell_lines;
        let mut footer = String::from_str("\n");
        footer.append(TUI_RULE);
        footer.append("\n");
        out.push(DrawOp::Print(footer));
        lines = lines + 2;
        assert(ops_view(out@) =~= frame_ops(v));
        self.state.lines_printed = lines;
        out
    }

    /// Gives `new_status` to the boot text at position `index`, if there is
    /// one, and redraws the screen.
    pub fn update_boot_status(&mut self, index: usize, new_status: Status) -> (ops: Vec<DrawOp>)
        requires
            old(self)@.wf(),
        ensures
            final(self)@ == redrawn(with_boot_status(old(self)@, index as int, new_status@)),
            final(self)@.wf(),
            ops_view(ops@) == frame_ops(with_boot_status(old(self)@, index as int, new_status@)),
    {
        set_step_status(&mut self.state.boot_steps, index, new_status);
        self.redraw()
    }

    /// Gives `new_status` to the shell command at position `index`, if there
    /// is one, and redraws the screen.
    pub fn update_shell_status(&mut self, index: usize, new_status: Status) -> (ops: Vec<DrawOp>)
        requires
            old(self)@.wf(),
        ensures
            final(self)@ == redrawn(with_shell_status(old(self)@, index as int, new_status@)),
            final(self)@.wf(),
            ops_view(ops@) == frame_ops(with_shell_status(old(self)@, index as int, new_status@)),
    {
        set_step_status(&mut self.state.shell_steps, index, new_status);
        self.redraw()
    }
}

/// The screen where `step` has failed for `reason`; a failure of the run as
/// a whole marks no step.
pub open spec fn failed_at(v: TuiView, step: StepRef, reason: Seq<char>) -> TuiView {
    match step {
        StepRef::Boot(i) => with_boot_status(v, i as int, StatusView::Failed(reason)),
        StepRef::Shell(t) => with_shell_status(v, t as int, StatusView::Failed(reason)),
        StepRef::Whole => v,
    }
}

/// What the screen shows at the end of a test.
pub open spec fn end_ops(success: bool) -> Seq<DrawOpView> {
    if success {
        seq![
            DrawOpView::SetColor(TermColor::Green),
            DrawOpView::Print("RESULT: ALL TESTS PASSED\n\n"@),
            DrawOpView::ResetColor,
            DrawOpView::ShowCursor,
        ]
    } else {
        seq![
            DrawOpView::SetColor(TermColor::Red),
            DrawOpView::Print("RESULT: TEST SUITE FAILED\n\n"@),
            DrawOpView::ResetColor,
            DrawOpView::ShowCursor,
        ]
    }
}

impl Reporter for TuiReporter {
    open spec fn ready(&self) -> bool {
        self@.wf()
    }

    fn on_test_start(&mut self, config: &TestConfig) -> (ops: Vec<DrawOp>)
        ensures
            final(self)@ == redrawn(old(self)@),
            ops_view(ops@) == frame_ops(old(self)@),
    {
        self.redraw()
    }

    fn on_boot_start(&mut self, index: usize, msg: &str) -> (ops: Vec<DrawOp>)
        ensures
            final(self)@ == redrawn(with_boot_status(old(self)@, index as int, StatusView::Running)),
            ops_view(ops@) == frame_ops(
                with_boot_status(old(self)@, index as int, StatusView::Running),
            ),
    {
        self.update_boot_status(index, Status::Running)
    }

    fn on_boot_check(&mut self, index: usize, msg: &str) -> (ops: Vec<DrawOp>)
        ensures
            final(self)@ == redrawn(with_boot_status(old(self)@, index as int, StatusView::Success)),
            ops_view(ops@) == frame_ops(
                with_boot_status(old(self)@, index as int, StatusView::Success),
            ),
    {
        self.update_boot_status(index, Status::Success)
    }

    fn on_step_start(&mut self, index: usize, step_name: &str) -> (ops: Vec<DrawOp>)
        ensures
            final(self)@ == redrawn(with_shell_status(old(self)@, index as int, StatusView::Running)),
            ops_view(ops@) == frame_ops(
                with_shell_status(old(self)@, index as int, StatusView::Running),
            ),
    {
        self.update_shell_status(index, Status::Running)
    }

    fn on_step_success(&mut self, index: usize, step_name: &str, details: Option<String>) -> (ops:
        Vec<DrawOp>)
        ensures
            final(self)@ == redrawn(with_shell_status(old(self)@, index as int, StatusView::Success)),
            ops_view(ops@) == frame_ops(
                with_shell_status(old(self)@, index as int, StatusView::Success),
            ),
    {
        self.update_shell_status(index, Status::Success)
    }

    fn on_step_failure(&mut self, step: StepRef, step_name: &str, reason: &str) -> (ops: Vec<
        DrawOp,
    >)
        ensures
            final(self)@ == redrawn(failed_at(old(self)@, step, reason@)),
            ops_view(ops@) == frame_ops(failed_at(old(self)@, step, reason@)),
    {
        match step {
            StepRef::Boot(i) => self.update_boot_status(i, Status::Failed(String::from_str(reason))),
            StepRef::Shell(t) => self.update_shell_status(
                t,
                Status::Failed(String::from_str(reason)),
            ),
            StepRef::Whole => self.redraw(),
        }
    }

    fn on_test_end(&mut self, success: bool) -> (ops: Vec<DrawOp>)
        ensures
            final(self)@ == old(self)@,
            ops_view(ops@) == end_ops(success),
    {
        let mut ops: Vec<DrawOp> = Vec::new();
        if success {
            ops.push(DrawOp::SetColor(TermColor::Green));
            ops.push(DrawOp::Print(String::from_str("RESULT: ALL TESTS PASSED\n\n")));
        } else {
            ops.push(DrawOp::SetColor(TermColor::Red));
            ops.push(DrawOp::Print(String::from_str("RESULT: TEST SUITE FAILED\n\n")));
        }
        ops.push(DrawOp::ResetColor);
        ops.push(DrawOp::ShowCursor);
        assert(ops_view(ops@) =~= end_ops(success));
        ops
    }
}

} // verus!
