//! What a reporter and a runner offer, and the drawing operations through
//! which a reporter shows a run on the terminal.
use vstd::prelude::*;

use crate::Cli;
use crate::config::{TestConfig, TestConfigView};
use crate::engine::{Reaction, StepRef};

verus! {

/// A terminal colour.
#[derive(Clone, Copy, Debug, PartialEq, Eq, Structural)]
pub enum TermColor {
    Cyan,
    DarkGrey,
    Yellow,
    Green,
    Red,
}

/// One operation on the terminal.
#[derive(Debug, PartialEq, Eq)]
pub enum DrawOp {
    HideCursor,
    ShowCursor,
    /// Move the cursor up this many lines.
    MoveUp(u16),
    /// Move the cursor to this column of its line.
    MoveToColumn(u16),
    /// Clear from the cursor to the end of the screen.
    ClearFromCursorDown,
    SetColor(TermColor),
    ResetColor,
    Print(String),
}

pub enum DrawOpView {
    HideCursor,
    ShowCursor,
    MoveUp(u16),
    MoveToColumn(u16),
    ClearFromCursorDown,
    SetColor(TermColor),
    ResetColor,
    Print(Seq<char>),
}

impl View for DrawOp {
    type V = DrawOpView;

    open spec fn view(&self) -> DrawOpView {
        match self {
            DrawOp::HideCursor => DrawOpView::HideCursor,
            DrawOp::ShowCursor => DrawOpView::ShowCursor,
            DrawOp::MoveUp(n) => DrawOpView::MoveUp(*n),
            DrawOp::MoveToColumn(n) => DrawOpView::MoveToColumn(*n),
            DrawOp::ClearFromCursorDown => DrawOpView::ClearFromCursorDown,
            DrawOp::SetColor(c) => DrawOpView::SetColor(*c),
            DrawOp::ResetColor => DrawOpView::ResetColor,
            DrawOp::Print(s) => DrawOpView::Print(s@),
        }
    }
}

/// A list of operations as plain values.
pub open spec fn ops_view(ops: Seq<DrawOp>) -> Seq<DrawOpView> {
    ops.map_values(|o: DrawOp| o@)
}

/// The text that a list of operations prints, in order.
pub open spec fn printed(ops: Seq<DrawOpView>) -> Seq<char>
    decreases ops.len(),
{
    if ops.len() == 0 {
        Seq::empty()
    } else {
        printed(ops.drop_last()) + match ops.last() {
            DrawOpView::Print(s) => s,
            _ => Seq::empty(),
        }
    }
}

/// The text printed by two lists of operations, one after the other.
pub proof fn lemma_printed_concat(a: Seq<DrawOpView>, b: Seq<DrawOpView>)
    ensures
        printed(a + b) == printed(a) + printed(b),
    decreases b.len(),
{
    if b.len() == 0 {
        assert(a + b =~= a);
        assert(printed(a) + printed(b) =~= printed(a));
    } else {
        lemma_printed_concat(a, b.drop_last());
        assert((a + b).drop_last() =~= a + b.drop_last());
        assert((a + b).last() == b.last());
        assert(printed(a + b) =~= printed(a) + printed(b));
    }
}

/// Shows the progress of a run. Each event gives the terminal operations
/// that show it. A boot text or a shell command is named by its position, and
/// its text comes along for display.
pub trait Reporter {
    /// The reporter can take the next event.
    spec fn ready(&self) -> bool;

    fn on_test_start(&mut self, config: &TestConfig) -> (ops: Vec<DrawOp>)
        requires
            old(self).ready(),
        ensures
            final(self).ready(),
    ;

    fn on_boot_start(&mut self, index: usize, msg: &str) -> (ops: Vec<DrawOp>)
        requires
            old(self).ready(),
        ensures
            final(self).ready(),
    ;

    fn on_boot_check(&mut self, index: usize, msg: &str) -> (ops: Vec<DrawOp>)
        requires
            old(self).ready(),
        ensures
            final(self).ready(),
    ;

    fn on_step_start(&mut self, index: usize, step_name: &str) -> (ops: Vec<DrawOp>)
        requires
            old(self).ready(),
        ensures
            final(self).ready(),
    ;

    fn on_step_success(&mut self, index: usize, step_name: &str, details: Option<String>) -> (ops: Vec<DrawOp>)
        requires
            old(self).ready(),
        ensures
            final(self).ready(),
    ;

    fn on_step_failure(&mut self, step: StepRef, step_name: &str, reason: &str) -> (ops: Vec<DrawOp>)
        requires
            old(self).ready(),
        ensures
            final(self).ready(),
    ;

    fn on_test_end(&mut self, success: bool) -> (ops: Vec<DrawOp>)
        requires
            old(self).ready(),
        ensures
            final(self).ready(),
    ;
}

/// Runs a scenario as a machine that its caller drives: the runner names
/// each interaction with the machine under test, the caller performs it and
/// hands back what came of it.
pub trait Runner: Sized {
    /// The runner is in the middle of a run of `config`.
    spec fn running(&self, config: TestConfigView) -> bool;

    /// Starts a run of `config`.
    fn start(config: &TestConfig, opts: &Cli) -> (res: (Self, Reaction))
        ensures
            res.0.running(config@),
    ;

    /// The current interaction came to `outcome`: the text read before the
    /// expected text, or the error's text.
    fn resume(&mut self, config: &TestConfig, outcome: Result<String, String>) -> (r: Reaction)
        requires
            old(self).running(config@),
        ensures
            r.finished is None ==> final(self).running(config@),
    ;
}

} // verus!
