//! Flat console output, one line per event, for logs and pipelines.
pub mod tui;

use vstd::prelude::*;

use crate::config::{TestConfig, TestConfigView};
use crate::text::{decimal, decimal_string};
use crate::engine::StepRef;
use crate::traits::{ops_view, DrawOp, DrawOpView, Reporter};
use crate::{GREEN, GREY, RED, RESET};

verus! {

/// The rule that frames the console report.
pub const CONSOLE_RULE: &'static str = "--------------------------------------------------";

/// Reports a run as plain lines of text.
pub struct ConsoleReporter;

/// The output for the start of a test.
pub open spec fn console_test_start(c: TestConfigView) -> Seq<DrawOpView> {
    seq![
        DrawOpView::Print("\n▶ 📼 WALKMAN PLAYING: "@ + c.name + "\n"@),
        DrawOpView::Print("  ⚙️ Command: "@ + c.command + "\n"@),
        DrawOpView::Print("  ⏳ Timeout: "@ + decimal(c.timeout_ms as nat) + "ms\n"@),
        DrawOpView::Print(CONSOLE_RULE@ + "\n"@),
    ]
}

/// The output for a boot text that has been seen.
pub open spec fn console_boot_check(msg: Seq<char>) -> Seq<DrawOpView> {
    seq![DrawOpView::Print("  [BOOT] Waiting for: '"@ + msg + "' ...\n"@)]
}

/// The output for the start of a shell command; the line stays open for
/// its verdict.
pub open spec fn console_step_start(name: Seq<char>) -> Seq<DrawOpView> {
    seq![DrawOpView::Print("  [TEST] Executing: '"@ + name + "' ... "@)]
}

/// The output for a command that succeeded, with its captured output when
/// there is one.
pub open spec fn console_step_success(details: Option<Seq<char>>) -> Seq<DrawOpView> {
    let verdict = seq![DrawOpView::Print(GREEN@ + "SUCCESS"@ + RESET@ + "\n"@)];
    match details {
        Some(d) => verdict.push(DrawOpView::Print(GREY@ + d + RESET@ + "\n"@)),
        None => verdict,
    }
}

/// The output for a step that failed.
pub open spec fn console_step_failure(reason: Seq<char>) -> Seq<DrawOpView> {
    seq![DrawOpView::Print(RED@ + "FAILED"@ + RESET@ + "\n  ↳ Reason: "@ + reason + "\n"@)]
}

/// The output for the end of a test.
pub open spec fn console_test_end(success: bool) -> Seq<DrawOpView> {
    seq![
        DrawOpView::Print(CONSOLE_RULE@ + "\n"@),
        if success {
            DrawOpView::Print(GREEN@ + "RESULT: PASS\n"@ + RESET@ + "\n"@)
        } else {
            DrawOpView::Print(RED@ + "RESULT: FAIL\n"@ + RESET@ + "\n"@)
        },
    ]
}

/// The console's verdicts are told apart: a passing and a failing test end
/// differently, a failed step's line ends with its reason, and the header's
/// timeout line shows the timeout in decimal, in milliseconds.
pub proof fn lemma_console_verdicts(c: TestConfigView, reason: Seq<char>)
    ensures
        console_test_end(true) != console_test_end(false),
        console_test_end(true)[1] == DrawOpView::Print(GREEN@ + "RESULT: PASS\n"@ + RESET@ + "\n"@),
        console_test_end(false)[1] == DrawOpView::Print(RED@ + "RESULT: FAIL\n"@ + RESET@ + "\n"@),
        ({
            let line = console_step_failure(reason)[0]->Print_0;
            line.subrange(line.len() - reason.len() - 1, line.len() - 1) == reason
        }),
        console_test_start(c)[2] == DrawOpView::Print(
            "  ⏳ Timeout: "@ + decimal(c.timeout_ms as nat) + "ms\n"@,
        ),
{
    reveal_strlit("RESULT: PASS\n");
    reveal_strlit("RESULT: FAIL\n");
    reveal_strlit("\x1b[32m");
    reveal_strlit("\x1b[31m");
    assert(console_test_end(true)[1] != console_test_end(false)[1]) by {
        let p = GREEN@ + "RESULT: PASS\n"@ + RESET@ + "\n"@;
        let f = RED@ + "RESULT: FAIL\n"@ + RESET@ + "\n"@;
        assert(p[3] != f[3]);
    }
    let line = console_step_failure(reason)[0]->Print_0;
    let head = RED@ + "FAILED"@ + RESET@ + "\n  ↳ Reason: "@;
    assert(line == head + reason + "\n"@);
    reveal_strlit("\n");
    assert(line.subrange(line.len() - reason.len() - 1, line.len() - 1) =~= reason);
}

/// The concatenation of two texts.
fn join2(a: &str, b: &str) -> (r: String)
    ensures
        r@ == a@ + b@,
{
    let mut r = String::from_str(a);
    r.append(b);
    r
}

/// The concatenation of three texts.
fn join3(a: &str, b: &str, c: &str) -> (r: String)
    ensures
        r@ == a@ + b@ + c@,
{
    let mut r = join2(a, b);
    r.append(c);
    r
}

/// The concatenation of four texts.
fn join4(a: &str, b: &str, c: &str, d: &str) -> (r: String)
    ensures
        r@ == a@ + b@ + c@ + d@,
{
    let mut r = join3(a, b, c);
    r.append(d);
    r
}

impl Reporter for ConsoleReporter {
    open spec fn ready(&self) -> bool {
        true
    }

    fn on_test_start(&mut self, config: &TestConfig) -> (ops: Vec<DrawOp>)
        ensures
            ops_view(ops@) == console_test_start(config@),
    {
        let mut ops: Vec<DrawOp> = Vec::new();
        ops.push(DrawOp::Print(join3("\n▶ 📼 WALKMAN PLAYING: ", config.name.as_str(), "\n")));
        ops.push(DrawOp::Print(join3("  ⚙️ Command: ", config.command.as_str(), "\n")));
        let timeout = decimal_string(config.timeout_ms);
        ops.push(DrawOp::Print(join3("  ⏳ Timeout: ", timeout.as_str(), "ms\n")));
        ops.push(DrawOp::Print(join2(CONSOLE_RULE, "\n")));
        assert(ops_view(ops@) =~= console_test_start(config@));
        ops
    }

    fn on_boot_start(&mut self, index: usize, msg: &str) -> (ops: Vec<DrawOp>)
        ensures
            ops@.len() == 0,
    {
        Vec::new()
    }

    fn on_boot_check(&mut self, index: usize, msg: &str) -> (ops: Vec<DrawOp>)
        ensures
            ops_view(ops@) == console_boot_check(msg@),
    {
        let mut ops: Vec<DrawOp> = Vec::new();
        ops.push(DrawOp::Print(join3("  [BOOT] Waiting for: '", msg, "' ...\n")));
        assert(ops_view(ops@) =~= console_boot_check(msg@));
        ops
    }

    fn on_step_start(&mut self, index: usize, step_name: &str) -> (ops: Vec<DrawOp>)
        ensures
            ops_view(ops@) == console_step_start(step_name@),
    {
        let mut ops: Vec<DrawOp> = Vec::new();
        ops.push(DrawOp::Print(join3("  [TEST] Executing: '", step_name, "' ... ")));
        assert(ops_view(ops@) =~= console_step_start(step_name@));
        ops
    }

    fn on_step_success(&mut self, index: usize, step_name: &str, details: Option<String>) -> (ops: Vec<DrawOp>)
        ensures
            ops_view(ops@) == console_step_success(
                match details {
                    Some(d) => Some(d@),
                    None => None,
                },
            ),
    {
        let mut ops: Vec<DrawOp> = Vec::new();
        ops.push(DrawOp::Print(join4(GREEN, "SUCCESS", RESET, "\n")));
        match details {
            Some(d) => {
                ops.push(DrawOp::Print(join4(GREY, d.as_str(), RESET, "\n")));
            },
            None => {},
        }
        assert(ops_view(ops@) =~= console_step_success(
            match details {
                Some(d) => Some(d@),
                None => None,
            },
        ));
        ops
    }

    fn on_step_failure(&mut self, step: StepRef, step_name: &str, reason: &str) -> (ops: Vec<DrawOp>)
        ensures
            ops_view(ops@) == console_step_failure(reason@),
    {
        let mut ops: Vec<DrawOp> = Vec::new();
        let mut text = join4(RED, "FAILED", RESET, "\n  ↳ Reason: ");
        text.append(reason);
        text.append("\n");
        ops.push(DrawOp::Print(text));
        assert(ops_view(ops@) =~= console_step_failure(reason@));
        ops
    }

    fn on_test_end(&mut self, success: bool) -> (ops: Vec<DrawOp>)
        ensures
            ops_view(ops@) == console_test_end(success),
    {
        let mut ops: Vec<DrawOp> = Vec::new();
        ops.push(DrawOp::Print(join2(CONSOLE_RULE, "\n")));
        if success {
            ops.push(DrawOp::Print(join4(GREEN, "RESULT: PASS\n", RESET, "\n")));
        } else {
            ops.push(DrawOp::Print(join4(RED, "RESULT: FAIL\n", RESET, "\n")));
        }
        assert(ops_view(ops@) =~= console_test_end(success));
        ops
    }
}

} // verus!
