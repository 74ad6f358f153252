//! The run of one scenario, as a machine that the caller drives: it names
//! the next interaction with the machine under test, the caller performs it
//! and hands back what came of it.
use vstd::prelude::*;

use crate::Cli;
use crate::config::{CommandTestView, TestConfig, TestConfigView};
use crate::text::{lemma_replaced_absent, replace_literal, replaced};
use crate::traits::Runner;
use crate::{GREEN, RESET};

verus! {

// ---------------------------------------------------------------------------
// What the runner asks of the caller, and what it tells the reporter
// ---------------------------------------------------------------------------

/// An interaction with the machine under test.
#[derive(Debug, PartialEq, Eq)]
pub enum Command {
    /// Start the machine with this command line and per-expectation timeout.
    Spawn { program: String, timeout_ms: u64 },
    /// Read the machine's output until this text appears.
    Expect(String),
    /// Type this line, followed by a newline.
    SendLine(String),
    /// Stop the machine.
    Terminate,
}

pub enum CommandView {
    Spawn { program: Seq<char>, timeout_ms: u64 },
    Expect(Seq<char>),
    SendLine(Seq<char>),
    Terminate,
}

impl View for Command {
    type V = CommandView;

    open spec fn view(&self) -> CommandView {
        match self {
            Command::Spawn { program, timeout_ms } => CommandView::Spawn {
                program: program@,
                timeout_ms: *timeout_ms,
            },
            Command::Expect(s) => CommandView::Expect(s@),
            Command::SendLine(s) => CommandView::SendLine(s@),
            Command::Terminate => CommandView::Terminate,
        }
    }
}

/// The step of the report that an event is about.
#[derive(Clone, Copy, Debug, PartialEq, Eq, Structural)]
pub enum StepRef {
    /// The boot text at this position of the boot sequence.
    Boot(usize),
    /// The shell command at this position of the tests.
    Shell(usize),
    /// The run as a whole, no single step.
    Whole,
}

/// An event of the run, for the reporter. Steps are named by their position
/// and carry their text for display.
#[derive(Debug, PartialEq, Eq)]
pub enum Notice {
    TestStart,
    BootStart(usize, String),
    BootCheck(usize, String),
    StepStart(usize, String),
    StepSuccess(usize, String, Option<String>),
    /// A step failed: which step, its label, and the reason.
    StepFailure(StepRef, String, String),
    TestEnd(bool),
}

pub enum NoticeView {
    TestStart,
    BootStart(usize, Seq<char>),
    BootCheck(usize, Seq<char>),
    StepStart(usize, Seq<char>),
    StepSuccess(usize, Seq<char>, Option<Seq<char>>),
    StepFailure(StepRef, Seq<char>, Seq<char>),
    TestEnd(bool),
}

pub open spec fn option_string_view(o: Option<String>) -> Option<Seq<char>> {
    match o {
        Some(s) => Some(s@),
        None => None,
    }
}

impl View for Notice {
    type V = NoticeView;

    open spec fn view(&self) -> NoticeView {
        match self {
            Notice::TestStart => NoticeView::TestStart,
            Notice::BootStart(i, s) => NoticeView::BootStart(*i, s@),
            Notice::BootCheck(i, s) => NoticeView::BootCheck(*i, s@),
            Notice::StepStart(t, s) => NoticeView::StepStart(*t, s@),
            Notice::StepSuccess(t, s, d) => NoticeView::StepSuccess(*t, s@, option_string_view(*d)),
            Notice::StepFailure(w, s, r) => NoticeView::StepFailure(*w, s@, r@),
            Notice::TestEnd(b) => NoticeView::TestEnd(*b),
        }
    }
}

/// What the runner does in answer to one outcome: events for the reporter,
/// then either the next interaction or the end of the run.
#[derive(Debug, PartialEq, Eq)]
pub struct Reaction {
    pub notices: Vec<Notice>,
    pub command: Option<Command>,
    /// `Some` once the run is over: `Ok` when it passed, else the error text.
    pub finished: Option<Result<(), String>>,
}

pub struct ReactionView {
    pub notices: Seq<NoticeView>,
    pub command: Option<CommandView>,
    pub finished: Option<Result<(), Seq<char>>>,
}

pub open spec fn notices_view(v: Seq<Notice>) -> Seq<NoticeView> {
    v.map_values(|n: Notice| n@)
}

pub open spec fn command_option_view(c: Option<Command>) -> Option<CommandView> {
    match c {
        Some(c) => Some(c@),
        None => None,
    }
}

pub open spec fn finished_view(f: Option<Result<(), String>>) -> Option<Result<(), Seq<char>>> {
    match f {
        Some(Ok(())) => Some(Ok(())),
        Some(Err(e)) => Some(Err(e@)),
        None => None,
    }
}

impl View for Reaction {
    type V = ReactionView;

    open spec fn view(&self) -> ReactionView {
        ReactionView {
            notices: notices_view(self.notices@),
            command: command_option_view(self.command),
            finished: finished_view(self.finished),
        }
    }
}

/// What came of an interaction: the text read before the expected text
/// (empty for the other interactions), or the error's text.
pub open spec fn outcome_view(o: Result<String, String>) -> Result<Seq<char>, Seq<char>> {
    match o {
        Ok(s) => Ok(s@),
        Err(e) => Err(e@),
    }
}

// ---------------------------------------------------------------------------
// The plan of a run
// ---------------------------------------------------------------------------

/// One stage of a run. Indices point into the scenario's boot sequence, its
/// tests, and a test's expectations.
#[derive(Clone, Copy, Debug, PartialEq, Eq, Structural)]
pub enum Stage {
    Spawn,
    Boot(usize),
    InitialPrompt,
    Send(usize),
    Expect(usize, usize),
    Prompt(usize),
    Terminate,
}

/// The stages of test `t`, which expects `n` texts.
pub open spec fn test_stages(t: nat, n: nat) -> Seq<Stage> {
    seq![Stage::Send(t as usize)] + Seq::new(n, |e: int| Stage::Expect(t as usize, e as usize))
        + seq![Stage::Prompt(t as usize)]
}

/// The stages of all the tests, one test after the other.
pub open spec fn tests_stages(tests: Seq<CommandTestView>) -> Seq<Stage>
    decreases tests.len(),
{
    if tests.len() == 0 {
        Seq::empty()
    } else {
        tests_stages(tests.drop_last()) + test_stages(
            (tests.len() - 1) as nat,
            tests.last().expect.len(),
        )
    }
}

/// The stages of a run of `c`: start the machine, wait for each boot text,
/// wait for the prompt, run each test, stop the machine.
pub open spec fn plan(c: TestConfigView) -> Seq<Stage> {
    seq![Stage::Spawn] + Seq::new(c.boot_sequence.len(), |i: int| Stage::Boot(i as usize))
        + seq![Stage::InitialPrompt] + tests_stages(c.tests) + seq![Stage::Terminate]
}

/// The indices of `st` point into `c`.
pub open spec fn stage_in_range(c: TestConfigView, st: Stage) -> bool {
    match st {
        Stage::Boot(i) => i < c.boot_sequence.len(),
        Stage::Send(t) => t < c.tests.len(),
        Stage::Expect(t, e) => t < c.tests.len() && e < c.tests[t as int].expect.len(),
        Stage::Prompt(t) => t < c.tests.len(),
        _ => true,
    }
}

/// A stage of a test of `tests`.
pub open spec fn test_stage_in(tests: Seq<CommandTestView>, st: Stage) -> bool {
    match st {
        Stage::Send(t) => t < tests.len(),
        Stage::Expect(t, e) => t < tests.len() && e < tests[t as int].expect.len(),
        Stage::Prompt(t) => t < tests.len(),
        _ => false,
    }
}

/// The interaction of a stage.
pub open spec fn stage_command(c: TestConfigView, st: Stage) -> CommandView {
    match st {
        Stage::Spawn => CommandView::Spawn { program: c.command, timeout_ms: c.timeout_ms },
        Stage::Boot(i) => CommandView::Expect(c.boot_sequence[i as int]),
        Stage::InitialPrompt => CommandView::Expect(c.prompt),
        Stage::Send(t) => CommandView::SendLine(c.tests[t as int].command),
        Stage::Expect(t, e) => CommandView::Expect(c.tests[t as int].expect[e as int]),
        Stage::Prompt(_) => CommandView::Expect(c.prompt),
        Stage::Terminate => CommandView::Terminate,
    }
}

/// What the reporter hears as a stage begins.
pub open spec fn stage_intro(c: TestConfigView, st: Stage) -> Seq<NoticeView> {
    match st {
        Stage::Spawn => seq![NoticeView::TestStart],
        Stage::Boot(i) => seq![NoticeView::BootStart(i, c.boot_sequence[i as int])],
        Stage::Send(t) => seq![NoticeView::StepStart(t, c.tests[t as int].command)],
        _ => Seq::empty(),
    }
}

/// What the reporter hears when a stage succeeds; `details` is the captured
/// output of the current test.
pub open spec fn stage_success(
    c: TestConfigView,
    st: Stage,
    verbose: bool,
    details: Seq<char>,
) -> Seq<NoticeView> {
    match st {
        Stage::Boot(i) => seq![NoticeView::BootCheck(i, c.boot_sequence[i as int])],
        Stage::Prompt(t) => seq![
            NoticeView::StepSuccess(
                t,
                c.tests[t as int].command,
                if verbose { Some(details) } else { None },
            ),
        ],
        Stage::Terminate => seq![NoticeView::TestEnd(true)],
        _ => Seq::empty(),
    }
}

/// What the reporter hears when a stage fails with the error text `msg`.
pub open spec fn stage_failure(c: TestConfigView, st: Stage, msg: Seq<char>) -> Seq<NoticeView> {
    match st {
        Stage::Boot(i) => seq![
            NoticeView::StepFailure(StepRef::Boot(i), c.boot_sequence[i as int], msg),
            NoticeView::TestEnd(false),
        ],
        Stage::InitialPrompt => seq![
            NoticeView::StepFailure(StepRef::Whole, "Waiting for initial prompt"@, msg),
            NoticeView::TestEnd(false),
        ],
        Stage::Send(t) => seq![
            NoticeView::StepFailure(
                StepRef::Shell(t),
                c.tests[t as int].command,
                "Failed to send command"@,
            ),
            NoticeView::TestEnd(false),
        ],
        Stage::Expect(t, _) => seq![
            NoticeView::StepFailure(
                StepRef::Shell(t),
                c.tests[t as int].command,
                spec_clean_error_msg(msg),
            ),
            NoticeView::TestEnd(false),
        ],
        Stage::Prompt(t) => seq![
            NoticeView::StepFailure(
                StepRef::Shell(t),
                c.tests[t as int].command,
                "Kernel panic / No prompt returned after command"@,
            ),
            NoticeView::TestEnd(false),
        ],
        _ => seq![NoticeView::TestEnd(false)],
    }
}

/// The captured output of the current test once stage `st` has succeeded
/// after reading `captured`: each expectation adds what was read before it,
/// then the expected text in green; the final prompt adds what was read
/// before the prompt.
pub open spec fn next_details(
    c: TestConfigView,
    st: Stage,
    details: Seq<char>,
    captured: Seq<char>,
) -> Seq<char> {
    match st {
        Stage::Send(_) => Seq::empty(),
        Stage::Expect(t, e) => details + captured + GREEN@ + c.tests[t as int].expect[e as int]
            + RESET@,
        Stage::Prompt(_) => details + captured,
        _ => details,
    }
}

// ---------------------------------------------------------------------------
// The runner
// ---------------------------------------------------------------------------

/// The runner of one scenario on a QEMU machine.
pub struct QemuRunner {
    plan: Vec<Stage>,
    pos: usize,
    verbose: bool,
    details: String,
    finished: bool,
}

pub struct RunnerView {
    pub plan: Seq<Stage>,
    pub pos: nat,
    pub verbose: bool,
    pub details: Seq<char>,
    pub finished: bool,
}

impl View for QemuRunner {
    type V = RunnerView;

    closed spec fn view(&self) -> RunnerView {
        RunnerView {
            plan: self.plan@,
            pos: self.pos as nat,
            verbose: self.verbose,
            details: self.details@,
            finished: self.finished,
        }
    }
}

impl RunnerView {
    /// The run of `c` is under way.
    pub open spec fn running(self, c: TestConfigView) -> bool {
        &&& self.plan == plan(c)
        &&& self.pos < self.plan.len()
        &&& !self.finished
    }
}

/// The runner and its first reaction, for a run of `c`.
pub open spec fn spec_start(c: TestConfigView, verbose: bool) -> (RunnerView, ReactionView) {
    (
        RunnerView {
            plan: plan(c),
            pos: 0,
            verbose,
            details: Seq::empty(),
            finished: false,
        },
        ReactionView {
            notices: stage_intro(c, Stage::Spawn),
            command: Some(stage_command(c, Stage::Spawn)),
            finished: None,
        },
    )
}

/// The runner and its reaction after the current stage of `s` came to
/// `outcome`.
pub open spec fn spec_resume(
    c: TestConfigView,
    s: RunnerView,
    outcome: Result<Seq<char>, Seq<char>>,
) -> (RunnerView, ReactionView) {
    let st = s.plan[s.pos as int];
    if st == Stage::Terminate {
        (
            RunnerView { finished: true, ..s },
            ReactionView {
                notices: stage_success(c, st, s.verbose, s.details),
                command: None,
                finished: Some(Ok(())),
            },
        )
    } else {
        match outcome {
            Err(msg) => (
                RunnerView { finished: true, ..s },
                ReactionView {
                    notices: stage_failure(c, st, msg),
                    command: None,
                    finished: Some(Err(msg)),
                },
            ),
            Ok(captured) => {
                let details = next_details(c, st, s.details, captured);
                let next = s.plan[s.pos + 1int];
                (
                    RunnerView { pos: s.pos + 1, details, ..s },
                    ReactionView {
                        notices: stage_success(c, st, s.verbose, details) + stage_intro(c, next),
                        command: Some(stage_command(c, next)),
                        finished: None,
                    },
                )
            },
        }
    }
}

// ---------------------------------------------------------------------------
// Facts about the plan
// ---------------------------------------------------------------------------

proof fn lemma_tests_stages(tests: Seq<CommandTestView>)
    requires
        tests.len() <= usize::MAX,
        forall|t: int| 0 <= t < tests.len() ==> #[trigger] tests[t].expect.len() <= usize::MAX,
    ensures
        forall|k: int|
            0 <= k < tests_stages(tests).len() ==> test_stage_in(
                tests,
                #[trigger] tests_stages(tests)[k],
            ),
    decreases tests.len(),
{
    if tests.len() > 0 {
        let init = tests.drop_last();
        assert forall|t: int| 0 <= t < init.len() implies #[trigger] init[t].expect.len() <= usize::MAX by {
            assert(init[t] == tests[t]);
        }
        lemma_tests_stages(init);
        let t = (tests.len() - 1) as nat;
        let last = test_stages(t, tests.last().expect.len());
        assert forall|k: int| 0 <= k < tests_stages(tests).len() implies test_stage_in(
            tests,
            #[trigger] tests_stages(tests)[k],
        ) by {
            if k < tests_stages(init).len() {
                assert(tests_stages(tests)[k] == tests_stages(init)[k]);
                assert(test_stage_in(init, tests_stages(init)[k]));
                match tests_stages(init)[k] {
                    Stage::Expect(tt, e) => {
                        assert(init[tt as int] == tests[tt as int]);
                    },
                    _ => {},
                }
            } else {
                let j = k - tests_stages(init).len();
                let n = tests.last().expect.len();
                assert(tests_stages(tests)[k] == last[j]);
                if j == 0 {
                    assert(last[j] == Stage::Send(t as usize));
                } else if j <= n {
                    assert(last[j] == Stage::Expect(t as usize, (j - 1) as usize));
                } else {
                    assert(last[j] == Stage::Prompt(t as usize));
                }
            }
        }
    }
}

/// Every stage of the plan points into `c`, and only the last stage stops
/// the machine.
pub proof fn lemma_plan_shape(c: TestConfigView)
    requires
        c.fits(),
    ensures
        plan(c).len() >= 3,
        plan(c)[0] == Stage::Spawn,
        plan(c).last() == Stage::Terminate,
        forall|k: int| 0 <= k < plan(c).len() ==> stage_in_range(c, #[trigger] plan(c)[k]),
        forall|k: int| 0 <= k < plan(c).len() - 1 ==> #[trigger] plan(c)[k] != Stage::Terminate,
{
    lemma_tests_stages(c.tests);
    let p = plan(c);
    let nb = c.boot_sequence.len();
    let ts = tests_stages(c.tests);
    assert forall|k: int| 0 <= k < p.len() implies stage_in_range(c, #[trigger] p[k]) && (k < p.len()
        - 1 ==> p[k] != Stage::Terminate) by {
        if k == 0 {
        } else if k <= nb {
            assert(p[k] == Stage::Boot((k - 1) as usize));
        } else if k == nb + 1 {
            assert(p[k] == Stage::InitialPrompt);
        } else if k < p.len() - 1 {
            assert(p[k] == ts[k - nb - 2]);
            assert(test_stage_in(c.tests, ts[k - nb - 2]));
        } else {
        }
    }
}

/// The stage that follows `st` in a run of `c`.
pub open spec fn next_stage(c: TestConfigView, st: Stage) -> Stage {
    match st {
        Stage::Spawn => if c.boot_sequence.len() > 0 {
            Stage::Boot(0)
        } else {
            Stage::InitialPrompt
        },
        Stage::Boot(i) => if i + 1 < c.boot_sequence.len() {
            Stage::Boot((i + 1) as usize)
        } else {
            Stage::InitialPrompt
        },
        Stage::InitialPrompt => if c.tests.len() > 0 {
            Stage::Send(0)
        } else {
            Stage::Terminate
        },
        Stage::Send(t) => if c.tests[t as int].expect.len() > 0 {
            Stage::Expect(t, 0)
        } else {
            Stage::Prompt(t)
        },
        Stage::Expect(t, e) => if e + 1 < c.tests[t as int].expect.len() {
            Stage::Expect(t, (e + 1) as usize)
        } else {
            Stage::Prompt(t)
        },
        Stage::Prompt(t) => if t + 1 < c.tests.len() {
            Stage::Send((t + 1) as usize)
        } else {
            Stage::Terminate
        },
        Stage::Terminate => Stage::Terminate,
    }
}

/// The stage after `st` among the stages of the tests `tests`.
spec fn next_test_stage(tests: Seq<CommandTestView>, st: Stage) -> Stage {
    match st {
        Stage::Send(t) => if tests[t as int].expect.len() > 0 {
            Stage::Expect(t, 0)
        } else {
            Stage::Prompt(t)
        },
        Stage::Expect(t, e) => if e + 1 < tests[t as int].expect.len() {
            Stage::Expect(t, (e + 1) as usize)
        } else {
            Stage::Prompt(t)
        },
        Stage::Prompt(t) => if t + 1 < tests.len() {
            Stage::Send((t + 1) as usize)
        } else {
            Stage::Terminate
        },
        _ => Stage::Terminate,
    }
}

proof fn lemma_test_stages_order(tests: Seq<CommandTestView>, t: nat)
    requires
        t < tests.len() <= usize::MAX,
        tests[t as int].expect.len() <= usize::MAX,
    ensures
        ({
            let b = test_stages(t, tests[t as int].expect.len());
            &&& b[0] == Stage::Send(t as usize)
            &&& b.last() == Stage::Prompt(t as usize)
            &&& forall|j: int| 0 <= j < b.len() - 1 ==> b[j + 1] == next_test_stage(tests, #[trigger] b[j])
        }),
{
    let n = tests[t as int].expect.len();
    let b = test_stages(t, n);
    assert forall|j: int| 0 <= j < b.len() - 1 implies b[j + 1] == next_test_stage(tests, #[trigger] b[j]) by {
        if j == 0 {
            assert(b[j] == Stage::Send(t as usize));
            if n > 0 {
                assert(b[1] == Stage::Expect(t as usize, 0));
            } else {
                assert(b[1] == Stage::Prompt(t as usize));
            }
        } else {
            assert(b[j] == Stage::Expect(t as usize, (j - 1) as usize));
            if j < n {
                assert(b[j + 1] == Stage::Expect(t as usize, j as usize));
            } else {
                assert(b[j + 1] == Stage::Prompt(t as usize));
            }
        }
    }
}

/// A stage of the first tests moves on the same way among all the tests.
proof fn lemma_next_test_stage_prefix(tests: Seq<CommandTestView>, st: Stage)
    requires
        tests.len() > 0,
        test_stage_in(tests.drop_last(), st),
        st != Stage::Prompt((tests.len() - 2) as usize),
        tests.len() <= usize::MAX,
    ensures
        next_test_stage(tests.drop_last(), st) == next_test_stage(tests, st),
{
    match st {
        Stage::Send(u) => {
            assert(tests.drop_last()[u as int] == tests[u as int]);
        },
        Stage::Expect(u, _) => {
            assert(tests.drop_last()[u as int] == tests[u as int]);
        },
        _ => {},
    }
}

proof fn lemma_tests_stages_order(tests: Seq<CommandTestView>)
    requires
        tests.len() <= usize::MAX,
        forall|t: int| 0 <= t < tests.len() ==> #[trigger] tests[t].expect.len() <= usize::MAX,
    ensures
        tests.len() > 0 ==> tests_stages(tests)[0] == Stage::Send(0),
        tests.len() > 0 ==> tests_stages(tests).last() == Stage::Prompt((tests.len() - 1) as usize),
        tests.len() == 0 ==> tests_stages(tests).len() == 0,
        forall|k: int|
            0 <= k < tests_stages(tests).len() - 1 ==> tests_stages(tests)[k + 1] == next_test_stage(
                tests,
                #[trigger] tests_stages(tests)[k],
            ),
    decreases tests.len(),
{
    if tests.len() > 0 {
        let init = tests.drop_last();
        assert forall|t: int| 0 <= t < init.len() implies #[trigger] init[t].expect.len() <= usize::MAX by {
            assert(init[t] == tests[t]);
        }
        lemma_tests_stages_order(init);
        lemma_tests_stages(init);
        let t = (tests.len() - 1) as nat;
        lemma_test_stages_order(tests, t);
        let a = tests_stages(init);
        let b = test_stages(t, tests.last().expect.len());
        let all = tests_stages(tests);
        assert(all == a + b);
        if init.len() == 0 {
            assert(all[0] == b[0]);
        } else {
            assert(all[0] == a[0]);
        }
        assert(all.last() == b.last());
        assert forall|k: int| 0 <= k < all.len() - 1 implies all[k + 1] == next_test_stage(
            tests,
            #[trigger] all[k],
        ) by {
            if k < a.len() - 1 {
                assert(all[k] == a[k]);
                assert(all[k + 1] == a[k + 1]);
                assert(test_stage_in(init, a[k]));
                assert(a[k] != Stage::Prompt((tests.len() - 2) as usize)) by {
                    if a[k] == Stage::Prompt((tests.len() - 2) as usize) {
                        assert(a[k + 1] == next_test_stage(init, a[k]));
                    }
                }
                lemma_next_test_stage_prefix(tests, a[k]);
            } else if k == a.len() - 1 {
                assert(all[k] == a.last());
                assert(all[k + 1] == b[0]);
            } else {
                let j = k - a.len();
                assert(all[k] == b[j]);
                assert(all[k + 1] == b[j + 1]);
            }
        }
    }
}

/// A stage of a test moves on the same way in the whole run as among the
/// tests.
proof fn lemma_next_stage_of_test(c: TestConfigView, st: Stage)
    requires
        test_stage_in(c.tests, st),
    ensures
        next_stage(c, st) == next_test_stage(c.tests, st),
{
}

/// The first stages of a plan: start, the boot texts, the prompt.
proof fn lemma_plan_step_boot(c: TestConfigView, k: int)
    requires
        0 <= k <= c.boot_sequence.len(),
        c.boot_sequence.len() <= usize::MAX,
    ensures
        plan(c)[k + 1] == next_stage(c, plan(c)[k]),
{
    let nb = c.boot_sequence.len();
    let boots = Seq::new(nb, |i: int| Stage::Boot(i as usize));
    let pre = seq![Stage::Spawn] + boots + seq![Stage::InitialPrompt];
    let p = plan(c);
    assert(p == pre + tests_stages(c.tests) + seq![Stage::Terminate]);
    assert(p[k] == pre[k]);
    assert(p[k + 1] == pre[k + 1]);
    if k == 0 {
        if nb > 0 {
            assert(pre[1] == boots[0]);
        }
    } else {
        assert(pre[k] == boots[k - 1]);
        if k < nb {
            assert(pre[k + 1] == boots[k]);
        }
    }
}

/// The stages of a plan from the prompt on.
proof fn lemma_plan_step_tests(c: TestConfigView, k: int)
    requires
        c.fits(),
        c.boot_sequence.len() < k < plan(c).len() - 1,
        c.tests.len() > 0 ==> tests_stages(c.tests)[0] == Stage::Send(0),
        c.tests.len() > 0 ==> tests_stages(c.tests).last() == Stage::Prompt(
            (c.tests.len() - 1) as usize,
        ),
        c.tests.len() == 0 ==> tests_stages(c.tests).len() == 0,
        forall|j: int|
            0 <= j < tests_stages(c.tests).len() - 1 ==> tests_stages(c.tests)[j + 1]
                == next_test_stage(c.tests, #[trigger] tests_stages(c.tests)[j]),
        forall|j: int|
            0 <= j < tests_stages(c.tests).len() ==> test_stage_in(
                c.tests,
                #[trigger] tests_stages(c.tests)[j],
            ),
    ensures
        plan(c)[k + 1] == next_stage(c, plan(c)[k]),
{
    let nb = c.boot_sequence.len();
    let ts = tests_stages(c.tests);
    let boots = Seq::new(nb, |i: int| Stage::Boot(i as usize));
    let pre = seq![Stage::Spawn] + boots + seq![Stage::InitialPrompt];
    let p = plan(c);
    assert(p == pre + ts + seq![Stage::Terminate]);
    if k == nb + 1 {
        assert(p[k] == Stage::InitialPrompt);
        if c.tests.len() > 0 {
            assert(p[k + 1] == ts[0]);
        } else {
            assert(p[k + 1] == Stage::Terminate);
        }
    } else {
        let j = k - nb - 2;
        assert(p[k] == ts[j]);
        lemma_next_stage_of_test(c, ts[j]);
        if j < ts.len() - 1 {
            assert(p[k + 1] == ts[j + 1]);
        } else {
            assert(ts[j] == ts.last());
            assert(p[k + 1] == Stage::Terminate);
        }
    }
}

/// The plan of a run moves from each stage to the next: the boot texts in
/// order, then the prompt, then for each test its command, its expected
/// texts in order and the prompt, and last the end of the machine.
pub proof fn lemma_plan_order(c: TestConfigView)
    requires
        c.fits(),
    ensures
        forall|k: int|
            0 <= k < plan(c).len() - 1 ==> plan(c)[k + 1] == next_stage(c, #[trigger] plan(c)[k]),
{
    lemma_tests_stages_order(c.tests);
    lemma_tests_stages(c.tests);
    assert forall|k: int| 0 <= k < plan(c).len() - 1 implies plan(c)[k + 1] == next_stage(
        c,
        #[trigger] plan(c)[k],
    ) by {
        if k <= c.boot_sequence.len() {
            lemma_plan_step_boot(c, k);
        } else {
            lemma_plan_step_tests(c, k);
        }
    }
}

/// A run starts the machine with the scenario's own command line and
/// timeout, unchanged, and the reporter first hears that the test starts.
pub proof fn lemma_start_uses_the_scenario(c: TestConfigView, verbose: bool)
    ensures
        spec_start(c, verbose).1.command == Some(
            CommandView::Spawn { program: c.command, timeout_ms: c.timeout_ms },
        ),
        spec_start(c, verbose).1.notices == seq![NoticeView::TestStart],
        spec_start(c, verbose).1.finished is None,
{
}

/// Each interaction of a run uses the scenario's texts exactly as written:
/// each boot text and the prompt are waited for, each command is typed, and
/// each expected text of a command is waited for, unaltered.
pub proof fn lemma_interactions_use_the_scenario(c: TestConfigView)
    ensures
        stage_command(c, Stage::Spawn) == (CommandView::Spawn {
            program: c.command,
            timeout_ms: c.timeout_ms,
        }),
        forall|i: usize|
            #![trigger stage_command(c, Stage::Boot(i))]
            i < c.boot_sequence.len() ==> stage_command(c, Stage::Boot(i)) == CommandView::Expect(
                c.boot_sequence[i as int],
            ),
        stage_command(c, Stage::InitialPrompt) == CommandView::Expect(c.prompt),
        forall|t: usize|
            #![trigger stage_command(c, Stage::Send(t))]
            t < c.tests.len() ==> stage_command(c, Stage::Send(t)) == CommandView::SendLine(
                c.tests[t as int].command,
            ),
        forall|t: usize, e: usize|
            #![trigger stage_command(c, Stage::Expect(t, e))]
            t < c.tests.len() && e < c.tests[t as int].expect.len() ==> stage_command(
                c,
                Stage::Expect(t, e),
            ) == CommandView::Expect(c.tests[t as int].expect[e as int]),
        forall|t: usize|
            #![trigger stage_command(c, Stage::Prompt(t))]
            t < c.tests.len() ==> stage_command(c, Stage::Prompt(t)) == CommandView::Expect(c.prompt),
        stage_command(c, Stage::Terminate) == CommandView::Terminate,
{
}

/// After an interaction succeeds, the runner goes on to the next stage of
/// the plan and asks for its interaction.
pub proof fn lemma_next_interaction(c: TestConfigView, s: RunnerView, captured: Seq<char>)
    requires
        c.fits(),
        s.running(c),
        s.plan[s.pos as int] != Stage::Terminate,
    ensures
        s.pos + 1 < plan(c).len(),
        spec_resume(c, s, Ok(captured)).1.finished is None,
        spec_resume(c, s, Ok(captured)).1.command == Some(stage_command(c, plan(c)[s.pos + 1int])),
        spec_resume(c, s, Ok(captured)).0.pos == s.pos + 1,
{
    lemma_plan_shape(c);
    if s.pos + 1 == plan(c).len() {
        assert(plan(c)[s.pos as int] == plan(c).last());
    }
}

/// With `--verbose`, a command's captured output is what the machine printed
/// while the command ran: a command starts it afresh, each expected text
/// adds what was read before it and then the text itself in green, and the
/// prompt adds what was read before it; the other stages leave it alone.
pub proof fn lemma_details_collect_output(c: TestConfigView, s: RunnerView, captured: Seq<char>)
    requires
        c.fits(),
        s.running(c),
        s.plan[s.pos as int] != Stage::Terminate,
    ensures
        ({
            let d = spec_resume(c, s, Ok(captured)).0.details;
            match s.plan[s.pos as int] {
                Stage::Send(_) => d == Seq::<char>::empty(),
                Stage::Expect(t, e) => d == s.details + captured + GREEN@
                    + c.tests[t as int].expect[e as int] + RESET@,
                Stage::Prompt(_) => d == s.details + captured,
                _ => d == s.details,
            }
        }),
{
}

/// A stage that fails is reported against the step it belongs to: a boot
/// text under its own position and text with the error's text, a command
/// under its position and text with the reason for that kind of stage; a
/// missing first prompt concerns the run as a whole; the test then ends as
/// failed.
pub proof fn lemma_failure_reports(c: TestConfigView, st: Stage, msg: Seq<char>)
    requires
        stage_in_range(c, st),
        st != Stage::Terminate,
    ensures
        stage_failure(c, st, msg).last() == NoticeView::TestEnd(false),
        match st {
            Stage::Spawn => stage_failure(c, st, msg).len() == 1,
            Stage::Boot(i) => stage_failure(c, st, msg)[0] == NoticeView::StepFailure(
                StepRef::Boot(i),
                c.boot_sequence[i as int],
                msg,
            ),
            Stage::InitialPrompt => stage_failure(c, st, msg)[0] == NoticeView::StepFailure(
                StepRef::Whole,
                "Waiting for initial prompt"@,
                msg,
            ),
            Stage::Send(t) => stage_failure(c, st, msg)[0] == NoticeView::StepFailure(
                StepRef::Shell(t),
                c.tests[t as int].command,
                "Failed to send command"@,
            ),
            Stage::Expect(t, _) => stage_failure(c, st, msg)[0] == NoticeView::StepFailure(
                StepRef::Shell(t),
                c.tests[t as int].command,
                spec_clean_error_msg(msg),
            ),
            Stage::Prompt(t) => stage_failure(c, st, msg)[0] == NoticeView::StepFailure(
                StepRef::Shell(t),
                c.tests[t as int].command,
                "Kernel panic / No prompt returned after command"@,
            ),
            Stage::Terminate => true,
        },
{
}

// ---------------------------------------------------------------------------
// Whole runs
// ---------------------------------------------------------------------------

/// The reactions of a runner in state `s` to the outcomes `outs`, one
/// after the other, up to the end of the run.
pub open spec fn spec_run(
    c: TestConfigView,
    s: RunnerView,
    outs: Seq<Result<Seq<char>, Seq<char>>>,
) -> Seq<ReactionView>
    decreases outs.len(),
{
    if outs.len() == 0 || s.finished {
        Seq::empty()
    } else {
        let (s2, r) = spec_resume(c, s, outs[0]);
        seq![r] + spec_run(c, s2, outs.drop_first())
    }
}

proof fn lemma_all_succeed_from(
    c: TestConfigView,
    s: RunnerView,
    outs: Seq<Result<Seq<char>, Seq<char>>>,
)
    requires
        c.fits(),
        s.running(c),
        outs.len() == plan(c).len() - s.pos,
        forall|k: int| 0 <= k < outs.len() ==> #[trigger] outs[k] is Ok,
    ensures
        ({
            let rs = spec_run(c, s, outs);
            let n = outs.len();
            &&& rs.len() == n
            &&& forall|k: int|
                0 <= k < n - 1 ==> {
                    &&& (#[trigger] rs[k]).finished is None
                    &&& rs[k].command == Some(stage_command(c, plan(c)[s.pos + k + 1]))
                }
            &&& rs[n - 1].finished == Some(Ok::<(), Seq<char>>(()))
            &&& rs[n - 1].command is None
        }),
    decreases outs.len(),
{
    lemma_plan_shape(c);
    let (s2, r) = spec_resume(c, s, outs[0]);
    let rest = spec_run(c, s2, outs.drop_first());
    let rs = spec_run(c, s, outs);
    assert(rs == seq![r] + rest);
    if s.pos == plan(c).len() - 1 {
        assert(s2.finished);
        assert(outs.drop_first().len() == 0);
        assert(rs =~= seq![r]);
    } else {
        assert(s.plan[s.pos as int] != Stage::Terminate);
        assert(s2.running(c));
        let tail = outs.drop_first();
        assert forall|k: int| 0 <= k < tail.len() implies #[trigger] tail[k] is Ok by {
            assert(tail[k] == outs[k + 1]);
        }
        lemma_all_succeed_from(c, s2, tail);
        assert forall|k: int| 0 <= k < outs.len() - 1 implies {
            &&& (#[trigger] rs[k]).finished is None
            &&& rs[k].command == Some(stage_command(c, plan(c)[s.pos + k + 1]))
        } by {
            if k > 0 {
                assert(rs[k] == rest[k - 1]);
            }
        }
        assert(rs[outs.len() - 1] == rest[outs.len() - 2]);
    }
}

/// A run in which every interaction succeeds passes: it performs exactly
/// the planned interactions, one per reaction and in the planned order,
/// and its last reaction ends the run with success.
pub proof fn lemma_all_succeed(
    c: TestConfigView,
    verbose: bool,
    outs: Seq<Result<Seq<char>, Seq<char>>>,
)
    requires
        c.fits(),
        outs.len() == plan(c).len(),
        forall|k: int| 0 <= k < outs.len() ==> #[trigger] outs[k] is Ok,
    ensures
        ({
            let (s0, r0) = spec_start(c, verbose);
            let rs = spec_run(c, s0, outs);
            let n = plan(c).len();
            &&& r0.command == Some(stage_command(c, plan(c)[0]))
            &&& rs.len() == n
            &&& forall|k: int|
                0 <= k < n - 1 ==> {
                    &&& (#[trigger] rs[k]).finished is None
                    &&& rs[k].command == Some(stage_command(c, plan(c)[k + 1]))
                }
            &&& rs[n - 1].finished == Some(Ok::<(), Seq<char>>(()))
            &&& rs[n - 1].command is None
        }),
{
    lemma_plan_shape(c);
    let (s0, r0) = spec_start(c, verbose);
    assert(s0.running(c));
    lemma_all_succeed_from(c, s0, outs);
}

proof fn lemma_first_failure_from(
    c: TestConfigView,
    s: RunnerView,
    outs: Seq<Result<Seq<char>, Seq<char>>>,
    k: nat,
)
    requires
        c.fits(),
        s.running(c),
        s.pos + k < plan(c).len() - 1,
        k < outs.len(),
        forall|j: int| 0 <= j < k ==> #[trigger] outs[j] is Ok,
        outs[k as int] is Err,
    ensures
        ({
            let rs = spec_run(c, s, outs);
            &&& rs.len() == k + 1
            &&& forall|j: int| 0 <= j < k ==> (#[trigger] rs[j]).finished is None
            &&& rs[k as int].finished == Some(Err::<(), Seq<char>>(outs[k as int]->Err_0))
            &&& rs[k as int].command is None
            &&& rs[k as int].notices == stage_failure(c, plan(c)[(s.pos + k) as int], outs[k as int]->Err_0)
        }),
    decreases k,
{
    lemma_plan_shape(c);
    let (s2, r) = spec_resume(c, s, outs[0]);
    let tail = outs.drop_first();
    let rest = spec_run(c, s2, tail);
    let rs = spec_run(c, s, outs);
    assert(rs == seq![r] + rest);
    assert(s.plan[s.pos as int] != Stage::Terminate);
    if k == 0 {
        assert(s2.finished);
        assert(rs =~= seq![r]);
    } else {
        assert(s2.running(c));
        assert forall|j: int| 0 <= j < k - 1 implies #[trigger] tail[j] is Ok by {
            assert(tail[j] == outs[j + 1]);
        }
        assert(tail[k - 1] == outs[k as int]);
        lemma_first_failure_from(c, s2, tail, (k - 1) as nat);
        assert forall|j: int| 0 <= j < k implies (#[trigger] rs[j]).finished is None by {
            if j > 0 {
                assert(rs[j] == rest[j - 1]);
            }
        }
        assert(rs[k as int] == rest[k - 1]);
    }
}

/// The first interaction that fails ends the run: the reporter hears of the
/// failure and then of the end of the test, the run ends with that error,
/// and nothing more is performed.
pub proof fn lemma_first_failure(
    c: TestConfigView,
    verbose: bool,
    outs: Seq<Result<Seq<char>, Seq<char>>>,
    k: nat,
)
    requires
        c.fits(),
        k < plan(c).len() - 1,
        k < outs.len(),
        forall|j: int| 0 <= j < k ==> #[trigger] outs[j] is Ok,
        outs[k as int] is Err,
    ensures
        ({
            let rs = spec_run(c, spec_start(c, verbose).0, outs);
            &&& rs.len() == k + 1
            &&& forall|j: int| 0 <= j < k ==> (#[trigger] rs[j]).finished is None
            &&& rs[k as int].finished == Some(Err::<(), Seq<char>>(outs[k as int]->Err_0))
            &&& rs[k as int].command is None
            &&& rs[k as int].notices.last() == NoticeView::TestEnd(false)
        }),
{
    lemma_plan_shape(c);
    let s0 = spec_start(c, verbose).0;
    assert(s0.running(c));
    lemma_first_failure_from(c, s0, outs, k);
}

proof fn lemma_pass_only_from(
    c: TestConfigView,
    s: RunnerView,
    outs: Seq<Result<Seq<char>, Seq<char>>>,
)
    requires
        c.fits(),
        s.running(c),
    ensures
        spec_run(c, s, outs).len() <= outs.len(),
        ({
            let rs = spec_run(c, s, outs);
            forall|k: int|
                0 <= k < rs.len() && (#[trigger] rs[k]).finished == Some(Ok::<(), Seq<char>>(()))
                    ==> {
                    &&& s.pos + k == plan(c).len() - 1
                    &&& k == rs.len() - 1
                    &&& forall|j: int| 0 <= j < k ==> #[trigger] outs[j] is Ok
                }
        }),
    decreases outs.len(),
{
    lemma_plan_shape(c);
    if outs.len() > 0 {
        let (s2, r) = spec_resume(c, s, outs[0]);
        let tail = outs.drop_first();
        let rest = spec_run(c, s2, tail);
        let rs = spec_run(c, s, outs);
        assert(rs == seq![r] + rest);
        if s.plan[s.pos as int] == Stage::Terminate {
            assert(s2.finished);
            assert(rs =~= seq![r]);
        } else if outs[0] is Err {
            assert(s2.finished);
            assert(rs =~= seq![r]);
        } else {
            assert(s2.running(c));
            lemma_pass_only_from(c, s2, tail);
            assert forall|k: int|
                0 <= k < rs.len() && (#[trigger] rs[k]).finished == Some(Ok::<(), Seq<char>>(()))
                    implies {
                &&& s.pos + k == plan(c).len() - 1
                &&& k == rs.len() - 1
                &&& forall|j: int| 0 <= j < k ==> #[trigger] outs[j] is Ok
            } by {
                assert(k > 0);
                assert(rs[k] == rest[k - 1]);
                assert forall|j: int| 0 <= j < k implies #[trigger] outs[j] is Ok by {
                    if j > 0 {
                        assert(outs[j] == tail[j - 1]);
                    }
                }
            }
        }
    }
}

/// A run passes only when it reaches the end of its plan, and only when
/// every interaction before stopping the machine succeeded.
pub proof fn lemma_pass_only_if_all_succeed(
    c: TestConfigView,
    verbose: bool,
    outs: Seq<Result<Seq<char>, Seq<char>>>,
)
    requires
        c.fits(),
    ensures
        ({
            let rs = spec_run(c, spec_start(c, verbose).0, outs);
            forall|k: int|
                0 <= k < rs.len() && (#[trigger] rs[k]).finished == Some(Ok::<(), Seq<char>>(()))
                    ==> {
                    &&& k == plan(c).len() - 1
                    &&& k == rs.len() - 1
                    &&& forall|j: int| 0 <= j < k ==> #[trigger] outs[j] is Ok
                }
        }),
{
    lemma_plan_shape(c);
    let s0 = spec_start(c, verbose).0;
    assert(s0.running(c));
    lemma_pass_only_from(c, s0, outs);
}

// ---------------------------------------------------------------------------
// Running
// ---------------------------------------------------------------------------

/// The stages of a run of `config`.
fn build_plan(config: &TestConfig) -> (p: Vec<Stage>)
    ensures
        p@ == plan(config@),
{
    proof {
        config.lemma_fits();
    }
    let ghost c = config@;
    let mut p: Vec<Stage> = Vec::new();
    p.push(Stage::Spawn);
    let nb = config.boot_sequence.len();
    let mut i: usize = 0;
    while i < nb
        invariant
            nb == c.boot_sequence.len(),
            i <= nb,
            p@ =~= seq![Stage::Spawn] + Seq::new(i as nat, |k: int| Stage::Boot(k as usize)),
        decreases nb - i,
    {
        p.push(Stage::Boot(i));
        i = i + 1;
    }
    p.push(Stage::InitialPrompt);
    let ghost prefix = p@;
    let tests = &config.shell_interactions.tests;
    let nt = tests.len();
    assert(c.tests.take(0) =~= Seq::<CommandTestView>::empty());
    let mut t: usize = 0;
    while t < nt
        invariant
            c == config@,
            c.fits(),
            tests == &config.shell_interactions.tests,
            nt == c.tests.len(),
            t <= nt,
            p@ == prefix + tests_stages(c.tests.take(t as int)),
        decreases nt - t,
    {
        let ghost before = p@;
        let ne = tests[t].expect.len();
        assert(ne == c.tests[t as int].expect.len());
        p.push(Stage::Send(t));
        let mut e: usize = 0;
        while e < ne
            invariant
                e <= ne,
                p@ =~= before + seq![Stage::Send(t)] + Seq::new(e as nat, |k: int| Stage::Expect(t, k as usize)),
            decreases ne - e,
        {
            p.push(Stage::Expect(t, e));
            e = e + 1;
        }
        p.push(Stage::Prompt(t));
        proof {
            let tk = c.tests.take(t + 1);
            assert(tk.drop_last() =~= c.tests.take(t as int));
            assert(tk.last() == c.tests[t as int]);
            assert(test_stages(t as nat, ne as nat) =~= seq![Stage::Send(t)] + Seq::new(
                ne as nat,
                |k: int| Stage::Expect(t, k as usize),
            ) + seq![Stage::Prompt(t)]);
            assert(p@ =~= prefix + tests_stages(tk));
        }
        t = t + 1;
    }
    assert(c.tests.take(nt as int) =~= c.tests);
    p.push(Stage::Terminate);
    assert(p@ =~= plan(c));
    p
}

/// The interaction of a stage.
fn command_of(config: &TestConfig, st: Stage) -> (cmd: Command)
    requires
        stage_in_range(config@, st),
    ensures
        cmd@ == stage_command(config@, st),
{
    match st {
        Stage::Spawn => Command::Spawn {
            program: config.command.clone(),
            timeout_ms: config.timeout_ms,
        },
        Stage::Boot(i) => Command::Expect(config.boot_sequence[i].clone()),
        Stage::InitialPrompt => Command::Expect(config.shell_interactions.prompt.clone()),
        Stage::Send(t) => Command::SendLine(config.shell_interactions.tests[t].command.clone()),
        Stage::Expect(t, e) => Command::Expect(
            config.shell_interactions.tests[t].expect[e].clone(),
        ),
        Stage::Prompt(_) => Command::Expect(config.shell_interactions.prompt.clone()),
        Stage::Terminate => Command::Terminate,
    }
}

/// What the reporter hears as a stage begins.
fn intro_of(config: &TestConfig, st: Stage) -> (n: Vec<Notice>)
    requires
        stage_in_range(config@, st),
    ensures
        notices_view(n@) == stage_intro(config@, st),
{
    let mut n: Vec<Notice> = Vec::new();
    match st {
        Stage::Spawn => n.push(Notice::TestStart),
        Stage::Boot(i) => n.push(Notice::BootStart(i, config.boot_sequence[i].clone())),
        Stage::Send(t) => n.push(
            Notice::StepStart(t, config.shell_interactions.tests[t].command.clone()),
        ),
        _ => {},
    }
    assert(notices_view(n@) =~= stage_intro(config@, st));
    n
}

/// Appends to `n` what the reporter hears when stage `st` succeeds.
fn push_success(
    n: &mut Vec<Notice>,
    config: &TestConfig,
    st: Stage,
    verbose: bool,
    details: &String,
)
    requires
        stage_in_range(config@, st),
    ensures
        notices_view(final(n)@) == notices_view(old(n)@) + stage_success(
            config@,
            st,
            verbose,
            details@,
        ),
{
    let ghost n0 = n@;
    match st {
        Stage::Boot(i) => n.push(Notice::BootCheck(i, config.boot_sequence[i].clone())),
        Stage::Prompt(t) => {
            let d = if verbose {
                Some(details.clone())
            } else {
                None
            };
            n.push(
                Notice::StepSuccess(t, config.shell_interactions.tests[t].command.clone(), d),
            );
        },
        Stage::Terminate => n.push(Notice::TestEnd(true)),
        _ => {},
    }
    assert(notices_view(n@) =~= notices_view(n0) + stage_success(config@, st, verbose, details@));
}

/// What the reporter hears when stage `st` fails with the error text `msg`.
fn failure_of(config: &TestConfig, st: Stage, msg: &String) -> (n: Vec<Notice>)
    requires
        stage_in_range(config@, st),
    ensures
        notices_view(n@) == stage_failure(config@, st, msg@),
{
    let mut n: Vec<Notice> = Vec::new();
    match st {
        Stage::Boot(i) => n.push(
            Notice::StepFailure(StepRef::Boot(i), config.boot_sequence[i].clone(), msg.clone()),
        ),
        Stage::InitialPrompt => n.push(
            Notice::StepFailure(
                StepRef::Whole,
                String::from_str("Waiting for initial prompt"),
                msg.clone(),
            ),
        ),
        Stage::Send(t) => n.push(
            Notice::StepFailure(
                StepRef::Shell(t),
                config.shell_interactions.tests[t].command.clone(),
                String::from_str("Failed to send command"),
            ),
        ),
        Stage::Expect(t, _) => n.push(
            Notice::StepFailure(
                StepRef::Shell(t),
                config.shell_interactions.tests[t].command.clone(),
                clean_error_msg(msg.as_str()),
            ),
        ),
        Stage::Prompt(t) => n.push(
            Notice::StepFailure(
                StepRef::Shell(t),
                config.shell_interactions.tests[t].command.clone(),
                String::from_str("Kernel panic / No prompt returned after command"),
            ),
        ),
        _ => {},
    }
    n.push(Notice::TestEnd(false));
    assert(notices_view(n@) =~= stage_failure(config@, st, msg@));
    n
}

impl Runner for QemuRunner {
    open spec fn running(&self, config: TestConfigView) -> bool {
        self@.running(config)
    }

    /// Starts a run of `config`: the reporter hears that the test starts, and
    /// the machine is to be started.
    fn start(config: &TestConfig, opts: &Cli) -> (res: (QemuRunner, Reaction))
        ensures
            (res.0@, res.1@) == spec_start(config@, opts.verbose),
            res.0@.running(config@),
    {
        proof {
            config.lemma_fits();
            lemma_plan_shape(config@);
        }
        let plan = build_plan(config);
        let runner = QemuRunner {
            plan,
            pos: 0,
            verbose: opts.verbose,
            details: String::new(),
            finished: false,
        };
        let reaction = Reaction {
            notices: intro_of(config, Stage::Spawn),
            command: Some(command_of(config, Stage::Spawn)),
            finished: None,
        };
        (runner, reaction)
    }

    /// The current stage came to `outcome`: the reporter hears of it, and
    /// either the next stage begins or the run ends.
    fn resume(&mut self, config: &TestConfig, outcome: Result<String, String>) -> (r: Reaction)
        ensures
            (final(self)@, r@) == spec_resume(config@, old(self)@, outcome_view(outcome)),
    {
        proof {
            config.lemma_fits();
            lemma_plan_shape(config@);
        }
        let st = self.plan[self.pos];
        if st == Stage::Terminate {
            self.finished = true;
            let mut n: Vec<Notice> = Vec::new();
            push_success(&mut n, config, st, self.verbose, &self.details);
            assert(notices_view(Seq::<Notice>::empty()) =~= Seq::<NoticeView>::empty());
            return Reaction { notices: n, command: None, finished: Some(Ok(())) };
        }
        assert(self.pos + 1 < self.plan.len()) by {
            if self.pos + 1 == self.plan.len() {
                assert(self.plan@[self.pos as int] == plan(config@).last());
            }
        }
        match outcome {
            Err(msg) => {
                self.finished = true;
                let n = failure_of(config, st, &msg);
                Reaction { notices: n, command: None, finished: Some(Err(msg)) }
            },
            Ok(captured) => {
                match st {
                    Stage::Send(_) => {
                        self.details = String::new();
                    },
                    Stage::Expect(t, e) => {
                        self.details.append(captured.as_str());
                        self.details.append(GREEN);
                        self.details.append(config.shell_interactions.tests[t].expect[e].as_str());
                        self.details.append(RESET);
                    },
                    Stage::Prompt(_) => {
                        self.details.append(captured.as_str());
                    },
                    _ => {},
                }
                let next = self.plan[self.pos + 1];
                self.pos = self.pos + 1;
                let mut n: Vec<Notice> = Vec::new();
                push_success(&mut n, config, st, self.verbose, &self.details);
                let mut intro = intro_of(config, next);
                let ghost n1 = n@;
                let ghost i1 = intro@;
                n.append(&mut intro);
                assert(notices_view(n@) =~= notices_view(n1) + notices_view(i1));
                Reaction { notices: n, command: Some(command_of(config, next)), finished: None }
            },
        }
    }
}

// ---------------------------------------------------------------------------
// Error messages
// ---------------------------------------------------------------------------

/// Declares `regex::Regex`, a compiled regular expression, to Verus as an
/// opaque type; nothing about its contents is claimed.
#[verifier::external_type_specification]
#[verifier::external_body]
pub struct ExRegex(regex::Regex);

/// Declares `regex::Error`, the error of `regex::Regex::new`, to Verus as an
/// opaque type; nothing about its contents is claimed.
#[verifier::external_type_specification]
#[verifier::external_body]
pub struct ExRegexError(regex::Error);

/// Whether `regex::Regex::new` accepts `pattern`.
pub uninterp spec fn regex_accepts(pattern: Seq<char>) -> bool;

/// What `regex::Regex::replace_all` makes of `haystack`, for the regex
/// compiled from `pattern` and the replacement `rep`.
pub uninterp spec fn regex_replace_all(pattern: Seq<char>, haystack: Seq<char>, rep: Seq<char>) -> Seq<char>;

/// A regular expression together with the pattern it was compiled from.
struct CompiledPattern {
    source: String,
    regex: regex::Regex,
}

/// Calls `regex::Regex::new`. Claimed: the result is `Ok` exactly when the
/// pattern is one that `Regex::new` accepts, a function of the pattern alone,
/// and the regex is kept with the pattern it was compiled from.
#[verifier::external_body]
fn compile_pattern(pattern: &str) -> (res: Result<CompiledPattern, regex::Error>)
    ensures
        res is Ok <==> regex_accepts(pattern@),
        res matches Ok(p) ==> p.source@ == pattern@,
{
    match regex::Regex::new(pattern) {
        Ok(regex) => Ok(CompiledPattern { source: pattern.to_string(), regex }),
        Err(e) => Err(e),
    }
}

/// Calls `regex::Regex::replace_all` and makes the result a `String`.
/// Claimed: the result is a function of the pattern, the haystack and the
/// replacement alone.
#[verifier::external_body]
fn pattern_replace_all(p: &CompiledPattern, haystack: &str, rep: &str) -> (res: String)
    ensures
        res@ == regex_replace_all(p.source@, haystack@, rep@),
{
    p.regex.replace_all(haystack, rep).to_string()
}

/// The pattern of a terminal colour escape as it appears, escaped, in the
/// text of an expectation error.
pub const ANSI_ESCAPE_PATTERN: &'static str = r"\\u\{1b\}\[[0-9;]*[mK]";

/// An error text made readable: escaped line breaks become ` ↵ `, escaped
/// quotes become quotes, then escaped colour codes are removed.
pub open spec fn spec_clean_error_msg(raw: Seq<char>) -> Seq<char> {
    let m = replaced(
        replaced(replaced(raw, "\\r\\n"@, " ↵ "@), "\\n"@, " ↵ "@),
        "\\\""@,
        "\""@,
    );
    if regex_accepts(ANSI_ESCAPE_PATTERN@) {
        regex_replace_all(ANSI_ESCAPE_PATTERN@, m, ""@)
    } else {
        m
    }
}

/// A text with no backslash passes the three replacements unchanged, so the
/// colour-code removal works on the text as it came.
pub proof fn lemma_clean_without_backslash(raw: Seq<char>)
    requires
        forall|i: int| 0 <= i < raw.len() ==> raw[i] != '\\',
    ensures
        spec_clean_error_msg(raw) == if regex_accepts(ANSI_ESCAPE_PATTERN@) {
            regex_replace_all(ANSI_ESCAPE_PATTERN@, raw, ""@)
        } else {
            raw
        },
{
    reveal_strlit("\\r\\n");
    reveal_strlit("\\n");
    reveal_strlit("\\\"");
    lemma_replaced_absent(raw, "\\r\\n"@, " ↵ "@);
    lemma_replaced_absent(raw, "\\n"@, " ↵ "@);
    lemma_replaced_absent(raw, "\\\""@, "\""@);
}

/// An error text made readable for the report.
pub fn clean_error_msg(raw_error: &str) -> (msg: String)
    ensures
        msg@ == spec_clean_error_msg(raw_error@),
{
    proof {
        reveal_strlit("\\r\\n");
        reveal_strlit("\\n");
        reveal_strlit("\\\"");
    }
    let step1 = replace_literal(raw_error, "\\r\\n", " ↵ ");
    let step2 = replace_literal(step1.as_str(), "\\n", " ↵ ");
    let msg = replace_literal(step2.as_str(), "\\\"", "\"");
    match compile_pattern(ANSI_ESCAPE_PATTERN) {
        Ok(re) => pattern_replace_all(&re, msg.as_str(), ""),
        Err(_) => msg,
    }
}

} // verus!
