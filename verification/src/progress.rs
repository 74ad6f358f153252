//! How the screen follows a run: what it shows once it has heard the events
//! of a run, as the terminal reporter's methods change it.
use vstd::prelude::*;

use crate::config::{CommandTestView, TestConfigView};
use crate::engine::{
    lemma_plan_order, lemma_plan_shape, next_stage, plan, spec_resume, spec_run, spec_start,
    stage_failure, stage_in_range, stage_intro, stage_success, NoticeView, ReactionView,
    RunnerView, Stage,
};
use crate::reporter::tui::{
    failed_at, redrawn, with_boot_status, with_shell_status, StatusView, TuiView,
};

verus! {

/// The screen once the terminal reporter has heard `n`, as its methods
/// change it.
pub open spec fn tui_heard(v: TuiView, n: NoticeView) -> TuiView {
    match n {
        NoticeView::TestStart => redrawn(v),
        NoticeView::BootStart(i, _) => redrawn(with_boot_status(v, i as int, StatusView::Running)),
        NoticeView::BootCheck(i, _) => redrawn(with_boot_status(v, i as int, StatusView::Success)),
        NoticeView::StepStart(t, _) => redrawn(with_shell_status(v, t as int, StatusView::Running)),
        NoticeView::StepSuccess(t, _, _) => redrawn(
            with_shell_status(v, t as int, StatusView::Success),
        ),
        NoticeView::StepFailure(step, _, r) => redrawn(failed_at(v, step, r)),
        NoticeView::TestEnd(_) => v,
    }
}

/// The screen once the terminal reporter has heard `ns`, in order.
pub open spec fn tui_heard_all(v: TuiView, ns: Seq<NoticeView>) -> TuiView
    decreases ns.len(),
{
    if ns.len() == 0 {
        v
    } else {
        tui_heard_all(tui_heard(v, ns[0]), ns.drop_first())
    }
}

/// The events of a list of reactions, in order.
pub open spec fn reactions_notices(rs: Seq<ReactionView>) -> Seq<NoticeView>
    decreases rs.len(),
{
    if rs.len() == 0 {
        Seq::empty()
    } else {
        rs[0].notices + reactions_notices(rs.drop_first())
    }
}

/// The status of boot text `j` while stage `st` is under way.
pub open spec fn boot_status_at(st: Stage, j: int) -> StatusView {
    match st {
        Stage::Spawn => StatusView::Pending,
        Stage::Boot(i) => if j < i {
            StatusView::Success
        } else if j == i {
            StatusView::Running
        } else {
            StatusView::Pending
        },
        _ => StatusView::Success,
    }
}

/// The status of command `t` while stage `st` is under way.
pub open spec fn shell_status_at(st: Stage, t: int) -> StatusView {
    match st {
        Stage::Send(u) => if t < u {
            StatusView::Success
        } else if t == u {
            StatusView::Running
        } else {
            StatusView::Pending
        },
        Stage::Expect(u, _) => if t < u {
            StatusView::Success
        } else if t == u {
            StatusView::Running
        } else {
            StatusView::Pending
        },
        Stage::Prompt(u) => if t < u {
            StatusView::Success
        } else if t == u {
            StatusView::Running
        } else {
            StatusView::Pending
        },
        Stage::Terminate => StatusView::Success,
        _ => StatusView::Pending,
    }
}

/// The boot list while stage `st` of a run of `c` is under way.
pub open spec fn boot_at(c: TestConfigView, st: Stage) -> Seq<(Seq<char>, StatusView)> {
    Seq::new(c.boot_sequence.len(), |j: int| (c.boot_sequence[j], boot_status_at(st, j)))
}

/// The command list while stage `st` of a run of `c` is under way.
pub open spec fn shell_at(c: TestConfigView, st: Stage) -> Seq<(Seq<char>, StatusView)> {
    Seq::new(c.tests.len(), |t: int| (c.tests[t].command, shell_status_at(st, t)))
}

proof fn lemma_heard_all_concat(v: TuiView, a: Seq<NoticeView>, b: Seq<NoticeView>)
    ensures
        tui_heard_all(v, a + b) == tui_heard_all(tui_heard_all(v, a), b),
    decreases a.len(),
{
    if a.len() == 0 {
        assert(a + b =~= b);
    } else {
        assert((a + b)[0] == a[0]);
        assert((a + b).drop_first() =~= a.drop_first() + b);
        lemma_heard_all_concat(tui_heard(v, a[0]), a.drop_first(), b);
    }
}

proof fn lemma_heard_none(v: TuiView)
    ensures
        tui_heard_all(v, Seq::empty()) == v,
{
}

proof fn lemma_heard_one(v: TuiView, n: NoticeView)
    ensures
        tui_heard_all(v, seq![n]) == tui_heard(v, n),
{
    assert(seq![n].drop_first() =~= Seq::<NoticeView>::empty());
    assert(seq![n][0] == n);
    reveal_with_fuel(tui_heard_all, 2);
}


/// The screen moves from the lists of one stage to those of the next as the
/// reporter hears that the stage succeeded and the next one began.
proof fn lemma_stage_screen(c: TestConfigView, st: Stage, v: TuiView, verbose: bool, d: Seq<char>)
    requires
        c.fits(),
        stage_in_range(c, st),
        stage_in_range(c, next_stage(c, st)),
        st != Stage::Terminate,
        v.boot_steps == boot_at(c, st),
        v.shell_steps == shell_at(c, st),
    ensures
        ({
            let w = tui_heard_all(v, stage_success(c, st, verbose, d) + stage_intro(c, next_stage(c, st)));
            &&& w.boot_steps == boot_at(c, next_stage(c, st))
            &&& w.shell_steps == shell_at(c, next_stage(c, st))
        }),
{
    let next = next_stage(c, st);
    let succ = stage_success(c, st, verbose, d);
    let intro = stage_intro(c, next);
    lemma_heard_all_concat(v, succ, intro);
    let nb = c.boot_sequence.len();
    let nt = c.tests.len();
    match st {
        Stage::Boot(i) => {
            let n0 = NoticeView::BootCheck(i, c.boot_sequence[i as int]);
            lemma_heard_one(v, n0);
            let v1 = tui_heard(v, n0);
            if i + 1 < nb {
                let j = (i + 1) as usize;
                let n1 = NoticeView::BootStart(j, c.boot_sequence[j as int]);
                lemma_heard_one(v1, n1);
                let w = tui_heard(v1, n1);
                assert(w.boot_steps =~= boot_at(c, next));
                assert(w.shell_steps =~= shell_at(c, next));
            } else {
                lemma_heard_none(v1);
                assert(v1.boot_steps =~= boot_at(c, next));
                assert(v1.shell_steps =~= shell_at(c, next));
            }
        },
        Stage::Spawn => {
            lemma_heard_none(v);
            if nb > 0 {
                let n1 = NoticeView::BootStart(0, c.boot_sequence[0]);
                lemma_heard_one(v, n1);
                let w = tui_heard(v, n1);
                assert(w.boot_steps =~= boot_at(c, next));
                assert(w.shell_steps =~= shell_at(c, next));
            } else {
                assert(v.boot_steps =~= boot_at(c, next));
                assert(v.shell_steps =~= shell_at(c, next));
            }
        },
        Stage::InitialPrompt => {
            lemma_heard_none(v);
            if nt > 0 {
                let n1 = NoticeView::StepStart(0, c.tests[0].command);
                lemma_heard_one(v, n1);
                let w = tui_heard(v, n1);
                assert(w.boot_steps =~= boot_at(c, next));
                assert(w.shell_steps =~= shell_at(c, next));
            } else {
                assert(v.boot_steps =~= boot_at(c, next));
                assert(v.shell_steps =~= shell_at(c, next));
            }
        },
        Stage::Send(t) => {
            lemma_heard_none(v);
            assert(v.boot_steps =~= boot_at(c, next));
            assert(v.shell_steps =~= shell_at(c, next));
        },
        Stage::Expect(t, e) => {
            lemma_heard_none(v);
            assert(v.boot_steps =~= boot_at(c, next));
            assert(v.shell_steps =~= shell_at(c, next));
        },
        Stage::Prompt(t) => {
            let n0 = NoticeView::StepSuccess(
                t,
                c.tests[t as int].command,
                if verbose { Some(d) } else { None },
            );
            lemma_heard_one(v, n0);
            let v1 = tui_heard(v, n0);
            if t + 1 < nt {
                let u = (t + 1) as usize;
                let n1 = NoticeView::StepStart(u, c.tests[u as int].command);
                lemma_heard_one(v1, n1);
                let w = tui_heard(v1, n1);
                assert(w.boot_steps =~= boot_at(c, next));
                assert(w.shell_steps =~= shell_at(c, next));
            } else {
                lemma_heard_none(v1);
                assert(v1.boot_steps =~= boot_at(c, next));
                assert(v1.shell_steps =~= shell_at(c, next));
            }
        },
        Stage::Terminate => {},
    }
}

proof fn lemma_follow_from(
    c: TestConfigView,
    s: RunnerView,
    outs: Seq<Result<Seq<char>, Seq<char>>>,
    v: TuiView,
)
    requires
        c.fits(),
        s.running(c),
        outs.len() == plan(c).len() - s.pos,
        forall|k: int| 0 <= k < outs.len() ==> #[trigger] outs[k] is Ok,
        v.boot_steps == boot_at(c, plan(c)[s.pos as int]),
        v.shell_steps == shell_at(c, plan(c)[s.pos as int]),
    ensures
        ({
            let w = tui_heard_all(v, reactions_notices(spec_run(c, s, outs)));
            &&& w.boot_steps == boot_at(c, Stage::Terminate)
            &&& w.shell_steps == shell_at(c, Stage::Terminate)
        }),
    decreases outs.len(),
{
    lemma_plan_shape(c);
    lemma_plan_order(c);
    let st = plan(c)[s.pos as int];
    let (s2, r) = spec_resume(c, s, outs[0]);
    let tail = outs.drop_first();
    let rest = spec_run(c, s2, tail);
    let rs = spec_run(c, s, outs);
    assert(rs == seq![r] + rest);
    assert(rs[0] == r);
    assert(rs.drop_first() =~= rest);
    assert(reactions_notices(rs) == r.notices + reactions_notices(rest));
    lemma_heard_all_concat(v, r.notices, reactions_notices(rest));
    if st == Stage::Terminate {
        assert(s2.finished);
        assert(rest.len() == 0);
        assert(reactions_notices(rest) =~= Seq::<NoticeView>::empty());
        assert(r.notices == seq![NoticeView::TestEnd(true)]);
        lemma_heard_one(v, NoticeView::TestEnd(true));
    } else {
        let next = plan(c)[s.pos + 1int];
        assert(next == next_stage(c, st));
        lemma_stage_screen(c, st, v, s.verbose, s2.details);
        let v1 = tui_heard_all(v, r.notices);
        assert(s2.running(c));
        assert forall|k: int| 0 <= k < tail.len() implies #[trigger] tail[k] is Ok by {
            assert(tail[k] == outs[k + 1]);
        }
        lemma_follow_from(c, s2, tail, v1);
    }
}

/// On a run in which every interaction succeeds, the screen that starts
/// with every step pending ends with every boot text and every command
/// succeeded.
pub proof fn lemma_screen_follows_passing_run(
    c: TestConfigView,
    verbose: bool,
    outs: Seq<Result<Seq<char>, Seq<char>>>,
    v0: TuiView,
)
    requires
        c.fits(),
        outs.len() == plan(c).len(),
        forall|k: int| 0 <= k < outs.len() ==> #[trigger] outs[k] is Ok,
        v0.boot_steps == c.boot_sequence.map_values(|s: Seq<char>| (s, StatusView::Pending)),
        v0.shell_steps == c.tests.map_values(|t: CommandTestView| (t.command, StatusView::Pending)),
    ensures
        ({
            let (s0, r0) = spec_start(c, verbose);
            let w = tui_heard_all(v0, r0.notices + reactions_notices(spec_run(c, s0, outs)));
            &&& w.boot_steps == c.boot_sequence.map_values(|s: Seq<char>| (s, StatusView::Success))
            &&& w.shell_steps == c.tests.map_values(
                |t: CommandTestView| (t.command, StatusView::Success),
            )
        }),
{
    lemma_plan_shape(c);
    let (s0, r0) = spec_start(c, verbose);
    assert(s0.running(c));
    assert(r0.notices == seq![NoticeView::TestStart]);
    lemma_heard_one(v0, NoticeView::TestStart);
    let v1 = tui_heard(v0, NoticeView::TestStart);
    assert(v1.boot_steps =~= boot_at(c, Stage::Spawn));
    assert(v1.shell_steps =~= shell_at(c, Stage::Spawn));
    lemma_heard_all_concat(v0, r0.notices, reactions_notices(spec_run(c, s0, outs)));
    lemma_follow_from(c, s0, outs, v1);
    let w = tui_heard_all(v0, r0.notices + reactions_notices(spec_run(c, s0, outs)));
    assert(w.boot_steps =~= c.boot_sequence.map_values(|s: Seq<char>| (s, StatusView::Success)));
    assert(w.shell_steps =~= c.tests.map_values(
        |t: CommandTestView| (t.command, StatusView::Success),
    ));
}

/// The test that stage `st` belongs to, for a stage of a test.
pub open spec fn test_of(st: Stage) -> Option<usize> {
    match st {
        Stage::Send(t) => Some(t),
        Stage::Expect(t, _) => Some(t),
        Stage::Prompt(t) => Some(t),
        _ => None,
    }
}

/// The reason that the reporter hears when stage `st` fails with `msg`.
pub open spec fn failure_reason(c: TestConfigView, st: Stage, msg: Seq<char>) -> Seq<char> {
    stage_failure(c, st, msg)[0]->StepFailure_2
}

/// The boot list once stage `st` has failed: the boot text of a failed boot
/// stage shows the failure, the others stand as while `st` was under way.
pub open spec fn boot_after_failure(c: TestConfigView, st: Stage, msg: Seq<char>) -> Seq<
    (Seq<char>, StatusView),
> {
    Seq::new(
        c.boot_sequence.len(),
        |j: int|
            (c.boot_sequence[j], if st == Stage::Boot(j as usize) {
                StatusView::Failed(msg)
            } else {
                boot_status_at(st, j)
            }),
    )
}

/// The command list once stage `st` has failed: the command of a failed
/// stage of a test shows the failure with its reason, the others stand as
/// while `st` was under way.
pub open spec fn shell_after_failure(c: TestConfigView, st: Stage, msg: Seq<char>) -> Seq<
    (Seq<char>, StatusView),
> {
    Seq::new(
        c.tests.len(),
        |t: int|
            (c.tests[t].command, if test_of(st) == Some(t as usize) {
                StatusView::Failed(failure_reason(c, st, msg))
            } else {
                shell_status_at(st, t)
            }),
    )
}

proof fn lemma_stage_failure_screen(c: TestConfigView, st: Stage, v: TuiView, msg: Seq<char>)
    requires
        c.fits(),
        stage_in_range(c, st),
        st != Stage::Terminate,
        v.boot_steps == boot_at(c, st),
        v.shell_steps == shell_at(c, st),
    ensures
        ({
            let w = tui_heard_all(v, stage_failure(c, st, msg));
            &&& w.boot_steps == boot_after_failure(c, st, msg)
            &&& w.shell_steps == shell_after_failure(c, st, msg)
        }),
{
    let ns = stage_failure(c, st, msg);
    if st == Stage::Spawn {
        assert(ns == seq![NoticeView::TestEnd(false)]);
        lemma_heard_one(v, NoticeView::TestEnd(false));
        assert(v.boot_steps =~= boot_after_failure(c, st, msg));
        assert(v.shell_steps =~= shell_after_failure(c, st, msg));
    } else {
        let n0 = ns[0];
        assert(ns =~= seq![n0] + seq![NoticeView::TestEnd(false)]);
        lemma_heard_all_concat(v, seq![n0], seq![NoticeView::TestEnd(false)]);
        lemma_heard_one(v, n0);
        let v1 = tui_heard(v, n0);
        lemma_heard_one(v1, NoticeView::TestEnd(false));
        assert(v1.boot_steps =~= boot_after_failure(c, st, msg));
        assert(v1.shell_steps =~= shell_after_failure(c, st, msg));
    }
}

proof fn lemma_follow_until_failure(
    c: TestConfigView,
    s: RunnerView,
    outs: Seq<Result<Seq<char>, Seq<char>>>,
    k: nat,
    v: TuiView,
)
    requires
        c.fits(),
        s.running(c),
        s.pos + k < plan(c).len() - 1,
        k < outs.len(),
        forall|j: int| 0 <= j < k ==> #[trigger] outs[j] is Ok,
        outs[k as int] is Err,
        v.boot_steps == boot_at(c, plan(c)[s.pos as int]),
        v.shell_steps == shell_at(c, plan(c)[s.pos as int]),
    ensures
        ({
            let st = plan(c)[(s.pos + k) as int];
            let msg = outs[k as int]->Err_0;
            let w = tui_heard_all(v, reactions_notices(spec_run(c, s, outs)));
            &&& w.boot_steps == boot_after_failure(c, st, msg)
            &&& w.shell_steps == shell_after_failure(c, st, msg)
        }),
    decreases k,
{
    lemma_plan_shape(c);
    let st = plan(c)[s.pos as int];
    let (s2, r) = spec_resume(c, s, outs[0]);
    let tail = outs.drop_first();
    let rest = spec_run(c, s2, tail);
    let rs = spec_run(c, s, outs);
    assert(rs == seq![r] + rest);
    assert(rs[0] == r);
    assert(rs.drop_first() =~= rest);
    assert(reactions_notices(rs) == r.notices + reactions_notices(rest));
    lemma_heard_all_concat(v, r.notices, reactions_notices(rest));
    assert(st != Stage::Terminate);
    if k == 0 {
        assert(s2.finished);
        assert(rest.len() == 0);
        assert(reactions_notices(rest) =~= Seq::<NoticeView>::empty());
        lemma_stage_failure_screen(c, st, v, outs[0]->Err_0);
    } else {
        lemma_plan_order(c);
        let next = plan(c)[s.pos + 1int];
        assert(next == next_stage(c, st));
        lemma_stage_screen(c, st, v, s.verbose, s2.details);
        let v1 = tui_heard_all(v, r.notices);
        assert(s2.running(c));
        assert forall|j: int| 0 <= j < k - 1 implies #[trigger] tail[j] is Ok by {
            assert(tail[j] == outs[j + 1]);
        }
        assert(tail[k - 1] == outs[k as int]);
        lemma_follow_until_failure(c, s2, tail, (k - 1) as nat, v1);
    }
}

/// When stage `k` of a run fails first, the screen that started with every
/// step pending ends showing that failure where it happened:
/// - a failed boot text: the boot texts before it succeeded, it failed with
///   the error's text, those after it pending, every command pending;
/// - a failed stage of a command: every boot text succeeded, the commands
///   before it succeeded, it failed for the reason reported, those after it
///   pending;
/// - no prompt after boot: every boot text succeeded, every command pending.
pub proof fn lemma_screen_after_failure(
    c: TestConfigView,
    verbose: bool,
    outs: Seq<Result<Seq<char>, Seq<char>>>,
    k: nat,
    v0: TuiView,
)
    requires
        c.fits(),
        k < plan(c).len() - 1,
        k < outs.len(),
        forall|j: int| 0 <= j < k ==> #[trigger] outs[j] is Ok,
        outs[k as int] is Err,
        v0.boot_steps == c.boot_sequence.map_values(|s: Seq<char>| (s, StatusView::Pending)),
        v0.shell_steps == c.tests.map_values(|t: CommandTestView| (t.command, StatusView::Pending)),
    ensures
        ({
            let (s0, r0) = spec_start(c, verbose);
            let w = tui_heard_all(v0, r0.notices + reactions_notices(spec_run(c, s0, outs)));
            let st = plan(c)[k as int];
            let msg = outs[k as int]->Err_0;
            &&& w.boot_steps == boot_after_failure(c, st, msg)
            &&& w.shell_steps == shell_after_failure(c, st, msg)
            &&& (st matches Stage::Boot(i) ==> forall|j: int|
                0 <= j < c.boot_sequence.len() ==> #[trigger] w.boot_steps[j].1 == if j < i {
                    StatusView::Success
                } else if j == i {
                    StatusView::Failed(msg)
                } else {
                    StatusView::Pending
                })
            &&& (test_of(st) matches Some(t) ==> forall|u: int|
                0 <= u < c.tests.len() ==> #[trigger] w.shell_steps[u].1 == if u < t {
                    StatusView::Success
                } else if u == t {
                    StatusView::Failed(failure_reason(c, st, msg))
                } else {
                    StatusView::Pending
                })
        }),
{
    lemma_plan_shape(c);
    let (s0, r0) = spec_start(c, verbose);
    assert(s0.running(c));
    assert(r0.notices == seq![NoticeView::TestStart]);
    lemma_heard_one(v0, NoticeView::TestStart);
    let v1 = tui_heard(v0, NoticeView::TestStart);
    assert(v1.boot_steps =~= boot_at(c, Stage::Spawn));
    assert(v1.shell_steps =~= shell_at(c, Stage::Spawn));
    lemma_heard_all_concat(v0, r0.notices, reactions_notices(spec_run(c, s0, outs)));
    lemma_follow_until_failure(c, s0, outs, k, v1);
}

} // verus!
