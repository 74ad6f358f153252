use walkman::Cli;
use walkman::config::{CommandTest, ShellInteractions, TestConfig};
use walkman::engine::{Command, Notice, QemuRunner, Reaction, StepRef};
use walkman::traits::Runner;

fn config() -> TestConfig {
    TestConfig {
        name: "Test OS".to_string(),
        command: "qemu-system-i386 -display none".to_string(),
        timeout_ms: 5000,
        boot_sequence: vec!["Booting...".to_string(), "System ready.".to_string()],
        shell_interactions: ShellInteractions {
            prompt: "os~$".to_string(),
            tests: vec![
                CommandTest {
                    command: "uptime".to_string(),
                    expect: vec!["seconds".to_string()],
                },
                CommandTest {
                    command: "memdump 16".to_string(),
                    expect: vec!["PMM BITMAP DUMP".to_string(), "Legend:".to_string()],
                },
            ],
        },
    }
}

fn quiet() -> Cli {
    Cli { path: "tests/basic.yml".to_string(), nui: false, verbose: false }
}

fn s(x: &str) -> String {
    x.to_string()
}

/// Drives a whole run, answering every interaction with the given outcome.
fn drive(
    config: &TestConfig,
    opts: &Cli,
    mut answer: impl FnMut(&Command) -> Result<String, String>,
) -> Vec<Reaction> {
    let (mut runner, first) = QemuRunner::start(config, opts);
    let mut log = Vec::new();
    let mut pending = first.command.as_ref().map(|c| answer(c));
    log.push(first);
    while let Some(outcome) = pending.take() {
        let r = runner.resume(config, outcome);
        pending = r.command.as_ref().map(|c| answer(c));
        log.push(r);
    }
    log
}

#[test]
fn successful_run_performs_the_plan_in_order() {
    let c = config();
    let log = drive(&c, &quiet(), |_| Ok(String::new()));
    let commands: Vec<&Command> = log.iter().filter_map(|r| r.command.as_ref()).collect();
    assert_eq!(
        commands,
        vec![
            &Command::Spawn { program: s("qemu-system-i386 -display none"), timeout_ms: 5000 },
            &Command::Expect(s("Booting...")),
            &Command::Expect(s("System ready.")),
            &Command::Expect(s("os~$")),
            &Command::SendLine(s("uptime")),
            &Command::Expect(s("seconds")),
            &Command::Expect(s("os~$")),
            &Command::SendLine(s("memdump 16")),
            &Command::Expect(s("PMM BITMAP DUMP")),
            &Command::Expect(s("Legend:")),
            &Command::Expect(s("os~$")),
            &Command::Terminate,
        ]
    );
    let last = log.last().unwrap();
    assert_eq!(last.finished, Some(Ok(())));
    assert_eq!(last.notices, vec![Notice::TestEnd(true)]);
    let notices: Vec<&Notice> = log.iter().flat_map(|r| r.notices.iter()).collect();
    assert_eq!(
        notices,
        vec![
            &Notice::TestStart,
            &Notice::BootStart(0, s("Booting...")),
            &Notice::BootCheck(0, s("Booting...")),
            &Notice::BootStart(1, s("System ready.")),
            &Notice::BootCheck(1, s("System ready.")),
            &Notice::StepStart(0, s("uptime")),
            &Notice::StepSuccess(0, s("uptime"), None),
            &Notice::StepStart(1, s("memdump 16")),
            &Notice::StepSuccess(1, s("memdump 16"), None),
            &Notice::TestEnd(true),
        ]
    );
}

#[test]
fn a_failed_boot_text_ends_the_run() {
    let c = config();
    let log = drive(&c, &quiet(), |cmd| match cmd {
        Command::Expect(t) if t == "System ready." => Err(s("Timeout")),
        _ => Ok(String::new()),
    });
    let last = log.last().unwrap();
    assert_eq!(last.finished, Some(Err(s("Timeout"))));
    assert_eq!(last.command, None);
    assert_eq!(
        last.notices,
        vec![Notice::StepFailure(StepRef::Boot(1), s("System ready."), s("Timeout")), Notice::TestEnd(false)]
    );
    assert_eq!(log.len(), 4);
}

#[test]
fn a_missing_first_prompt_ends_the_run() {
    let c = config();
    let log = drive(&c, &quiet(), |cmd| match cmd {
        Command::Expect(t) if t == "os~$" => Err(s("EOF")),
        _ => Ok(String::new()),
    });
    let last = log.last().unwrap();
    assert_eq!(
        last.notices,
        vec![Notice::StepFailure(StepRef::Whole, s("Waiting for initial prompt"), s("EOF")), Notice::TestEnd(false)]
    );
    assert_eq!(last.finished, Some(Err(s("EOF"))));
}

#[test]
fn a_failed_send_ends_the_run() {
    let c = config();
    let log = drive(&c, &quiet(), |cmd| match cmd {
        Command::SendLine(_) => Err(s("broken pipe")),
        _ => Ok(String::new()),
    });
    let last = log.last().unwrap();
    assert_eq!(
        last.notices,
        vec![Notice::StepFailure(StepRef::Shell(0), s("uptime"), s("Failed to send command")), Notice::TestEnd(false)]
    );
    assert_eq!(last.finished, Some(Err(s("broken pipe"))));
}

#[test]
fn a_failed_expectation_reports_a_clean_reason() {
    let c = config();
    let log = drive(&c, &quiet(), |cmd| match cmd {
        Command::Expect(t) if t == "Legend:" => Err(s("expected \\\"Legend:\\\" got \\u{1b}[31mjunk\\r\\n")),
        _ => Ok(String::new()),
    });
    let last = log.last().unwrap();
    assert_eq!(
        last.notices,
        vec![
            Notice::StepFailure(StepRef::Shell(1), s("memdump 16"), s("expected \"Legend:\" got junk ↵ ")),
            Notice::TestEnd(false)
        ]
    );
    assert_eq!(
        last.finished,
        Some(Err(s("expected \\\"Legend:\\\" got \\u{1b}[31mjunk\\r\\n")))
    );
}

#[test]
fn a_missing_prompt_after_a_command_ends_the_run() {
    let c = config();
    let mut prompts = 0;
    let log = drive(&c, &quiet(), |cmd| match cmd {
        Command::Expect(t) if t == "os~$" => {
            prompts += 1;
            if prompts == 2 { Err(s("Timeout")) } else { Ok(String::new()) }
        },
        _ => Ok(String::new()),
    });
    let last = log.last().unwrap();
    assert_eq!(
        last.notices,
        vec![
            Notice::StepFailure(StepRef::Shell(0), s("uptime"), s("Kernel panic / No prompt returned after command")),
            Notice::TestEnd(false)
        ]
    );
}

#[test]
fn a_machine_that_does_not_start_fails_the_run() {
    let c = config();
    let log = drive(&c, &quiet(), |cmd| match cmd {
        Command::Spawn { .. } => Err(s("no such program")),
        _ => Ok(String::new()),
    });
    assert_eq!(log.len(), 2);
    let last = log.last().unwrap();
    assert_eq!(last.notices, vec![Notice::TestEnd(false)]);
    assert_eq!(last.finished, Some(Err(s("no such program"))));
}

#[test]
fn stopping_the_machine_never_fails_the_run() {
    let c = config();
    let log = drive(&c, &quiet(), |cmd| match cmd {
        Command::Terminate => Err(s("already gone")),
        _ => Ok(String::new()),
    });
    assert_eq!(log.last().unwrap().finished, Some(Ok(())));
}

#[test]
fn verbose_runs_report_the_captured_output() {
    let c = config();
    let mut opts = quiet();
    opts.verbose = true;
    let mut prompts = 0;
    let log = drive(&c, &opts, |cmd| match cmd {
        Command::Expect(t) if t == "seconds" => Ok(s("up 12 ")),
        Command::Expect(t) if t == "PMM BITMAP DUMP" => Ok(s("")),
        Command::Expect(t) if t == "Legend:" => Ok(s("....\n")),
        Command::Expect(t) if t == "os~$" => {
            prompts += 1;
            Ok(format!("<{}>", prompts))
        },
        _ => Ok(s("ignored")),
    });
    let successes: Vec<&Notice> = log
        .iter()
        .flat_map(|r| r.notices.iter())
        .filter(|n| matches!(n, Notice::StepSuccess(..)))
        .collect();
    assert_eq!(
        successes,
        vec![
            &Notice::StepSuccess(0, s("uptime"), Some(s("up 12 \x1b[32mseconds\x1b[0m<2>"))),
            &Notice::StepSuccess(
                1,
                s("memdump 16"),
                Some(s("\x1b[32mPMM BITMAP DUMP\x1b[0m....\n\x1b[32mLegend:\x1b[0m<3>"))
            ),
        ]
    );
}

#[test]
fn a_scenario_without_tests() {
    let mut c = config();
    c.boot_sequence.clear();
    c.shell_interactions.tests.clear();
    let log = drive(&c, &quiet(), |_| Ok(String::new()));
    let commands: Vec<&Command> = log.iter().filter_map(|r| r.command.as_ref()).collect();
    assert_eq!(
        commands,
        vec![
            &Command::Spawn { program: s("qemu-system-i386 -display none"), timeout_ms: 5000 },
            &Command::Expect(s("os~$")),
            &Command::Terminate,
        ]
    );
}
