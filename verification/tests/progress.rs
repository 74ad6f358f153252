use walkman::config::{CommandTest, ShellInteractions, TestConfig};
use walkman::engine::{Command, Notice, QemuRunner};
use walkman::reporter::tui::{Status, TuiReporter};
use walkman::traits::{Reporter, Runner};
use walkman::Cli;

fn config() -> TestConfig {
    TestConfig {
        name: "Basic Shell Integration".to_string(),
        command: "qemu-system-i386 -cdrom output/AuriOS.iso".to_string(),
        timeout_ms: 8000,
        boot_sequence: vec![
            "Starting AuriOS boot sequence...".to_string(),
            "System ready.".to_string(),
        ],
        shell_interactions: ShellInteractions {
            prompt: "auri-os".to_string(),
            tests: vec![
                CommandTest { command: "uptime -s".to_string(), expect: vec!["s\r\n".to_string()] },
                CommandTest {
                    command: "memdump 16".to_string(),
                    expect: vec!["PMM BITMAP DUMP".to_string(), "Legend:".to_string()],
                },
            ],
        },
    }
}

fn hear(r: &mut TuiReporter, c: &TestConfig, n: &Notice) {
    match n {
        Notice::TestStart => r.on_test_start(c),
        Notice::BootStart(i, m) => r.on_boot_start(*i, m),
        Notice::BootCheck(i, m) => r.on_boot_check(*i, m),
        Notice::StepStart(t, x) => r.on_step_start(*t, x),
        Notice::StepSuccess(t, x, d) => r.on_step_success(*t, x, d.clone()),
        Notice::StepFailure(w, x, why) => r.on_step_failure(*w, x, why),
        Notice::TestEnd(b) => r.on_test_end(*b),
    };
}

fn run(c: &TestConfig, mut answer: impl FnMut(&Command) -> Result<String, String>) -> TuiReporter {
    let opts = Cli { path: "t.yml".to_string(), nui: false, verbose: false };
    let mut screen = TuiReporter::new(c);
    let (mut runner, mut reaction) = QemuRunner::start(c, &opts);
    loop {
        for n in &reaction.notices {
            hear(&mut screen, c, n);
        }
        if reaction.finished.is_some() {
            return screen;
        }
        let outcome = answer(reaction.command.as_ref().unwrap());
        reaction = runner.resume(c, outcome);
    }
}

#[test]
fn screen_shows_every_step_succeeded_after_a_passing_run() {
    let c = config();
    let screen = run(&c, |_| Ok(String::new()));
    for (_, st) in screen.boot_steps() {
        assert_eq!(*st, Status::Success);
    }
    for (_, st) in screen.shell_steps() {
        assert_eq!(*st, Status::Success);
    }
}

#[test]
fn screen_shows_where_a_run_failed() {
    let c = config();
    let screen = run(&c, |cmd| match cmd {
        Command::Expect(t) if t == "Legend:" => Err("Timeout".to_string()),
        _ => Ok(String::new()),
    });
    assert!(screen.boot_steps().iter().all(|(_, s)| *s == Status::Success));
    assert_eq!(screen.shell_steps()[0].1, Status::Success);
    assert_eq!(screen.shell_steps()[1].1, Status::Failed("Timeout".to_string()));
}

#[test]
fn screen_shows_a_failed_boot_text() {
    let c = config();
    let screen = run(&c, |cmd| match cmd {
        Command::Expect(t) if t == "System ready." => Err("Timeout".to_string()),
        _ => Ok(String::new()),
    });
    assert_eq!(screen.boot_steps()[0].1, Status::Success);
    assert_eq!(screen.boot_steps()[1].1, Status::Failed("Timeout".to_string()));
    assert!(screen.shell_steps().iter().all(|(_, s)| *s == Status::Pending));
}

#[test]
fn repeated_boot_texts_all_succeed() {
    let mut c = config();
    c.boot_sequence = vec!["OK".to_string(), "OK".to_string()];
    c.shell_interactions.tests.clear();
    let screen = run(&c, |_| Ok(String::new()));
    assert_eq!(screen.boot_steps()[0].1, Status::Success);
    assert_eq!(screen.boot_steps()[1].1, Status::Success);
}
