use walkman::config::{CommandTest, ShellInteractions, TestConfig};
use walkman::engine::StepRef;
use walkman::reporter::ConsoleReporter;
use walkman::traits::{DrawOp, Reporter};

fn config() -> TestConfig {
    TestConfig {
        name: "Basic Shell Integration".to_string(),
        command: "qemu-system-i386 -display none".to_string(),
        timeout_ms: 8000,
        boot_sequence: vec!["System ready.".to_string()],
        shell_interactions: ShellInteractions {
            prompt: "auri-os".to_string(),
            tests: vec![CommandTest { command: "uptime -s".to_string(), expect: vec!["s".to_string()] }],
        },
    }
}

fn text(ops: Vec<DrawOp>) -> String {
    let mut s = String::new();
    for op in ops {
        match op {
            DrawOp::Print(t) => s.push_str(&t),
            other => panic!("unexpected {:?}", other),
        }
    }
    s
}

#[test]
fn console_test_start_lines() {
    let mut r = ConsoleReporter;
    assert_eq!(
        text(r.on_test_start(&config())),
        "\n▶ 📼 WALKMAN PLAYING: Basic Shell Integration\n  ⚙️ Command: qemu-system-i386 -display none\n  ⏳ Timeout: 8000ms\n--------------------------------------------------\n"
    );
}

#[test]
fn console_steps() {
    let mut r = ConsoleReporter;
    assert_eq!(text(r.on_boot_start(0, "System ready.")), "");
    assert_eq!(text(r.on_boot_check(0, "System ready.")), "  [BOOT] Waiting for: 'System ready.' ...\n");
    assert_eq!(text(r.on_step_start(0, "uptime -s")), "  [TEST] Executing: 'uptime -s' ... ");
    assert_eq!(text(r.on_step_success(0, "uptime -s", None)), "\x1b[32mSUCCESS\x1b[0m\n");
    assert_eq!(
        text(r.on_step_success(0, "uptime -s", Some("up".to_string()))),
        "\x1b[32mSUCCESS\x1b[0m\n\x1b[90mup\x1b[0m\n"
    );
    assert_eq!(
        text(r.on_step_failure(StepRef::Shell(0), "uptime -s", "timeout")),
        "\x1b[31mFAILED\x1b[0m\n  ↳ Reason: timeout\n"
    );
}

#[test]
fn console_test_end() {
    let mut r = ConsoleReporter;
    assert_eq!(
        text(r.on_test_end(true)),
        "--------------------------------------------------\n\x1b[32mRESULT: PASS\n\x1b[0m\n"
    );
    assert_eq!(
        text(r.on_test_end(false)),
        "--------------------------------------------------\n\x1b[31mRESULT: FAIL\n\x1b[0m\n"
    );
}
