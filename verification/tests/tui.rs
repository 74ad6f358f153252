use walkman::config::{CommandTest, ShellInteractions, TestConfig};
use walkman::engine::StepRef;
use walkman::reporter::tui::{Status, TuiReporter};
use walkman::traits::{DrawOp, Reporter};

fn get_mock_config() -> TestConfig {
    TestConfig {
        name: "Mock".to_string(),
        command: "echo".to_string(),
        timeout_ms: 1000,
        boot_sequence: vec!["booting".to_string()],
        shell_interactions: ShellInteractions {
            prompt: "$".to_string(),
            tests: vec![CommandTest {
                command: "ls".to_string(),
                expect: vec!["file".to_string()],
            }],
        },
    }
}

fn printed(ops: &[DrawOp]) -> String {
    let mut s = String::new();
    for op in ops {
        if let DrawOp::Print(t) = op {
            s.push_str(t);
        }
    }
    s
}

#[test]
fn test_tui_state_transitions() {
    let config = get_mock_config();
    let mut reporter = TuiReporter::new(&config);

    {
        assert_eq!(reporter.boot_steps()[0].1, Status::Pending);
        assert_eq!(reporter.shell_steps()[0].1, Status::Pending);
    }

    reporter.on_boot_start(0, "booting");
    assert_eq!(reporter.boot_steps()[0].1, Status::Running);

    reporter.on_boot_check(0, "booting");
    assert_eq!(reporter.boot_steps()[0].1, Status::Success);

    reporter.on_step_failure(StepRef::Shell(0), "ls", "timeout");
    assert_eq!(
        reporter.shell_steps()[0].1,
        Status::Failed("timeout".to_string())
    );
}

#[test]
fn status_goes_to_the_step_at_its_position() {
    let mut config = get_mock_config();
    config.boot_sequence = vec!["a".to_string(), "b".to_string(), "a".to_string()];
    let mut reporter = TuiReporter::new(&config);
    reporter.on_boot_start(2, "a");
    assert_eq!(reporter.boot_steps()[0].1, Status::Pending);
    assert_eq!(reporter.boot_steps()[1].1, Status::Pending);
    assert_eq!(reporter.boot_steps()[2].1, Status::Running);
    reporter.on_boot_check(7, "zzz");
    assert_eq!(reporter.boot_steps()[2].1, Status::Running);
    assert_eq!(reporter.boot_steps().len(), 3);
    assert_eq!(reporter.boot_steps()[2].0, "a");
    reporter.on_step_failure(StepRef::Whole, "Waiting for initial prompt", "EOF");
    assert!(reporter.boot_steps().iter().all(|(_, s)| *s != Status::Failed("EOF".to_string())));
    assert_eq!(reporter.shell_steps()[0].1, Status::Pending);
}

#[test]
fn opening_the_screen_hides_the_cursor() {
    let (reporter, ops) = TuiReporter::open(&get_mock_config());
    assert_eq!(ops, vec![DrawOp::HideCursor]);
    assert_eq!(reporter.boot_steps()[0].1, Status::Pending);
}

#[test]
fn drawing_twice_prints_the_same_text() {
    let config = get_mock_config();
    let mut reporter = TuiReporter::new(&config);
    reporter.on_test_start(&config);
    let first = reporter.on_boot_start(0, "booting");
    let second = reporter.on_boot_start(0, "booting");
    assert_eq!(printed(&first), printed(&second));
    assert_eq!(second[0], DrawOp::MoveUp(printed(&first).matches('\n').count() as u16));
}

#[test]
fn first_drawing_does_not_move_up() {
    let config = get_mock_config();
    let mut reporter = TuiReporter::new(&config);
    let ops = reporter.on_test_start(&config);
    assert_eq!(ops[0], DrawOp::Print("\n📼 WALKMAN PLAYING: ".to_string()));
    assert_eq!(ops[2], DrawOp::Print("Mock".to_string()));
    // header 6 + one pending boot step 1 + shell heading 2 + one pending command 1 + footer 2
    assert_eq!(printed(&ops).matches('\n').count(), 12);
}

#[test]
fn redraw_moves_up_over_the_previous_drawing() {
    let config = get_mock_config();
    let mut reporter = TuiReporter::new(&config);
    let first = reporter.on_test_start(&config);
    let lines = printed(&first).matches('\n').count();
    let second = reporter.on_boot_start(0, "booting");
    assert_eq!(second[0], DrawOp::MoveUp(lines as u16));
    assert_eq!(second[1], DrawOp::MoveToColumn(0));
    assert_eq!(second[2], DrawOp::ClearFromCursorDown);
    // a running step takes three lines
    assert_eq!(printed(&second).matches('\n').count(), lines + 2);
    let third = reporter.on_step_failure(StepRef::Shell(0), "ls", "timeout");
    let text = printed(&third);
    assert!(text.contains("Reason: timeout\n"));
    assert!(text.contains("command: ls\n"));
}

#[test]
fn drawing_of_each_status() {
    let config = get_mock_config();
    let mut reporter = TuiReporter::new(&config);
    reporter.on_test_start(&config);
    let ops = reporter.on_boot_start(0, "booting");
    let text = printed(&ops);
    assert!(text.contains("  ▶ Waiting for: booting\n    │ 📦  Sending payload...\n    │ ⏳ Waiting for OS response...\n"));
    assert!(text.contains("  · command: ls\n"));
    let ops = reporter.on_step_success(0, "ls", None);
    let text = printed(&ops);
    assert!(text.contains("  ● command: ls\n"));
    let ops = reporter.on_step_failure(StepRef::Boot(0), "booting", "dead");
    let text = printed(&ops);
    assert!(text.contains("  ● Waiting for: booting\n  \x1b[31m↳ │\x1b[0m Reason: dead\n"));
    assert!(text.contains(&format!("\n{}\n", "-".repeat(80))));
}

#[test]
fn end_of_test_on_the_screen() {
    let config = get_mock_config();
    let mut reporter = TuiReporter::new(&config);
    assert_eq!(
        reporter.on_test_end(true),
        vec![
            DrawOp::SetColor(walkman::traits::TermColor::Green),
            DrawOp::Print("RESULT: ALL TESTS PASSED\n\n".to_string()),
            DrawOp::ResetColor,
            DrawOp::ShowCursor,
        ]
    );
    assert_eq!(
        reporter.on_test_end(false)[1],
        DrawOp::Print("RESULT: TEST SUITE FAILED\n\n".to_string())
    );
}
