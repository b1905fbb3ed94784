use windy::debugger::{debug_source_inner, dir_name, parse_command, Command};
use windy::render::{render_stack, render_stdout};
use windy::Int;

fn drive(source: &str, commands: &str) -> (i32, String, String) {
    debug_source_inner(source, commands)
}

#[test]
fn quit_returns_zero() {
    let (code, _, _) = drive("@", "q\n");
    assert_eq!(code, 0);
}

#[test]
fn step_then_quit() {
    let (code, _, _) = drive("5.@", "s\nq\n");
    assert_eq!(code, 0);
}

#[test]
fn continue_runs_to_halt() {
    let (code, ui, _) = drive("\"A\",@", "c\n");
    assert_eq!(code, 0);
    assert!(ui.contains("program halted"));
    // Captured stdout of the inner program appears in the UI buffer.
    assert!(ui.contains("A"));
}

#[test]
fn halt_detected_after_single_step() {
    let (code, _, _) = drive("@", "s\n");
    assert_eq!(code, 0);
}

#[test]
fn unknown_command_is_surfaced_not_fatal() {
    let (code, ui, _) = drive("@", "nope\nc\n");
    assert_eq!(code, 0);
    assert!(ui.contains("unknown command"));
}

#[test]
fn sisobus_banner_goes_to_stderr() {
    let (_, ui, err) = drive("\"sisobus\"@", "q\n");
    assert!(err.contains("Kim Sangkeun"));
    assert!(!ui.contains("Kim Sangkeun"));
}

#[test]
fn end_of_commands_ends_the_session() {
    let (code, ui, err) = drive("5.@", "");
    assert_eq!(code, 0);
    assert!(ui.ends_with("> "));
    assert_eq!(err, "");
}

#[test]
fn step_shows_halt_and_stops() {
    let (code, ui, _) = drive("@", "s\nq\n");
    assert_eq!(code, 0);
    assert!(ui.ends_with("program halted\n"));
}

#[test]
fn unknown_command_text_is_quoted() {
    let (_, ui, _) = drive("@", "  NoPe  \nq\n");
    assert!(ui.contains("unknown command: \"nope\"\n"));
}

#[test]
fn commands_are_trimmed_and_lowercased() {
    assert!(matches!(parse_command("  STEP \n"), Command::Step));
    assert!(matches!(parse_command("\n"), Command::Step));
    assert!(matches!(parse_command("Run"), Command::Continue));
    assert!(matches!(parse_command("exit\r\n"), Command::Quit));
    match parse_command("go") {
        Command::Unknown(t) => assert_eq!(t, "go"),
        _ => panic!("expected an unknown command"),
    }
}

#[test]
fn direction_names() {
    assert_eq!(dir_name(1, 0), "→ east");
    assert_eq!(dir_name(-1, 1), "↙ sw");
    assert_eq!(dir_name(0, 0), "?");
}

#[test]
fn stdout_panel_splits_lines() {
    assert_eq!(
        render_stdout(""),
        "┌─ program stdout ─────\n│ (no output)\n└──────────────────────\n"
    );
    assert_eq!(
        render_stdout("a\r\nb\n\nc"),
        "┌─ program stdout ─────\n│ a\n│ b\n│ \n│ c\n└──────────────────────\n"
    );
    assert_eq!(
        render_stdout("x\n"),
        "┌─ program stdout ─────\n│ x\n└──────────────────────\n"
    );
}

#[test]
fn stack_panel_shows_top_twenty() {
    let stack: Vec<Int> = (0..25).map(|v| Int::from_i64(v)).collect();
    let text = render_stack(&stack);
    assert!(text.starts_with("┌─ stack (top first) ─\n│ 24\n│ 23\n"));
    assert!(text.contains("│ 5\n│ ... (+5 below)\n"));
    assert!(!text.contains("│ 4\n"));
    assert_eq!(
        render_stack(&Vec::new()),
        "┌─ stack (top first) ─\n│ (empty)\n└─────────────────────\n"
    );
}

#[test]
fn frame_marks_the_ip_cell() {
    let (_, ui, _) = drive("5.@", "q\n");
    assert!(ui.starts_with("\x1b[2J\x1b[H"));
    assert!(ui.contains("\x1b[7m5\x1b[0m.@"));
    assert!(ui.contains("│ op:     PUSH_DIGIT (value=5)\n"));
    assert!(ui.contains("│ cell:   '5' (U+0035)\n"));
    assert!(ui.contains("│ dir:    → east\n"));
}
