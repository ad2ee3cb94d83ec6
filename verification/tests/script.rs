use ccpark::script::{build_activate_script, build_window_focus_script, focus_is_reliable};
use ccpark::terminal::TerminalKind;

#[test]
fn activate_script_targets_app() {
    let s = build_activate_script("Ghostty");
    assert_eq!(s, "tell application \"Ghostty\" to activate");
}

#[test]
fn terminal_focus_script_matches_by_tty() {
    let s = build_window_focus_script(&TerminalKind::TerminalApp, Some("ttys003"), "my-project");
    assert!(s.contains("tell application \"Terminal\""));
    assert!(s.contains("/dev/ttys003"));
}

#[test]
fn iterm2_focus_script_matches_session_by_tty() {
    let s = build_window_focus_script(&TerminalKind::ITerm2, Some("ttys003"), "my-project");
    assert!(s.contains("tell application \"iTerm\""));
    assert!(s.contains("sessions of t"));
    assert!(s.contains("/dev/ttys003"));
}

#[test]
fn vscode_focus_script_matches_by_title_needle() {
    let s = build_window_focus_script(&TerminalKind::VsCode, None, "my-project");
    assert!(s.contains("System Events"));
    assert!(s.contains("AXRaise"));
    assert!(s.contains("my-project"));
}

#[test]
fn ghostty_focus_script_uses_system_events() {
    let s = build_window_focus_script(&TerminalKind::Ghostty, None, "my-project");
    assert!(s.contains("System Events"));
    assert!(s.contains("AXRaise"));
}

#[test]
fn unknown_focus_script_is_empty() {
    assert!(build_window_focus_script(&TerminalKind::Unknown, None, "x").is_empty());
}

#[test]
fn focus_reliable_only_for_terminal_app_with_tty() {
    assert!(focus_is_reliable(&TerminalKind::TerminalApp, Some("ttys003")));
    assert!(focus_is_reliable(&TerminalKind::ITerm2, Some("ttys003")));
    assert!(!focus_is_reliable(&TerminalKind::ITerm2, None));
    assert!(!focus_is_reliable(&TerminalKind::TerminalApp, None));
    assert!(!focus_is_reliable(&TerminalKind::Ghostty, Some("ttys003")));
    assert!(!focus_is_reliable(&TerminalKind::VsCode, Some("ttys003")));
}

#[test]
fn terminal_script_in_full() {
    let s = build_window_focus_script(&TerminalKind::TerminalApp, Some("ttys003"), "x");
    let lines: Vec<&str> = s.split('\n').collect();
    assert_eq!(
        lines,
        vec![
            "tell application \"Terminal\"",
            "repeat with w in windows",
            "repeat with t in tabs of w",
            "if tty of t is \"/dev/ttys003\" then",
            "set selected tab of w to t",
            "set frontmost of w to true",
            "set index of w to 1",
            "return",
            "end if",
            "end repeat",
            "end repeat",
            "end tell",
        ]
    );
}

#[test]
fn iterm_script_in_full() {
    let s = build_window_focus_script(&TerminalKind::ITerm2, None, "x");
    let lines: Vec<&str> = s.split('\n').collect();
    assert_eq!(
        lines,
        vec![
            "tell application \"iTerm\"",
            "repeat with w in windows",
            "repeat with t in tabs of w",
            "repeat with s in sessions of t",
            "if tty of s is \"\" then",
            "select w",
            "select t",
            "select s",
            "return",
            "end if",
            "end repeat",
            "end repeat",
            "end repeat",
            "end tell",
        ]
    );
}

#[test]
fn title_script_in_full_drops_quotes() {
    let s = build_window_focus_script(&TerminalKind::Ghostty, Some("ttys003"), "a\"b\" c\"");
    let lines: Vec<&str> = s.split('\n').collect();
    assert_eq!(
        lines,
        vec![
            "tell application \"System Events\"",
            "set procs to (every process whose frontmost is true)",
            "repeat with p in procs",
            "repeat with w in windows of p",
            "if name of w contains \"ab c\" then",
            "perform action \"AXRaise\" of w",
            "return",
            "end if",
            "end repeat",
            "end repeat",
            "end tell",
        ]
    );
    let other = build_window_focus_script(&TerminalKind::VsCode, None, "ab c");
    assert_eq!(s, other);
}

#[test]
fn windows_terminal_has_no_script() {
    let s = build_window_focus_script(&TerminalKind::WindowsTerminal, Some("ttys003"), "x");
    assert_eq!(s, "");
}
