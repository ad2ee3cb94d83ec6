use ccpark::error::{AppError, FocusResult};
use ccpark::focus::{front_error, run_error, session_error, task_error, Outcome};
use ccpark::focus_mac::{MacAction, MacEvent, MacState};
use ccpark::focus_win::{WinAction, WinEvent, WinState};
use ccpark::terminal::ProcRow;

const NO_SESSION: &str = "no running agent process found (the session may have ended)";

fn mac_start() -> MacState<String> {
    MacState::start("agent".to_string(), "/Users/x/my-project".to_string())
}

fn mac_listed(terminal: &str) -> MacState<String> {
    let output = format!("  40    30 /usr/bin/node\n  30    20 -zsh\n  20     1 {terminal}\n");
    mac_start().advance(MacEvent::Session(Some(40))).advance(MacEvent::Processes(Ok(output)))
}

fn done(state: MacState<String>) -> Result<FocusResult, AppError> {
    match state {
        MacState::Done(outcome) => outcome.into_result(),
        other => panic!("not at the end: {other:?}"),
    }
}

fn focused(app: &str, window_focused: bool) -> Result<FocusResult, AppError> {
    Ok(FocusResult { app: app.to_string(), window_focused })
}

fn failed(message: &str) -> Result<FocusResult, AppError> {
    Err(AppError::Other(message.to_string()))
}

const ITERM: &str = "/Applications/iTerm.app/Contents/MacOS/iTerm2";
const VSCODE: &str = "/Applications/Visual Studio Code.app/Contents/Frameworks/Code Helper.app/Contents/MacOS/Code Helper";

#[test]
fn macos_focuses_the_tab_of_the_tty() {
    let state = mac_start();
    assert_eq!(state.action(), MacAction::ResolveSession);
    let state = state.advance(MacEvent::Session(Some(40)));
    assert_eq!(state.action(), MacAction::ListProcesses);
    let state = mac_listed(ITERM);
    assert_eq!(state.action(), MacAction::ReadTty(40));
    let state = state.advance(MacEvent::Tty(Some("ttys003\n".to_string())));
    assert_eq!(
        state.action(),
        MacAction::Activate("tell application \"iTerm\" to activate".to_string())
    );
    let state = state.advance(MacEvent::Ran(true));
    match state.action() {
        MacAction::FocusWindow(script) => assert!(script.contains("/dev/ttys003")),
        other => panic!("unexpected {other:?}"),
    }
    let state = state.advance(MacEvent::Ran(true));
    assert_eq!(state.action(), MacAction::Finish);
    assert_eq!(done(state), focused("iTerm", true));
}

#[test]
fn macos_window_is_best_effort() {
    let activated = |tty: Option<String>, terminal: &str| {
        mac_listed(terminal).advance(MacEvent::Tty(tty)).advance(MacEvent::Ran(true))
    };
    let tty = Some("ttys003".to_string());
    assert_eq!(
        done(activated(tty.clone(), ITERM).advance(MacEvent::Ran(false))),
        focused("iTerm", false)
    );
    assert_eq!(
        done(activated(None, ITERM).advance(MacEvent::Ran(true))),
        focused("iTerm", false)
    );
    let ghostty = "/Applications/Ghostty.app/Contents/MacOS/ghostty";
    let state = activated(tty, ghostty);
    match state.action() {
        MacAction::FocusWindow(script) => assert!(script.contains("\"my-project\"")),
        other => panic!("unexpected {other:?}"),
    }
    assert_eq!(done(state.advance(MacEvent::Ran(true))), focused("Ghostty", false));
    assert_eq!(done(activated(None, "WindowsTerminal.exe")), focused("Windows Terminal", false));
}

#[test]
fn macos_vscode_uses_its_own_tool() {
    let state = mac_listed(VSCODE).advance(MacEvent::Tty(None));
    assert_eq!(state.action(), MacAction::FindCli { host_comm: VSCODE.to_string() });
    let state = state.advance(MacEvent::Cli(Some("/code".to_string())));
    assert_eq!(
        state.action(),
        MacAction::RunCli {
            cli: "/code".to_string(),
            folder: "/Users/x/my-project".to_string()
        }
    );
    assert_eq!(done(state.advance(MacEvent::Ran(true))), focused("Visual Studio Code", true));
}

#[test]
fn macos_vscode_falls_back_to_activation() {
    let script = "tell application \"Visual Studio Code\" to activate".to_string();
    let found = mac_listed(VSCODE).advance(MacEvent::Tty(Some("ttys003".to_string())));
    let state = found.advance(MacEvent::Cli(None));
    assert_eq!(state.action(), MacAction::Activate(script.clone()));
    let ran = mac_listed(VSCODE)
        .advance(MacEvent::Tty(Some("ttys003".to_string())))
        .advance(MacEvent::Cli(Some("/code".to_string())))
        .advance(MacEvent::Ran(false));
    assert_eq!(ran.action(), MacAction::Activate(script));
    let state = ran.advance(MacEvent::Ran(true)).advance(MacEvent::Ran(true));
    assert_eq!(done(state), focused("Visual Studio Code", false));
}

#[test]
fn macos_failures_have_their_reasons() {
    assert_eq!(done(mac_start().advance(MacEvent::Session(None))), failed(NO_SESSION));
    let listing = mac_start().advance(MacEvent::Session(Some(40)));
    assert_eq!(
        done(listing.advance(MacEvent::Processes(Err("failed to run ps: gone".to_string())))),
        failed("failed to run ps: gone")
    );
    assert_eq!(done(mac_listed("/sbin/launchd")), failed("could not identify the host terminal"));
    let state = mac_listed(ITERM).advance(MacEvent::Tty(None)).advance(MacEvent::Ran(false));
    assert_eq!(done(state), failed("could not bring iTerm to the front"));
}

#[test]
fn macos_unsupported_terminal_is_refused() {
    let state: MacState<String> = MacState::Tty {
        claude_pid: 1,
        project: "p".to_string(),
        host: ccpark::terminal::HostTerminal {
            pid: 1,
            kind: ccpark::terminal::TerminalKind::Unknown,
        },
        host_comm: None,
    };
    assert_eq!(done(state.advance(MacEvent::Tty(None))), failed("unsupported terminal"));
}

#[test]
fn other_events_change_nothing() {
    let state = mac_start().advance(MacEvent::Ran(true));
    assert_eq!(state, mac_start());
    let state = win_start().advance(WinEvent::Raised(Ok(())));
    assert_eq!(state, win_start());
}

fn win_start() -> WinState<String, Vec<u32>> {
    WinState::start("agent".to_string(), r"C:\my-project".to_string())
}

fn win_listed(terminal: &str) -> WinState<String, Vec<u32>> {
    let rows = vec![
        ProcRow { pid: 40, ppid: 30, comm: "node.exe".into() },
        ProcRow { pid: 30, ppid: 20, comm: "pwsh.exe".into() },
        ProcRow { pid: 20, ppid: 10, comm: terminal.into() },
        ProcRow { pid: 10, ppid: 1, comm: terminal.into() },
    ];
    win_start().advance(WinEvent::Session(Some(40))).advance(WinEvent::Processes(Ok(rows)))
}

fn win_done(state: WinState<String, Vec<u32>>) -> Result<FocusResult, AppError> {
    match state {
        WinState::Done(outcome) => outcome.into_result(),
        other => panic!("not at the end: {other:?}"),
    }
}

#[test]
fn windows_raises_the_first_window_that_lets_itself_be_raised() {
    let state = win_start();
    assert_eq!(state.action(), WinAction::ResolveSession);
    let state = state.advance(WinEvent::Session(Some(40)));
    assert_eq!(state.action(), WinAction::ListProcesses);
    let state = win_listed("WindowsTerminal.exe");
    assert_eq!(state.action(), WinAction::RaiseWindow(20));
    let state = state.advance(WinEvent::Raised(Err("no window".to_string())));
    assert_eq!(state.action(), WinAction::RaiseWindow(10));
    let state = state.advance(WinEvent::Raised(Ok(())));
    assert_eq!(state.action(), WinAction::Finish);
    assert_eq!(win_done(state), focused("Windows Terminal", false));
}

#[test]
fn windows_vscode_uses_its_own_tool() {
    let state = win_listed("Code.exe");
    assert_eq!(state.action(), WinAction::ImagePath(20));
    let state = state.advance(WinEvent::ImagePath(Some(r"C:\Code.exe".to_string())));
    assert_eq!(state.action(), WinAction::FindCli { exe_path: r"C:\Code.exe".to_string() });
    let state = state.advance(WinEvent::Cli(Some("code.cmd".to_string())));
    assert_eq!(
        state.action(),
        WinAction::RunCli { cli: "code.cmd".to_string(), folder: r"C:\my-project".to_string() }
    );
    assert_eq!(win_done(state.advance(WinEvent::Ran(true))), focused("Visual Studio Code", true));
}

#[test]
fn windows_vscode_falls_back_to_raising() {
    let path = || win_listed("Code.exe").advance(WinEvent::ImagePath(Some("x".to_string())));
    let states = [
        win_listed("Code.exe").advance(WinEvent::ImagePath(None)),
        path().advance(WinEvent::Cli(None)),
        path().advance(WinEvent::Cli(Some("c".to_string()))).advance(WinEvent::Ran(false)),
    ];
    for state in states {
        assert_eq!(state.action(), WinAction::RaiseWindow(20));
        let state = state.advance(WinEvent::Raised(Ok(())));
        assert_eq!(win_done(state), focused("Visual Studio Code", false));
    }
}

#[test]
fn windows_failures_have_their_reasons() {
    assert_eq!(win_done(win_start().advance(WinEvent::Session(None))), failed(NO_SESSION));
    let listing = win_start().advance(WinEvent::Session(Some(40)));
    assert_eq!(
        win_done(listing.advance(WinEvent::Processes(Err("no snapshot".to_string())))),
        failed("no snapshot")
    );
    assert_eq!(win_done(win_listed("cmd.exe")), failed("could not identify the host terminal"));
    let state = win_listed("WindowsTerminal.exe")
        .advance(WinEvent::Raised(Err("first".to_string())))
        .advance(WinEvent::Raised(Err("last".to_string())));
    assert_eq!(win_done(state), failed("last"));
}

#[test]
fn messages_in_full() {
    assert_eq!(session_error("agent"), NO_SESSION);
    assert_eq!(front_error("Ghostty"), "could not bring Ghostty to the front");
    assert_eq!(run_error("ps", "gone").message(), "failed to run ps: gone");
    assert_eq!(task_error("panicked").message(), "terminal focus task failed: panicked");
    assert_eq!(AppError::other("why").message(), "why");
    let outcome = Outcome::Failed("why".to_string());
    assert_eq!(outcome.into_result(), failed("why"));
}
