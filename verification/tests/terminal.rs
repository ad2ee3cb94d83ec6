use ccpark::terminal::{
    app_name, classify_comm, find_host_terminal, find_row, same_kind_ancestors, HostTerminal,
    ProcRow, TerminalKind, MAX_ANCESTORS,
};

fn row(pid: u32, ppid: u32, comm: &str) -> ProcRow {
    ProcRow { pid, ppid, comm: comm.to_string() }
}

#[test]
fn app_name_maps_kinds() {
    assert_eq!(app_name(&TerminalKind::Ghostty), Some("Ghostty"));
    assert_eq!(app_name(&TerminalKind::ITerm2), Some("iTerm"));
    assert_eq!(app_name(&TerminalKind::VsCode), Some("Visual Studio Code"));
    assert_eq!(app_name(&TerminalKind::TerminalApp), Some("Terminal"));
    assert_eq!(app_name(&TerminalKind::WindowsTerminal), Some("Windows Terminal"));
    assert_eq!(app_name(&TerminalKind::Unknown), None);
}

#[test]
fn same_kind_ancestors_orders_nearest_first() {
    // node <- pwsh <- Code.exe (pty host) <- Code.exe (main window)
    let rows = vec![
        ProcRow { pid: 40, ppid: 30, comm: "node.exe".into() },
        ProcRow { pid: 30, ppid: 20, comm: "pwsh.exe".into() },
        ProcRow { pid: 20, ppid: 10, comm: "Code.exe".into() },
        ProcRow { pid: 10, ppid: 1, comm: "Code.exe".into() },
    ];
    assert_eq!(same_kind_ancestors(40, &TerminalKind::VsCode, &rows), vec![20, 10]);
    assert!(same_kind_ancestors(40, &TerminalKind::WindowsTerminal, &rows).is_empty());
}

#[test]
fn executables_are_classified() {
    assert_eq!(
        classify_comm("/Applications/Ghostty.app/Contents/MacOS/ghostty"),
        TerminalKind::Ghostty
    );
    assert_eq!(
        classify_comm("/Applications/iTerm.app/Contents/MacOS/iTerm2"),
        TerminalKind::ITerm2
    );
    assert_eq!(
        classify_comm("/Applications/Visual Studio Code.app/Contents/MacOS/Electron"),
        TerminalKind::VsCode
    );
    assert_eq!(
        classify_comm("/System/Applications/Utilities/Terminal.app/Contents/MacOS/Terminal"),
        TerminalKind::TerminalApp
    );
    assert_eq!(classify_comm("WindowsTerminal.exe"), TerminalKind::WindowsTerminal);
    assert_eq!(classify_comm("Code.exe"), TerminalKind::VsCode);
    assert_eq!(classify_comm("Code - Insiders.exe"), TerminalKind::VsCode);
    assert_eq!(classify_comm("pwsh.exe"), TerminalKind::Unknown);
    assert_eq!(classify_comm("/bin/zsh"), TerminalKind::Unknown);
    assert_eq!(classify_comm(""), TerminalKind::Unknown);
}

#[test]
fn host_is_the_nearest_terminal() {
    let rows = vec![
        row(40, 30, "node.exe"),
        row(30, 20, "pwsh.exe"),
        row(20, 10, "Code.exe"),
        row(10, 5, "Code.exe"),
        row(5, 1, "WindowsTerminal.exe"),
    ];
    let host = find_host_terminal(40, &rows);
    assert_eq!(host, Some(HostTerminal { pid: 20, kind: TerminalKind::VsCode }));
    assert_eq!(same_kind_ancestors(40, &TerminalKind::VsCode, &rows)[0], 20);
    assert_eq!(
        find_host_terminal(5, &rows),
        Some(HostTerminal { pid: 5, kind: TerminalKind::WindowsTerminal })
    );
}

#[test]
fn walk_ends_at_the_root_and_at_unknown_processes() {
    let rows = vec![row(40, 1, "node.exe"), row(1, 0, "Code.exe"), row(7, 99, "zsh")];
    assert_eq!(find_host_terminal(40, &rows), None);
    assert_eq!(find_host_terminal(7, &rows), None);
    assert_eq!(find_host_terminal(1234, &rows), None);
    assert_eq!(same_kind_ancestors(1, &TerminalKind::VsCode, &rows), vec![1]);
}

#[test]
fn walk_in_a_circle_ends() {
    let rows = vec![row(2, 3, "Code.exe"), row(3, 2, "Code.exe")];
    let pids = same_kind_ancestors(2, &TerminalKind::VsCode, &rows);
    assert_eq!(pids.len(), MAX_ANCESTORS as usize);
    assert_eq!(pids.len(), 64);
    assert_eq!(&pids[..3], &[2, 3, 2]);
    let dull = vec![row(2, 3, "zsh"), row(3, 2, "zsh")];
    assert_eq!(find_host_terminal(2, &dull), None);
}

#[test]
fn first_row_of_a_pid_counts() {
    let rows = vec![row(8, 1, "a"), row(9, 1, "b"), row(9, 1, "c")];
    assert_eq!(find_row(&rows, 9), Some(1));
    assert_eq!(find_row(&rows, 10), None);
}
