use ccpark::ps::{controlling_tty, parse_ps_rows};
use ccpark::terminal::ProcRow;

#[test]
fn process_list_is_read_line_by_line() {
    let output = "    1     0 /sbin/launchd\n  501     1 /Applications/Visual Studio Code.app/Contents/MacOS/Electron\n99999   501 -zsh\r\n";
    let rows = parse_ps_rows(output);
    assert_eq!(
        rows,
        vec![
            ProcRow { pid: 1, ppid: 0, comm: "/sbin/launchd".into() },
            ProcRow {
                pid: 501,
                ppid: 1,
                comm: "/Applications/Visual Studio Code.app/Contents/MacOS/Electron".into(),
            },
            ProcRow { pid: 99999, ppid: 501, comm: "-zsh".into() },
        ]
    );
}

#[test]
fn other_lines_are_passed_over() {
    let output = "\nPID PPID COMM\n12 x a\n12\n12 13\n12 13   \n4294967296 1 big\n4294967295 1 most\n-1 2 minus\n7 8 ok";
    let rows = parse_ps_rows(output);
    assert_eq!(
        rows,
        vec![
            ProcRow { pid: 4294967295, ppid: 1, comm: "most".into() },
            ProcRow { pid: 7, ppid: 8, comm: "ok".into() },
        ]
    );
    assert!(parse_ps_rows("").is_empty());
}

#[test]
fn tty_is_trimmed_and_may_be_missing() {
    assert_eq!(controlling_tty(Some("ttys003  \n")), Some("ttys003".to_string()));
    assert_eq!(controlling_tty(Some("??\n")), None);
    assert_eq!(controlling_tty(Some(" \n")), None);
    assert_eq!(controlling_tty(None), None);
}
