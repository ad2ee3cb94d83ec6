use ccpark::session::{resolve_claude_pid, SessionEntry};
use ccpark::walk::{DirEntry, EntryKind};

fn file(name: &str) -> DirEntry<String> {
    DirEntry { path: name.to_string(), name: name.to_string(), kind: EntryKind::File, is_link: false }
}

fn says(pid: u32, session_id: &str) -> Option<SessionEntry> {
    Some(SessionEntry { pid, session_id: session_id.to_string() })
}

#[test]
fn resolve_claude_pid_matches_session_file() {
    let dir = "ccpark-test-sessions".to_string();
    let list = |_: &String| Some(vec![file("ignore.txt"), file("123.json")]);
    let read = |path: &String| match path.as_str() {
        "123.json" => says(123, "abc"),
        _ => None,
    };
    assert_eq!(resolve_claude_pid(&dir, "abc", list, read), Some(123));
    assert_eq!(resolve_claude_pid(&dir, "zzz", list, read), None);
}

#[test]
fn first_matching_file_counts() {
    let dir = "d".to_string();
    let list = |_: &String| {
        Some(vec![file("bad.json"), file("1.json"), file("2.json"), file("3.json")])
    };
    let read = |path: &String| match path.as_str() {
        "1.json" => says(1, "other"),
        "2.json" => says(2, "abc"),
        "3.json" => says(3, "abc"),
        _ => None,
    };
    assert_eq!(resolve_claude_pid(&dir, "abc", list, read), Some(2));
}

#[test]
fn only_json_files_are_read() {
    let dir = "d".to_string();
    let list = |_: &String| Some(vec![file("1.jsonl"), file(".json"), file("json"), file("1.JSON")]);
    let read = |_: &String| says(7, "abc");
    assert_eq!(resolve_claude_pid(&dir, "abc", list, read), None);
}

#[test]
fn unreadable_directory_has_no_sessions() {
    let dir = "d".to_string();
    let list = |_: &String| None::<Vec<DirEntry<String>>>;
    assert_eq!(resolve_claude_pid(&dir, "abc", list, |_: &String| says(7, "abc")), None);
}
