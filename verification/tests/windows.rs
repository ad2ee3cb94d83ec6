use ccpark::windows::{
    image_path, is_focusable, raise_outcome, raise_steps, rows_of_snapshot, snapshot_error,
    text_before_nul, window_to_raise, windows_of_pid, ImagePath, ProcessEntry, WindowInfo,
    WindowStep, IMAGE_PATH_UNITS,
};

fn process(pid: u32, ppid: u32, exe: &str, size: usize) -> ProcessEntry {
    let mut units: Vec<u16> = exe.encode_utf16().collect();
    units.resize(size, 0);
    ProcessEntry { pid, ppid, exe: units }
}

#[test]
fn snapshot_names_end_at_the_nul() {
    let mut dirty = process(3, 2, "b.exe", 8);
    dirty.exe[7] = 'x' as u16;
    let rows = rows_of_snapshot(&[
        process(1, 0, "System", 260),
        process(2, 1, "", 260),
        dirty,
        process(4, 3, "full", 4),
    ]);
    let seen: Vec<(u32, u32, &str)> =
        rows.iter().map(|r| (r.pid, r.ppid, r.comm.as_str())).collect();
    assert_eq!(seen, vec![(1, 0, "System"), (3, 2, "b.exe"), (4, 3, "full")]);
    assert!(rows_of_snapshot(&[]).is_empty());
}

#[test]
fn texts_are_read_as_utf16() {
    let buffers: Vec<Vec<u16>> = vec![
        vec![],
        "Größe".encode_utf16().collect(),
        "a\u{1d11e}b\u{10ffff}".encode_utf16().collect(),
        vec![0xd834, 0xdd1e, 0x6d, 0x75, 0xd800, 0x69, 0x63],
        vec![0xd800],
        vec![0xdc00, 0xd800, 0xdc00],
        vec![0xd800, 0xd800, 0xdfff],
        vec![0xdbff, 0x41],
        vec![0xffff, 0xe000, 0xd7ff],
    ];
    for units in buffers {
        assert_eq!(text_before_nul(&units), String::from_utf16_lossy(&units));
    }
    assert_eq!(text_before_nul(&[0x41, 0, 0x42]), "A");
    assert_eq!(text_before_nul(&[0xd800, 0x41]), "\u{fffd}A");
}

#[test]
fn image_path_is_the_written_part_of_the_buffer() {
    let mut buffer: Vec<u16> = r"C:\x\Code.exe".encode_utf16().collect();
    let len = buffer.len() as u32;
    buffer.resize(IMAGE_PATH_UNITS, 0x3f);
    assert_eq!(buffer.len(), 1024);
    assert_eq!(
        image_path(Some(ImagePath { buffer, len })),
        Some(r"C:\x\Code.exe".to_string())
    );
    assert_eq!(image_path(Some(ImagePath { buffer: vec![1, 2], len: 0 })), Some(String::new()));
    assert_eq!(image_path(None), None);
}

fn window(handle: isize, pid: u32) -> WindowInfo {
    WindowInfo { handle, pid, visible: true, owner_is_null: Some(true), title_len: 5 }
}

#[test]
fn only_visible_unowned_titled_windows_are_focusable() {
    let good = window(1, 7);
    assert!(is_focusable(&good, 7));
    assert!(!is_focusable(&good, 8));
    assert!(!is_focusable(&WindowInfo { visible: false, ..good }, 7));
    assert!(!is_focusable(&WindowInfo { owner_is_null: Some(false), ..good }, 7));
    assert!(is_focusable(&WindowInfo { owner_is_null: None, ..good }, 7));
    assert!(!is_focusable(&WindowInfo { title_len: 0, ..good }, 7));
}

#[test]
fn first_focusable_window_is_raised() {
    let hidden = WindowInfo { visible: false, ..window(10, 7) };
    let windows = [window(9, 6), hidden, window(11, 7), window(12, 7)];
    assert_eq!(windows_of_pid(&windows, 7), vec![11, 12]);
    assert_eq!(window_to_raise(&windows, 7), Ok(11));
    let error = window_to_raise(&windows, 5).unwrap_err();
    assert_eq!(error.message(), "the terminal has no focusable window");
    assert!(window_to_raise(&[], 5).is_err());
}

#[test]
fn minimized_window_is_restored_first() {
    assert_eq!(raise_steps(true), vec![WindowStep::Restore, WindowStep::SetForeground]);
    assert_eq!(raise_steps(false), vec![WindowStep::SetForeground]);
    assert_eq!(raise_outcome(true), Ok(()));
    assert_eq!(
        raise_outcome(false).unwrap_err().message(),
        "Windows refused to bring the terminal to the front"
    );
}

#[test]
fn failed_snapshot_is_reported() {
    assert_eq!(snapshot_error("denied").message(), "process snapshot failed: denied");
}
