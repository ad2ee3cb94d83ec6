//! Windows: what a process snapshot says, which window stands for a process, and how to raise
//! it. The system calls are left to the caller, who hands over what they returned.

use vstd::prelude::*;

use crate::error::{AppError, AppResult};
use crate::terminal::{row_views, ProcRow, RowView};

verus! {

/// `char::from_u32` gives the character with this code point, and nothing for a number that is
/// no Unicode scalar value.
pub assume_specification[ char::from_u32 ](i: u32) -> (c: Option<char>)
    ensures
        c is Some <==> (i <= 0xd7ff || 0xe000 <= i <= 0x10ffff),
        c matches Some(ch) ==> ch == i as char,
;

/// How many units a buffer for the path of an executable holds.
pub const IMAGE_PATH_UNITS: usize = 1024;

/// The first unit of a surrogate pair.
pub open spec fn high_surrogate(unit: u16) -> bool {
    0xd800 <= unit <= 0xdbff
}

/// The second unit of a surrogate pair.
pub open spec fn low_surrogate(unit: u16) -> bool {
    0xdc00 <= unit <= 0xdfff
}

/// The character that a surrogate pair stands for.
pub open spec fn paired(high: u16, low: u16) -> char {
    (0x10000 + (high - 0xd800) * 0x400 + (low - 0xdc00)) as char
}

/// The text that UTF-16 units stand for, with U+FFFD in place of each surrogate that has no
/// partner.
pub open spec fn decoded(units: Seq<u16>) -> Seq<char>
    decreases units.len(),
{
    if units.len() == 0 {
        Seq::empty()
    } else if high_surrogate(units[0]) && units.len() > 1 && low_surrogate(units[1]) {
        seq![paired(units[0], units[1])] + decoded(units.skip(2))
    } else if high_surrogate(units[0]) || low_surrogate(units[0]) {
        seq!['\u{fffd}'] + decoded(units.skip(1))
    } else {
        seq![units[0] as char] + decoded(units.skip(1))
    }
}

/// The text that `units[..len]` stand for.
fn decode(units: &[u16], len: usize) -> (text: String)
    requires
        len <= units.len(),
    ensures
        text@ == decoded(units@.take(len as int)),
{
    let ghost all = units@.take(len as int);
    let mut text = String::new();
    let mut i: usize = 0;
    assert(all.skip(0) =~= all);
    while i < len
        invariant
            i <= len <= units.len(),
            all == units@.take(len as int),
            text@ + decoded(all.skip(i as int)) == decoded(all),
        decreases len - i,
    {
        let ghost rest = all.skip(i as int);
        let ghost before = text@;
        let unit: u16 = units[i];
        assert(rest[0] == unit);
        if 0xd800 <= unit && unit <= 0xdbff && i + 1 < len && 0xdc00 <= units[i + 1] && units[i + 1]
            <= 0xdfff {
            let low: u16 = units[i + 1];
            assert(rest[1] == low);
            let code: u32 = 0x10000 + (unit as u32 - 0xd800) * 0x400 + (low as u32 - 0xdc00);
            match char::from_u32(code) {
                Some(c) => {
                    assert(c == paired(unit, low));
                    text.push(c);
                },
                None => {
                    assert(false);
                },
            }
            assert(rest.skip(2) =~= all.skip(i + 2));
            assert(before.push(text@.last()) + decoded(all.skip(i + 2)) =~= before + (seq![
                text@.last(),
            ] + decoded(all.skip(i + 2))));
            i = i + 2;
        } else {
            match char::from_u32(unit as u32) {
                Some(c) => {
                    text.push(c);
                },
                None => {
                    text.push('\u{fffd}');
                },
            }
            assert(rest.skip(1) =~= all.skip(i + 1));
            assert(before.push(text@.last()) + decoded(all.skip(i + 1)) =~= before + (seq![
                text@.last(),
            ] + decoded(all.skip(i + 1))));
            i = i + 1;
        }
    }
    assert(all.skip(len as int) =~= Seq::<u16>::empty());
    assert(text@ + Seq::<char>::empty() =~= text@);
    text
}


/// The units before the first NUL, or all of them.
pub open spec fn before_nul(units: Seq<u16>) -> Seq<u16>
    decreases units.len(),
{
    if units.len() == 0 || units[0] == 0 {
        Seq::empty()
    } else {
        seq![units[0]] + before_nul(units.skip(1))
    }
}

/// The text of a NUL-terminated buffer: its units up to the first NUL, or all of them where
/// there is none.
pub fn text_before_nul(units: &[u16]) -> (text: String)
    ensures
        text@ == decoded(before_nul(units@)),
{
    let mut len: usize = 0;
    assert(units@.skip(0) =~= units@);
    assert(units@.take(0) + before_nul(units@) =~= before_nul(units@));
    while len < units.len() && units[len] != 0
        invariant
            len <= units.len(),
            units@.take(len as int) + before_nul(units@.skip(len as int)) == before_nul(units@),
        decreases units.len() - len,
    {
        let ghost rest = units@.skip(len as int);
        assert(rest[0] == units@[len as int]);
        assert(rest.skip(1) =~= units@.skip(len + 1));
        assert(units@.take(len + 1) + before_nul(rest.skip(1)) =~= units@.take(len as int) + (seq![
            rest[0],
        ] + before_nul(rest.skip(1))));
        len = len + 1;
    }
    proof {
        let rest = units@.skip(len as int);
        if len < units.len() {
            assert(rest[0] == units@[len as int]);
        }
        assert(units@.take(len as int) + Seq::<u16>::empty() =~= units@.take(len as int));
    }
    decode(units, len)
}

/// One process of a snapshot. `exe` is the NUL-terminated file name of the executable.
#[derive(Debug, PartialEq, Eq)]
pub struct ProcessEntry {
    pub pid: u32,
    pub ppid: u32,
    pub exe: Vec<u16>,
}

/// One row for each process of a snapshot that has a name, in order.
pub open spec fn snapshot_rows(entries: Seq<ProcessEntry>) -> Seq<RowView>
    decreases entries.len(),
{
    if entries.len() == 0 {
        Seq::empty()
    } else {
        let entry = entries.last();
        let comm = decoded(before_nul(entry.exe@));
        let before = snapshot_rows(entries.drop_last());
        if comm.len() > 0 {
            before.push(RowView { pid: entry.pid, ppid: entry.ppid, comm })
        } else {
            before
        }
    }
}

/// The processes of a snapshot (pid, ppid, exe basename); those without a name are left out.
pub fn rows_of_snapshot(entries: &[ProcessEntry]) -> (rows: Vec<ProcRow>)
    ensures
        row_views(rows@) == snapshot_rows(entries@),
{
    let mut rows: Vec<ProcRow> = Vec::new();
    let mut i: usize = 0;
    assert(row_views(rows@) =~= Seq::<RowView>::empty());
    while i < entries.len()
        invariant
            i <= entries.len(),
            row_views(rows@) == snapshot_rows(entries@.take(i as int)),
        decreases entries.len() - i,
    {
        assert(entries@.take(i + 1).drop_last() =~= entries@.take(i as int));
        let comm = text_before_nul(entries[i].exe.as_slice());
        let ghost before = rows@;
        if !comm.as_str().is_empty() {
            let ghost name = comm@;
            rows.push(ProcRow { pid: entries[i].pid, ppid: entries[i].ppid, comm });
            assert(row_views(rows@) =~= row_views(before).push(
                RowView { pid: entries[i as int].pid, ppid: entries[i as int].ppid, comm: name },
            ));
        }
        i = i + 1;
    }
    assert(entries@.take(entries.len() as int) =~= entries@);
    rows
}

/// No snapshot could be taken.
pub fn snapshot_error(detail: &str) -> (error: AppError)
    ensures
        error@ == "process snapshot failed: "@ + detail@,
{
    AppError::Other("process snapshot failed: ".to_owned().concat(detail))
}

/// What the system wrote when asked for the path of an executable: a buffer, and how much of
/// it is the path.
#[derive(Debug, PartialEq, Eq)]
pub struct ImagePath {
    pub buffer: Vec<u16>,
    pub len: u32,
}

/// Full image path of a process (e.g. `C:\...\Microsoft VS Code\Code.exe`); none where the
/// process could not be opened or asked.
pub fn image_path(reply: Option<ImagePath>) -> (path: Option<String>)
    requires
        reply matches Some(image) ==> image.len <= image.buffer.len(),
    ensures
        match reply {
            Some(image) => path matches Some(text) && text@ == decoded(
                image.buffer@.take(image.len as int),
            ),
            None => path is None,
        },
{
    match reply {
        Some(image) => Some(decode(image.buffer.as_slice(), image.len as usize)),
        None => None,
    }
}

/// A top-level window. `owner_is_null` is what asking for its owner gave: whether the handle
/// that came back was null, or nothing where asking failed.
#[derive(Debug, Clone, Copy, PartialEq, Eq)]
pub struct WindowInfo {
    pub handle: isize,
    pub pid: u32,
    pub visible: bool,
    pub owner_is_null: Option<bool>,
    pub title_len: i32,
}

/// The window belongs to the process and is visible, unowned (i.e. really top-level) and
/// titled, which leaves out tooltips, hidden message windows and owned dialogs.
pub open spec fn focusable(window: WindowInfo, pid: u32) -> bool {
    &&& window.pid == pid
    &&& window.visible
    &&& window.owner_is_null != Some(false)
    &&& window.title_len > 0
}

/// Whether the window can stand for the process.
pub fn is_focusable(window: &WindowInfo, pid: u32) -> (yes: bool)
    ensures
        yes == focusable(*window, pid),
{
    window.pid == pid && window.visible && window.owner_is_null.unwrap_or(true) && window.title_len
        > 0
}

/// The windows of the process that can stand for it, in order.
pub open spec fn focusable_handles(windows: Seq<WindowInfo>, pid: u32) -> Seq<isize>
    decreases windows.len(),
{
    if windows.len() == 0 {
        Seq::empty()
    } else if focusable(windows.last(), pid) {
        focusable_handles(windows.drop_last(), pid).push(windows.last().handle)
    } else {
        focusable_handles(windows.drop_last(), pid)
    }
}

/// The windows of the process that can stand for it, in the order they were enumerated.
pub fn windows_of_pid(windows: &[WindowInfo], pid: u32) -> (handles: Vec<isize>)
    ensures
        handles@ == focusable_handles(windows@, pid),
{
    let mut handles: Vec<isize> = Vec::new();
    let mut i: usize = 0;
    while i < windows.len()
        invariant
            i <= windows.len(),
            handles@ == focusable_handles(windows@.take(i as int), pid),
        decreases windows.len() - i,
    {
        assert(windows@.take(i + 1).drop_last() =~= windows@.take(i as int));
        if is_focusable(&windows[i], pid) {
            handles.push(windows[i].handle);
        }
        i = i + 1;
    }
    assert(windows@.take(windows.len() as int) =~= windows@);
    handles
}

/// The window to raise for the process: the first that can stand for it.
pub fn window_to_raise(windows: &[WindowInfo], pid: u32) -> (handle: AppResult<isize>)
    ensures
        match handle {
            Ok(handle) => focusable_handles(windows@, pid).len() > 0 && handle
                == focusable_handles(windows@, pid)[0],
            Err(error) => focusable_handles(windows@, pid).len() == 0 && error@
                == "the terminal has no focusable window"@,
        },
{
    let handles = windows_of_pid(windows, pid);
    if handles.len() == 0 {
        Err(AppError::other("the terminal has no focusable window"))
    } else {
        Ok(handles[0])
    }
}

/// What to do with a window.
#[derive(Debug, Clone, Copy, PartialEq, Eq, Structural)]
pub enum WindowStep {
    Restore,
    SetForeground,
}

/// How to raise a window: a minimized one is restored first.
pub fn raise_steps(minimized: bool) -> (steps: Vec<WindowStep>)
    ensures
        steps@ == if minimized {
            seq![WindowStep::Restore, WindowStep::SetForeground]
        } else {
            seq![WindowStep::SetForeground]
        },
{
    let mut steps: Vec<WindowStep> = Vec::new();
    if minimized {
        steps.push(WindowStep::Restore);
    }
    steps.push(WindowStep::SetForeground);
    steps
}

/// Whether raising worked, from whether the system let the window come to the front.
pub fn raise_outcome(in_front: bool) -> (outcome: AppResult<()>)
    ensures
        match outcome {
            Ok(_) => in_front,
            Err(error) => !in_front && error@
                == "Windows refused to bring the terminal to the front"@,
        },
{
    if in_front {
        Ok(())
    } else {
        Err(AppError::other("Windows refused to bring the terminal to the front"))
    }
}

/// One character in UTF-16.
pub open spec fn encoded_char(c: char) -> Seq<u16> {
    let code = c as int;
    if code < 0x10000 {
        seq![code as u16]
    } else {
        seq![
            (0xd800 + (code - 0x10000) / 0x400) as u16,
            (0xdc00 + (code - 0x10000) % 0x400) as u16,
        ]
    }
}

/// A text in UTF-16.
pub open spec fn encoded(text: Seq<char>) -> Seq<u16>
    decreases text.len(),
{
    if text.len() == 0 {
        Seq::empty()
    } else {
        encoded_char(text[0]) + encoded(text.skip(1))
    }
}

proof fn lemma_encoded_char(c: char)
    ensures
        (c as int) < 0x10000 ==> encoded_char(c).len() == 1 && encoded_char(c)[0] as char == c
            && !high_surrogate(encoded_char(c)[0]) && !low_surrogate(encoded_char(c)[0]),
        (c as int) >= 0x10000 ==> encoded_char(c).len() == 2 && high_surrogate(encoded_char(c)[0])
            && low_surrogate(encoded_char(c)[1]) && paired(encoded_char(c)[0], encoded_char(c)[1])
            == c,
{
    assert((c as int) <= 0x10ffff);
    assert((c as int) <= 0xd7ff || 0xe000 <= (c as int));
    assert((c as int) as char == c);
    if (c as int) < 0x10000 {
        assert(encoded_char(c)[0] == c as int);
    } else {
        assert(encoded_char(c)[0] == 0xd800 + (c as int - 0x10000) / 0x400);
    }
}

/// A text that is written in UTF-16 is read back as it was.
pub proof fn law_decoding_undoes_encoding(text: Seq<char>)
    ensures
        decoded(encoded(text)) == text,
    decreases text.len(),
{
    if text.len() == 0 {
        assert(decoded(encoded(text)) =~= text);
    } else {
        let rest = text.skip(1);
        let c = text[0];
        let code = c as int;
        let units = encoded(text);
        law_decoding_undoes_encoding(rest);
        lemma_encoded_char(c);
        if code < 0x10000 {
            assert(units[0] == encoded_char(c)[0]);
            assert(units.skip(1) =~= encoded(rest));
        } else {
            assert(units[0] == encoded_char(c)[0] && units[1] == encoded_char(c)[1]);
            assert(units.skip(2) =~= encoded(rest));
        }
        assert(seq![c] + rest =~= text);
    }
}

/// A name without NUL is read back from a buffer that holds it with a NUL behind it, whatever
/// follows, and from one that it fills.
pub proof fn law_name_is_read_up_to_the_nul(name: Seq<u16>, garbage: Seq<u16>)
    requires
        !name.contains(0),
    ensures
        before_nul(name + seq![0u16] + garbage) == name,
        before_nul(name) == name,
    decreases name.len(),
{
    let buffer = name + seq![0u16] + garbage;
    if name.len() == 0 {
        assert(before_nul(buffer) =~= name);
        assert(before_nul(name) =~= name);
    } else {
        let rest = name.skip(1);
        if rest.contains(0) {
            let i = choose|i: int| 0 <= i < rest.len() && rest[i] == 0;
            assert(name[i + 1] == 0);
        }
        law_name_is_read_up_to_the_nul(rest, garbage);
        assert(name[0] != 0);
        assert(buffer.skip(1) =~= rest + seq![0u16] + garbage);
        assert(seq![name[0]] + rest =~= name);
    }
}

/// Every row of a snapshot has a name and belongs to a process of the snapshot.
pub proof fn law_rows_have_names(entries: Seq<ProcessEntry>, i: int)
    requires
        0 <= i < snapshot_rows(entries).len(),
    ensures
        snapshot_rows(entries)[i].comm.len() > 0,
        exists|k: int|
            0 <= k < entries.len() && (#[trigger] entries[k]).pid == snapshot_rows(entries)[i].pid
                && entries[k].ppid == snapshot_rows(entries)[i].ppid && decoded(
                before_nul(entries[k].exe@),
            ) == snapshot_rows(entries)[i].comm,
    decreases entries.len(),
{
    let before = entries.drop_last();
    if i < snapshot_rows(before).len() {
        law_rows_have_names(before, i);
        let k = choose|k: int|
            0 <= k < before.len() && (#[trigger] before[k]).pid == snapshot_rows(before)[i].pid
                && before[k].ppid == snapshot_rows(before)[i].ppid && decoded(
                before_nul(before[k].exe@),
            ) == snapshot_rows(before)[i].comm;
        assert(entries[k] == before[k]);
    } else {
        assert(entries[entries.len() - 1] == entries.last());
    }
}

/// A process is refused a window exactly when none of its windows is visible, unowned and
/// titled.
pub proof fn law_window_found_exactly_when_one_is_focusable(windows: Seq<WindowInfo>, pid: u32)
    ensures
        focusable_handles(windows, pid).len() > 0 <==> exists|k: int|
            0 <= k < windows.len() && focusable(#[trigger] windows[k], pid),
    decreases windows.len(),
{
    if windows.len() > 0 {
        let before = windows.drop_last();
        law_window_found_exactly_when_one_is_focusable(before, pid);
        if focusable(windows.last(), pid) {
            assert(focusable(windows[windows.len() - 1], pid));
        } else {
            if exists|k: int| 0 <= k < windows.len() && focusable(#[trigger] windows[k], pid) {
                let k = choose|k: int|
                    0 <= k < windows.len() && focusable(#[trigger] windows[k], pid);
                assert(before[k] == windows[k]);
            }
            if exists|k: int| 0 <= k < before.len() && focusable(#[trigger] before[k], pid) {
                let k = choose|k: int|
                    0 <= k < before.len() && focusable(#[trigger] before[k], pid);
                assert(windows[k] == before[k]);
            }
        }
    }
}

/// Behind a text in UTF-16 decoding goes on as if it started there.
pub proof fn law_decoding_goes_on_behind_a_text(text: Seq<char>, units: Seq<u16>)
    ensures
        decoded(encoded(text) + units) == text + decoded(units),
    decreases text.len(),
{
    let whole = encoded(text) + units;
    if text.len() == 0 {
        assert(whole =~= units);
        assert(text + decoded(units) =~= decoded(units));
    } else {
        let rest = text.skip(1);
        let c = text[0];
        law_decoding_goes_on_behind_a_text(rest, units);
        lemma_encoded_char(c);
        if (c as int) < 0x10000 {
            assert(whole[0] == encoded_char(c)[0]);
            assert(whole.skip(1) =~= encoded(rest) + units);
        } else {
            assert(whole[0] == encoded_char(c)[0] && whole[1] == encoded_char(c)[1]);
            assert(whole.skip(2) =~= encoded(rest) + units);
        }
        assert(seq![c] + (rest + decoded(units)) =~= text + decoded(units));
    }
}

/// A surrogate without its partner is read as U+FFFD and takes nothing else with it: a second
/// one of a pair in front of anything, and a first one at the end or in front of what is no
/// second one.
pub proof fn law_a_lone_surrogate_is_replaced(unit: u16, rest: Seq<u16>)
    ensures
        0xdc00 <= unit <= 0xdfff ==> decoded(seq![unit] + rest) == seq!['\u{fffd}'] + decoded(
            rest,
        ),
        0xd800 <= unit <= 0xdbff && (rest.len() == 0 || !(0xdc00 <= rest[0] <= 0xdfff)) ==> decoded(
            seq![unit] + rest,
        ) == seq!['\u{fffd}'] + decoded(rest),
        decoded(Seq::empty()).len() == 0,
{
    let units = seq![unit] + rest;
    assert(units[0] == unit);
    assert(units.skip(1) =~= rest);
    if rest.len() > 0 {
        assert(units[1] == rest[0]);
    }
}

/// The rows of a snapshot are taken process by process, in the order of the snapshot: one with
/// a name gives its row, with its own pid, that of its parent and that name, and one without
/// gives none.
pub proof fn law_rows_keep_the_order_of_the_snapshot(
    a: Seq<ProcessEntry>,
    b: Seq<ProcessEntry>,
    entry: ProcessEntry,
)
    ensures
        snapshot_rows(a + b) == snapshot_rows(a) + snapshot_rows(b),
        decoded(before_nul(entry.exe@)).len() > 0 ==> snapshot_rows(seq![entry]) == seq![
            RowView {
                pid: entry.pid,
                ppid: entry.ppid,
                comm: decoded(before_nul(entry.exe@)),
            },
        ],
        decoded(before_nul(entry.exe@)).len() == 0 ==> snapshot_rows(seq![entry]).len() == 0,
    decreases b.len(),
{
    assert(seq![entry].drop_last() =~= Seq::<ProcessEntry>::empty());
    assert(snapshot_rows(seq![entry].drop_last()) =~= Seq::<RowView>::empty());
    assert(seq![entry].last() == entry);
    if b.len() == 0 {
        assert(a + b =~= a);
        assert(snapshot_rows(a) + Seq::<RowView>::empty() =~= snapshot_rows(a));
    } else {
        law_rows_keep_the_order_of_the_snapshot(a, b.drop_last(), entry);
        assert((a + b).drop_last() =~= a + b.drop_last());
        let last = b.last();
        assert((a + b).last() == last);
        let first = snapshot_rows(a);
        let rest = snapshot_rows(b.drop_last());
        let row = RowView {
            pid: last.pid,
            ppid: last.ppid,
            comm: decoded(before_nul(last.exe@)),
        };
        assert((first + rest).push(row) =~= first + rest.push(row));
    }
}

/// A window stands for a process exactly when it is that process's own, visible, titled, and
/// has no owner or none that could be asked for.
pub proof fn law_which_windows_are_focusable(window: WindowInfo, pid: u32)
    ensures
        focusable(window, pid) <==> window.pid == pid && window.visible && window.title_len >= 1
            && (window.owner_is_null matches Some(null) ==> null),
        focusable(window, pid) ==> focusable_handles(seq![window], pid) == seq![window.handle],
        !focusable(window, pid) ==> focusable_handles(seq![window], pid).len() == 0,
{
    assert(seq![window].drop_last() =~= Seq::<WindowInfo>::empty());
    assert(focusable_handles(seq![window].drop_last(), pid) =~= Seq::<isize>::empty());
    assert(seq![window].last() == window);
}

/// The windows of a process keep the order in which they were enumerated, so the first of them
/// that can stand for it is the one to raise, whatever stands in front of it or behind.
pub proof fn law_the_first_focusable_window_is_raised(
    a: Seq<WindowInfo>,
    b: Seq<WindowInfo>,
    pid: u32,
    k: int,
)
    ensures
        focusable_handles(a + b, pid) == focusable_handles(a, pid) + focusable_handles(b, pid),
        0 <= k < a.len() && focusable(a[k], pid) && (forall|j: int|
            0 <= j < k ==> !focusable(#[trigger] a[j], pid)) ==> focusable_handles(a, pid).len() > 0
            && focusable_handles(a, pid)[0] == a[k].handle,
    decreases a.len() + b.len(),
{
    if b.len() == 0 {
        assert(a + b =~= a);
        assert(focusable_handles(a, pid) + Seq::<isize>::empty() =~= focusable_handles(a, pid));
    } else {
        law_the_first_focusable_window_is_raised(a, b.drop_last(), pid, k);
        assert((a + b).drop_last() =~= a + b.drop_last());
        assert((a + b).last() == b.last());
        let rest = focusable_handles(b.drop_last(), pid);
        let first = focusable_handles(a, pid);
        assert((first + rest).push(b.last().handle) =~= first + rest.push(b.last().handle));
    }
    if 0 <= k < a.len() && focusable(a[k], pid) && (forall|j: int|
        0 <= j < k ==> !focusable(#[trigger] a[j], pid)) {
        let before = a.drop_last();
        if k < a.len() - 1 {
            assert(before[k] == a[k]);
            assert forall|j: int| 0 <= j < k implies !focusable(#[trigger] before[j], pid) by {
                assert(before[j] == a[j]);
            }
            law_the_first_focusable_window_is_raised(before, Seq::empty(), pid, k);
        } else {
            law_window_found_exactly_when_one_is_focusable(before, pid);
            assert(focusable_handles(before, pid).len() == 0) by {
                if focusable_handles(before, pid).len() > 0 {
                    let j = choose|j: int|
                        0 <= j < before.len() && focusable(#[trigger] before[j], pid);
                    assert(before[j] == a[j]);
                }
            }
        }
    }
}

/// Units are read by their value: one outside the surrogates is the character of that number,
/// and a pair adds ten bits of each above the first plane.
pub proof fn law_units_are_read_by_value(unit: u16, low: u16, rest: Seq<u16>)
    ensures
        unit < 0xd800 || unit > 0xdfff ==> decoded(seq![unit] + rest) == seq![unit as char]
            + decoded(rest),
        0xd800 <= unit < 0xdc00 && 0xdc00 <= low < 0xe000 ==> {
            let text = decoded(seq![unit, low] + rest);
            &&& text.len() == 1 + decoded(rest).len()
            &&& text[0] as int == 0x10000 + (unit - 0xd800) * 0x400 + (low - 0xdc00)
            &&& text.skip(1) == decoded(rest)
        },
{
    let one = seq![unit] + rest;
    assert(one[0] == unit);
    assert(one.skip(1) =~= rest);
    if 0xd800 <= unit < 0xdc00 && 0xdc00 <= low < 0xe000 {
        let two = seq![unit, low] + rest;
        assert(two[0] == unit && two[1] == low);
        assert(two.skip(2) =~= rest);
        assert(decoded(two) == seq![paired(unit, low)] + decoded(rest));
        assert(decoded(two).skip(1) =~= decoded(rest));
    }
}

/// A buffer for the path of an executable holds this many units.
pub proof fn law_image_path_buffer()
    ensures
        IMAGE_PATH_UNITS == 1024,
{
}

} // verus!
