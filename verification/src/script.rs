//! The AppleScript that brings a terminal, and one of its windows, to the front.

use vstd::prelude::*;

use crate::terminal::TerminalKind;
use crate::text::{occurs_at, occurs_in, text_view, without, without_char};

verus! {

/// Terminal.app, up to the tty that a tab is matched by.
pub const TERMINAL_HEAD: &'static str = "tell application \"Terminal\"\n\
     repeat with w in windows\n\
     repeat with t in tabs of w\n\
     if tty of t is \"";

/// Terminal.app, from behind that tty on.
pub const TERMINAL_TAIL: &'static str = "\" then\n\
     set selected tab of w to t\n\
     set frontmost of w to true\n\
     set index of w to 1\n\
     return\n\
     end if\n\
     end repeat\n\
     end repeat\n\
     ";

/// iTerm2, up to the tty that a session is matched by. Selecting the session selects its tab
/// and window and brings them to the front.
pub const ITERM_HEAD: &'static str = "tell application \"iTerm\"\n\
     repeat with w in windows\n\
     repeat with t in tabs of w\n\
     repeat with s in sessions of t\n\
     if tty of s is \"";

/// iTerm2, from behind that tty on.
pub const ITERM_TAIL: &'static str = "\" then\n\
     select w\n\
     select t\n\
     select s\n\
     return\n\
     end if\n\
     end repeat\n\
     end repeat\n\
     end repeat\n\
     ";

/// Any frontmost process, up to the text that a window title is searched for.
pub const TITLE_HEAD: &'static str = "tell application \"System Events\"\n\
     set procs to (every process whose frontmost is true)\n\
     repeat with p in procs\n\
     repeat with w in windows of p\n\
     if name of w contains \"";

/// Any frontmost process, from behind that text on.
pub const TITLE_TAIL: &'static str = "\" then\n\
     perform action \"AXRaise\" of w\n\
     return\n\
     end if\n\
     end repeat\n\
     end repeat\n\
     ";

/// The last line of every script that looks for a window.
pub const SCRIPT_END: &'static str = "end tell";

/// The script that activates `app`.
pub open spec fn activate_script(app: Seq<char>) -> Seq<char> {
    "tell application \""@ + app + "\" to activate"@
}

/// The essential script that just brings the app to the front. If this fails, it's a real
/// failure.
pub fn build_activate_script(app: &str) -> (script: String)
    ensures
        script@ == activate_script(app@),
{
    "tell application \"".to_owned().concat(app).concat("\" to activate")
}

/// The device file of a tty; nothing where there is no tty.
pub open spec fn device(tty: Option<Seq<char>>) -> Seq<char> {
    match tty {
        Some(name) => "/dev/"@ + name,
        None => Seq::empty(),
    }
}

/// The script that selects one window. Terminal.app and iTerm2 look for the tty, VS Code and
/// Ghostty for a window title, from which quotes are dropped so that it stays inside its
/// string literal. For other terminals there is no such script.
pub open spec fn window_focus_script(
    kind: TerminalKind,
    tty: Option<Seq<char>>,
    title_needle: Seq<char>,
) -> Seq<char> {
    match kind {
        TerminalKind::TerminalApp => TERMINAL_HEAD@ + device(tty) + TERMINAL_TAIL@ + SCRIPT_END@,
        TerminalKind::ITerm2 => ITERM_HEAD@ + device(tty) + ITERM_TAIL@ + SCRIPT_END@,
        TerminalKind::VsCode => TITLE_HEAD@ + without(title_needle, '"') + TITLE_TAIL@ + SCRIPT_END@,
        TerminalKind::Ghostty => TITLE_HEAD@ + without(title_needle, '"') + TITLE_TAIL@ + SCRIPT_END@,
        TerminalKind::WindowsTerminal => Seq::empty(),
        TerminalKind::Unknown => Seq::empty(),
    }
}

/// The device file of a tty.
fn build_device(tty: Option<&str>) -> (dev: String)
    ensures
        dev@ == device(text_view(tty)),
{
    match tty {
        Some(name) => "/dev/".to_owned().concat(name),
        None => String::new(),
    }
}

/// Best-effort script that identifies an existing terminal window and brings it to the front.
/// - Terminal.app / iTerm2: strictly selects the window/tab with a matching tty.
/// - VSCode/Ghostty: AXRaises the window whose title contains the needle via System Events.
/// Even if it fails (e.g. no permission), the caller has already done activate, so it's
/// treated as success. Unknown returns an empty string (no window identification).
pub fn build_window_focus_script(
    kind: &TerminalKind,
    tty: Option<&str>,
    title_needle: &str,
) -> (script: String)
    ensures
        script@ == window_focus_script(*kind, text_view(tty), title_needle@),
{
    match kind {
        TerminalKind::TerminalApp => {
            let dev = build_device(tty);
            TERMINAL_HEAD.to_owned().concat(dev.as_str()).concat(TERMINAL_TAIL).concat(SCRIPT_END)
        },
        TerminalKind::ITerm2 => {
            let dev = build_device(tty);
            ITERM_HEAD.to_owned().concat(dev.as_str()).concat(ITERM_TAIL).concat(SCRIPT_END)
        },
        TerminalKind::VsCode | TerminalKind::Ghostty => {
            let needle = without_char(title_needle, '"');
            TITLE_HEAD.to_owned().concat(needle.as_str()).concat(TITLE_TAIL).concat(SCRIPT_END)
        },
        TerminalKind::WindowsTerminal | TerminalKind::Unknown => String::new(),
    }
}

/// A window is identified for sure only by its tty.
pub open spec fn reliable(kind: TerminalKind, has_tty: bool) -> bool {
    (kind == TerminalKind::TerminalApp || kind == TerminalKind::ITerm2) && has_tty
}

/// Whether window identification can be considered "reliable" (= whether window_focused can
/// be true). Terminal.app / iTerm2 are reliable because they can strictly select a window by
/// matching tty. VSCode/Ghostty rely on best-effort title matching, so even on success they
/// aren't treated as reliable.
pub fn focus_is_reliable(kind: &TerminalKind, tty: Option<&str>) -> (sure: bool)
    ensures
        sure == reliable(*kind, tty is Some),
{
    matches!(kind, TerminalKind::TerminalApp | TerminalKind::ITerm2) && tty.is_some()
}


proof fn lemma_occurs_between(head: Seq<char>, middle: Seq<char>, tail: Seq<char>)
    ensures
        occurs_in(head + middle + tail + SCRIPT_END@, middle),
{
    let whole = head + middle + tail + SCRIPT_END@;
    assert(whole.subrange(head.len() as int, (head.len() + middle.len()) as int) =~= middle);
    assert(occurs_at(whole, middle, head.len() as int));
}

/// Dropping quotes leaves none behind, and leaves a text without quotes as it is: no title can
/// end the string literal that it is put into.
pub proof fn law_needle_stays_inside_its_literal(title: Seq<char>)
    ensures
        !without(title, '"').contains('"'),
        !title.contains('"') ==> without(title, '"') == title,
    decreases title.len(),
{
    reveal(Seq::filter);
    if title.len() > 0 {
        let rest = title.drop_last();
        law_needle_stays_inside_its_literal(rest);
        let kept = without(title, '"');
        let before = without(rest, '"');
        if kept.contains('"') {
            let i = choose|i: int| 0 <= i < kept.len() && kept[i] == '"';
            if i < before.len() {
                assert(before[i] == '"');
            }
        }
        if !title.contains('"') {
            assert(title[title.len() - 1] != '"');
            if rest.contains('"') {
                let i = choose|i: int| 0 <= i < rest.len() && rest[i] == '"';
                assert(title[i] == '"');
            }
            assert(rest.push(title.last()) =~= title);
        }
    } else {
        assert(without(title, '"') =~= title);
    }
}

/// A focus that counts as reliable rests on a script that asks for exactly the device of the
/// session's tty, whatever the window titles are.
pub proof fn law_reliable_focus_matches_the_tty(
    kind: TerminalKind,
    tty: Seq<char>,
    title: Seq<char>,
    other_title: Seq<char>,
)
    requires
        reliable(kind, true),
    ensures
        occurs_in(window_focus_script(kind, Some(tty), title), "/dev/"@ + tty),
        window_focus_script(kind, Some(tty), title) == window_focus_script(
            kind,
            Some(tty),
            other_title,
        ),
{
    lemma_occurs_between(TERMINAL_HEAD@, device(Some(tty)), TERMINAL_TAIL@);
    lemma_occurs_between(ITERM_HEAD@, device(Some(tty)), ITERM_TAIL@);
}

/// A window title is searched for only where a tty is of no use, and then without its quotes.
pub proof fn law_title_search_ignores_the_tty(
    kind: TerminalKind,
    tty: Option<Seq<char>>,
    other_tty: Option<Seq<char>>,
    title: Seq<char>,
)
    requires
        kind == TerminalKind::VsCode || kind == TerminalKind::Ghostty,
    ensures
        occurs_in(window_focus_script(kind, tty, title), without(title, '"')),
        window_focus_script(kind, tty, title) == window_focus_script(kind, other_tty, title),
        !reliable(kind, tty is Some),
{
    lemma_occurs_between(TITLE_HEAD@, without(title, '"'), TITLE_TAIL@);
}

/// There is a script for exactly the macOS terminals.
pub proof fn law_only_macos_terminals_have_a_script(
    kind: TerminalKind,
    tty: Option<Seq<char>>,
    title: Seq<char>,
)
    ensures
        window_focus_script(kind, tty, title).len() == 0 <==> kind == TerminalKind::WindowsTerminal
            || kind == TerminalKind::Unknown,
{
    reveal_strlit("end tell");
    assert(SCRIPT_END@.len() == 8);
}

/// A script that activates an app is the same for every app but for its name, which stands in
/// it once, between quotes and as it is.
pub proof fn law_activation_names_the_app(app: Seq<char>, other: Seq<char>)
    ensures
        activate_script(app).len() == 18 + app.len() + 13,
        activate_script(app).subrange(18, 18int + app.len()) == app,
        activate_script(app).take(18) == activate_script(other).take(18),
        activate_script(app).skip(18int + app.len()) == activate_script(other).skip(
            18int + other.len(),
        ),
        activate_script(app).take(18) == "tell application \""@,
        activate_script(app).skip(18int + app.len()) == "\" to activate"@,
{
    reveal_strlit("tell application \"");
    reveal_strlit("\" to activate");
    assert("tell application \""@.len() == 18);
    assert("\" to activate"@.len() == 13);
    assert(activate_script(app).subrange(18, 18int + app.len()) =~= app);
    assert(activate_script(app).take(18) =~= "tell application \""@);
    assert(activate_script(other).take(18) =~= "tell application \""@);
    assert(activate_script(app).skip(18int + app.len()) =~= "\" to activate"@);
    assert(activate_script(other).skip(18int + other.len()) =~= "\" to activate"@);
}

/// The scripts of one terminal for two ttys differ only in the device file: it stands between a
/// head and a tail that no tty, no lack of one and no title changes, and those of Terminal.app
/// and iTerm2 are each their own. Without a tty nothing stands there.
pub proof fn law_scripts_differ_only_in_the_device(
    kind: TerminalKind,
    tty: Option<Seq<char>>,
    title: Seq<char>,
)
    ensures
        kind == TerminalKind::ITerm2 ==> window_focus_script(kind, tty, title) == ITERM_HEAD@ + (
        match tty {
            Some(name) => "/dev/"@ + name,
            None => ""@,
        }) + ITERM_TAIL@ + SCRIPT_END@,
        kind == TerminalKind::TerminalApp ==> window_focus_script(kind, tty, title)
            == TERMINAL_HEAD@ + (match tty {
            Some(name) => "/dev/"@ + name,
            None => ""@,
        }) + TERMINAL_TAIL@ + SCRIPT_END@,
{
    reveal_strlit("");
    assert(""@ =~= Seq::<char>::empty());
}

/// From the script for one tty that for any other follows: the device is exchanged and nothing
/// else is.
pub proof fn law_another_tty_exchanges_the_device(
    kind: TerminalKind,
    tty: Seq<char>,
    other_tty: Seq<char>,
    title: Seq<char>,
    other_title: Seq<char>,
)
    requires
        kind == TerminalKind::ITerm2 || kind == TerminalKind::TerminalApp,
    ensures
        exists|head: Seq<char>, tail: Seq<char>|
            #![trigger head + tail]
            {
                &&& window_focus_script(kind, None, title) == head + tail
                &&& window_focus_script(kind, Some(tty), title) == head + ("/dev/"@ + tty) + tail
                &&& window_focus_script(kind, Some(other_tty), other_title) == head + ("/dev/"@
                    + other_tty) + tail
            },
        tty != other_tty ==> window_focus_script(kind, Some(tty), title) != window_focus_script(
            kind,
            Some(other_tty),
            other_title,
        ),
{
    let head = if kind == TerminalKind::ITerm2 { ITERM_HEAD@ } else { TERMINAL_HEAD@ };
    let close = if kind == TerminalKind::ITerm2 { ITERM_TAIL@ } else { TERMINAL_TAIL@ };
    let tail = close + SCRIPT_END@;
    let dev = "/dev/"@ + tty;
    let other_dev = "/dev/"@ + other_tty;
    assert(window_focus_script(kind, None, title) =~= head + tail);
    assert(window_focus_script(kind, Some(tty), title) =~= head + dev + tail);
    assert(window_focus_script(kind, Some(other_tty), other_title) =~= head + other_dev + tail);
    if window_focus_script(kind, Some(tty), title) == window_focus_script(
        kind,
        Some(other_tty),
        other_title,
    ) {
        let script = head + dev + tail;
        let from = (head.len() + "/dev/"@.len()) as int;
        assert(script.len() == head.len() + dev.len() + tail.len());
        assert(tty.len() == other_tty.len());
        assert(script.subrange(from, from + tty.len()) =~= tty);
        assert(script.subrange(from, from + tty.len()) =~= other_tty);
    }
}

/// The scripts that search a title differ only in the text that is searched for, which is the
/// title without its quotes, and they are the same for VS Code and Ghostty.
pub proof fn law_scripts_differ_only_in_the_title(
    kind: TerminalKind,
    tty: Option<Seq<char>>,
    title: Seq<char>,
)
    requires
        kind == TerminalKind::VsCode || kind == TerminalKind::Ghostty,
    ensures
        window_focus_script(kind, tty, title) == TITLE_HEAD@ + without(title, '"') + TITLE_TAIL@
            + SCRIPT_END@,
        !title.contains('"') ==> window_focus_script(kind, tty, title) == TITLE_HEAD@ + title
            + TITLE_TAIL@ + SCRIPT_END@,
        window_focus_script(kind, tty, title) == window_focus_script(
            TerminalKind::VsCode,
            None,
            title,
        ),
{
    law_needle_stays_inside_its_literal(title);
}

/// The fixed texts of the scripts, line by line.
pub proof fn law_script_texts()
    ensures
        TERMINAL_HEAD@
            == "tell application \"Terminal\"\nrepeat with w in windows\nrepeat with t in tabs of w\nif tty of t is \""@,
        TERMINAL_TAIL@
            == "\" then\nset selected tab of w to t\nset frontmost of w to true\nset index of w to 1\nreturn\nend if\nend repeat\nend repeat\n"@,
        ITERM_HEAD@
            == "tell application \"iTerm\"\nrepeat with w in windows\nrepeat with t in tabs of w\nrepeat with s in sessions of t\nif tty of s is \""@,
        ITERM_TAIL@
            == "\" then\nselect w\nselect t\nselect s\nreturn\nend if\nend repeat\nend repeat\nend repeat\n"@,
        TITLE_HEAD@
            == "tell application \"System Events\"\nset procs to (every process whose frontmost is true)\nrepeat with p in procs\nrepeat with w in windows of p\nif name of w contains \""@,
        TITLE_TAIL@
            == "\" then\nperform action \"AXRaise\" of w\nreturn\nend if\nend repeat\nend repeat\n"@,
        SCRIPT_END@ == "end tell"@,
{
}

/// Identifying a window is reliable exactly where a tty is known and two ttys make two scripts.
pub proof fn law_reliable_is_telling_ttys_apart(kind: TerminalKind, title: Seq<char>)
    ensures
        !reliable(kind, false),
        reliable(kind, true) <==> forall|a: Seq<char>, b: Seq<char>|
            a != b ==> #[trigger] window_focus_script(kind, Some(a), title)
                != #[trigger] window_focus_script(kind, Some(b), title),
{
    if kind == TerminalKind::ITerm2 || kind == TerminalKind::TerminalApp {
        assert forall|a: Seq<char>, b: Seq<char>| a != b implies #[trigger] window_focus_script(
            kind,
            Some(a),
            title,
        ) != #[trigger] window_focus_script(kind, Some(b), title) by {
            law_another_tty_exchanges_the_device(kind, a, b, title, title);
        }
    } else {
        let a = Seq::<char>::empty();
        let b = seq!['0'];
        assert(a.len() != b.len());
        assert(window_focus_script(kind, Some(a), title) == window_focus_script(
            kind,
            Some(b),
            title,
        ));
    }
}

} // verus!
