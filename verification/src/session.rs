//! From a session to the process that runs it.
//!
//! A running session keeps one JSON file, which names its process and the session. Reading
//! the directory and the files is left to the caller.

use vstd::prelude::*;

use crate::text::same_text;
use crate::walk::{
    extension_of, has_ext, law_a_name_with_an_extension_ends_in_it,
    law_extension_follows_the_last_dot, DirEntry,
};

verus! {

/// What a session file says.
#[derive(Debug, PartialEq, Eq)]
pub struct SessionEntry {
    pub pid: u32,
    pub session_id: String,
}

/// The entry is a file name that may hold a session.
pub open spec fn json_name(name: Seq<char>) -> bool {
    extension_of(name) == Some("json"@)
}

/// The file says that it belongs to `session_id`.
pub open spec fn names_session(file: Option<SessionEntry>, session_id: Seq<char>) -> bool {
    file matches Some(entry) && entry.session_id@ == session_id
}

/// `pid` is what a search through the entries can give when reading a file answers as it may:
/// the process of the first JSON file that names the session. Other entries are passed over,
/// and so are files that cannot be read or understood.
pub open spec fn search_yields<P>(
    answers: spec_fn(P, Option<SessionEntry>) -> bool,
    entries: Seq<DirEntry<P>>,
    session_id: Seq<char>,
    pid: Option<u32>,
) -> bool
    decreases entries.len(),
{
    if entries.len() == 0 {
        pid is None
    } else {
        let entry = entries.first();
        let rest = entries.drop_first();
        if json_name(entry.name@) {
            exists|file: Option<SessionEntry>| #[trigger]
                answers(entry.path, file) && if names_session(file, session_id) {
                    pid == Some(file->0.pid)
                } else {
                    search_yields(answers, rest, session_id, pid)
                }
        } else {
            search_yields(answers, rest, session_id, pid)
        }
    }
}

/// Searches `entries` for the process of `session_id`.
fn search<P, R: Fn(&P) -> Option<SessionEntry>>(
    entries: &Vec<DirEntry<P>>,
    session_id: &str,
    read_entry: &R,
    Ghost(answers): Ghost<spec_fn(P, Option<SessionEntry>) -> bool>,
) -> (pid: Option<u32>)
    requires
        forall|path: &P| #[trigger] call_requires(*read_entry, (path,)),
        forall|path: P, file: Option<SessionEntry>| #[trigger]
            call_ensures(*read_entry, (&path,), file) ==> answers(path, file),
    ensures
        search_yields(answers, entries@, session_id@, pid),
{
    let mut i: usize = 0;
    assert(entries@.skip(0) =~= entries@);
    while i < entries.len()
        invariant
            i <= entries.len(),
            forall|path: &P| #[trigger] call_requires(*read_entry, (path,)),
            forall|path: P, file: Option<SessionEntry>| #[trigger]
                call_ensures(*read_entry, (&path,), file) ==> answers(path, file),
            forall|pid: Option<u32>|
                search_yields(answers, entries@.skip(i as int), session_id@, pid)
                    ==> #[trigger] search_yields(answers, entries@, session_id@, pid),
        decreases entries.len() - i,
    {
        let ghost here = entries@.skip(i as int);
        assert(here.first() == entries@[i as int]);
        assert(here.drop_first() =~= entries@.skip(i + 1));
        if has_ext(entries[i].name.as_str(), "json") {
            let file = read_entry(&entries[i].path);
            assert(answers(entries@[i as int].path, file));
            if let Some(entry) = &file {
                if same_text(entry.session_id.as_str(), session_id) {
                    assert(search_yields(answers, here, session_id@, Some(entry.pid)));
                    return Some(entry.pid);
                }
            }
            assert(!names_session(file, session_id@));
        }
        i = i + 1;
    }
    assert(search_yields(answers, entries@.skip(i as int), session_id@, None));
    None
}

/// Scans the session files (`<pid>.json`) and returns the PID of the file with a matching
/// session id; none where the directory cannot be read.
pub fn resolve_claude_pid<
    P,
    L: Fn(&P) -> Option<Vec<DirEntry<P>>>,
    R: Fn(&P) -> Option<SessionEntry>,
>(sessions_dir: &P, session_id: &str, read_dir: L, read_entry: R) -> (pid: Option<u32>)
    requires
        call_requires(read_dir, (sessions_dir,)),
        forall|path: &P| #[trigger] call_requires(read_entry, (path,)),
    ensures
        exists|listing: Option<Vec<DirEntry<P>>>| #[trigger]
            call_ensures(read_dir, (sessions_dir,), listing) && match listing {
                None => pid is None,
                Some(entries) => search_yields(
                    |path: P, file: Option<SessionEntry>| call_ensures(read_entry, (&path,), file),
                    entries@,
                    session_id@,
                    pid,
                ),
            },
{
    let listing = read_dir(sessions_dir);
    let ghost answers = |path: P, file: Option<SessionEntry>|
        call_ensures(read_entry, (&path,), file);
    match &listing {
        None => {
            assert(call_ensures(read_dir, (sessions_dir,), listing));
            None
        },
        Some(entries) => {
            let pid = search(entries, session_id, &read_entry, Ghost(answers));
            assert(call_ensures(read_dir, (sessions_dir,), listing));
            pid
        },
    }
}

/// A process that is reported for a session is one that a JSON file among the entries names
/// for exactly that session.
pub proof fn law_reported_process_is_named_by_a_file<P>(
    answers: spec_fn(P, Option<SessionEntry>) -> bool,
    entries: Seq<DirEntry<P>>,
    session_id: Seq<char>,
    pid: u32,
)
    requires
        search_yields(answers, entries, session_id, Some(pid)),
    ensures
        exists|k: int, file: Option<SessionEntry>|
            0 <= k < entries.len() && json_name(entries[k].name@) && #[trigger]
            answers(entries[k].path, file) && names_session(file, session_id) && file->0.pid == pid,
    decreases entries.len(),
{
    let entry = entries.first();
    let rest = entries.drop_first();
    assert(entries[0] == entry);
    if search_yields(answers, rest, session_id, Some(pid)) {
        law_reported_process_is_named_by_a_file(answers, rest, session_id, pid);
        let (k, file) = choose|k: int, file: Option<SessionEntry>|
            0 <= k < rest.len() && json_name(rest[k].name@) && #[trigger]
            answers(rest[k].path, file) && names_session(file, session_id) && file->0.pid == pid;
        assert(entries[k + 1] == rest[k]);
        assert(answers(entries[k + 1].path, file));
    } else {
        let file = choose|file: Option<SessionEntry>| #[trigger]
            answers(entry.path, file) && names_session(file, session_id) && pid == file->0.pid;
        assert(answers(entries[0].path, file));
    }
}

/// No process is reported only where no JSON file among the entries was sure to name the
/// session: with files at rest, a session that one of them names is found.
pub proof fn law_session_at_rest_is_found<P>(
    answers: spec_fn(P, Option<SessionEntry>) -> bool,
    entries: Seq<DirEntry<P>>,
    session_id: Seq<char>,
    pid: Option<u32>,
    k: int,
)
    requires
        search_yields(answers, entries, session_id, pid),
        0 <= k < entries.len(),
        json_name(entries[k].name@),
        forall|file: Option<SessionEntry>| #[trigger]
            answers(entries[k].path, file) ==> names_session(file, session_id),
    ensures
        pid is Some,
    decreases entries.len(),
{
    let rest = entries.drop_first();
    if k > 0 {
        assert(rest[k - 1] == entries[k]);
        if search_yields(answers, rest, session_id, pid) {
            law_session_at_rest_is_found(answers, rest, session_id, pid, k - 1);
        }
    } else {
        assert(entries[0] == entries.first());
    }
}

/// The files that may hold a session are exactly those whose name ends in ".json" with
/// something in front of it, however long that is and whatever it holds.
pub proof fn law_session_names_end_in_json(stem: Seq<char>, name: Seq<char>)
    requires
        !stem.contains('/'),
        !name.contains('/'),
    ensures
        stem.len() > 0 ==> json_name(stem + ".json"@),
        !json_name(".json"@),
        json_name(name) ==> name.len() > 5 && name == name.take(name.len() - 5) + ".json"@,
{
    reveal_strlit(".json");
    reveal_strlit("json");
    assert(".json"@ =~= seq!['.'] + "json"@);
    assert("json"@.len() == 4);
    assert(!"json"@.contains('/'));
    assert(!"json"@.contains('.'));
    if stem.len() > 0 {
        law_extension_follows_the_last_dot(stem, "json"@);
        assert(stem + seq!['.'] + "json"@ =~= stem + ".json"@);
    }
    law_a_name_with_an_extension_ends_in_it(name, "json"@);
    if json_name(name) {
        let front = name.take(name.len() - 5);
        assert(front + seq!['.'] + "json"@ =~= front + ".json"@);
    }
}

/// A file names a session only by exactly its id; one that cannot be read or understood names
/// none.
pub proof fn law_a_file_names_one_session(entry: SessionEntry, session_id: Seq<char>)
    ensures
        names_session(Some(entry), session_id) <==> entry.session_id@ == session_id,
        !names_session(None, session_id),
{
}

/// The first file decides: with files at rest, the process that is reported is the one that the
/// first JSON file for this session names, whatever stands behind it, and whatever stands
/// before it that is no JSON file or is one of another session.
pub proof fn law_the_first_file_of_the_session_decides<P>(
    answers: spec_fn(P, Option<SessionEntry>) -> bool,
    entries: Seq<DirEntry<P>>,
    session_id: Seq<char>,
    pid: Option<u32>,
    k: int,
    named: u32,
)
    requires
        search_yields(answers, entries, session_id, pid),
        0 <= k < entries.len(),
        json_name(entries[k].name@),
        forall|file: Option<SessionEntry>| #[trigger]
            answers(entries[k].path, file) ==> file is Some && file->0.session_id@ == session_id
                && file->0.pid == named,
        forall|j: int, file: Option<SessionEntry>|
            0 <= j < k && json_name(entries[j].name@) && #[trigger] answers(entries[j].path, file)
                ==> file is None || file->0.session_id@ != session_id,
    ensures
        pid == Some(named),
    decreases entries.len(),
{
    assert(entries[0] == entries.first());
    if k > 0 {
        let rest = entries.drop_first();
        assert(rest[k - 1] == entries[k]);
        assert forall|j: int, file: Option<SessionEntry>|
            0 <= j < k - 1 && json_name(rest[j].name@) && #[trigger] answers(
                rest[j].path,
                file,
            ) implies file is None || file->0.session_id@ != session_id by {
            assert(rest[j] == entries[j + 1]);
            assert(answers(entries[j + 1].path, file));
        }
        assert(search_yields(answers, rest, session_id, pid)) by {
            if json_name(entries[0].name@) {
                let file = choose|file: Option<SessionEntry>| #[trigger]
                    answers(entries[0].path, file) && if names_session(file, session_id) {
                        pid == Some(file->0.pid)
                    } else {
                        search_yields(answers, rest, session_id, pid)
                    };
                assert(answers(entries[0].path, file));
                assert(!names_session(file, session_id));
            }
        }
        law_the_first_file_of_the_session_decides(
            answers,
            rest,
            session_id,
            pid,
            k - 1,
            named,
        );
    }
}

/// Where no JSON file names the session, no process is reported.
pub proof fn law_an_unnamed_session_has_no_process<P>(
    answers: spec_fn(P, Option<SessionEntry>) -> bool,
    entries: Seq<DirEntry<P>>,
    session_id: Seq<char>,
    pid: Option<u32>,
)
    requires
        search_yields(answers, entries, session_id, pid),
        forall|j: int, file: Option<SessionEntry>|
            0 <= j < entries.len() && json_name(entries[j].name@) && #[trigger] answers(
                entries[j].path,
                file,
            ) ==> file is None || file->0.session_id@ != session_id,
    ensures
        pid is None,
{
    if let Some(found) = pid {
        law_reported_process_is_named_by_a_file(answers, entries, session_id, found);
        let (k, file) = choose|k: int, file: Option<SessionEntry>|
            0 <= k < entries.len() && json_name(entries[k].name@) && #[trigger]
            answers(entries[k].path, file) && names_session(file, session_id) && file->0.pid
                == found;
        assert(answers(entries[k].path, file));
    }
}

} // verus!
