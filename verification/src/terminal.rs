//! Terminals, processes, and the way from a process up to the terminal that hosts it.

use vstd::prelude::*;

use crate::text::{
    contains_text, law_an_occurrence_splits_the_text, occurs_at, occurs_in, same_text, text_view,
};

verus! {

/// The terminals that can be told apart.
#[derive(Debug, Clone, Copy, PartialEq, Eq, Structural)]
pub enum TerminalKind {
    Ghostty,
    ITerm2,
    VsCode,
    TerminalApp,
    WindowsTerminal,
    Unknown,
}

/// One running process: its pid, that of its parent, and its executable. On macOS `comm` is
/// the path of the executable, on Windows its file name.
#[derive(Debug, PartialEq, Eq)]
pub struct ProcRow {
    pub pid: u32,
    pub ppid: u32,
    pub comm: String,
}

/// A process row by what its name holds.
pub struct RowView {
    pub pid: u32,
    pub ppid: u32,
    pub comm: Seq<char>,
}

/// What the rows hold.
pub open spec fn row_views(rows: Seq<ProcRow>) -> Seq<RowView> {
    Seq::new(
        rows.len(),
        |i: int| RowView { pid: rows[i].pid, ppid: rows[i].ppid, comm: rows[i].comm@ },
    )
}

/// The process of a terminal.
#[derive(Debug, Clone, Copy, PartialEq, Eq, Structural)]
pub struct HostTerminal {
    pub pid: u32,
    pub kind: TerminalKind,
}

/// How many processes a walk towards the root visits: `ppid` links may form a cycle.
pub const MAX_ANCESTORS: u32 = 64;

/// The display name of a terminal.
pub open spec fn app_name_of(kind: TerminalKind) -> Option<Seq<char>> {
    match kind {
        TerminalKind::Ghostty => Some("Ghostty"@),
        TerminalKind::ITerm2 => Some("iTerm"@),
        TerminalKind::VsCode => Some("Visual Studio Code"@),
        TerminalKind::TerminalApp => Some("Terminal"@),
        TerminalKind::WindowsTerminal => Some("Windows Terminal"@),
        TerminalKind::Unknown => None,
    }
}

/// Terminal kind -> display name (also the target of macOS `activate`).
pub fn app_name(kind: &TerminalKind) -> (name: Option<&'static str>)
    ensures
        text_view(name) == app_name_of(*kind),
{
    match kind {
        TerminalKind::Ghostty => Some("Ghostty"),
        TerminalKind::ITerm2 => Some("iTerm"),
        TerminalKind::VsCode => Some("Visual Studio Code"),
        TerminalKind::TerminalApp => Some("Terminal"),
        TerminalKind::WindowsTerminal => Some("Windows Terminal"),
        TerminalKind::Unknown => None,
    }
}

/// The terminal that an executable belongs to: an application bundle on macOS, an executable
/// name on Windows.
pub open spec fn kind_of(comm: Seq<char>) -> TerminalKind {
    if occurs_in(comm, "Ghostty.app"@) {
        TerminalKind::Ghostty
    } else if occurs_in(comm, "iTerm.app"@) {
        TerminalKind::ITerm2
    } else if occurs_in(comm, "Visual Studio Code"@) || comm == "Code.exe"@ || comm
        == "Code - Insiders.exe"@ {
        TerminalKind::VsCode
    } else if occurs_in(comm, "Terminal.app"@) {
        TerminalKind::TerminalApp
    } else if comm == "WindowsTerminal.exe"@ {
        TerminalKind::WindowsTerminal
    } else {
        TerminalKind::Unknown
    }
}

/// Which terminal an executable belongs to.
pub fn classify_comm(comm: &str) -> (kind: TerminalKind)
    ensures
        kind == kind_of(comm@),
{
    if contains_text(comm, "Ghostty.app") {
        TerminalKind::Ghostty
    } else if contains_text(comm, "iTerm.app") {
        TerminalKind::ITerm2
    } else if contains_text(comm, "Visual Studio Code") || same_text(comm, "Code.exe") || same_text(
        comm,
        "Code - Insiders.exe",
    ) {
        TerminalKind::VsCode
    } else if contains_text(comm, "Terminal.app") {
        TerminalKind::TerminalApp
    } else if same_text(comm, "WindowsTerminal.exe") {
        TerminalKind::WindowsTerminal
    } else {
        TerminalKind::Unknown
    }
}

/// The first row of the process `pid`.
pub open spec fn row_of(rows: Seq<RowView>, pid: u32) -> Option<RowView>
    decreases rows.len(),
{
    if rows.len() == 0 {
        None
    } else if rows.first().pid == pid {
        Some(rows.first())
    } else {
        row_of(rows.drop_first(), pid)
    }
}

/// The process `pid`, its parent, the parent of that and so on, nearest first: at most `limit`
/// of them, up to one without a row, or with the root (or nothing) for a parent.
pub open spec fn lineage(rows: Seq<RowView>, pid: u32, limit: nat) -> Seq<RowView>
    decreases limit,
{
    if limit == 0 {
        Seq::empty()
    } else {
        match row_of(rows, pid) {
            None => Seq::empty(),
            Some(row) => if row.ppid <= 1 {
                seq![row]
            } else {
                seq![row] + lineage(rows, row.ppid, (limit - 1) as nat)
            },
        }
    }
}

/// The pids of the rows whose executable belongs to `kind`, in order.
pub open spec fn pids_of_kind(rows: Seq<RowView>, kind: TerminalKind) -> Seq<u32>
    decreases rows.len(),
{
    if rows.len() == 0 {
        Seq::empty()
    } else if kind_of(rows.last().comm) == kind {
        pids_of_kind(rows.drop_last(), kind).push(rows.last().pid)
    } else {
        pids_of_kind(rows.drop_last(), kind)
    }
}

/// Of `rows`, the first whose executable belongs to a terminal.
pub open spec fn first_terminal(rows: Seq<RowView>) -> Option<HostTerminal>
    decreases rows.len(),
{
    if rows.len() == 0 {
        None
    } else {
        let kind = kind_of(rows.first().comm);
        if kind != TerminalKind::Unknown {
            Some(HostTerminal { pid: rows.first().pid, kind })
        } else {
            first_terminal(rows.drop_first())
        }
    }
}

/// The place of the first row of `pid`.
pub fn find_row(rows: &[ProcRow], pid: u32) -> (found: Option<usize>)
    ensures
        match found {
            Some(i) => i < rows.len() && row_of(row_views(rows@), pid) == Some(
                row_views(rows@)[i as int],
            ),
            None => row_of(row_views(rows@), pid) is None,
        },
{
    let ghost views = row_views(rows@);
    let mut i: usize = 0;
    assert(views.skip(0) =~= views);
    while i < rows.len()
        invariant
            i <= rows.len(),
            views == row_views(rows@),
            row_of(views, pid) == row_of(views.skip(i as int), pid),
        decreases rows.len() - i,
    {
        assert(views.skip(i as int).drop_first() =~= views.skip(i + 1));
        if rows[i].pid == pid {
            return Some(i);
        }
        i = i + 1;
    }
    None
}

/// Pids along the ppid chain from `start_pid` whose comm classifies as `kind`, nearest first.
/// Windows helper processes (e.g. VS Code's pty host) share the terminal's executable but own
/// no window, so the caller tries each in turn.
pub fn same_kind_ancestors(start_pid: u32, kind: &TerminalKind, rows: &[ProcRow]) -> (pids: Vec<
    u32,
>)
    ensures
        pids@ == pids_of_kind(
            lineage(row_views(rows@), start_pid, MAX_ANCESTORS as nat),
            *kind,
        ),
{
    let ghost views = row_views(rows@);
    let ghost whole = lineage(views, start_pid, MAX_ANCESTORS as nat);
    let ghost mut done = Seq::<RowView>::empty();
    let mut pids: Vec<u32> = Vec::new();
    let mut current: u32 = start_pid;
    let mut left: u32 = MAX_ANCESTORS;
    while left > 0
        invariant
            views == row_views(rows@),
            whole == lineage(views, start_pid, MAX_ANCESTORS as nat),
            whole == done + lineage(views, current, left as nat),
            pids@ == pids_of_kind(done, *kind),
        decreases left,
    {
        let Some(i) = find_row(rows, current) else {
            assert(done + Seq::<RowView>::empty() =~= done);
            return pids;
        };
        let row = &rows[i];
        proof {
            let view = views[i as int];
            let next = done.push(view);
            assert(next.drop_last() =~= done);
            if row.ppid <= 1 {
                assert(done + seq![view] =~= next);
            } else {
                let rest = lineage(views, row.ppid, (left - 1) as nat);
                assert(done + (seq![view] + rest) =~= next + rest);
            }
            done = next;
        }
        if classify_comm(row.comm.as_str()) == *kind {
            pids.push(row.pid);
        }
        if row.ppid <= 1 {
            return pids;
        }
        current = row.ppid;
        left = left - 1;
    }
    assert(done + Seq::<RowView>::empty() =~= done);
    pids
}

/// The nearest terminal along the ppid chain from `start_pid`.
pub fn find_host_terminal(start_pid: u32, rows: &[ProcRow]) -> (host: Option<HostTerminal>)
    ensures
        host == first_terminal(lineage(row_views(rows@), start_pid, MAX_ANCESTORS as nat)),
{
    let ghost views = row_views(rows@);
    let ghost whole = lineage(views, start_pid, MAX_ANCESTORS as nat);
    let mut current: u32 = start_pid;
    let mut left: u32 = MAX_ANCESTORS;
    while left > 0
        invariant
            views == row_views(rows@),
            whole == lineage(views, start_pid, MAX_ANCESTORS as nat),
            first_terminal(whole) == first_terminal(lineage(views, current, left as nat)),
        decreases left,
    {
        let Some(i) = find_row(rows, current) else {
            return None;
        };
        let row = &rows[i];
        proof {
            let here = lineage(views, current, left as nat);
            if row.ppid <= 1 {
                assert(here.drop_first() =~= Seq::<RowView>::empty());
                assert(first_terminal(here.drop_first()) is None);
            } else {
                let rest = lineage(views, row.ppid, (left - 1) as nat);
                assert(here.drop_first() =~= rest);
            }
        }
        let kind = classify_comm(row.comm.as_str());
        if kind != TerminalKind::Unknown {
            return Some(HostTerminal { pid: row.pid, kind });
        }
        if row.ppid <= 1 {
            return None;
        }
        current = row.ppid;
        left = left - 1;
    }
    None
}

/// Looking a process up gives a row of that process, and nothing only where it has none.
pub proof fn law_row_is_found(rows: Seq<RowView>, pid: u32)
    ensures
        row_of(rows, pid) matches Some(row) ==> row.pid == pid && rows.contains(row),
        row_of(rows, pid) is None ==> forall|i: int|
            0 <= i < rows.len() ==> (#[trigger] rows[i]).pid != pid,
    decreases rows.len(),
{
    if rows.len() > 0 {
        let rest = rows.drop_first();
        law_row_is_found(rest, pid);
        if rows.first().pid == pid {
            assert(rows[0] == rows.first());
        } else if let Some(row) = row_of(rest, pid) {
            let i = choose|i: int| 0 <= i < rest.len() && rest[i] == row;
            assert(rows[i + 1] == row);
        } else {
            assert forall|i: int| 0 <= i < rows.len() implies (#[trigger] rows[i]).pid != pid by {
                if i > 0 {
                    assert(rest[i - 1] == rows[i]);
                }
            }
        }
    }
}

/// The walk towards the root visits only processes of the list, starts at the process it is
/// asked for, goes from each process to its parent, and ends after `limit` steps even where
/// the `ppid` links run in a circle.
pub proof fn law_lineage_follows_parents(rows: Seq<RowView>, pid: u32, limit: nat)
    ensures
        lineage(rows, pid, limit).len() <= limit,
        lineage(rows, pid, limit).len() > 0 ==> lineage(rows, pid, limit)[0].pid == pid,
        forall|i: int|
            0 <= i < lineage(rows, pid, limit).len() ==> rows.contains(
                #[trigger] lineage(rows, pid, limit)[i],
            ),
        forall|i: int|
            0 < i < lineage(rows, pid, limit).len() ==> {
                &&& (#[trigger] lineage(rows, pid, limit)[i]).pid == lineage(rows, pid, limit)[i
                    - 1].ppid
                &&& lineage(rows, pid, limit)[i].pid > 1
            },
    decreases limit,
{
    law_row_is_found(rows, pid);
    let chain = lineage(rows, pid, limit);
    if limit > 0 {
        if let Some(row) = row_of(rows, pid) {
            if row.ppid > 1 {
                let rest = lineage(rows, row.ppid, (limit - 1) as nat);
                law_lineage_follows_parents(rows, row.ppid, (limit - 1) as nat);
                assert forall|i: int| 0 <= i < chain.len() implies rows.contains(
                    #[trigger] chain[i],
                ) by {
                    if i > 0 {
                        assert(chain[i] == rest[i - 1]);
                    }
                }
                assert forall|i: int| 0 < i < chain.len() implies (#[trigger] chain[i]).pid
                    == chain[i - 1].ppid && chain[i].pid > 1 by {
                    assert(chain[i] == rest[i - 1]);
                    if i > 1 {
                        assert(chain[i - 1] == rest[i - 2]);
                    }
                }
            }
        }
    }
}

/// A pid is among those of a kind exactly when a row of that kind has it.
pub proof fn law_pids_of_kind_are_that_kind(rows: Seq<RowView>, kind: TerminalKind, pid: u32)
    ensures
        pids_of_kind(rows, kind).contains(pid) <==> exists|i: int|
            0 <= i < rows.len() && (#[trigger] rows[i]).pid == pid && kind_of(rows[i].comm)
                == kind,
    decreases rows.len(),
{
    if rows.len() > 0 {
        let rest = rows.drop_last();
        let pids = pids_of_kind(rows, kind);
        let before = pids_of_kind(rest, kind);
        law_pids_of_kind_are_that_kind(rest, kind, pid);
        if pids.contains(pid) {
            let k = choose|k: int| 0 <= k < pids.len() && pids[k] == pid;
            if k < before.len() {
                assert(before[k] == pid);
                let i = choose|i: int|
                    0 <= i < rest.len() && (#[trigger] rest[i]).pid == pid && kind_of(
                        rest[i].comm,
                    ) == kind;
                assert(rows[i] == rest[i]);
            } else {
                assert(rows[rows.len() - 1] == rows.last());
            }
        }
        if exists|i: int|
            0 <= i < rows.len() && (#[trigger] rows[i]).pid == pid && kind_of(rows[i].comm)
                == kind {
            let i = choose|i: int|
                0 <= i < rows.len() && (#[trigger] rows[i]).pid == pid && kind_of(rows[i].comm)
                    == kind;
            if i < rows.len() - 1 {
                assert(rest[i] == rows[i]);
                let k = choose|k: int| 0 <= k < before.len() && before[k] == pid;
                assert(pids[k] == pid);
            } else {
                assert(pids[before.len() as int] == pid);
            }
        }
    }
}

proof fn lemma_pids_of_kind_prepend(row: RowView, rest: Seq<RowView>, kind: TerminalKind)
    ensures
        pids_of_kind(seq![row] + rest, kind) == (if kind_of(row.comm) == kind {
            seq![row.pid]
        } else {
            Seq::<u32>::empty()
        }) + pids_of_kind(rest, kind),
    decreases rest.len(),
{
    let rows = seq![row] + rest;
    if rest.len() == 0 {
        assert(rows.drop_last() =~= Seq::<RowView>::empty());
        reveal_with_fuel(pids_of_kind, 2);
    } else {
        lemma_pids_of_kind_prepend(row, rest.drop_last(), kind);
        assert(rows.drop_last() =~= seq![row] + rest.drop_last());
        assert(rows.last() == rest.last());
    }
}

/// The host terminal has a display name, and its process comes first among the processes of
/// its kind on the way to the root: whoever tries these in turn starts with the host.
pub proof fn law_host_is_nearest_of_its_kind(chain: Seq<RowView>)
    ensures
        first_terminal(chain) matches Some(host) ==> {
            &&& host.kind != TerminalKind::Unknown
            &&& app_name_of(host.kind) is Some
            &&& pids_of_kind(chain, host.kind).len() > 0
            &&& pids_of_kind(chain, host.kind)[0] == host.pid
        },
        first_terminal(chain) is None ==> forall|i: int|
            0 <= i < chain.len() ==> kind_of((#[trigger] chain[i]).comm) == TerminalKind::Unknown,
    decreases chain.len(),
{
    if chain.len() > 0 {
        let rest = chain.drop_first();
        law_host_is_nearest_of_its_kind(rest);
        assert(chain =~= seq![chain.first()] + rest);
        if let Some(host) = first_terminal(chain) {
            lemma_pids_of_kind_prepend(chain.first(), rest, host.kind);
        } else {
            assert forall|i: int| 0 <= i < chain.len() implies kind_of((#[trigger] chain[i]).comm)
                == TerminalKind::Unknown by {
                if i > 0 {
                    assert(rest[i - 1] == chain[i]);
                }
            }
        }
    }
}

/// No two terminals share a display name, and only an unknown one has none.
pub proof fn law_app_names_tell_kinds_apart(a: TerminalKind, b: TerminalKind)
    ensures
        app_name_of(a) == app_name_of(b) ==> a == b,
        app_name_of(a) is None <==> a == TerminalKind::Unknown,
{
    reveal_strlit("Ghostty");
    reveal_strlit("iTerm");
    reveal_strlit("Visual Studio Code");
    reveal_strlit("Terminal");
    reveal_strlit("Windows Terminal");
    assert("Ghostty"@.len() == 7);
    assert("iTerm"@.len() == 5);
    assert("Visual Studio Code"@.len() == 18);
    assert("Terminal"@.len() == 8);
    assert("Windows Terminal"@.len() == 16);
}

/// Rows are seen as they are, one for one.
pub proof fn law_rows_are_seen_as_they_are(rows: Seq<ProcRow>, i: int)
    requires
        0 <= i < rows.len(),
    ensures
        row_views(rows).len() == rows.len(),
        row_views(rows)[i].pid == rows[i].pid,
        row_views(rows)[i].ppid == rows[i].ppid,
        row_views(rows)[i].comm == rows[i].comm@,
{
}

/// Of several rows of one process, the first is the one that counts.
pub proof fn law_the_first_row_counts(rows: Seq<RowView>, pid: u32, i: int)
    requires
        0 <= i < rows.len(),
        rows[i].pid == pid,
        forall|j: int| 0 <= j < i ==> (#[trigger] rows[j]).pid != pid,
    ensures
        row_of(rows, pid) == Some(rows[i]),
    decreases i,
{
    if i > 0 {
        let rest = rows.drop_first();
        assert(rows[0].pid != pid);
        assert forall|j: int| 0 <= j < i - 1 implies (#[trigger] rest[j]).pid != pid by {
            assert(rest[j] == rows[j + 1]);
        }
        law_the_first_row_counts(rest, pid, i - 1);
    }
}

/// The walk towards the root is complete. It ends before its limit only at a process whose
/// parent is the root, or nothing, or has no row, and it is empty only where the limit allows
/// nothing or the process has no row. Each process on it is shown by the row that counts, and
/// all but the last have a parent that is not the root.
pub proof fn law_lineage_is_complete(rows: Seq<RowView>, pid: u32, limit: nat)
    ensures
        lineage(rows, pid, limit).len() == 0 <==> limit == 0 || (forall|i: int|
            0 <= i < rows.len() ==> (#[trigger] rows[i]).pid != pid),
        0 < lineage(rows, pid, limit).len() < limit ==> {
            ||| lineage(rows, pid, limit).last().ppid <= 1
            ||| forall|i: int|
                0 <= i < rows.len() ==> (#[trigger] rows[i]).pid != lineage(
                    rows,
                    pid,
                    limit,
                ).last().ppid
        },
        forall|i: int|
            0 <= i < lineage(rows, pid, limit).len() ==> row_of(
                rows,
                (#[trigger] lineage(rows, pid, limit)[i]).pid,
            ) == Some(lineage(rows, pid, limit)[i]),
        forall|i: int|
            0 <= i < lineage(rows, pid, limit).len() - 1 ==> (#[trigger] lineage(
                rows,
                pid,
                limit,
            )[i]).ppid > 1,
    decreases limit,
{
    law_row_is_found(rows, pid);
    let chain = lineage(rows, pid, limit);
    if limit > 0 {
        if let Some(row) = row_of(rows, pid) {
            let at = choose|at: int| 0 <= at < rows.len() && rows[at] == row;
            assert(rows[at].pid == pid);
            assert(chain[0] == row);
            if row.ppid > 1 {
                let rest = lineage(rows, row.ppid, (limit - 1) as nat);
                law_lineage_is_complete(rows, row.ppid, (limit - 1) as nat);
                if rest.len() > 0 {
                    assert(chain.last() == rest.last());
                } else {
                    assert(chain.last() == row);
                }
                assert forall|i: int| 0 <= i < chain.len() implies row_of(
                    rows,
                    (#[trigger] chain[i]).pid,
                ) == Some(chain[i]) by {
                    if i > 0 {
                        assert(chain[i] == rest[i - 1]);
                    }
                }
                assert forall|i: int| 0 <= i < chain.len() - 1 implies (#[trigger] chain[i]).ppid
                    > 1 by {
                    if i > 0 {
                        assert(chain[i] == rest[i - 1]);
                    }
                }
            }
        }
    }
}

/// A higher limit changes nothing of a walk but how far it may go: a walk with less is the
/// start of one with more.
pub proof fn law_a_higher_limit_only_goes_further(
    rows: Seq<RowView>,
    pid: u32,
    limit: nat,
    more: nat,
)
    requires
        limit <= more,
    ensures
        lineage(rows, pid, limit).is_prefix_of(lineage(rows, pid, more)),
        lineage(rows, pid, limit).len() < limit ==> lineage(rows, pid, more) == lineage(
            rows,
            pid,
            limit,
        ),
    decreases limit,
{
    if limit > 0 {
        if let Some(row) = row_of(rows, pid) {
            if row.ppid > 1 {
                law_a_higher_limit_only_goes_further(
                    rows,
                    row.ppid,
                    (limit - 1) as nat,
                    (more - 1) as nat,
                );
            }
        }
    }
}

/// The pids of a kind are picked row by row, in the order of the rows: of two lists behind each
/// other first those of the first, of one row its pid where it is of that kind.
pub proof fn law_pids_of_kind_are_picked_in_order(
    a: Seq<RowView>,
    b: Seq<RowView>,
    row: RowView,
    kind: TerminalKind,
)
    ensures
        pids_of_kind(a + b, kind) == pids_of_kind(a, kind) + pids_of_kind(b, kind),
        kind_of(row.comm) == kind ==> pids_of_kind(seq![row], kind) == seq![row.pid],
        kind_of(row.comm) != kind ==> pids_of_kind(seq![row], kind).len() == 0,
    decreases b.len(),
{
    lemma_pids_of_kind_prepend(row, Seq::empty(), kind);
    assert(seq![row] + Seq::<RowView>::empty() =~= seq![row]);
    if b.len() == 0 {
        assert(a + b =~= a);
        assert(pids_of_kind(a, kind) + Seq::<u32>::empty() =~= pids_of_kind(a, kind));
    } else {
        law_pids_of_kind_are_picked_in_order(a, b.drop_last(), row, kind);
        assert((a + b).drop_last() =~= a + b.drop_last());
        assert((a + b).last() == b.last());
        let before = pids_of_kind(a, kind);
        let rest = pids_of_kind(b.drop_last(), kind);
        assert((before + rest).push(b.last().pid) =~= before + rest.push(b.last().pid));
    }
}

/// The host is the first process of the list that belongs to any terminal, with its own pid and
/// kind, however many others stand in front of it.
pub proof fn law_host_is_the_first_terminal(chain: Seq<RowView>, i: int)
    requires
        0 <= i < chain.len(),
        kind_of(chain[i].comm) != TerminalKind::Unknown,
        forall|j: int|
            0 <= j < i ==> kind_of((#[trigger] chain[j]).comm) == TerminalKind::Unknown,
    ensures
        first_terminal(chain) == Some(
            HostTerminal { pid: chain[i].pid, kind: kind_of(chain[i].comm) },
        ),
    decreases i,
{
    if i > 0 {
        let rest = chain.drop_first();
        assert(kind_of(chain[0].comm) == TerminalKind::Unknown);
        assert forall|j: int| 0 <= j < i - 1 implies kind_of((#[trigger] rest[j]).comm)
            == TerminalKind::Unknown by {
            assert(rest[j] == chain[j + 1]);
        }
        law_host_is_the_first_terminal(rest, i - 1);
    }
}

/// A bundle name marks its terminal wherever it stands in a path, and whatever else does. Only
/// a bundle that is asked for earlier goes before it.
pub proof fn law_a_bundle_marks_its_terminal(before: Seq<char>, after: Seq<char>, comm: Seq<char>)
    ensures
        kind_of(before + "Ghostty.app"@ + after) == TerminalKind::Ghostty,
        comm == before + "iTerm.app"@ + after && !occurs_in(comm, "Ghostty.app"@) ==> kind_of(comm)
            == TerminalKind::ITerm2,
        comm == before + "Visual Studio Code"@ + after && !occurs_in(comm, "Ghostty.app"@)
            && !occurs_in(comm, "iTerm.app"@) ==> kind_of(comm) == TerminalKind::VsCode,
        comm == before + "Terminal.app"@ + after && !occurs_in(comm, "Ghostty.app"@)
            && !occurs_in(comm, "iTerm.app"@) && !occurs_in(comm, "Visual Studio Code"@)
            ==> kind_of(comm) == TerminalKind::TerminalApp,
        kind_of("Code.exe"@) == TerminalKind::VsCode,
        kind_of("Code - Insiders.exe"@) == TerminalKind::VsCode,
        kind_of("WindowsTerminal.exe"@) == TerminalKind::WindowsTerminal,
{
    law_an_occurrence_splits_the_text(before, "Ghostty.app"@, after, comm, 0);
    law_an_occurrence_splits_the_text(before, "iTerm.app"@, after, comm, 0);
    law_an_occurrence_splits_the_text(before, "Visual Studio Code"@, after, comm, 0);
    law_an_occurrence_splits_the_text(before, "Terminal.app"@, after, comm, 0);
    lemma_executables_are_no_bundles();
}

/// An executable belongs to a terminal only by its bundle name somewhere in the path, or by
/// being exactly one of its executable names.
pub proof fn law_a_terminal_has_its_mark(comm: Seq<char>)
    ensures
        kind_of(comm) == TerminalKind::Ghostty ==> occurs_in(comm, "Ghostty.app"@),
        kind_of(comm) == TerminalKind::ITerm2 ==> occurs_in(comm, "iTerm.app"@) && !occurs_in(
            comm,
            "Ghostty.app"@,
        ),
        kind_of(comm) == TerminalKind::VsCode ==> occurs_in(comm, "Visual Studio Code"@) || comm
            == "Code.exe"@ || comm == "Code - Insiders.exe"@,
        kind_of(comm) == TerminalKind::TerminalApp ==> occurs_in(comm, "Terminal.app"@)
            && !occurs_in(comm, "Visual Studio Code"@),
        kind_of(comm) == TerminalKind::WindowsTerminal ==> comm == "WindowsTerminal.exe"@,
        kind_of(comm) == TerminalKind::Unknown ==> !occurs_in(comm, "Ghostty.app"@) && !occurs_in(
            comm,
            "iTerm.app"@,
        ) && !occurs_in(comm, "Visual Studio Code"@) && !occurs_in(comm, "Terminal.app"@) && comm
            != "Code.exe"@ && comm != "Code - Insiders.exe"@ && comm != "WindowsTerminal.exe"@,
{
}

proof fn lemma_needle_char_occurs(hay: Seq<char>, needle: Seq<char>, i: int)
    requires
        0 <= i < needle.len(),
        !hay.contains(needle[i]),
    ensures
        !occurs_in(hay, needle),
{
    if occurs_in(hay, needle) {
        let at = choose|at: int| occurs_at(hay, needle, at);
        assert(hay.subrange(at, at + needle.len())[i] == hay[at + i]);
        assert(hay.contains(hay[at + i]));
    }
}

proof fn lemma_executables_are_no_bundles()
    ensures
        !occurs_in("Code.exe"@, "Ghostty.app"@),
        !occurs_in("Code.exe"@, "iTerm.app"@),
        !occurs_in("Code - Insiders.exe"@, "Ghostty.app"@),
        !occurs_in("Code - Insiders.exe"@, "iTerm.app"@),
        !occurs_in("Code.exe"@, "Terminal.app"@),
        !occurs_in("Code - Insiders.exe"@, "Terminal.app"@),
        !occurs_in("WindowsTerminal.exe"@, "Ghostty.app"@),
        !occurs_in("WindowsTerminal.exe"@, "iTerm.app"@),
        !occurs_in("WindowsTerminal.exe"@, "Visual Studio Code"@),
        !occurs_in("WindowsTerminal.exe"@, "Terminal.app"@),
        "WindowsTerminal.exe"@ != "Code.exe"@,
        "WindowsTerminal.exe"@ != "Code - Insiders.exe"@,
{
    reveal_strlit("Code.exe");
    reveal_strlit("Code - Insiders.exe");
    reveal_strlit("WindowsTerminal.exe");
    reveal_strlit("Ghostty.app");
    reveal_strlit("iTerm.app");
    reveal_strlit("Visual Studio Code");
    reveal_strlit("Terminal.app");
    assert("WindowsTerminal.exe"@[0] == 'W');
    assert("Code.exe"@[0] == 'C');
    assert("Code - Insiders.exe"@[0] == 'C');
    assert("Ghostty.app"@[10] == 'p');
    assert("iTerm.app"@[8] == 'p');
    assert("Terminal.app"@[11] == 'p');
    assert("Visual Studio Code"@[0] == 'V');
    lemma_needle_char_occurs("Code.exe"@, "Ghostty.app"@, 10);
    lemma_needle_char_occurs("Code.exe"@, "iTerm.app"@, 8);
    lemma_needle_char_occurs("Code - Insiders.exe"@, "Ghostty.app"@, 10);
    lemma_needle_char_occurs("Code - Insiders.exe"@, "iTerm.app"@, 8);
    lemma_needle_char_occurs("Code.exe"@, "Terminal.app"@, 11);
    lemma_needle_char_occurs("Code - Insiders.exe"@, "Terminal.app"@, 11);
    lemma_needle_char_occurs("WindowsTerminal.exe"@, "Ghostty.app"@, 10);
    lemma_needle_char_occurs("WindowsTerminal.exe"@, "iTerm.app"@, 8);
    lemma_needle_char_occurs("WindowsTerminal.exe"@, "Visual Studio Code"@, 0);
    lemma_needle_char_occurs("WindowsTerminal.exe"@, "Terminal.app"@, 11);
}

/// Every terminal is shown by its own name.
pub proof fn law_terminals_by_name(kind: TerminalKind)
    ensures
        app_name_of(kind) == Some("Ghostty"@) <==> kind == TerminalKind::Ghostty,
        app_name_of(kind) == Some("iTerm"@) <==> kind == TerminalKind::ITerm2,
        app_name_of(kind) == Some("Visual Studio Code"@) <==> kind == TerminalKind::VsCode,
        app_name_of(kind) == Some("Terminal"@) <==> kind == TerminalKind::TerminalApp,
        app_name_of(kind) == Some("Windows Terminal"@) <==> kind == TerminalKind::WindowsTerminal,
{
    law_app_names_tell_kinds_apart(kind, TerminalKind::Ghostty);
    law_app_names_tell_kinds_apart(kind, TerminalKind::ITerm2);
    law_app_names_tell_kinds_apart(kind, TerminalKind::VsCode);
    law_app_names_tell_kinds_apart(kind, TerminalKind::TerminalApp);
    law_app_names_tell_kinds_apart(kind, TerminalKind::WindowsTerminal);
}

} // verus!
