//! Which files of a directory tree are session logs.
//!
//! Reading a directory is left to the caller: `read_dir` lists what a directory holds, or
//! answers `None` where it cannot be read. Paths are of any type `P`; the walk only hands
//! them on.

use vstd::prelude::*;

use crate::text::{
    basename, basename_of, chars_of, last_position, law_basename_is_the_last_component,
    law_last_position, owned_view, same_text, text_of,
};

verus! {

/// Symlink-cycle guard for the recursive walk: how many links a way down may go through.
pub const MAX_DEPTH: usize = 16;

/// What an entry of a directory leads to, symbolic links followed.
#[derive(Debug, Clone, Copy, PartialEq, Eq, Structural)]
pub enum EntryKind {
    Directory,
    /// A regular file.
    File,
    /// Neither, or nothing at all.
    Other,
}

/// One entry of a directory.
#[derive(Debug, PartialEq, Eq)]
pub struct DirEntry<P> {
    pub path: P,
    /// The last component of `path`.
    pub name: String,
    pub kind: EntryKind,
    /// The entry itself is a link to what it leads to.
    pub is_link: bool,
}

/// The extension of a path: what follows the last dot of its last component. One without a dot
/// has none, nor has one whose only dot stands in front, nor the name of the parent directory.
pub open spec fn extension_of(path: Seq<char>) -> Option<Seq<char>> {
    let name = basename_of(path);
    let dot = last_position(name, '.');
    if dot <= 0 || name == ".."@ {
        None
    } else {
        Some(name.skip(dot + 1))
    }
}

/// The extension of a path.
pub fn extension(path: &str) -> (ext: Option<String>)
    ensures
        owned_view(ext) == extension_of(path@),
{
    let name = basename(path);
    if same_text(name.as_str(), "..") {
        return None;
    }
    let chars = chars_of(name.as_str());
    let mut end: usize = chars.len();
    assert(chars@.take(end as int) =~= chars@);
    while end > 0
        invariant
            end <= chars.len(),
            last_position(chars@, '.') == last_position(chars@.take(end as int), '.'),
            chars@ == basename_of(path@),
            chars@ != ".."@,
        decreases end,
    {
        let ghost front = chars@.take(end as int);
        assert(front.last() == chars@[end - 1]);
        assert(front.drop_last() =~= chars@.take(end - 1));
        if chars[end - 1] == '.' {
            if end == 1 {
                return None;
            }
            assert(chars@.subrange(end as int, chars.len() as int) =~= chars@.skip(end as int));
            return Some(text_of(&chars, end, chars.len()));
        }
        end = end - 1;
    }
    None
}

/// Whether the path has exactly this extension.
pub fn has_ext(path: &str, ext: &str) -> (has: bool)
    ensures
        has == (extension_of(path@) == Some(ext@)),
{
    match extension(path) {
        Some(text) => same_text(text.as_str(), ext),
        None => false,
    }
}

/// The name is that of a session log.
pub open spec fn jsonl_name(name: Seq<char>) -> bool {
    extension_of(name) == Some("jsonl"@)
}

/// How many links a way went through once it entered `entry`.
pub open spec fn links_after<P>(links: nat, entry: DirEntry<P>) -> nat {
    if entry.is_link {
        links + 1
    } else {
        links
    }
}

/// `found` is what walking `dir` can give when reading a directory answers as it may. `dir`
/// lies `depth` levels below the start, on a way through `links` links. Where these are too
/// many, where the levels cannot be counted any more, or where the directory cannot be read,
/// that is nothing, and otherwise what its entries give.
pub open spec fn walk_yields<P>(
    answers: spec_fn(P, Option<Vec<DirEntry<P>>>) -> bool,
    dir: P,
    links: nat,
    depth: nat,
    found: Seq<P>,
) -> bool
    decreases usize::MAX - depth, 0int,
{
    if links > MAX_DEPTH || depth >= usize::MAX {
        found.len() == 0
    } else {
        exists|listing: Option<Vec<DirEntry<P>>>| #[trigger]
            answers(dir, listing) && match listing {
                None => found.len() == 0,
                Some(entries) => entries_yield(answers, entries@, links, depth + 1, found),
            }
    }
}

/// `found` is what the entries give, in their order: a directory what walking it at `depth`
/// gives, a session log itself, anything else nothing.
pub open spec fn entries_yield<P>(
    answers: spec_fn(P, Option<Vec<DirEntry<P>>>) -> bool,
    entries: Seq<DirEntry<P>>,
    links: nat,
    depth: nat,
    found: Seq<P>,
) -> bool
    decreases usize::MAX - depth, entries.len(),
{
    if entries.len() == 0 {
        found.len() == 0
    } else {
        let entry = entries.last();
        let before = entries.drop_last();
        if entry.kind == EntryKind::Directory {
            exists|n: int|
                #![trigger found.take(n)]
                0 <= n <= found.len() && entries_yield(
                    answers,
                    before,
                    links,
                    depth,
                    found.take(n),
                ) && walk_yields(
                    answers,
                    entry.path,
                    links_after(links, entry),
                    depth,
                    found.skip(n),
                )
        } else if jsonl_name(entry.name@) {
            found.len() > 0 && found.last() == entry.path && entries_yield(
                answers,
                before,
                links,
                depth,
                found.drop_last(),
            )
        } else {
            entries_yield(answers, before, links, depth, found)
        }
    }
}

/// `after` is `before` with what walking `dir` can give behind it.
pub open spec fn walk_appends<P>(
    answers: spec_fn(P, Option<Vec<DirEntry<P>>>) -> bool,
    dir: P,
    links: nat,
    depth: nat,
    before: Seq<P>,
    after: Seq<P>,
) -> bool {
    &&& before.is_prefix_of(after)
    &&& walk_yields(answers, dir, links, depth, after.skip(before.len() as int))
}

/// Walks `dir`, which lies `depth` levels below the start on a way through `links` links, and
/// adds what is found to `out`.
pub fn walk<P, R: Fn(&P) -> Option<Vec<DirEntry<P>>>>(
    read_dir: &R,
    dir: &P,
    out: &mut Vec<P>,
    links: usize,
    depth: usize,
)
    requires
        forall|path: &P| #[trigger] call_requires(*read_dir, (path,)),
    ensures
        walk_appends(
            |path: P, listing: Option<Vec<DirEntry<P>>>| call_ensures(*read_dir, (&path,), listing),
            *dir,
            links as nat,
            depth as nat,
            old(out)@,
            final(out)@,
        ),
        forall|tree: spec_fn(P) -> Option<Seq<DirEntry<P>>>|
            reads_tree(
                |path: P, listing: Option<Vec<DirEntry<P>>>|
                    call_ensures(*read_dir, (&path,), listing),
                tree,
            ) ==> final(out)@ == old(out)@ + #[trigger] tree_logs(
                tree,
                *dir,
                links as nat,
                depth as nat,
            ),
    decreases usize::MAX - depth,
{
    let ghost answers = |path: P, listing: Option<Vec<DirEntry<P>>>|
        call_ensures(*read_dir, (&path,), listing);
    let ghost start = out@;
    if links > MAX_DEPTH || depth == usize::MAX {
        proof {
            lemma_adds_the_logs_of_a_tree(answers, *dir, links as nat, depth as nat, start, out@);
        }
        return ;
    }
    let listing = read_dir(dir);
    let ghost answer = listing;
    assert(answers(*dir, answer));
    if let Some(entries) = listing {
        let ghost all = entries@;
        for entry in it: entries.into_iter()
            invariant
                it.seq() == all,
                links <= MAX_DEPTH,
                depth < usize::MAX,
                answers == (|path: P, listing: Option<Vec<DirEntry<P>>>|
                    call_ensures(*read_dir, (&path,), listing)),
                forall|path: &P| #[trigger] call_requires(*read_dir, (path,)),
                start.is_prefix_of(out@),
                entries_yield(
                    answers,
                    all.take(it.index()),
                    links as nat,
                    (depth + 1) as nat,
                    out@.skip(start.len() as int),
                ),
        {
            let ghost seen = all.take(it.index() + 1);
            let ghost before = out@;
            assert(seen.drop_last() =~= all.take(it.index()));
            if entry.kind == EntryKind::Directory {
                let links_there: usize = if entry.is_link { links + 1 } else { links };
                walk(read_dir, &entry.path, out, links_there, depth + 1);
                proof {
                    let n = before.len() - start.len();
                    let found = out@.skip(start.len() as int);
                    assert(found.take(n) =~= before.skip(start.len() as int));
                    assert(found.skip(n) =~= out@.skip(before.len() as int));
                }
            } else if has_ext(entry.name.as_str(), "jsonl") {
                out.push(entry.path);
                proof {
                    let found = out@.skip(start.len() as int);
                    assert(found.drop_last() =~= before.skip(start.len() as int));
                }
            }
        }
        assert(all.take(all.len() as int) =~= all);
    }
    proof {
        lemma_adds_the_logs_of_a_tree(answers, *dir, links as nat, depth as nat, start, out@);
    }
}

/// All `*.jsonl` files under `dir`, recursively. Unreadable directories are skipped silently,
/// and so is what only a way through more than `MAX_DEPTH` links leads to.
pub fn jsonl_files_recursive<P, R: Fn(&P) -> Option<Vec<DirEntry<P>>>>(
    dir: &P,
    read_dir: R,
) -> (found: Vec<P>)
    requires
        forall|path: &P| #[trigger] call_requires(read_dir, (path,)),
    ensures
        walk_yields(
            |path: P, listing: Option<Vec<DirEntry<P>>>| call_ensures(read_dir, (&path,), listing),
            *dir,
            0,
            0,
            found@,
        ),
{
    let mut out: Vec<P> = Vec::new();
    walk(&read_dir, dir, &mut out, 0, 0);
    assert(out@.skip(0) =~= out@);
    out
}

/// The paths of the regular files among `entries` that are session logs, in order.
pub open spec fn log_files<P>(entries: Seq<DirEntry<P>>) -> Seq<P>
    decreases entries.len(),
{
    if entries.len() == 0 {
        Seq::empty()
    } else {
        let before = log_files(entries.drop_last());
        if entries.last().kind == EntryKind::File && jsonl_name(entries.last().name@) {
            before.push(entries.last().path)
        } else {
            before
        }
    }
}

/// The paths of the directories among `entries`, in order.
pub open spec fn directories<P>(entries: Seq<DirEntry<P>>) -> Seq<P>
    decreases entries.len(),
{
    if entries.len() == 0 {
        Seq::empty()
    } else {
        let before = directories(entries.drop_last());
        if entries.last().kind == EntryKind::Directory {
            before.push(entries.last().path)
        } else {
            before
        }
    }
}

/// `found` is what listing the session logs directly inside `dir` can give when reading it
/// answers as it may.
pub open spec fn flat_yields<P>(
    answers: spec_fn(P, Option<Vec<DirEntry<P>>>) -> bool,
    dir: P,
    found: Seq<P>,
) -> bool {
    exists|listing: Option<Vec<DirEntry<P>>>| #[trigger]
        answers(dir, listing) && found == match listing {
            None => Seq::empty(),
            Some(entries) => log_files(entries@),
        }
}

/// `found` is what listing the directories directly inside `dir` can give when reading it
/// answers as it may.
pub open spec fn subdirs_yield<P>(
    answers: spec_fn(P, Option<Vec<DirEntry<P>>>) -> bool,
    dir: P,
    found: Seq<P>,
) -> bool {
    exists|listing: Option<Vec<DirEntry<P>>>| #[trigger]
        answers(dir, listing) && found == match listing {
            None => Seq::empty(),
            Some(entries) => directories(entries@),
        }
}

/// The `*.jsonl` files directly inside `dir`; none where it cannot be read.
pub fn jsonl_files_in<P, R: Fn(&P) -> Option<Vec<DirEntry<P>>>>(dir: &P, read_dir: R) -> (found:
    Vec<P>)
    requires
        call_requires(read_dir, (dir,)),
    ensures
        flat_yields(
            |path: P, listing: Option<Vec<DirEntry<P>>>| call_ensures(read_dir, (&path,), listing),
            *dir,
            found@,
        ),
{
    let ghost answers = |path: P, listing: Option<Vec<DirEntry<P>>>|
        call_ensures(read_dir, (&path,), listing);
    let listing = read_dir(dir);
    let ghost answer = listing;
    let mut out: Vec<P> = Vec::new();
    match listing {
        None => {},
        Some(entries) => {
            let ghost all = entries@;
            for entry in it: entries.into_iter()
                invariant
                    it.seq() == all,
                    out@ == log_files(all.take(it.index())),
            {
                assert(all.take(it.index() + 1).drop_last() =~= all.take(it.index()));
                if entry.kind == EntryKind::File && has_ext(entry.name.as_str(), "jsonl") {
                    out.push(entry.path);
                }
            }
            assert(all.take(all.len() as int) =~= all);
        },
    }
    assert(answers(*dir, answer));
    out
}

/// The immediate subdirectories of `dir`; none where it cannot be read.
pub fn subdirs<P, R: Fn(&P) -> Option<Vec<DirEntry<P>>>>(dir: &P, read_dir: R) -> (found: Vec<P>)
    requires
        call_requires(read_dir, (dir,)),
    ensures
        subdirs_yield(
            |path: P, listing: Option<Vec<DirEntry<P>>>| call_ensures(read_dir, (&path,), listing),
            *dir,
            found@,
        ),
{
    let ghost answers = |path: P, listing: Option<Vec<DirEntry<P>>>|
        call_ensures(read_dir, (&path,), listing);
    let listing = read_dir(dir);
    let ghost answer = listing;
    let mut out: Vec<P> = Vec::new();
    match listing {
        None => {},
        Some(entries) => {
            let ghost all = entries@;
            for entry in it: entries.into_iter()
                invariant
                    it.seq() == all,
                    out@ == directories(all.take(it.index())),
            {
                assert(all.take(it.index() + 1).drop_last() =~= all.take(it.index()));
                if entry.kind == EntryKind::Directory {
                    out.push(entry.path);
                }
            }
            assert(all.take(all.len() as int) =~= all);
        },
    }
    assert(answers(*dir, answer));
    out
}

/// A directory tree at rest: what each directory holds, or `None` where it cannot be read.
pub open spec fn reads_tree<P>(
    answers: spec_fn(P, Option<Vec<DirEntry<P>>>) -> bool,
    tree: spec_fn(P) -> Option<Seq<DirEntry<P>>>,
) -> bool {
    forall|dir: P, listing: Option<Vec<DirEntry<P>>>| #[trigger]
        answers(dir, listing) ==> match listing {
            None => tree(dir) is None,
            Some(entries) => tree(dir) == Some(entries@),
        }
}

/// The session logs under `dir`, which lies `depth` levels below the start on a way through
/// `links` links.
pub open spec fn tree_logs<P>(tree: spec_fn(P) -> Option<Seq<DirEntry<P>>>, dir: P, links: nat, depth: nat) -> Seq<P>
    decreases usize::MAX - depth, 0int,
{
    if links > MAX_DEPTH || depth >= usize::MAX {
        Seq::empty()
    } else {
        match tree(dir) {
            None => Seq::empty(),
            Some(entries) => entries_logs(tree, entries, links, depth + 1),
        }
    }
}

/// The session logs among and under `entries`, in their order.
pub open spec fn entries_logs<P>(
    tree: spec_fn(P) -> Option<Seq<DirEntry<P>>>,
    entries: Seq<DirEntry<P>>,
    links: nat,
    depth: nat,
) -> Seq<P>
    decreases usize::MAX - depth, entries.len(),
{
    if entries.len() == 0 {
        Seq::empty()
    } else {
        let entry = entries.last();
        let before = entries_logs(tree, entries.drop_last(), links, depth);
        if entry.kind == EntryKind::Directory {
            before + tree_logs(tree, entry.path, links_after(links, entry), depth)
        } else if jsonl_name(entry.name@) {
            before.push(entry.path)
        } else {
            before
        }
    }
}

/// On a tree at rest the walk has one outcome: the session logs of the tree, each directory's
/// in the order of its entries.
pub proof fn law_walk_gives_the_logs_of_the_tree<P>(
    answers: spec_fn(P, Option<Vec<DirEntry<P>>>) -> bool,
    tree: spec_fn(P) -> Option<Seq<DirEntry<P>>>,
    dir: P,
    links: nat,
    depth: nat,
    found: Seq<P>,
)
    requires
        reads_tree(answers, tree),
        walk_yields(answers, dir, links, depth, found),
    ensures
        found == tree_logs(tree, dir, links, depth),
    decreases usize::MAX - depth, 0int,
{
    if links <= MAX_DEPTH && depth < usize::MAX {
        let listing = choose|listing: Option<Vec<DirEntry<P>>>| #[trigger]
            answers(dir, listing) && match listing {
                None => found.len() == 0,
                Some(entries) => entries_yield(answers, entries@, links, depth + 1, found),
            };
        if let Some(entries) = listing {
            lemma_entries_of_tree(answers, tree, entries@, links, depth + 1, found);
        }
    }
}

proof fn lemma_entries_of_tree<P>(
    answers: spec_fn(P, Option<Vec<DirEntry<P>>>) -> bool,
    tree: spec_fn(P) -> Option<Seq<DirEntry<P>>>,
    entries: Seq<DirEntry<P>>,
    links: nat,
    depth: nat,
    found: Seq<P>,
)
    requires
        reads_tree(answers, tree),
        entries_yield(answers, entries, links, depth, found),
    ensures
        found == entries_logs(tree, entries, links, depth),
    decreases usize::MAX - depth, entries.len(),
{
    if entries.len() > 0 {
        let entry = entries.last();
        let before = entries.drop_last();
        if entry.kind == EntryKind::Directory {
            let there = links_after(links, entry);
            let n = choose|n: int|
                #![trigger found.take(n)]
                0 <= n <= found.len() && entries_yield(
                    answers,
                    before,
                    links,
                    depth,
                    found.take(n),
                ) && walk_yields(answers, entry.path, there, depth, found.skip(n));
            lemma_entries_of_tree(answers, tree, before, links, depth, found.take(n));
            law_walk_gives_the_logs_of_the_tree(
                answers,
                tree,
                entry.path,
                there,
                depth,
                found.skip(n),
            );
            assert(found =~= found.take(n) + found.skip(n));
        } else if jsonl_name(entry.name@) {
            lemma_entries_of_tree(answers, tree, before, links, depth, found.drop_last());
            assert(found =~= found.drop_last().push(entry.path));
        } else {
            lemma_entries_of_tree(answers, tree, before, links, depth, found);
        }
    }
}

proof fn lemma_adds_the_logs_of_a_tree<P>(
    answers: spec_fn(P, Option<Vec<DirEntry<P>>>) -> bool,
    dir: P,
    links: nat,
    depth: nat,
    before: Seq<P>,
    after: Seq<P>,
)
    requires
        walk_appends(answers, dir, links, depth, before, after),
    ensures
        forall|tree: spec_fn(P) -> Option<Seq<DirEntry<P>>>|
            reads_tree(answers, tree) ==> after == before + #[trigger] tree_logs(
                tree,
                dir,
                links,
                depth,
            ),
{
    let added = after.skip(before.len() as int);
    assert(after =~= before + added);
    assert forall|tree: spec_fn(P) -> Option<Seq<DirEntry<P>>>| reads_tree(answers, tree) implies after
        == before + #[trigger] tree_logs(tree, dir, links, depth) by {
        law_walk_gives_the_logs_of_the_tree(answers, tree, dir, links, depth, added);
    }
}

/// A walk only adds to what was found before: on a tree at rest, a walk that starts with some
/// paths ends with these, in place, and behind them exactly what a walk of the same directory
/// puts into an empty list.
pub proof fn law_earlier_finds_stay_and_change_nothing<P>(
    answers: spec_fn(P, Option<Vec<DirEntry<P>>>) -> bool,
    tree: spec_fn(P) -> Option<Seq<DirEntry<P>>>,
    dir: P,
    links: nat,
    depth: nat,
    before: Seq<P>,
    after: Seq<P>,
    fresh: Seq<P>,
)
    requires
        reads_tree(answers, tree),
        walk_appends(answers, dir, links, depth, before, after),
        walk_appends(answers, dir, links, depth, Seq::empty(), fresh),
    ensures
        after == before + fresh,
        fresh == tree_logs(tree, dir, links, depth),
{
    let logs = tree_logs(tree, dir, links, depth);
    lemma_adds_the_logs_of_a_tree(answers, dir, links, depth, before, after);
    lemma_adds_the_logs_of_a_tree(answers, dir, links, depth, Seq::empty(), fresh);
    assert(Seq::<P>::empty() + logs =~= logs);
}

/// What cannot be read holds nothing: the walk of such a directory finds nothing, and that is
/// no error.
pub proof fn law_unreadable_directory_is_empty<P>(
    answers: spec_fn(P, Option<Vec<DirEntry<P>>>) -> bool,
    dir: P,
    links: nat,
    depth: nat,
    found: Seq<P>,
)
    requires
        forall|listing: Option<Vec<DirEntry<P>>>| #[trigger]
            answers(dir, listing) ==> listing is None,
        walk_yields(answers, dir, links, depth, found),
    ensures
        found.len() == 0,
{
}

/// `entry` is listed as a directory in `dir`.
pub open spec fn subdirectory<P>(tree: spec_fn(P) -> Option<Seq<DirEntry<P>>>, dir: P, entry: DirEntry<P>) -> bool {
    &&& entry.kind == EntryKind::Directory
    &&& tree(dir) matches Some(entries) && entries.contains(entry)
}

/// `file` is listed in `dir` as a session log, and not as a directory.
pub open spec fn log_in<P>(tree: spec_fn(P) -> Option<Seq<DirEntry<P>>>, dir: P, file: P) -> bool {
    tree(dir) matches Some(entries) && exists|k: int|
        0 <= k < entries.len() && (#[trigger] entries[k]).kind != EntryKind::Directory
            && jsonl_name(entries[k].name@) && entries[k].path == file
}

/// `way` leads down from `start`: its first entry is a directory listed there, and each further
/// one a directory listed in the one before.
pub open spec fn way_down<P>(tree: spec_fn(P) -> Option<Seq<DirEntry<P>>>, start: P, way: Seq<DirEntry<P>>) -> bool
    decreases way.len(),
{
    way.len() > 0 ==> subdirectory(tree, start, way.first()) && way_down(
        tree,
        way.first().path,
        way.drop_first(),
    )
}

/// The directory that `way` ends in.
pub open spec fn way_end<P>(start: P, way: Seq<DirEntry<P>>) -> P {
    if way.len() == 0 {
        start
    } else {
        way.last().path
    }
}

/// How many links `way` goes through.
pub open spec fn links_on<P>(way: Seq<DirEntry<P>>) -> nat
    decreases way.len(),
{
    if way.len() == 0 {
        0
    } else {
        links_after(links_on(way.drop_first()), way.first())
    }
}

/// `way` leads from `start` to a directory that holds the session log `file`.
pub open spec fn way_to<P>(tree: spec_fn(P) -> Option<Seq<DirEntry<P>>>, start: P, way: Seq<DirEntry<P>>, file: P) -> bool {
    &&& way_down(tree, start, way)
    &&& log_in(tree, way_end(start, way), file)
}

/// A file is found exactly when it is a session log in a directory that a way through at most
/// `MAX_DEPTH` links leads to, whether or not links run in a circle. How many real directories
/// lie on the way does not matter, as long as they can be counted.
pub proof fn law_found_exactly_within_the_link_limit<P>(tree: spec_fn(P) -> Option<Seq<DirEntry<P>>>, start: P, file: P)
    ensures
        tree_logs(tree, start, 0, 0).contains(file) <==> exists|way: Seq<DirEntry<P>>| #[trigger]
            way_to(tree, start, way, file) && links_on(way) <= MAX_DEPTH && way.len() < usize::MAX,
{
    if tree_logs(tree, start, 0, 0).contains(file) {
        lemma_found_has_a_way(tree, start, 0, 0, file);
    }
    if exists|way: Seq<DirEntry<P>>| #[trigger]
        way_to(tree, start, way, file) && links_on(way) <= MAX_DEPTH && way.len() < usize::MAX {
        let way = choose|way: Seq<DirEntry<P>>| #[trigger]
            way_to(tree, start, way, file) && links_on(way) <= MAX_DEPTH && way.len() < usize::MAX;
        lemma_way_is_walked(tree, start, way, 0, 0, file);
    }
}

/// However deep a session log lies in real directories, it is found.
pub proof fn law_real_directories_are_walked_at_any_depth<P>(
    tree: spec_fn(P) -> Option<Seq<DirEntry<P>>>,
    start: P,
    way: Seq<DirEntry<P>>,
    file: P,
)
    requires
        way_to(tree, start, way, file),
        way.len() < usize::MAX,
        forall|i: int| 0 <= i < way.len() ==> !(#[trigger] way[i]).is_link,
    ensures
        tree_logs(tree, start, 0, 0).contains(file),
{
    lemma_no_links(way);
    lemma_way_is_walked(tree, start, way, 0, 0, file);
}

proof fn lemma_no_links<P>(way: Seq<DirEntry<P>>)
    requires
        forall|i: int| 0 <= i < way.len() ==> !(#[trigger] way[i]).is_link,
    ensures
        links_on(way) == 0,
    decreases way.len(),
{
    if way.len() > 0 {
        let rest = way.drop_first();
        assert forall|i: int| 0 <= i < rest.len() implies !(#[trigger] rest[i]).is_link by {
            assert(rest[i] == way[i + 1]);
        }
        lemma_no_links(rest);
        assert(!way[0].is_link);
    }
}

proof fn lemma_entries_contain<P>(
    tree: spec_fn(P) -> Option<Seq<DirEntry<P>>>,
    entries: Seq<DirEntry<P>>,
    links: nat,
    depth: nat,
    file: P,
)
    ensures
        entries_logs(tree, entries, links, depth).contains(file) <==> exists|k: int|
            0 <= k < entries.len() && entry_gives(tree, #[trigger] entries[k], links, depth, file),
    decreases entries.len(),
{
    let all = entries_logs(tree, entries, links, depth);
    if entries.len() > 0 {
        let before = entries.drop_last();
        let logs = entries_logs(tree, before, links, depth);
        let entry = entries.last();
        lemma_entries_contain(tree, before, links, depth, file);
        assert(all.contains(file) <==> logs.contains(file) || entry_gives(tree, entry, links, depth, file))
            by {
            if entry.kind == EntryKind::Directory {
                let under = tree_logs(tree, entry.path, links_after(links, entry), depth);
                if logs.contains(file) {
                    let i = choose|i: int| 0 <= i < logs.len() && logs[i] == file;
                    assert(all[i] == file);
                }
                if under.contains(file) {
                    let i = choose|i: int| 0 <= i < under.len() && under[i] == file;
                    assert(all[logs.len() + i] == file);
                }
                if all.contains(file) {
                    let i = choose|i: int| 0 <= i < all.len() && all[i] == file;
                    if i < logs.len() {
                        assert(logs[i] == file);
                    } else {
                        assert(under[i - logs.len()] == file);
                    }
                }
            } else if jsonl_name(entry.name@) {
                if logs.contains(file) {
                    let i = choose|i: int| 0 <= i < logs.len() && logs[i] == file;
                    assert(all[i] == file);
                }
                assert(all[logs.len() as int] == entry.path);
                if all.contains(file) {
                    let i = choose|i: int| 0 <= i < all.len() && all[i] == file;
                    if i < logs.len() {
                        assert(logs[i] == file);
                    }
                }
            }
        }
        assert((exists|k: int|
            0 <= k < entries.len() && entry_gives(tree, #[trigger] entries[k], links, depth, file)) <==> (
        exists|k: int| 0 <= k < before.len() && entry_gives(tree, #[trigger] before[k], links, depth, file))
            || entry_gives(tree, entry, links, depth, file)) by {
            assert(forall|k: int| 0 <= k < before.len() ==> before[k] == entries[k]);
            if exists|k: int|
                0 <= k < before.len() && entry_gives(tree, #[trigger] before[k], links, depth, file) {
                let k = choose|k: int|
                    0 <= k < before.len() && entry_gives(tree, #[trigger] before[k], links, depth, file);
                assert(entry_gives(tree, entries[k], links, depth, file));
            }
            if exists|k: int|
                0 <= k < entries.len() && entry_gives(tree, #[trigger] entries[k], links, depth, file) {
                let k = choose|k: int|
                    0 <= k < entries.len() && entry_gives(tree, #[trigger] entries[k], links, depth, file);
                if k < before.len() {
                    assert(entry_gives(tree, before[k], links, depth, file));
                }
            }
            assert(entries[entries.len() - 1] == entry);
        }
    }
}

/// `file` is the entry itself, or lies under it.
spec fn entry_gives<P>(
    tree: spec_fn(P) -> Option<Seq<DirEntry<P>>>,
    entry: DirEntry<P>,
    links: nat,
    depth: nat,
    file: P,
) -> bool {
    if entry.kind == EntryKind::Directory {
        tree_logs(tree, entry.path, links_after(links, entry), depth).contains(file)
    } else {
        jsonl_name(entry.name@) && entry.path == file
    }
}

proof fn lemma_found_has_a_way<P>(tree: spec_fn(P) -> Option<Seq<DirEntry<P>>>, dir: P, links: nat, depth: nat, file: P)
    requires
        tree_logs(tree, dir, links, depth).contains(file),
    ensures
        exists|way: Seq<DirEntry<P>>| #[trigger]
            way_to(tree, dir, way, file) && links + links_on(way) <= MAX_DEPTH && depth + way.len()
                < usize::MAX,
    decreases usize::MAX - depth,
{
    assert(links <= MAX_DEPTH && depth < usize::MAX);
    let entries = tree(dir)->0;
    lemma_entries_contain(tree, entries, links, depth + 1, file);
    let k = choose|k: int|
        0 <= k < entries.len() && entry_gives(tree, #[trigger] entries[k], links, depth + 1, file);
    let entry = entries[k];
    if entry.kind == EntryKind::Directory {
        let there = links_after(links, entry);
        lemma_found_has_a_way(tree, entry.path, there, depth + 1, file);
        let rest = choose|way: Seq<DirEntry<P>>| #[trigger]
            way_to(tree, entry.path, way, file) && there + links_on(way) <= MAX_DEPTH && depth + 1
                + way.len() < usize::MAX;
        let way = seq![entry] + rest;
        assert(way.drop_first() =~= rest);
        assert(entries.contains(entry));
        assert(way_end(dir, way) == way_end(entry.path, rest));
        assert(way_to(tree, dir, way, file));
    } else {
        let way = Seq::<DirEntry<P>>::empty();
        assert(log_in(tree, dir, file));
        assert(way_to(tree, dir, way, file));
    }
}

proof fn lemma_way_is_walked<P>(
    tree: spec_fn(P) -> Option<Seq<DirEntry<P>>>,
    dir: P,
    way: Seq<DirEntry<P>>,
    links: nat,
    depth: nat,
    file: P,
)
    requires
        way_to(tree, dir, way, file),
        links + links_on(way) <= MAX_DEPTH,
        depth + way.len() < usize::MAX,
    ensures
        tree_logs(tree, dir, links, depth).contains(file),
    decreases way.len(),
{
    let entries = tree(dir)->0;
    lemma_entries_contain(tree, entries, links, depth + 1, file);
    if way.len() == 0 {
        let k = choose|k: int|
            0 <= k < entries.len() && (#[trigger] entries[k]).kind != EntryKind::Directory
                && jsonl_name(entries[k].name@) && entries[k].path == file;
        assert(entry_gives(tree, entries[k], links, depth + 1, file));
    } else {
        let entry = way.first();
        let rest = way.drop_first();
        assert(way_end(dir, way) == way_end(entry.path, rest));
        lemma_way_is_walked(tree, entry.path, rest, links_after(links, entry), depth + 1, file);
        let k = choose|k: int| 0 <= k < entries.len() && entries[k] == entry;
        assert(entry_gives(tree, entries[k], links, depth + 1, file));
    }
}

/// `file` is listed as a regular file that is a session log.
pub open spec fn listed_log<P>(entries: Seq<DirEntry<P>>, file: P) -> bool {
    exists|k: int|
        0 <= k < entries.len() && (#[trigger] entries[k]).kind == EntryKind::File && jsonl_name(
            entries[k].name@,
        ) && entries[k].path == file
}

/// `dir` is listed as a directory.
pub open spec fn listed_directory<P>(entries: Seq<DirEntry<P>>, dir: P) -> bool {
    exists|k: int|
        0 <= k < entries.len() && (#[trigger] entries[k]).kind == EntryKind::Directory
            && entries[k].path == dir
}

/// No path is listed twice.
pub open spec fn paths_distinct<P>(entries: Seq<DirEntry<P>>) -> bool {
    forall|i: int, j: int|
        0 <= i < j < entries.len() ==> (#[trigger] entries[i]).path != (#[trigger] entries[j]).path
}

/// What a directory of a tree at rest holds: nothing where it cannot be read.
pub open spec fn held_by<P>(tree: spec_fn(P) -> Option<Seq<DirEntry<P>>>, dir: P) -> Seq<DirEntry<P>> {
    match tree(dir) {
        Some(entries) => entries,
        None => Seq::empty(),
    }
}

/// On a tree at rest, a path is in the flat listing of a directory exactly when a regular file
/// of that path is listed there as a session log; so nothing is in that of an unreadable
/// directory. Each of these files is found by the walk too. Where the directory lists no path
/// twice, none is in the listing twice.
pub proof fn law_flat_listing_is_exactly_the_log_files<P>(
    answers: spec_fn(P, Option<Vec<DirEntry<P>>>) -> bool,
    tree: spec_fn(P) -> Option<Seq<DirEntry<P>>>,
    dir: P,
    found: Seq<P>,
)
    requires
        reads_tree(answers, tree),
        flat_yields(answers, dir, found),
    ensures
        forall|file: P| #[trigger]
            found.contains(file) <==> listed_log(held_by(tree, dir), file),
        forall|file: P| #[trigger]
            found.contains(file) ==> tree_logs(tree, dir, 0, 0).contains(file),
        tree(dir) is None ==> found.len() == 0,
        paths_distinct(held_by(tree, dir)) ==> found.no_duplicates(),
{
    let entries = held_by(tree, dir);
    assert(found == log_files(entries));
    assert forall|file: P| #[trigger] found.contains(file) <==> listed_log(entries, file) by {
        lemma_log_files_contain(entries, file);
    }
    assert forall|file: P| #[trigger] found.contains(file) implies tree_logs(
        tree,
        dir,
        0,
        0,
    ).contains(file) by {
        let k = choose|k: int|
            0 <= k < entries.len() && (#[trigger] entries[k]).kind == EntryKind::File
                && jsonl_name(entries[k].name@) && entries[k].path == file;
        assert(tree(dir) is Some);
        lemma_entries_contain(tree, entries, 0, 1, file);
        assert(entry_gives(tree, entries[k], 0, 1, file));
    }
    if paths_distinct(entries) {
        lemma_log_files_are_distinct(entries);
    }
}

/// On a tree at rest, a path is among the subdirectories exactly when a directory of that path
/// is listed; so an unreadable directory has none. Where the directory lists no path twice,
/// none is among them twice, and none is in the flat listing too.
pub proof fn law_subdirs_are_exactly_the_directories<P>(
    answers: spec_fn(P, Option<Vec<DirEntry<P>>>) -> bool,
    tree: spec_fn(P) -> Option<Seq<DirEntry<P>>>,
    dir: P,
    found: Seq<P>,
    files: Seq<P>,
)
    requires
        reads_tree(answers, tree),
        subdirs_yield(answers, dir, found),
        flat_yields(answers, dir, files),
    ensures
        forall|sub: P| #[trigger]
            found.contains(sub) <==> listed_directory(held_by(tree, dir), sub),
        tree(dir) is None ==> found.len() == 0,
        paths_distinct(held_by(tree, dir)) ==> found.no_duplicates(),
        paths_distinct(held_by(tree, dir)) ==> forall|path: P|
            !(#[trigger] found.contains(path) && files.contains(path)),
{
    let entries = held_by(tree, dir);
    assert(found == directories(entries));
    assert(files == log_files(entries));
    assert forall|sub: P| #[trigger] found.contains(sub) <==> listed_directory(entries, sub) by {
        lemma_directories_contain(entries, sub);
    }
    if paths_distinct(entries) {
        lemma_directories_are_distinct(entries);
        assert forall|path: P| !(#[trigger] found.contains(path) && files.contains(path)) by {
            lemma_log_files_contain(entries, path);
            if found.contains(path) && files.contains(path) {
                let i = choose|i: int|
                    0 <= i < entries.len() && (#[trigger] entries[i]).kind == EntryKind::Directory
                        && entries[i].path == path;
                let j = choose|j: int|
                    0 <= j < entries.len() && (#[trigger] entries[j]).kind == EntryKind::File
                        && jsonl_name(entries[j].name@) && entries[j].path == path;
                assert(i == j);
            }
        }
    }
}

proof fn lemma_log_files_are_distinct<P>(entries: Seq<DirEntry<P>>)
    requires
        paths_distinct(entries),
    ensures
        log_files(entries).no_duplicates(),
    decreases entries.len(),
{
    if entries.len() > 0 {
        let before = entries.drop_last();
        let last = entries.last();
        lemma_log_files_are_distinct(before);
        lemma_log_files_contain(before, last.path);
        if listed_log(before, last.path) {
            let k = choose|k: int|
                0 <= k < before.len() && (#[trigger] before[k]).kind == EntryKind::File
                    && jsonl_name(before[k].name@) && before[k].path == last.path;
            assert(entries[k].path != entries[entries.len() - 1].path);
        }
        lemma_push_keeps_distinct(log_files(before), last.path);
    }
}

proof fn lemma_directories_are_distinct<P>(entries: Seq<DirEntry<P>>)
    requires
        paths_distinct(entries),
    ensures
        directories(entries).no_duplicates(),
    decreases entries.len(),
{
    if entries.len() > 0 {
        let before = entries.drop_last();
        let last = entries.last();
        lemma_directories_are_distinct(before);
        lemma_directories_contain(before, last.path);
        if listed_directory(before, last.path) {
            let k = choose|k: int|
                0 <= k < before.len() && (#[trigger] before[k]).kind == EntryKind::Directory
                    && before[k].path == last.path;
            assert(entries[k].path != entries[entries.len() - 1].path);
        }
        lemma_push_keeps_distinct(directories(before), last.path);
    }
}

proof fn lemma_push_keeps_distinct<P>(s: Seq<P>, p: P)
    requires
        s.no_duplicates(),
        !s.contains(p),
    ensures
        s.push(p).no_duplicates(),
{
    assert forall|i: int, j: int|
        0 <= i < s.push(p).len() && 0 <= j < s.push(p).len() && i != j implies s.push(p)[i]
        != s.push(p)[j] by {
        if i < s.len() {
            assert(s.contains(s[i]));
        }
        if j < s.len() {
            assert(s.contains(s[j]));
        }
    }
}

proof fn lemma_log_files_contain<P>(entries: Seq<DirEntry<P>>, file: P)
    ensures
        log_files(entries).contains(file) <==> listed_log(entries, file),
    decreases entries.len(),
{
    let logs = log_files(entries);
    if entries.len() > 0 {
        let rest = entries.drop_last();
        let before = log_files(rest);
        let last = entries[entries.len() - 1];
        lemma_log_files_contain(rest, file);
        if logs.contains(file) {
            let i = choose|i: int| 0 <= i < logs.len() && logs[i] == file;
            if i < before.len() {
                assert(before[i] == file);
                let k = choose|k: int|
                    0 <= k < rest.len() && (#[trigger] rest[k]).kind == EntryKind::File && jsonl_name(
                        rest[k].name@,
                    ) && rest[k].path == file;
                assert(entries[k] == rest[k]);
            } else {
                assert(last.path == file);
            }
        }
        if listed_log(entries, file) {
            let k = choose|k: int|
                0 <= k < entries.len() && (#[trigger] entries[k]).kind == EntryKind::File && jsonl_name(
                    entries[k].name@,
                ) && entries[k].path == file;
            if k < rest.len() {
                assert(rest[k] == entries[k]);
                let i = choose|i: int| 0 <= i < before.len() && before[i] == file;
                assert(logs[i] == file);
            } else {
                assert(logs[before.len() as int] == file);
            }
        }
    }
}

proof fn lemma_directories_contain<P>(entries: Seq<DirEntry<P>>, dir: P)
    ensures
        directories(entries).contains(dir) <==> listed_directory(entries, dir),
    decreases entries.len(),
{
    let dirs = directories(entries);
    if entries.len() > 0 {
        let rest = entries.drop_last();
        let before = directories(rest);
        let last = entries[entries.len() - 1];
        lemma_directories_contain(rest, dir);
        if dirs.contains(dir) {
            let i = choose|i: int| 0 <= i < dirs.len() && dirs[i] == dir;
            if i < before.len() {
                assert(before[i] == dir);
                let k = choose|k: int|
                    0 <= k < rest.len() && (#[trigger] rest[k]).kind == EntryKind::Directory && rest[k].path == dir;
                assert(entries[k] == rest[k]);
            } else {
                assert(last.path == dir);
            }
        }
        if listed_directory(entries, dir) {
            let k = choose|k: int|
                0 <= k < entries.len() && (#[trigger] entries[k]).kind == EntryKind::Directory && entries[k].path == dir;
            if k < rest.len() {
                assert(rest[k] == entries[k]);
                let i = choose|i: int| 0 <= i < before.len() && before[i] == dir;
                assert(dirs[i] == dir);
            } else {
                assert(dirs[before.len() as int] == dir);
            }
        }
    }
}

/// The extension of a name is what follows its last dot, where something stands in front of
/// that dot. The one exception is the name of the parent directory.
pub proof fn law_extension_follows_the_last_dot(stem: Seq<char>, ext: Seq<char>)
    requires
        stem.len() > 0,
        !stem.contains('/'),
        !ext.contains('/'),
        !ext.contains('.'),
        !(stem == seq!['.'] && ext.len() == 0),
    ensures
        extension_of(stem + seq!['.'] + ext) == Some(ext),
{
    let name = stem + seq!['.'] + ext;
    if name.contains('/') {
        let i = choose|i: int| 0 <= i < name.len() && name[i] == '/';
        if i < stem.len() {
            assert(stem[i] == '/');
        } else if i > stem.len() {
            assert(ext[i - stem.len() - 1] == '/');
        }
    }
    law_basename_is_the_last_component(Seq::empty(), name, Seq::empty());
    law_last_position(stem, ext, Seq::empty(), '.');
    assert(name.skip(stem.len() as int + 1) =~= ext);
    reveal_strlit("..");
    assert(".."@ =~= seq!['.', '.']);
    if name == ".."@ {
        assert(stem[0] == name[0]);
        if ext.len() > 0 {
            assert(stem.len() == 1);
            assert(name.len() == 3);
        } else {
            assert(stem =~= seq!['.']);
        }
    }
}

/// A name has no extension where it has no dot, or none but the one in front. One that has an
/// extension is that, with a dot and something before it.
pub proof fn law_a_name_with_an_extension_ends_in_it(name: Seq<char>, rest: Seq<char>)
    requires
        !name.contains('/'),
        !rest.contains('/'),
        !rest.contains('.'),
    ensures
        !name.contains('.') ==> extension_of(name) is None,
        extension_of(seq!['.'] + rest) is None,
        extension_of(seq!['.', '.']) is None,
        extension_of(name) matches Some(ext) ==> {
            &&& !ext.contains('.')
            &&& ext.len() + 1 < name.len()
            &&& name == name.take(name.len() - ext.len() - 1) + seq!['.'] + ext
        },
{
    law_basename_is_the_last_component(Seq::empty(), name, Seq::empty());
    law_last_position(Seq::empty(), rest, name, '.');
    let hidden = seq!['.'] + rest;
    if hidden.contains('/') {
        let i = choose|i: int| 0 <= i < hidden.len() && hidden[i] == '/';
        assert(rest[i - 1] == '/');
    }
    law_basename_is_the_last_component(Seq::empty(), hidden, Seq::empty());
    assert(Seq::<char>::empty() + seq!['.'] + rest =~= hidden);
    let parent = seq!['.', '.'];
    assert(!parent.contains('/'));
    law_basename_is_the_last_component(Seq::empty(), parent, Seq::empty());
    reveal_strlit("..");
    assert(".."@ =~= parent);
    if let Some(ext) = extension_of(name) {
        let dot = last_position(name, '.');
        assert(name[dot] == '.');
        assert(name =~= name.take(dot) + seq!['.'] + name.skip(dot + 1));
    }
}

/// The extension of a path is that of its last component: no directory in front changes it, nor
/// does a slash, or a slash and a dot, behind.
pub proof fn law_extension_is_that_of_the_last_component(
    dir: Seq<char>,
    name: Seq<char>,
    path: Seq<char>,
)
    requires
        !name.contains('/'),
    ensures
        name.len() > 0 && name != seq!['.'] ==> extension_of(dir + seq!['/'] + name)
            == extension_of(name),
        extension_of(path + seq!['/']) == extension_of(path),
        extension_of(path + seq!['/', '.']) == extension_of(path),
{
    law_basename_is_the_last_component(dir, name, path);
}

/// The session logs are exactly the files whose name ends in ".jsonl" with something in front
/// of it, however long that is and whatever it holds.
pub proof fn law_log_names_end_in_jsonl(stem: Seq<char>, name: Seq<char>)
    requires
        !stem.contains('/'),
        !name.contains('/'),
    ensures
        stem.len() > 0 ==> jsonl_name(stem + ".jsonl"@),
        !jsonl_name(".jsonl"@),
        jsonl_name(name) ==> name.len() > 6 && name == name.take(name.len() - 6) + ".jsonl"@,
{
    reveal_strlit(".jsonl");
    reveal_strlit("jsonl");
    assert(".jsonl"@ =~= seq!['.'] + "jsonl"@);
    assert("jsonl"@.len() == 5);
    assert(!"jsonl"@.contains('/'));
    assert(!"jsonl"@.contains('.'));
    if stem.len() > 0 {
        law_extension_follows_the_last_dot(stem, "jsonl"@);
        assert(stem + seq!['.'] + "jsonl"@ =~= stem + ".jsonl"@);
    }
    law_a_name_with_an_extension_ends_in_it(name, "jsonl"@);
    if jsonl_name(name) {
        let front = name.take(name.len() - 6);
        assert(front + seq!['.'] + "jsonl"@ =~= front + ".jsonl"@);
    }
}

/// The logs of the entries are gathered entry by entry, in their order: a directory gives what
/// its walk gives, with one more link on the way if it is one, a session log itself, and
/// anything else nothing.
pub proof fn law_logs_are_gathered_in_order<P>(
    tree: spec_fn(P) -> Option<Seq<DirEntry<P>>>,
    a: Seq<DirEntry<P>>,
    b: Seq<DirEntry<P>>,
    entry: DirEntry<P>,
    links: nat,
    depth: nat,
)
    ensures
        entries_logs(tree, a + b, links, depth) == entries_logs(tree, a, links, depth)
            + entries_logs(tree, b, links, depth),
        entry.kind == EntryKind::Directory && entry.is_link ==> entries_logs(
            tree,
            seq![entry],
            links,
            depth,
        ) == tree_logs(tree, entry.path, links + 1, depth),
        entry.kind == EntryKind::Directory && !entry.is_link ==> entries_logs(
            tree,
            seq![entry],
            links,
            depth,
        ) == tree_logs(tree, entry.path, links, depth),
        entry.kind != EntryKind::Directory && jsonl_name(entry.name@) ==> entries_logs(
            tree,
            seq![entry],
            links,
            depth,
        ) == seq![entry.path],
        entry.kind != EntryKind::Directory && !jsonl_name(entry.name@) ==> entries_logs(
            tree,
            seq![entry],
            links,
            depth,
        ).len() == 0,
    decreases b.len(),
{
    assert(seq![entry].drop_last() =~= Seq::<DirEntry<P>>::empty());
    assert(entries_logs(tree, seq![entry].drop_last(), links, depth) =~= Seq::<P>::empty());
    assert(seq![entry].last() == entry);
    let under = tree_logs(tree, entry.path, links_after(links, entry), depth);
    assert(Seq::<P>::empty() + under =~= under);
    if b.len() == 0 {
        assert(a + b =~= a);
        let logs = entries_logs(tree, a, links, depth);
        assert(logs + Seq::<P>::empty() =~= logs);
    } else {
        law_logs_are_gathered_in_order(tree, a, b.drop_last(), entry, links, depth);
        assert((a + b).drop_last() =~= a + b.drop_last());
        let last = b.last();
        assert((a + b).last() == last);
        let first = entries_logs(tree, a, links, depth);
        let rest = entries_logs(tree, b.drop_last(), links, depth);
        let deep = tree_logs(tree, last.path, links_after(links, last), depth);
        assert((first + rest) + deep =~= first + (rest + deep));
        assert((first + rest).push(last.path) =~= first + rest.push(last.path));
    }
}

/// A directory gives what its entries give one level further down, as long as no more than
/// `MAX_DEPTH` links lie on the way to it; one that cannot be read gives nothing.
pub proof fn law_a_directory_gives_its_entries<P>(
    tree: spec_fn(P) -> Option<Seq<DirEntry<P>>>,
    dir: P,
    links: nat,
    depth: nat,
)
    ensures
        links <= 16 && depth < usize::MAX && tree(dir) is Some ==> tree_logs(
            tree,
            dir,
            links,
            depth,
        ) == entries_logs(tree, tree(dir)->0, links, depth + 1),
        tree(dir) is None ==> tree_logs(tree, dir, links, depth).len() == 0,
        links > 16 ==> tree_logs(tree, dir, links, depth).len() == 0,
{
}

/// From any level on, a file is found exactly when it is a session log in a directory that a
/// way leads to on which the links, with those gone through before, are at most `MAX_DEPTH`.
pub proof fn law_found_exactly_from_any_level<P>(
    tree: spec_fn(P) -> Option<Seq<DirEntry<P>>>,
    start: P,
    links: nat,
    depth: nat,
    file: P,
)
    ensures
        tree_logs(tree, start, links, depth).contains(file) <==> exists|way: Seq<DirEntry<P>>|
            #[trigger] way_to(tree, start, way, file) && links + links_on(way) <= 16 && depth
                + way.len() < usize::MAX,
{
    if tree_logs(tree, start, links, depth).contains(file) {
        lemma_found_has_a_way(tree, start, links, depth, file);
    }
    if exists|way: Seq<DirEntry<P>>| #[trigger]
        way_to(tree, start, way, file) && links + links_on(way) <= 16 && depth + way.len()
            < usize::MAX {
        let way = choose|way: Seq<DirEntry<P>>| #[trigger]
            way_to(tree, start, way, file) && links + links_on(way) <= 16 && depth + way.len()
                < usize::MAX;
        lemma_way_is_walked(tree, start, way, links, depth, file);
    }
}

/// The links on a way are counted one by one, wherever they stand on it.
pub proof fn law_links_are_counted<P>(
    a: Seq<DirEntry<P>>,
    b: Seq<DirEntry<P>>,
    entry: DirEntry<P>,
)
    ensures
        links_on(a + b) == links_on(a) + links_on(b),
        links_on(seq![entry]) == if entry.is_link {
            1nat
        } else {
            0nat
        },
    decreases a.len(),
{
    assert(seq![entry].drop_first() =~= Seq::<DirEntry<P>>::empty());
    assert(links_on(seq![entry].drop_first()) == 0);
    assert(seq![entry].first() == entry);
    if a.len() == 0 {
        assert(a + b =~= b);
    } else {
        law_links_are_counted(a.drop_first(), b, entry);
        assert((a + b).drop_first() =~= a.drop_first() + b);
        assert((a + b).first() == a.first());
    }
}

/// The flat listing is gathered entry by entry, in the order of the entries: a regular file
/// that is a session log gives itself, anything else nothing.
pub proof fn law_flat_listing_keeps_the_order<P>(
    a: Seq<DirEntry<P>>,
    b: Seq<DirEntry<P>>,
    entry: DirEntry<P>,
)
    ensures
        log_files(a + b) == log_files(a) + log_files(b),
        entry.kind == EntryKind::File && jsonl_name(entry.name@) ==> log_files(seq![entry])
            == seq![entry.path],
        entry.kind != EntryKind::File || !jsonl_name(entry.name@) ==> log_files(seq![entry]).len()
            == 0,
    decreases b.len(),
{
    assert(seq![entry].drop_last() =~= Seq::<DirEntry<P>>::empty());
    assert(log_files(seq![entry].drop_last()) =~= Seq::<P>::empty());
    assert(seq![entry].last() == entry);
    if b.len() == 0 {
        assert(a + b =~= a);
        assert(log_files(a) + Seq::<P>::empty() =~= log_files(a));
    } else {
        law_flat_listing_keeps_the_order(a, b.drop_last(), entry);
        assert((a + b).drop_last() =~= a + b.drop_last());
        assert((a + b).last() == b.last());
        let rest = log_files(b.drop_last());
        assert((log_files(a) + rest).push(b.last().path) =~= log_files(a) + rest.push(
            b.last().path,
        ));
    }
}

/// The subdirectories are gathered entry by entry, in the order of the entries: a directory
/// gives itself, whatever its name is, anything else nothing.
pub proof fn law_subdirs_keep_the_order<P>(
    a: Seq<DirEntry<P>>,
    b: Seq<DirEntry<P>>,
    entry: DirEntry<P>,
)
    ensures
        directories(a + b) == directories(a) + directories(b),
        entry.kind == EntryKind::Directory ==> directories(seq![entry]) == seq![entry.path],
        entry.kind != EntryKind::Directory ==> directories(seq![entry]).len() == 0,
    decreases b.len(),
{
    assert(seq![entry].drop_last() =~= Seq::<DirEntry<P>>::empty());
    assert(directories(seq![entry].drop_last()) =~= Seq::<P>::empty());
    assert(seq![entry].last() == entry);
    if b.len() == 0 {
        assert(a + b =~= a);
        assert(directories(a) + Seq::<P>::empty() =~= directories(a));
    } else {
        law_subdirs_keep_the_order(a, b.drop_last(), entry);
        assert((a + b).drop_last() =~= a + b.drop_last());
        assert((a + b).last() == b.last());
        let rest = directories(b.drop_last());
        assert((directories(a) + rest).push(b.last().path) =~= directories(a) + rest.push(
            b.last().path,
        ));
    }
}

/// On a tree at rest each of the two listings of a directory has one outcome, read off what the
/// directory holds: its session logs, its directories, and nothing where it cannot be read.
pub proof fn law_listings_are_read_off_the_directory<P>(
    answers: spec_fn(P, Option<Vec<DirEntry<P>>>) -> bool,
    tree: spec_fn(P) -> Option<Seq<DirEntry<P>>>,
    dir: P,
    files: Seq<P>,
    subs: Seq<P>,
)
    requires
        reads_tree(answers, tree),
        flat_yields(answers, dir, files),
        subdirs_yield(answers, dir, subs),
    ensures
        tree(dir) matches Some(entries) ==> files == log_files(entries) && subs == directories(
            entries,
        ),
        tree(dir) is None ==> files.len() == 0 && subs.len() == 0,
{
}

} // verus!
