//! Where VS Code keeps the command line tool that focuses the window of a folder.

use vstd::prelude::*;

use crate::native_path::{
    ends_with, joined_path, parent_path, plain_component, platform_separator, PathRules,
};
use crate::text::{
    chars_of, occurs_at, owned_view, stands_at, text_views,
};

verus! {

/// A path segment ends in ".app", which stands at `at`.
pub open spec fn ends_app_segment(comm: Seq<char>, at: int) -> bool {
    &&& occurs_at(comm, ".app"@, at)
    &&& at + 4 == comm.len() || comm[at + 4] == '/'
}

/// `at` is where the first ".app" stands that ends a path segment.
pub open spec fn first_app_segment(comm: Seq<char>, at: int) -> bool {
    &&& ends_app_segment(comm, at)
    &&& forall|before: int| 0 <= before < at ==> !ends_app_segment(comm, before)
}

/// `comm` has a path segment that ends in ".app".
pub open spec fn has_app_segment(comm: Seq<char>) -> bool {
    exists|at: int| ends_app_segment(comm, at)
}

/// `root` is `comm` up to the end of its first segment that ends in ".app".
pub open spec fn is_bundle_root(comm: Seq<char>, root: Seq<char>) -> bool {
    exists|at: int| #[trigger] first_app_segment(comm, at) && root == comm.take(at + 4)
}

/// Extracts the outermost `.app` bundle root from a VSCode host process path,
/// e.g. ".../Visual Studio Code.app/Contents/Frameworks/Code Helper.app/..." ->
/// ".../Visual Studio Code.app". Returns None when the path contains no `.app` segment.
pub fn vscode_bundle_root(comm: &str) -> (root: Option<&str>)
    ensures
        match root {
            Some(text) => is_bundle_root(comm@, text@),
            None => !has_app_segment(comm@),
        },
{
    let chars = chars_of(comm);
    let mark = chars_of(".app");
    proof {
        reveal_strlit(".app");
        assert(mark@.len() == 4);
    }
    let mut at: usize = 0;
    while at < chars.len() && chars.len() - at >= 4
        invariant
            at <= chars.len(),
            chars@ == comm@,
            mark@ == ".app"@,
            mark@.len() == 4,
            forall|before: int| 0 <= before < at ==> !ends_app_segment(comm@, before),
        decreases chars.len() - at,
    {
        if stands_at(&chars, &mark, at) && (at + 4 == chars.len() || chars[at + 4] == '/') {
            assert(first_app_segment(comm@, at as int));
            let root = comm.substring_char(0, at + 4);
            assert(root@ =~= comm@.take(at + 4));
            return Some(root);
        }
        at = at + 1;
    }
    None
}

/// The path of the tool `bin` in an application bundle.
pub open spec fn bundled_cli(bundle_root: Seq<char>, bin: Seq<char>) -> Seq<char> {
    bundle_root + "/Contents/Resources/app/bin/"@ + bin
}

/// Where the tool may be in an application bundle, stable before Insiders.
pub open spec fn cli_candidates(bundle_root: Seq<char>) -> Seq<Seq<char>> {
    seq![bundled_cli(bundle_root, "code"@), bundled_cli(bundle_root, "code-insiders"@)]
}

/// The path of the tool `bin` in an application bundle.
fn build_bundled_cli(bundle_root: &str, bin: &str) -> (path: String)
    ensures
        path@ == bundled_cli(bundle_root@, bin@),
{
    bundle_root.to_owned().concat("/Contents/Resources/app/bin/").concat(bin)
}

/// Candidate paths for the bundled VSCode CLI, given a `.app` bundle root. Stable ships `code`,
/// Insiders ships `code-insiders`; we try stable first.
pub fn vscode_cli_candidates(bundle_root: &str) -> (paths: Vec<String>)
    ensures
        text_views(paths@) == cli_candidates(bundle_root@),
{
    let mut paths: Vec<String> = Vec::new();
    paths.push(build_bundled_cli(bundle_root, "code"));
    paths.push(build_bundled_cli(bundle_root, "code-insiders"));
    paths
}

/// `path` is what looking for the candidates in turn can give, when looking answers as it may:
/// the first that is there.
pub open spec fn first_on_disk(
    answers: spec_fn(Seq<char>, bool) -> bool,
    candidates: Seq<Seq<char>>,
    path: Option<Seq<char>>,
) -> bool
    decreases candidates.len(),
{
    if candidates.len() == 0 {
        path is None
    } else {
        ||| answers(candidates.first(), true) && path == Some(candidates.first())
        ||| answers(candidates.first(), false) && first_on_disk(
            answers,
            candidates.drop_first(),
            path,
        )
    }
}

/// The first of the paths that is there.
fn pick_on_disk<D: Fn(&str) -> bool>(
    paths: Vec<String>,
    on_disk: &D,
    Ghost(answers): Ghost<spec_fn(Seq<char>, bool) -> bool>,
) -> (path: Option<String>)
    requires
        forall|path: &str| #[trigger] call_requires(*on_disk, (path,)),
        forall|path: &str, there: bool| #[trigger]
            call_ensures(*on_disk, (path,), there) ==> answers(path@, there),
    ensures
        first_on_disk(answers, text_views(paths@), owned_view(path)),
{
    let ghost all = text_views(paths@);
    assert(all.skip(0) =~= all);
    for path in it: paths.into_iter()
        invariant
            text_views(it.seq()) == all,
            forall|path: &str| #[trigger] call_requires(*on_disk, (path,)),
            forall|path: &str, there: bool| #[trigger]
                call_ensures(*on_disk, (path,), there) ==> answers(path@, there),
            forall|path: Option<Seq<char>>|
                first_on_disk(answers, all.skip(it.index()), path)
                    ==> #[trigger] first_on_disk(answers, all, path),
    {
        let ghost here = all.skip(it.index());
        assert(here.first() == path@);
        assert(here.drop_first() =~= all.skip(it.index() + 1));
        if on_disk(path.as_str()) {
            assert(first_on_disk(answers, here, Some(path@)));
            return Some(path);
        }
    }
    assert(first_on_disk(answers, all.skip(all.len() as int), None));
    None
}

/// Resolves the bundled VSCode CLI binary from the host process path, if it exists on disk,
/// which is for the caller to see.
pub fn resolve_vscode_cli<D: Fn(&str) -> bool>(host_comm: &str, on_disk: D) -> (path: Option<
    String,
>)
    requires
        forall|path: &str| #[trigger] call_requires(on_disk, (path,)),
    ensures
        !has_app_segment(host_comm@) ==> path is None,
        has_app_segment(host_comm@) ==> exists|root: Seq<char>| #[trigger]
            is_bundle_root(host_comm@, root) && first_on_disk(
                |path: Seq<char>, there: bool|
                    exists|text: &str| text@ == path && #[trigger]
                        call_ensures(on_disk, (text,), there),
                cli_candidates(root),
                owned_view(path),
            ),
{
    let ghost answers = |path: Seq<char>, there: bool|
        exists|text: &str| text@ == path && #[trigger] call_ensures(on_disk, (text,), there);
    match vscode_bundle_root(host_comm) {
        Some(root) => {
            let path = pick_on_disk(vscode_cli_candidates(root), &on_disk, Ghost(answers));
            assert(is_bundle_root(host_comm@, root@));
            path
        },
        None => None,
    }
}

/// The path of the shim `bin` below the directory `dir`.
pub open spec fn shim_path(separator: char, dir: Seq<char>, bin: Seq<char>) -> Seq<char> {
    joined_path(separator, joined_path(separator, dir, "bin"@), bin)
}

/// Where the shim may be next to an executable in `dir`, stable before Insiders.
pub open spec fn shims_in(separator: char, dir: Seq<char>) -> Seq<Seq<char>> {
    seq![
        shim_path(separator, dir, "code.cmd"@),
        shim_path(separator, dir, "code-insiders.cmd"@),
    ]
}

/// Where the shim may be next to the executable `exe_path`.
pub open spec fn shims_next_to(separator: char, exe_path: Seq<char>) -> Seq<Seq<char>> {
    match parent_path(separator, exe_path) {
        Some(dir) => shims_in(separator, dir),
        None => Seq::empty(),
    }
}

proof fn lemma_shim_names_are_plain()
    ensures
        plain_component("bin"@),
        plain_component("code.cmd"@),
        plain_component("code-insiders.cmd"@),
{
    reveal_strlit("bin");
    reveal_strlit("code.cmd");
    reveal_strlit("code-insiders.cmd");
    reveal_strlit(".");
    reveal_strlit("..");
    assert("bin"@.len() == 3);
    assert("code.cmd"@.len() == 8);
    assert("code-insiders.cmd"@.len() == 17);
    assert("."@.len() == 1);
    assert(".."@.len() == 2);
}

/// The shims of the directory that the executable was found in: none where it is in no
/// directory.
pub fn shims_of_directory(rules: &PathRules, dir: Option<String>) -> (paths: Vec<String>)
    ensures
        text_views(paths@) == match dir {
            Some(dir) => shims_in(rules.separator(), dir@),
            None => Seq::empty(),
        },
        dir is Some ==> ends_with(paths@[0]@, "code.cmd"@) && ends_with(
            paths@[1]@,
            "code-insiders.cmd"@,
        ),
{
    proof {
        lemma_shim_names_are_plain();
    }
    let mut paths: Vec<String> = Vec::new();
    if let Some(dir) = dir {
        let bin = rules.join(dir.as_str(), "bin");
        paths.push(rules.join(bin.as_str(), "code.cmd"));
        paths.push(rules.join(bin.as_str(), "code-insiders.cmd"));
    }
    paths
}

/// CLI shim candidates that ship next to a VS Code executable on Windows: `bin\code.cmd`
/// (stable) and `bin\code-insiders.cmd` in the directory of the executable. The separator is
/// that of the platform.
pub fn vscode_cli_candidates_win(exe_path: &str) -> (paths: Vec<String>)
    ensures
        exists|separator: char|
            platform_separator(separator) && text_views(paths@) == #[trigger] shims_next_to(
                separator,
                exe_path@,
            ),
        paths@.len() == 0 || paths@.len() == 2 && ends_with(paths@[0]@, "code.cmd"@) && ends_with(
            paths@[1]@,
            "code-insiders.cmd"@,
        ),
        exe_path@.len() == 0 ==> paths@.len() == 0,
{
    let rules = PathRules::native();
    let dir = rules.parent(exe_path);
    let paths = shims_of_directory(&rules, dir);
    assert(text_views(paths@) == shims_next_to(rules.separator(), exe_path@));
    assert(text_views(paths@).len() == paths@.len());
    paths
}

/// Resolves the VS Code CLI shim from the running Code.exe path, if it exists on disk, which
/// is for the caller to see.
pub fn resolve_vscode_cli_win<D: Fn(&str) -> bool>(exe_path: &str, on_disk: D) -> (path: Option<
    String,
>)
    requires
        forall|path: &str| #[trigger] call_requires(on_disk, (path,)),
    ensures
        exists|separator: char|
            platform_separator(separator) && first_on_disk(
                |path: Seq<char>, there: bool|
                    exists|text: &str| text@ == path && #[trigger]
                        call_ensures(on_disk, (text,), there),
                #[trigger] shims_next_to(separator, exe_path@),
                owned_view(path),
            ),
{
    let ghost answers = |path: Seq<char>, there: bool|
        exists|text: &str| text@ == path && #[trigger] call_ensures(on_disk, (text,), there);
    pick_on_disk(vscode_cli_candidates_win(exe_path), &on_disk, Ghost(answers))
}


/// The bundle root is one text: it starts the path, ends in ".app", and is the root of itself
/// and of every path inside the bundle, that of a nested helper too.
pub proof fn law_every_path_in_a_bundle_has_its_root(
    comm: Seq<char>,
    root: Seq<char>,
    inside: Seq<char>,
    other: Seq<char>,
)
    requires
        is_bundle_root(comm, root),
        inside.len() == 0 || inside[0] == '/',
    ensures
        root.is_prefix_of(comm),
        ends_with(root, ".app"@),
        is_bundle_root(root + inside, root),
        is_bundle_root(root + inside, other) ==> other == root,
{
    reveal_strlit(".app");
    let mark = ".app"@;
    assert(mark.len() == 4);
    let at = choose|at: int| #[trigger]
        first_app_segment(comm, at) && root == comm.take(at + 4);
    let path = root + inside;
    assert(root.skip(root.len() - 4) =~= comm.subrange(at, at + 4));
    assert(path.subrange(at, at + 4) =~= comm.subrange(at, at + 4));
    assert(ends_app_segment(path, at));
    assert forall|before: int| 0 <= before < at implies !ends_app_segment(path, before) by {
        assert(path.subrange(before, before + 4) =~= comm.subrange(before, before + 4));
        assert(path[before + 4] == comm[before + 4]);
        assert(!ends_app_segment(comm, before));
    }
    assert(first_app_segment(path, at));
    assert(path.take(at + 4) =~= root);
    if is_bundle_root(path, other) {
        let there = choose|there: int| #[trigger]
            first_app_segment(path, there) && other == path.take(there + 4);
        assert(there == at);
    }
}

/// The tools are looked for inside the bundle, stable before Insiders, and never in the same
/// place twice.
pub proof fn law_candidates_lie_in_the_bundle(bundle_root: Seq<char>)
    ensures
        cli_candidates(bundle_root).len() == 2,
        forall|i: int|
            0 <= i < 2 ==> bundle_root.is_prefix_of(#[trigger] cli_candidates(bundle_root)[i]),
        cli_candidates(bundle_root)[0] != cli_candidates(bundle_root)[1],
{
    reveal_strlit("code");
    reveal_strlit("code-insiders");
    assert("code"@.len() == 4);
    assert("code-insiders"@.len() == 13);
    assert(cli_candidates(bundle_root)[0].len() < cli_candidates(bundle_root)[1].len());
}

/// With a disk at rest, the first candidate that is there is taken, and none only where none
/// is there.
pub proof fn law_first_candidate_on_disk_is_taken(
    disk: spec_fn(Seq<char>) -> bool,
    answers: spec_fn(Seq<char>, bool) -> bool,
    candidates: Seq<Seq<char>>,
    path: Option<Seq<char>>,
)
    requires
        forall|candidate: Seq<char>, there: bool| #[trigger]
            answers(candidate, there) ==> there == disk(candidate),
        first_on_disk(answers, candidates, path),
    ensures
        match path {
            Some(taken) => exists|i: int|
                0 <= i < candidates.len() && #[trigger] candidates[i] == taken && disk(taken)
                    && forall|j: int| 0 <= j < i ==> !disk(#[trigger] candidates[j]),
            None => forall|i: int| 0 <= i < candidates.len() ==> !disk(#[trigger] candidates[i]),
        },
    decreases candidates.len(),
{
    if candidates.len() > 0 {
        let first = candidates.first();
        let rest = candidates.drop_first();
        assert(candidates[0] == first);
        if answers(first, true) && path == Some(first) {
        } else {
            law_first_candidate_on_disk_is_taken(disk, answers, rest, path);
            assert(!disk(first));
            match path {
                Some(taken) => {
                    let i = choose|i: int|
                        0 <= i < rest.len() && #[trigger] rest[i] == taken && disk(taken)
                            && forall|j: int| 0 <= j < i ==> !disk(#[trigger] rest[j]);
                    assert(candidates[i + 1] == taken);
                    assert forall|j: int| 0 <= j < i + 1 implies !disk(#[trigger] candidates[j]) by {
                        if j > 0 {
                            assert(rest[j - 1] == candidates[j]);
                        }
                    }
                },
                None => {
                    assert forall|i: int| 0 <= i < candidates.len() implies !disk(
                        #[trigger] candidates[i],
                    ) by {
                        if i > 0 {
                            assert(rest[i - 1] == candidates[i]);
                        }
                    }
                },
            }
        }
    }
}

/// A path has a segment that ends in ".app" wherever one was put, and only where one stands:
/// at the end of the path or in front of a slash.
pub proof fn law_every_app_segment_counts(before: Seq<char>, after: Seq<char>, comm: Seq<char>)
    ensures
        after.len() == 0 || after[0] == '/' ==> has_app_segment(before + ".app"@ + after),
        has_app_segment(comm) ==> exists|end: int|
            #![trigger comm.take(end)]
            4 <= end <= comm.len() && comm.take(end).skip(end - 4) == ".app"@ && (end == comm.len()
                || comm[end] == '/'),
        has_app_segment(comm) ==> exists|root: Seq<char>| is_bundle_root(comm, root),
{
    reveal_strlit(".app");
    assert(".app"@.len() == 4);
    if after.len() == 0 || after[0] == '/' {
        let path = before + ".app"@ + after;
        let at = before.len() as int;
        assert(path.subrange(at, at + 4) =~= ".app"@);
        if after.len() > 0 {
            assert(path[at + 4] == after[0]);
        }
        assert(ends_app_segment(path, at));
    }
    if has_app_segment(comm) {
        let at = choose|at: int| ends_app_segment(comm, at);
        let end = at + 4;
        assert(comm.take(end).skip(at) =~= comm.subrange(at, at + 4));
        lemma_first_app_segment(comm, at);
        let first = choose|first: int| #[trigger] first_app_segment(comm, first);
        assert(is_bundle_root(comm, comm.take(first + 4)));
    }
}

proof fn lemma_first_app_segment(comm: Seq<char>, at: int)
    requires
        ends_app_segment(comm, at),
    ensures
        exists|first: int| #[trigger] first_app_segment(comm, first),
    decreases at,
{
    if exists|before: int| 0 <= before < at && ends_app_segment(comm, before) {
        let before = choose|before: int| 0 <= before < at && ends_app_segment(comm, before);
        lemma_first_app_segment(comm, before);
    } else {
        assert(first_app_segment(comm, at));
    }
}

/// The bundle root is the shortest start of the path that ends in ".app" and is followed by a
/// slash or by nothing: it is one, and every such start is the root unless a shorter one is.
pub proof fn law_the_bundle_root_is_the_shortest(comm: Seq<char>, end: int)
    requires
        4 <= end <= comm.len(),
    ensures
        is_bundle_root(comm, comm.take(end)) <==> {
            &&& comm.take(end).skip(end - 4) == ".app"@
            &&& end == comm.len() || comm[end] == '/'
            &&& forall|shorter: int|
                #![trigger comm.take(shorter)]
                4 <= shorter < end ==> comm.take(shorter).skip(shorter - 4) != ".app"@
                    || comm[shorter] != '/'
        },
{
    reveal_strlit(".app");
    assert(".app"@.len() == 4);
    let at = end - 4;
    assert(comm.take(end).skip(at) =~= comm.subrange(at, at + 4));
    if is_bundle_root(comm, comm.take(end)) {
        let first = choose|first: int| #[trigger]
            first_app_segment(comm, first) && comm.take(end) == comm.take(first + 4);
        assert(comm.take(end).len() == comm.take(first + 4).len());
        assert(first == at);
        assert forall|shorter: int|
            #![trigger comm.take(shorter)]
            4 <= shorter < end implies comm.take(shorter).skip(shorter - 4) != ".app"@
            || comm[shorter] != '/' by {
            let there = shorter - 4;
            assert(comm.take(shorter).skip(there) =~= comm.subrange(there, there + 4));
            assert(!ends_app_segment(comm, there));
        }
    }
    if comm.take(end).skip(at) == ".app"@ && (end == comm.len() || comm[end] == '/') && (forall|
        shorter: int,
    |
        #![trigger comm.take(shorter)]
        4 <= shorter < end ==> comm.take(shorter).skip(shorter - 4) != ".app"@ || comm[shorter]
            != '/') {
        assert(ends_app_segment(comm, at));
        assert forall|before: int| 0 <= before < at implies !ends_app_segment(comm, before) by {
            let shorter = before + 4;
            assert(comm.take(shorter).skip(before) =~= comm.subrange(before, before + 4));
        }
        assert(first_app_segment(comm, at));
    }
}

/// Behind the root the places to look at are the same for every bundle: the stable tool before
/// that of Insiders, in the directory of tools.
pub proof fn law_candidates_are_the_same_in_every_bundle(
    bundle_root: Seq<char>,
    other: Seq<char>,
)
    ensures
        cli_candidates(bundle_root)[0] == bundle_root + "/Contents/Resources/app/bin/"@ + "code"@,
        cli_candidates(bundle_root)[1] == bundle_root + "/Contents/Resources/app/bin/"@
            + "code-insiders"@,
        forall|i: int|
            0 <= i < 2 ==> (#[trigger] cli_candidates(bundle_root)[i]).skip(
                bundle_root.len() as int,
            ) == cli_candidates(other)[i].skip(other.len() as int),
{
    let bin = "/Contents/Resources/app/bin/"@;
    assert(cli_candidates(bundle_root)[0].skip(bundle_root.len() as int) =~= bin + "code"@);
    assert(cli_candidates(other)[0].skip(other.len() as int) =~= bin + "code"@);
    assert(cli_candidates(bundle_root)[1].skip(bundle_root.len() as int) =~= bin
        + "code-insiders"@);
    assert(cli_candidates(other)[1].skip(other.len() as int) =~= bin + "code-insiders"@);
}

/// The shims depend on nothing but the directory of the executable: two executables in one
/// directory have the same, the stable one before that of Insiders, both in its directory
/// "bin". An executable in no directory has none.
pub proof fn law_shims_are_those_of_the_directory(
    separator: char,
    exe_path: Seq<char>,
    other: Seq<char>,
)
    ensures
        parent_path(separator, exe_path) == parent_path(separator, other) ==> shims_next_to(
            separator,
            exe_path,
        ) == shims_next_to(separator, other),
        parent_path(separator, exe_path) is None ==> shims_next_to(separator, exe_path).len() == 0,
        parent_path(separator, exe_path) matches Some(dir) ==> {
            let bin = joined_path(separator, dir, "bin"@);
            &&& shims_next_to(separator, exe_path).len() == 2
            &&& shims_next_to(separator, exe_path)[0] == joined_path(
                separator,
                bin,
                "code.cmd"@,
            )
            &&& shims_next_to(separator, exe_path)[1] == joined_path(
                separator,
                bin,
                "code-insiders.cmd"@,
            )
            &&& shims_in(separator, dir) == shims_next_to(separator, exe_path)
        },
{
}

} // verus!
