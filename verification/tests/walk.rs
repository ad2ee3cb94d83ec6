use ccpark::walk::{
    extension, has_ext, jsonl_files_in, jsonl_files_recursive, subdirs, walk, DirEntry, EntryKind,
    MAX_DEPTH,
};
use std::path::{Path, PathBuf};

/// A directory tree in memory: the paths of its directories and of its files.
struct Tree {
    dirs: Vec<PathBuf>,
    files: Vec<PathBuf>,
}

impl Tree {
    fn new(root: &str, dirs: &[&str], files: &[&str]) -> Tree {
        let root = PathBuf::from(root);
        let mut all = vec![root.clone()];
        for dir in dirs {
            let mut path = root.clone();
            for part in Path::new(dir) {
                path.push(part);
                if !all.contains(&path) {
                    all.push(path.clone());
                }
            }
        }
        Tree { dirs: all, files: files.iter().map(|f| root.join(f)).collect() }
    }

    fn read(&self, dir: &PathBuf) -> Option<Vec<DirEntry<PathBuf>>> {
        if !self.dirs.contains(dir) {
            return None;
        }
        let entry = |path: &PathBuf, is_dir: bool| DirEntry {
            path: path.clone(),
            name: path.file_name().unwrap().to_string_lossy().into_owned(),
            kind: if is_dir { EntryKind::Directory } else { EntryKind::File },
            is_link: false,
        };
        let inside = |path: &&PathBuf| path.parent() == Some(dir.as_path());
        let mut out: Vec<DirEntry<PathBuf>> =
            self.dirs.iter().filter(inside).map(|p| entry(p, true)).collect();
        out.extend(self.files.iter().filter(inside).map(|p| entry(p, false)));
        Some(out)
    }
}

#[test]
fn recursive_walk_finds_nested_jsonl() {
    let tree = Tree::new(
        "rec",
        &["p1/sid/subagents"],
        &["p1/main.jsonl", "p1/sid/subagents/agent-a.jsonl", "p1/readme.txt"],
    );
    let mut found = jsonl_files_recursive(&PathBuf::from("rec"), |dir: &PathBuf| tree.read(dir));
    found.sort();
    assert_eq!(found.len(), 2);
    assert!(found.iter().all(|p| has_ext(&p.to_string_lossy(), "jsonl")));
}

#[test]
fn flat_listing_ignores_dirs_and_other_exts() {
    let tree = Tree::new("flat", &["sub"], &["a.jsonl", "sub/b.jsonl", "c.json"]);
    let found = jsonl_files_in(&PathBuf::from("flat"), |dir: &PathBuf| tree.read(dir));
    assert_eq!(found.len(), 1);
    assert!(found[0].ends_with("a.jsonl"));
}

#[test]
fn subdirs_lists_only_directories() {
    let tree = Tree::new("subs", &["d1", "d2"], &["f.jsonl"]);
    let mut found = subdirs(&PathBuf::from("subs"), |dir: &PathBuf| tree.read(dir));
    found.sort();
    assert_eq!(found.len(), 2);
}

#[test]
fn missing_dir_is_empty_not_error() {
    let tree = Tree::new("missing", &[], &[]);
    let root = PathBuf::from("missing").join("nope");
    assert!(jsonl_files_recursive(&root, |dir: &PathBuf| tree.read(dir)).is_empty());
    assert!(jsonl_files_in(&root, |dir: &PathBuf| tree.read(dir)).is_empty());
    assert!(subdirs(&root, |dir: &PathBuf| tree.read(dir)).is_empty());
}

fn entry(path: u32, name: &str, kind: EntryKind) -> DirEntry<u32> {
    DirEntry { path, name: name.to_string(), kind, is_link: false }
}

fn link(path: u32, name: &str, kind: EntryKind) -> DirEntry<u32> {
    DirEntry { is_link: true, ..entry(path, name, kind) }
}

#[test]
fn entries_are_walked_in_order() {
    let read = |dir: &u32| match *dir {
        0 => Some(vec![
            entry(1, "a.jsonl", EntryKind::File),
            entry(2, "d", EntryKind::Directory),
            entry(3, "b.jsonl", EntryKind::File),
            entry(4, "unreadable", EntryKind::Directory),
            entry(5, "c.txt", EntryKind::File),
        ]),
        2 => Some(vec![entry(20, "x.jsonl", EntryKind::File), entry(21, "y.jsonl", EntryKind::File)]),
        _ => None,
    };
    assert_eq!(jsonl_files_recursive(&0, read), vec![1, 20, 21, 3]);
    assert_eq!(jsonl_files_in(&0, read), vec![1, 3]);
    assert_eq!(subdirs(&0, read), vec![2, 4]);
}

#[test]
fn neither_file_nor_directory_is_walked_but_not_listed() {
    let read = |_: &u32| Some(vec![entry(1, "socket.jsonl", EntryKind::Other)]);
    assert_eq!(jsonl_files_recursive(&0, read), vec![1]);
    assert!(jsonl_files_in(&0, read).is_empty());
    assert!(subdirs(&0, read).is_empty());
}

#[test]
fn directory_named_like_a_log_is_no_log() {
    let read = |dir: &u32| match *dir {
        0 => Some(vec![entry(1, "odd.jsonl", EntryKind::Directory)]),
        1 => Some(vec![entry(2, "in.jsonl", EntryKind::File)]),
        _ => None,
    };
    assert_eq!(jsonl_files_recursive(&0, read), vec![2]);
    assert!(jsonl_files_in(&0, read).is_empty());
    assert_eq!(subdirs(&0, read), vec![1]);
}

#[test]
fn flat_listing_and_subdirectories_share_nothing() {
    let read = |_: &u32| {
        Some(vec![
            entry(1, "a.jsonl", EntryKind::File),
            entry(2, "b.jsonl", EntryKind::Directory),
            entry(3, "c", EntryKind::Directory),
            entry(4, "d.jsonl", EntryKind::File),
            entry(5, "e", EntryKind::File),
        ])
    };
    let files = jsonl_files_in(&0, read);
    let dirs = subdirs(&0, read);
    assert_eq!(files, vec![1, 4]);
    assert_eq!(dirs, vec![2, 3]);
    assert!(files.iter().all(|path| !dirs.contains(path)));
}

#[test]
fn what_was_found_before_a_directory_stays_in_front() {
    let inner = |dir: &u32| match *dir {
        2 => Some(vec![entry(20, "x.jsonl", EntryKind::File), entry(21, "y.jsonl", EntryKind::File)]),
        _ => None,
    };
    let outer = |dir: &u32| match *dir {
        0 => Some(vec![entry(1, "a.jsonl", EntryKind::File), entry(2, "d", EntryKind::Directory)]),
        other => inner(&other),
    };
    let alone = jsonl_files_recursive(&2, inner);
    let mut expected = vec![1];
    expected.extend(alone);
    assert_eq!(jsonl_files_recursive(&0, outer), expected);
}

#[test]
fn real_directories_are_walked_at_any_depth() {
    let mut deepest = PathBuf::new();
    for level in 1..=17 {
        deepest.push(format!("d{level}"));
    }
    let file = deepest.join("x.jsonl");
    let tree = Tree::new("deep", &[&deepest.to_string_lossy()], &[&file.to_string_lossy()]);
    let root = PathBuf::from("deep");
    let found = jsonl_files_recursive(&root, |dir: &PathBuf| tree.read(dir));
    assert_eq!(found, vec![root.join(&file)]);

    // Every directory n up to 100 holds the file 1000 + n and the directory n + 1.
    let read = |dir: &u32| match *dir {
        0..=100 => Some(vec![
            entry(1000 + *dir, "log.jsonl", EntryKind::File),
            entry(*dir + 1, "deeper", EntryKind::Directory),
        ]),
        _ => None,
    };
    assert_eq!(jsonl_files_recursive(&0, read), (1000..=1100).collect::<Vec<u32>>());
}

#[test]
fn walk_in_a_circle_of_links_ends() {
    // A directory with a link back to itself.
    let read = |_: &u32| {
        Some(vec![
            entry(7, "log.jsonl", EntryKind::File),
            link(0, "back", EntryKind::Directory),
        ])
    };
    assert_eq!(MAX_DEPTH, 16);
    assert_eq!(jsonl_files_recursive(&0, read), vec![7; 17]);
}

#[test]
fn only_links_to_directories_count() {
    // A chain of links, each directory with a linked log and a real directory beside it.
    let read = |dir: &u32| match *dir {
        0..=40 => Some(vec![
            link(1000 + *dir, "log.jsonl", EntryKind::File),
            entry(2000 + *dir, "real", EntryKind::Directory),
            link(*dir + 1, "next", EntryKind::Directory),
        ]),
        2000..=2040 => Some(vec![entry(1000 + *dir, "in.jsonl", EntryKind::File)]),
        _ => None,
    };
    let expected: Vec<u32> = (0..=16).flat_map(|n| [1000 + n, 3000 + n]).collect();
    assert_eq!(jsonl_files_recursive(&0, read), expected);
}

#[test]
fn walk_adds_behind_what_is_there() {
    let read = |dir: &u32| match *dir {
        0 => Some(vec![
            entry(1, "a.jsonl", EntryKind::File),
            entry(2, "d", EntryKind::Directory),
            link(2, "l", EntryKind::Directory),
        ]),
        2 => Some(vec![entry(20, "x.jsonl", EntryKind::File)]),
        _ => None,
    };
    let mut out = vec![20, 9];
    walk(&read, &0, &mut out, 0, 3);
    assert_eq!(out, vec![20, 9, 1, 20, 20]);
    let mut out = vec![9];
    walk(&read, &0, &mut out, MAX_DEPTH, 0);
    assert_eq!(out, vec![9, 1, 20]);
    walk(&read, &0, &mut out, MAX_DEPTH + 1, 0);
    walk(&read, &0, &mut out, MAX_DEPTH + 9, 0);
    assert_eq!(out, vec![9, 1, 20]);
}

#[test]
fn extensions_of_paths() {
    let names = [
        "a.jsonl", ".jsonl", "a.b.jsonl", "jsonl", "a.", "a.jsonl.", ".", "..", "...", "", "..jsonl",
        "a.JSONL", "ä.jsonl", "a.jsonl ", ".a.b", "p/.jsonl", "p/a.jsonl", "p.jsonl/a", "a.jsonl/",
        "a.jsonl//.", "a.jsonl/./", "a.jsonl/..", "/", "/.", "./", "./a.jsonl", "p//a.b.jsonl",
        "/.jsonl", "a/b.jsonl/././/",
    ];
    for name in names {
        let expected = Path::new(name).extension().map(|e| e.to_string_lossy().into_owned());
        assert_eq!(extension(name), expected, "{name:?}");
        assert_eq!(has_ext(name, "jsonl"), expected.as_deref() == Some("jsonl"), "{name:?}");
    }
    assert_eq!(extension("a.jsonl"), Some("jsonl".to_string()));
    assert!(!has_ext(".jsonl", "jsonl"));
}
