use ccpark::native_path::PathRules;
use ccpark::vscode::{
    resolve_vscode_cli, resolve_vscode_cli_win, shims_of_directory, vscode_bundle_root,
    vscode_cli_candidates, vscode_cli_candidates_win,
};
use std::path::{Path, PathBuf};

#[test]
fn vscode_cli_candidates_win_builds_bin_paths() {
    let cands =
        vscode_cli_candidates_win(r"C:\Users\x\AppData\Local\Programs\Microsoft VS Code\Code.exe");
    let strs: Vec<String> = cands.iter().map(|p| p.to_string()).collect();
    assert!(strs[0].ends_with("code.cmd"));
    assert!(strs[1].ends_with("code-insiders.cmd"));
    assert!(strs[0].contains("bin"));
}

#[test]
fn vscode_bundle_root_extracts_first_app_bundle() {
    // The VSCode host process is often a nested helper; we want the outermost .app bundle.
    let comm = "/Applications/Visual Studio Code.app/Contents/Frameworks/Code Helper.app/Contents/MacOS/Code Helper";
    assert_eq!(
        vscode_bundle_root(comm),
        Some("/Applications/Visual Studio Code.app")
    );
    // The main Electron process path also resolves to the same bundle.
    assert_eq!(
        vscode_bundle_root("/Applications/Visual Studio Code.app/Contents/MacOS/Electron"),
        Some("/Applications/Visual Studio Code.app")
    );
}

#[test]
fn vscode_bundle_root_none_for_non_app_path() {
    assert_eq!(vscode_bundle_root("/bin/zsh"), None);
}

#[test]
fn vscode_cli_candidates_builds_bin_paths() {
    let cands = vscode_cli_candidates("/Applications/Visual Studio Code.app");
    // Stable ships `code`; Insiders ships `code-insiders`. Try both, stable first.
    assert_eq!(
        cands,
        vec![
            "/Applications/Visual Studio Code.app/Contents/Resources/app/bin/code".to_string(),
            "/Applications/Visual Studio Code.app/Contents/Resources/app/bin/code-insiders"
                .to_string(),
        ]
    );
}

#[test]
fn bundle_root_of_odd_paths() {
    assert_eq!(vscode_bundle_root(""), None);
    assert_eq!(vscode_bundle_root(".ap"), None);
    assert_eq!(vscode_bundle_root(".app"), Some(".app"));
    assert_eq!(vscode_bundle_root("a.application/b"), None);
    assert_eq!(vscode_bundle_root("/opt/my.apple/bin/code"), None);
    assert_eq!(vscode_bundle_root("/my.apple/B.app/x.app/y"), Some("/my.apple/B.app"));
    assert_eq!(vscode_bundle_root("/A.app/"), Some("/A.app"));
    assert_eq!(vscode_bundle_root("/A.app"), Some("/A.app"));
    assert_eq!(vscode_bundle_root("/Größe/Ü.app/x"), Some("/Größe/Ü.app"));
    assert_eq!(vscode_bundle_root("..app.app"), Some("..app.app"));
}

#[test]
fn bundled_cli_is_the_first_that_is_there() {
    let comm = "/A/Visual Studio Code.app/Contents/MacOS/Electron";
    let stable = "/A/Visual Studio Code.app/Contents/Resources/app/bin/code";
    let insiders = "/A/Visual Studio Code.app/Contents/Resources/app/bin/code-insiders";
    assert_eq!(resolve_vscode_cli(comm, |_: &str| true), Some(stable.to_string()));
    assert_eq!(
        resolve_vscode_cli(comm, |path: &str| path == insiders),
        Some(insiders.to_string())
    );
    assert_eq!(resolve_vscode_cli(comm, |_: &str| false), None);
    assert_eq!(resolve_vscode_cli("/bin/zsh", |_: &str| true), None);
    assert_eq!(resolve_vscode_cli("/opt/my.apple/bin/code", |_: &str| true), None);
}

fn std_candidates(exe_path: &str) -> Vec<PathBuf> {
    let Some(dir) = Path::new(exe_path).parent() else {
        return Vec::new();
    };
    vec![dir.join("bin").join("code.cmd"), dir.join("bin").join("code-insiders.cmd")]
}

#[test]
fn shims_follow_the_path_rules_of_the_platform() {
    let paths = [
        "",
        "/",
        "Code.exe",
        "/opt/code/Code.exe",
        "/opt/code/",
        "/opt//code/./Code.exe",
        "..",
        r"C:\Programs\Code.exe",
        r"\\server\share\Code.exe",
    ];
    for path in paths {
        let ours: Vec<PathBuf> =
            vscode_cli_candidates_win(path).into_iter().map(PathBuf::from).collect();
        assert_eq!(ours, std_candidates(path), "{path:?}");
    }
}

#[test]
fn no_directory_no_shims() {
    assert!(vscode_cli_candidates_win("").is_empty());
    let rules = PathRules::native();
    assert!(shims_of_directory(&rules, None).is_empty());
    let shims = shims_of_directory(&rules, Some("dir".to_string()));
    let expected: Vec<String> = [["dir", "bin", "code.cmd"], ["dir", "bin", "code-insiders.cmd"]]
        .iter()
        .map(|parts| parts.iter().collect::<PathBuf>().to_string_lossy().into_owned())
        .collect();
    assert_eq!(shims, expected);
}

#[test]
fn shim_is_the_first_that_is_there() {
    let found = resolve_vscode_cli_win("x/Code.exe", |path: &str| path.ends_with("code.cmd"));
    assert!(found.unwrap().ends_with("code.cmd"));
    let found =
        resolve_vscode_cli_win("x/Code.exe", |path: &str| path.ends_with("code-insiders.cmd"));
    assert!(found.unwrap().ends_with("code-insiders.cmd"));
    assert_eq!(resolve_vscode_cli_win("x/Code.exe", |_: &str| false), None);
    assert_eq!(resolve_vscode_cli_win("", |_: &str| true), None);
}
