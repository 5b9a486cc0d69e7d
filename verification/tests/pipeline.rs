use simple_grep::pattern::MatchPredicate;
use simple_grep::search_directory::search_directory;
use simple_grep::search_file::search_file;
use simple_grep::search_file::scan_lines;
use simple_grep::search_file::FileResult;
use simple_grep::state::SearchState;

fn strings(v: &[&str]) -> Vec<String> {
    v.iter().map(|s| s.to_string()).collect()
}

/// Drive the walker and the scanner to completion over an in-memory tree:
/// each directory maps to (subdirectories, files), each file to its lines.
/// Directories missing from `tree` fail to enumerate, as an unreadable
/// directory would.
fn run(
    pred: &MatchPredicate,
    root: &str,
    tree: &[(&str, (&[&str], &[&str]))],
    files: &[(&str, &[&str])],
) -> Vec<FileResult> {
    let mut state = SearchState::new();
    state.enqueue_directory(root.to_string());
    while let Some(dir) = state.next_directory() {
        match tree.iter().find(|(d, _)| *d == dir) {
            Some((_, (subdirs, entries))) => {
                search_directory(&mut state, strings(subdirs), strings(entries));
            }
            None => {
                state.remove_head_directory();
            }
        }
    }
    assert!(state.walker_done());
    while let Some(file) = state.take_file() {
        if let Some((_, lines)) = files.iter().find(|(f, _)| *f == file) {
            search_file(&mut state, pred, file, &strings(lines));
        }
    }
    assert!(state.scanner_done());
    state.into_results()
}

#[test]
fn hello_in_single_file() {
    let pred = MatchPredicate::literal("hello");
    let results = run(
        &pred,
        "root",
        &[("root", (&[], &["root/a.txt"]))],
        &[("root/a.txt", &["hello", "world", "hello world"])],
    );
    assert_eq!(results.len(), 1);
    assert!(results[0].path == "root/a.txt");
    assert!(results[0].lines == vec![(0, "hello".to_string()), (2, "hello world".to_string())]);
}

#[test]
fn match_in_subdirectory_only() {
    let pred = MatchPredicate::literal("foo");
    let results = run(
        &pred,
        "root",
        &[
            ("root", (&["root/sub"], &["root/c.txt"])),
            ("root/sub", (&[], &["root/sub/b.txt"])),
        ],
        &[("root/sub/b.txt", &["foobar"]), ("root/c.txt", &["baz"])],
    );
    assert_eq!(results.len(), 1);
    assert!(results[0].path == "root/sub/b.txt");
    assert!(results[0].lines == vec![(0, "foobar".to_string())]);
}

#[test]
fn regex_mode_on_single_file() {
    let pred = MatchPredicate::regex("^h").unwrap();
    let results = run(
        &pred,
        "root",
        &[("root", (&[], &["root/a.txt"]))],
        &[("root/a.txt", &["hello", "world", "hello world"])],
    );
    assert_eq!(results.len(), 1);
    assert!(results[0].path == "root/a.txt");
    assert!(results[0].lines == vec![(0, "hello".to_string()), (2, "hello world".to_string())]);
}

#[test]
fn empty_directory_yields_nothing() {
    let pred = MatchPredicate::literal("hello");
    let results = run(
        &pred,
        "root",
        &[
            ("root", (&["root/empty"], &[])),
            ("root/empty", (&[], &[])),
        ],
        &[],
    );
    assert_eq!(results.len(), 0);
}

#[test]
fn unreadable_directory_does_not_abort_search() {
    let pred = MatchPredicate::literal("needle");
    // "root/locked" is absent from the tree, so its enumeration fails; the
    // sibling file must still be scanned and reported.
    let results = run(
        &pred,
        "root",
        &[("root", (&["root/locked"], &["root/d.txt"]))],
        &[("root/d.txt", &["a needle in a haystack"])],
    );
    assert_eq!(results.len(), 1);
    assert!(results[0].path == "root/d.txt");
    assert!(results[0].lines == vec![(0, "a needle in a haystack".to_string())]);
}

#[test]
fn file_without_match_is_omitted_not_empty() {
    let pred = MatchPredicate::literal("zzz");
    let results = run(
        &pred,
        "root",
        &[("root", (&[], &["root/a.txt", "root/b.txt"]))],
        &[("root/a.txt", &["nothing here"]), ("root/b.txt", &["zzz!"])],
    );
    assert_eq!(results.len(), 1);
    assert!(results[0].path == "root/b.txt");
}

#[test]
fn scan_order_changes_only_emission_order() {
    let pred = MatchPredicate::literal("x");
    let files: [(&str, &[&str]); 3] = [
        ("f1", &["x marks", "no match", "axe"]),
        ("f2", &["nothing"]),
        ("f3", &["x"]),
    ];
    let forward = run(
        &pred,
        "root",
        &[("root", (&[], &["f1", "f2", "f3"]))],
        &files,
    );
    let backward = run(
        &pred,
        "root",
        &[("root", (&[], &["f3", "f2", "f1"]))],
        &files,
    );
    let mut a: Vec<(String, Vec<(usize, String)>)> =
        forward.into_iter().map(|r| (r.path, r.lines)).collect();
    let mut b: Vec<(String, Vec<(usize, String)>)> =
        backward.into_iter().map(|r| (r.path, r.lines)).collect();
    a.sort();
    b.sort();
    assert!(a == b);
    assert_eq!(a.len(), 2);
}

#[test]
fn repeated_runs_are_identical() {
    let pred = MatchPredicate::literal("ell");
    let tree: [(&str, (&[&str], &[&str])); 1] = [("root", (&[], &["root/a.txt"]))];
    let files: [(&str, &[&str]); 1] = [("root/a.txt", &["hello", "bell", "cat"])];
    let first = run(&pred, "root", &tree, &files);
    let second = run(&pred, "root", &tree, &files);
    let a: Vec<(String, Vec<(usize, String)>)> =
        first.into_iter().map(|r| (r.path, r.lines)).collect();
    let b: Vec<(String, Vec<(usize, String)>)> =
        second.into_iter().map(|r| (r.path, r.lines)).collect();
    assert!(a == b);
}

#[test]
fn scan_lines_reports_indices_in_order() {
    let pred = MatchPredicate::literal("a");
    let pairs = scan_lines(&pred, &strings(&["abc", "xyz", "cba", "zz", "a"]));
    assert!(pairs == vec![
        (0, "abc".to_string()),
        (2, "cba".to_string()),
        (4, "a".to_string()),
    ]);
}

#[test]
fn scanner_outlives_walker() {
    let mut state = SearchState::new();
    state.enqueue_directory("root".to_string());
    // Before the walker has drained the directory queue the scanner may not
    // stop, even though no file is pending yet.
    assert!(!state.scanner_done());
    assert!(!state.walker_done());
    search_directory(&mut state, Vec::new(), strings(&["root/a.txt"]));
    assert!(state.walker_done());
    assert!(!state.scanner_done());
    let f = state.take_file();
    assert!(f == Some("root/a.txt".to_string()));
    assert!(state.scanner_done());
}
