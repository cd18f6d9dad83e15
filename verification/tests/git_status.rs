use nuls::diff_lines::merge_numstat;
use nuls::git::{load_git_info, CommandOutcome, GitLoad};
use nuls::scope::{check_counts, scope_git_entries};
use nuls::status_lines::read_git_status;
use nuls::status::{sum_opts, GitStatus};
use nuls::status_map::StatusMap;
use std::path::Path;

fn ran(stdout: &str) -> CommandOutcome {
    CommandOutcome::Exited { success: true, stdout: stdout.to_string() }
}

fn failed(stdout: &str) -> CommandOutcome {
    CommandOutcome::Exited { success: false, stdout: stdout.to_string() }
}

fn not_run(why: &str) -> CommandOutcome {
    CommandOutcome::NotRun(why.to_string())
}

fn status(added: Option<u64>, deleted: Option<u64>, dirty: bool, untracked: bool) -> GitStatus {
    GitStatus { added, deleted, dirty, untracked }
}

fn entries(map: &StatusMap) -> Vec<(String, GitStatus)> {
    (0..map.len()).map(|i| (map.path_at(i).clone(), map.status_at(i))).collect()
}

fn map_of(items: &[(&str, GitStatus)]) -> StatusMap {
    let mut map = StatusMap::new();
    for (path, status) in items {
        map.insert(path.to_string(), *status);
    }
    map
}

#[test]
fn status_listing_tells_dirty_and_untracked_paths() {
    let map = read_git_status(&ran(" M src/main.rs\n?? notes.txt\nA  new.rs\n")).unwrap();
    assert_eq!(
        entries(&map),
        [
            ("src/main.rs".to_string(), status(None, None, true, false)),
            ("notes.txt".to_string(), status(None, None, true, true)),
            ("new.rs".to_string(), status(None, None, true, false)),
        ]
    );
    assert_eq!(map.get("notes.txt"), Some(status(None, None, true, true)));
    assert_eq!(map.get("absent"), None);
}

#[test]
fn status_listing_skips_ignored_and_short_lines() {
    let map = read_git_status(&ran("!! target/\n\nM\nMM\n M a\n!!\n")).unwrap();
    assert_eq!(entries(&map), [("a".to_string(), status(None, None, true, false))]);
}

#[test]
fn status_listing_keeps_the_new_path_of_a_rename() {
    let map = read_git_status(&ran("R  old.rs -> new.rs\nR  a -> b -> c\nR  x ->y\n")).unwrap();
    assert_eq!(
        entries(&map),
        [
            ("new.rs".to_string(), status(None, None, true, false)),
            ("c".to_string(), status(None, None, true, false)),
            ("x ->y".to_string(), status(None, None, true, false)),
        ]
    );
}

#[test]
fn status_listing_trims_the_path_and_reads_a_blank_code_as_clean() {
    let map = read_git_status(&ran("   spaced.txt  \r\n\t\tx tabs\n M  -> \n")).unwrap();
    assert_eq!(
        entries(&map),
        [
            ("spaced.txt".to_string(), status(None, None, false, false)),
            ("tabs".to_string(), status(None, None, false, false)),
            ("->".to_string(), status(None, None, true, false)),
        ]
    );
}

#[test]
fn status_listing_takes_the_last_whole_arrow() {
    // the path is trimmed before the arrow is looked for
    let map = read_git_status(&ran(" M a -> \u{a0}b\n M c -> d -> \u{a0}\n")).unwrap();
    assert_eq!(
        entries(&map),
        [
            ("\u{a0}b".to_string(), status(None, None, true, false)),
            ("d ->".to_string(), status(None, None, true, false)),
        ]
    );
}

#[test]
fn status_listing_lets_the_later_line_win() {
    let map = read_git_status(&ran("?? a\n M b\n M a\n")).unwrap();
    assert_eq!(
        entries(&map),
        [
            ("a".to_string(), status(None, None, true, false)),
            ("b".to_string(), status(None, None, true, false)),
        ]
    );
}

#[test]
fn status_listing_without_a_final_line_feed() {
    let map = read_git_status(&ran(" M a\n?? b")).unwrap();
    assert_eq!(map.len(), 2);
    assert_eq!(map.get("b"), Some(status(None, None, true, true)));
    let empty = read_git_status(&ran("")).unwrap();
    assert_eq!(empty.len(), 0);
}

#[test]
fn status_listing_counts_characters_not_bytes() {
    let map = read_git_status(&ran("éé ñandú.txt\n")).unwrap();
    assert_eq!(entries(&map), [("ñandú.txt".to_string(), status(None, None, true, false))]);
}

#[test]
fn status_command_failures_are_errors() {
    assert_eq!(
        read_git_status(&not_run("No such file or directory")).unwrap_err(),
        "failed to run git status: No such file or directory"
    );
    assert_eq!(read_git_status(&failed(" M a\n")).unwrap_err(), "git status failed");
}

#[test]
fn numstat_fills_counts_and_marks_dirty() {
    let mut map = map_of(&[
        ("a", status(None, None, false, false)),
        ("u", status(None, None, true, true)),
    ]);
    merge_numstat(&mut map, &ran("3\t1\ta\n10\t0\tnew\n0\t7\tu\n")).unwrap();
    assert_eq!(
        entries(&map),
        [
            ("a".to_string(), status(Some(3), Some(1), true, false)),
            ("u".to_string(), status(Some(0), Some(7), true, true)),
            ("new".to_string(), status(Some(10), Some(0), true, false)),
        ]
    );
}

#[test]
fn numstat_keeps_a_count_that_is_there() {
    let mut map = map_of(&[("a", status(Some(5), None, false, false))]);
    merge_numstat(&mut map, &ran("3\t1\ta\n9\t9\ta\n")).unwrap();
    assert_eq!(entries(&map), [("a".to_string(), status(Some(5), Some(1), true, false))]);
}

#[test]
fn numstat_skips_lines_without_counts_or_fields() {
    let mut map = StatusMap::new();
    merge_numstat(
        &mut map,
        &ran("-\t-\timage.png\n3\t1\n\n3 1 a\nx\t2\thalf\n4\t-\tother\n+5\t6\tplus\n-5\t-6\tminus\n"),
    )
    .unwrap();
    assert_eq!(
        entries(&map),
        [
            ("half".to_string(), status(None, Some(2), true, false)),
            ("other".to_string(), status(Some(4), None, true, false)),
            ("plus".to_string(), status(Some(5), Some(6), true, false)),
        ]
    );
}

#[test]
fn numstat_takes_the_third_field_as_the_path() {
    let mut map = StatusMap::new();
    merge_numstat(&mut map, &ran("1\t2\ta b\tc\n1\t2\t\n007\t0\tz\r\n")).unwrap();
    assert_eq!(
        entries(&map),
        [
            ("a b".to_string(), status(Some(1), Some(2), true, false)),
            ("".to_string(), status(Some(1), Some(2), true, false)),
            ("z".to_string(), status(Some(7), Some(0), true, false)),
        ]
    );
}

#[test]
fn numstat_reads_counts_up_to_64_bits() {
    let mut map = StatusMap::new();
    merge_numstat(
        &mut map,
        &ran("18446744073709551615\t18446744073709551616\ta\n99999999999999999999999\t1\tb\n"),
    )
    .unwrap();
    assert_eq!(
        entries(&map),
        [
            ("a".to_string(), status(Some(u64::MAX), None, true, false)),
            ("b".to_string(), status(None, Some(1), true, false)),
        ]
    );
}

#[test]
fn numstat_command_failures_leave_the_map_alone() {
    let mut map = map_of(&[("a", status(None, None, false, false))]);
    assert_eq!(
        merge_numstat(&mut map, &not_run("boom")).unwrap_err(),
        "failed to run git diff: boom"
    );
    assert_eq!(merge_numstat(&mut map, &failed("1\t1\ta\n")).unwrap_err(), "git diff failed");
    assert_eq!(entries(&map), [("a".to_string(), status(None, None, false, false))]);
}

#[test]
fn scoping_gathers_deeper_paths_under_the_child() {
    let map = map_of(&[("sub/dir/file.txt", status(Some(2), Some(1), true, false))]);
    let scoped = scope_git_entries(map, "/repo", "/repo/sub");
    assert_eq!(entries(&scoped), [("dir".to_string(), status(Some(2), Some(1), true, false))]);
    assert_eq!(scoped.get("dir/file.txt"), None);
    assert_eq!(scoped.get("sub"), None);
}

#[test]
fn scoping_sums_counts_and_joins_flags() {
    let map = map_of(&[
        ("src/a.rs", status(Some(2), None, true, false)),
        ("README.md", status(None, None, false, false)),
        ("src/deep/b.rs", status(Some(5), Some(4), false, false)),
        ("src/new/", status(None, None, true, true)),
        ("docs/x", status(None, None, false, false)),
        ("docs/y", status(None, None, false, false)),
    ]);
    let scoped = scope_git_entries(map, "/repo", "/repo");
    assert_eq!(
        entries(&scoped),
        [
            ("src".to_string(), status(Some(7), Some(4), true, true)),
            ("README.md".to_string(), status(None, None, false, false)),
            ("docs".to_string(), status(None, None, false, false)),
        ]
    );
}

#[test]
fn scoping_leaves_out_what_lies_elsewhere() {
    let map = map_of(&[
        ("sub/a", status(Some(1), None, true, false)),
        ("subway/b", status(Some(2), None, true, false)),
        ("other/sub/c", status(Some(4), None, true, false)),
        ("sub", status(Some(8), None, true, false)),
        ("sub//d/e", status(Some(16), None, true, false)),
        ("/sub/f", status(Some(32), None, true, false)),
    ]);
    let scoped = scope_git_entries(map, "/repo/", "/repo//sub/");
    assert_eq!(
        entries(&scoped),
        [
            ("a".to_string(), status(Some(1), None, true, false)),
            ("d".to_string(), status(Some(16), None, true, false)),
        ]
    );
}

#[test]
fn scoping_outside_the_repository_finds_nothing() {
    let make = || map_of(&[("a", status(None, None, true, false)), ("tmp/a", status(None, None, true, false))]);
    assert_eq!(scope_git_entries(make(), "/repo", "/tmp").len(), 0);
    assert_eq!(scope_git_entries(make(), "/repo", "/").len(), 0);
    // a listed directory that is told relative to nothing is taken as it is
    let scoped = scope_git_entries(make(), "/repo", "tmp");
    assert_eq!(entries(&scoped), [("a".to_string(), status(None, None, true, false))]);
}

#[test]
fn counts_fit_unless_they_pass_64_bits() {
    let map = map_of(&[
        ("a", status(Some(u64::MAX - 1), None, true, false)),
        ("b", status(Some(1), Some(u64::MAX), true, false)),
        ("c", status(None, None, true, false)),
    ]);
    assert!(check_counts(&map));
    let map = map_of(&[
        ("a", status(Some(u64::MAX), None, true, false)),
        ("b", status(Some(1), None, true, false)),
    ]);
    assert!(!check_counts(&map));
    let map = map_of(&[
        ("a", status(None, Some(u64::MAX), true, false)),
        ("b", status(None, Some(1), true, false)),
    ]);
    assert!(!check_counts(&map));
    assert!(check_counts(&StatusMap::new()));
}

fn unavailable(state: &GitLoad) -> bool {
    matches!(state, GitLoad::Done(Ok(None)))
}

#[test]
fn loading_starts_with_the_repository_root() {
    match load_git_info(GitLoad::FindRoot, "/repo/sub", &ran("  /repo\n")) {
        GitLoad::ReadStatus { root } => assert_eq!(root, "/repo"),
        other => panic!("{other:?}"),
    }
    assert!(unavailable(&load_git_info(GitLoad::FindRoot, "/repo/sub", &failed("/repo\n"))));
    assert!(unavailable(&load_git_info(GitLoad::FindRoot, "/repo/sub", &not_run("no git"))));
    assert!(unavailable(&load_git_info(GitLoad::FindRoot, "/else/where", &ran("/repo\n"))));
    assert!(unavailable(&load_git_info(GitLoad::FindRoot, "/repository", &ran("/repo\n"))));
    assert!(unavailable(&load_git_info(GitLoad::FindRoot, "repo", &ran("/repo\n"))));
}

#[test]
fn loading_goes_on_without_statuses_when_the_listing_is_missing() {
    let start = || GitLoad::ReadStatus { root: "/repo".to_string() };
    assert!(unavailable(&load_git_info(start(), "/repo", &not_run("no git"))));
    assert!(unavailable(&load_git_info(start(), "/repo", &failed(""))));
    match load_git_info(start(), "/repo", &ran("?? a\n")) {
        GitLoad::ReadNumstat { root, map } => {
            assert_eq!(root, "/repo");
            assert_eq!(entries(&map), [("a".to_string(), status(None, None, true, true))]);
        },
        other => panic!("{other:?}"),
    }
}

#[test]
fn loading_ends_with_the_diff_listing() {
    let start = || GitLoad::ReadNumstat {
        root: "/repo".to_string(),
        map: map_of(&[("sub/a", status(None, None, true, false)), ("b", status(None, None, true, true))]),
    };
    assert!(unavailable(&load_git_info(start(), "/repo/sub", &not_run("no git"))));
    match load_git_info(start(), "/repo/sub", &failed("")) {
        GitLoad::Done(Err(e)) => assert_eq!(e, "git diff failed"),
        other => panic!("{other:?}"),
    }
    match load_git_info(start(), "/repo/sub", &ran("2\t3\tsub/a\n1\t1\tsub/c/d\n")) {
        GitLoad::Done(Ok(Some(info))) => assert_eq!(
            entries(&info.entries),
            [
                ("a".to_string(), status(Some(2), Some(3), true, false)),
                ("c".to_string(), status(Some(1), Some(1), true, false)),
            ]
        ),
        other => panic!("{other:?}"),
    }
    match load_git_info(start(), "/repo", &ran("18446744073709551615\t0\tsub/a\n1\t0\tb\n")) {
        GitLoad::Done(Err(e)) => assert_eq!(e, "git line counts are too large"),
        other => panic!("{other:?}"),
    }
}

#[test]
fn loading_that_has_ended_stays_as_it_is() {
    match load_git_info(GitLoad::Done(Err("x".to_string())), "/repo", &ran("/repo\n")) {
        GitLoad::Done(Err(e)) => assert_eq!(e, "x"),
        other => panic!("{other:?}"),
    }
    assert!(unavailable(&load_git_info(GitLoad::Done(Ok(None)), "/repo", &ran("/repo\n"))));
}

#[test]
fn loading_runs_through_all_three_commands() {
    let mut state = GitLoad::FindRoot;
    for outcome in
        [ran("/work/repo\n"), ran(" M src/lib.rs\n?? src/new.rs\nR  a -> docs/b\n"), ran("4\t2\tsrc/lib.rs\n")]
    {
        state = load_git_info(state, "/work/repo", &outcome);
    }
    match state {
        GitLoad::Done(Ok(Some(info))) => {
            assert_eq!(info.entries.get("src"), Some(status(Some(4), Some(2), true, true)));
            assert_eq!(info.entries.get("docs"), Some(status(None, None, true, false)));
            assert_eq!(info.entries.len(), 2);
        },
        other => panic!("{other:?}"),
    }
}

fn status_lines_by_the_standard_library(text: &str) -> Vec<(String, GitStatus)> {
    let mut found: Vec<(String, GitStatus)> = Vec::new();
    for line in text.lines() {
        if line.starts_with("!!") || line.chars().count() < 3 {
            continue;
        }
        let code: String = line.chars().take(2).collect();
        let rest: String = line.chars().skip(3).collect();
        let raw = rest.trim();
        let path = match raw.rsplit_once(" -> ") {
            Some((_, new)) => new.to_string(),
            None => raw.to_string(),
        };
        let told = status(None, None, code.trim() != "", code == "??");
        match found.iter_mut().find(|(p, _)| *p == path) {
            Some(entry) => entry.1 = told,
            None => found.push((path, told)),
        }
    }
    found
}

#[test]
fn status_listing_agrees_with_the_standard_string_functions() {
    let texts = [
        " M src/main.rs\n?? notes.txt\nA  new.rs\n",
        "R  old name.rs -> new name.rs\nRM a -> b\n D gone\n",
        "!! target/\n!!x\n! ! y\n?? dir/\n??\n?? \n??  \n",
        "UU both\r\nAA  -> \r\n  \tclean\r\n",
        "?? a -> b -> c -> d\n M  ->  -> \n M x ->  -> y\n",
        "\n\n M a\n\n",
        "?? ünïcödé/päth\n\u{2003}\u{a0} odd\n",
        " M a\n M a\n?? a\n",
    ];
    for text in texts {
        let map = read_git_status(&ran(text)).unwrap();
        assert_eq!(entries(&map), status_lines_by_the_standard_library(text), "{text:?}");
    }
}

fn children_by_the_standard_library(
    items: &[(&str, GitStatus)],
    git_root: &str,
    list_path: &str,
) -> Vec<(String, GitStatus)> {
    let git_root = Path::new(git_root);
    let list_path = Path::new(list_path);
    let rel_base = list_path.strip_prefix(git_root).unwrap_or(list_path).to_path_buf();
    let mut scoped: Vec<(String, GitStatus)> = Vec::new();
    for (path_str, told) in items {
        let path = Path::new(path_str);
        let relative = if rel_base.as_os_str().is_empty() {
            path
        } else if let Ok(sub) = path.strip_prefix(&rel_base) {
            sub
        } else {
            continue;
        };
        if let Some(component) = relative.components().next() {
            let key = component.as_os_str().to_string_lossy().to_string();
            if !scoped.iter().any(|(k, _)| *k == key) {
                scoped.push((key.clone(), status(None, None, false, false)));
            }
            let entry = &mut scoped.iter_mut().find(|(k, _)| *k == key).unwrap().1;
            entry.dirty |= told.dirty;
            entry.untracked |= told.untracked;
            entry.added = sum_opts(entry.added, told.added);
            entry.deleted = sum_opts(entry.deleted, told.deleted);
        }
    }
    scoped
}

#[test]
fn scoping_agrees_with_the_paths_of_the_standard_library() {
    let items = [
        ("src/a.rs", status(Some(2), None, true, false)),
        ("README.md", status(None, None, false, false)),
        ("src/deep/b.rs", status(Some(5), Some(4), false, false)),
        ("src/new/", status(None, None, true, true)),
        ("docs/x", status(None, Some(1), false, false)),
        ("docs/y", status(None, Some(2), false, true)),
        ("src", status(Some(1), Some(1), true, false)),
        ("srcs/z", status(Some(9), None, true, false)),
        ("docs//deep///w", status(Some(3), None, true, false)),
    ];
    let places = [
        ("/repo", "/repo"),
        ("/repo", "/repo/src"),
        ("/repo", "/repo/src/deep"),
        ("/repo", "/repo/docs"),
        ("/repo", "/repo/docs/deep"),
        ("/repo", "/repo/none"),
        ("/repo/", "/repo/src/"),
        ("/repo", "/elsewhere"),
        ("/repo", "/"),
        ("/", "/src"),
        ("/a/b/c", "/a/b"),
        ("/repo", "/repository"),
        ("repo", "repo/src"),
        ("/repo", "src"),
    ];
    for (git_root, list_path) in places {
        let scoped = scope_git_entries(map_of(&items), git_root, list_path);
        assert_eq!(
            entries(&scoped),
            children_by_the_standard_library(&items, git_root, list_path),
            "{git_root} {list_path}"
        );
    }
}

#[test]
fn a_status_map_keeps_one_status_for_each_path() {
    let mut map = StatusMap::new();
    assert_eq!(map.len(), 0);
    assert_eq!(map.position(&"a".to_string()), None);
    map.insert("a".to_string(), status(None, None, true, false));
    map.insert("b".to_string(), status(Some(1), None, true, false));
    map.insert("a".to_string(), status(Some(2), Some(3), false, true));
    assert_eq!(map.len(), 2);
    assert_eq!(map.position(&"a".to_string()), Some(0));
    assert_eq!(map.position(&"b".to_string()), Some(1));
    assert_eq!(map.position(&"c".to_string()), None);
    assert_eq!(map.path_at(0), "a");
    assert_eq!(map.status_at(0), status(Some(2), Some(3), false, true));
    assert_eq!(map.get("a"), Some(status(Some(2), Some(3), false, true)));
    assert_eq!(map.get("b"), Some(status(Some(1), None, true, false)));
    assert_eq!(map.get(""), None);
}
