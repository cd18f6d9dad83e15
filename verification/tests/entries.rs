use nuls::entry::{
    collect_entries, collect_entries_at, color_name, is_executable, is_hidden, Metadata, RawEntry,
};
use nuls::git::GitInfo;
use nuls::palette;
use nuls::row::EntryType;
use nuls::status::GitStatus;
use nuls::status_map::StatusMap;
use nuls::time::Timestamp;

fn at(secs: u64) -> Timestamp {
    Timestamp { before_epoch: false, secs, nanos: 0 }
}

fn entry(name: &str, entry_type: EntryType, size: u64, modified: Option<u64>) -> Result<RawEntry, String> {
    Ok(RawEntry {
        name: name.to_string(),
        file_type: Ok(entry_type),
        metadata: Ok(Metadata { mode: Some(0o644), size, modified: modified.map(at) }),
    })
}

fn painted(text: &str, color: &str) -> String {
    format!("{color}{text}{}", palette::RESET)
}

#[test]
fn color_name_labels_types() {
    assert!(color_name("dir", EntryType::Dir, false, false).contains("dir"));
    let dot = color_name(".env", EntryType::File, false, true);
    assert!(dot.contains(".env"));
    let exe = color_name("run.sh", EntryType::File, true, false);
    assert!(exe.contains("run.sh"));
}

#[test]
fn color_name_goes_by_precedence() {
    assert_eq!(color_name("d.md", EntryType::Dir, true, true), painted("d.md", palette::DIR));
    assert_eq!(color_name(".x.md", EntryType::File, true, true), painted(".x.md", palette::DOTFILE));
    assert_eq!(color_name("run.md", EntryType::File, true, false), painted("run.md", palette::EXEC));
    assert_eq!(color_name("a.md", EntryType::File, false, false), painted("a.md", palette::WARN));
    assert_eq!(color_name("a.toml", EntryType::File, false, false), painted("a.toml", palette::WARN));
    assert_eq!(color_name(".md", EntryType::File, false, false), painted(".md", palette::WARN));
    assert_eq!(color_name("a.mdx", EntryType::File, false, false), painted("a.mdx", palette::FILE));
    assert_eq!(color_name("md", EntryType::File, false, false), painted("md", palette::FILE));
    assert_eq!(color_name("a.MD", EntryType::File, false, false), painted("a.MD", palette::FILE));
    assert_eq!(color_name("", EntryType::File, false, false), painted("", palette::FILE));
}

#[test]
fn hidden_names_start_with_a_dot() {
    assert!(is_hidden(".env"));
    assert!(is_hidden("."));
    assert!(is_hidden(".."));
    assert!(!is_hidden("a.b"));
    assert!(!is_hidden(""));
}

#[test]
fn any_execute_bit_makes_executable() {
    let with = |mode| Metadata { mode, size: 0, modified: None };
    assert!(is_executable(&with(Some(0o755))));
    assert!(is_executable(&with(Some(0o100))));
    assert!(is_executable(&with(Some(0o010))));
    assert!(is_executable(&with(Some(0o001))));
    assert!(!is_executable(&with(Some(0o666))));
    assert!(!is_executable(&with(Some(0o100644 & !0o111))));
    assert!(!is_executable(&with(None)));
}

#[test]
fn collecting_builds_every_column() {
    let listing = vec![Ok(RawEntry {
        name: "run.sh".to_string(),
        file_type: Ok(EntryType::File),
        metadata: Ok(Metadata { mode: Some(0o755), size: 1536, modified: Some(at(1_000)) }),
    })];
    let rows = collect_entries_at(&listing, false, false, false, &None, at(1_090)).unwrap();
    assert_eq!(rows.len(), 1);
    let row = &rows[0];
    assert_eq!(row.name_plain, "run.sh");
    assert_eq!(row.name_with_git_plain, "run.sh");
    assert_eq!(row.name_with_git_colored, painted("run.sh", palette::EXEC));
    assert_eq!(row.entry_type_plain, "file");
    assert_eq!(row.entry_type_colored, painted("file", palette::TYPE));
    assert_eq!(row.size_plain, "1.5 KB");
    assert_eq!(row.size_colored, painted("1.5 KB", palette::SIZE));
    assert_eq!(row.modified_plain, "1 minute ago");
    assert_eq!(row.modified_colored, painted("1 minute ago", palette::MODIFIED_SOON));
    assert_eq!(row.modified_time.map(|t| t.secs), Some(1_000));
    assert!(!row.is_dir);
}

#[test]
fn collecting_tells_an_unknown_time() {
    let listing = vec![entry("docs", EntryType::Dir, 4096, None)];
    let rows = collect_entries_at(&listing, false, false, false, &None, at(50)).unwrap();
    assert_eq!(rows[0].modified_plain, "unknown");
    assert_eq!(rows[0].modified_colored, painted("unknown", palette::MODIFIED));
    assert!(rows[0].modified_time.is_none());
    assert!(rows[0].is_dir);
    assert_eq!(rows[0].entry_type_plain, "dir");
    assert_eq!(rows[0].name_with_git_colored, painted("docs", palette::DIR));
}

#[test]
fn collecting_leaves_hidden_entries_out_unless_asked() {
    let listing = vec![
        entry(".git", EntryType::Dir, 0, Some(1)),
        entry("src", EntryType::Dir, 0, Some(2)),
        entry(".env", EntryType::File, 0, Some(3)),
        entry("a.txt", EntryType::File, 0, Some(4)),
    ];
    let names = |rows: Vec<nuls::row::EntryRow>| -> Vec<String> {
        rows.into_iter().map(|r| r.name_plain).collect()
    };
    let shown = collect_entries_at(&listing, false, false, false, &None, at(10)).unwrap();
    assert_eq!(names(shown), ["src", "a.txt"]);
    let all = collect_entries_at(&listing, true, false, false, &None, at(10)).unwrap();
    assert_eq!(names(all), [".git", "src", ".env", "a.txt"]);
    let hidden = collect_entries_at(&listing, true, false, false, &None, at(10)).unwrap();
    assert_eq!(hidden[2].name_with_git_colored, painted(".env", palette::DOTFILE));
}

#[test]
fn collecting_sorts_the_rows() {
    let listing = vec![
        entry("old_dir", EntryType::Dir, 0, Some(880)),
        entry("new_file", EntryType::File, 0, Some(990)),
        entry("mid_file", EntryType::File, 0, Some(940)),
    ];
    let names = |rows: Vec<nuls::row::EntryRow>| -> Vec<String> {
        rows.into_iter().map(|r| r.name_plain).collect()
    };
    let by_time = collect_entries_at(&listing, false, true, false, &None, at(1_000)).unwrap();
    assert_eq!(names(by_time), ["new_file", "mid_file", "old_dir"]);
    let by_name = collect_entries_at(&listing, false, false, false, &None, at(1_000)).unwrap();
    assert_eq!(names(by_name), ["old_dir", "mid_file", "new_file"]);
    let reversed = collect_entries_at(&listing, false, false, true, &None, at(1_000)).unwrap();
    assert_eq!(names(reversed), ["new_file", "mid_file", "old_dir"]);
}

#[test]
fn collecting_appends_the_status_suffix() {
    let mut statuses = StatusMap::new();
    statuses.insert(
        "src".to_string(),
        GitStatus { added: Some(3), deleted: Some(1), dirty: true, untracked: false },
    );
    statuses.insert(
        "clean.txt".to_string(),
        GitStatus { added: None, deleted: None, dirty: false, untracked: false },
    );
    let git = Some(GitInfo { entries: statuses });
    let listing = vec![
        entry("src", EntryType::Dir, 0, None),
        entry("clean.txt", EntryType::File, 0, None),
        entry("plain.txt", EntryType::File, 0, None),
    ];
    let rows = collect_entries_at(&listing, false, false, false, &git, at(0)).unwrap();
    assert_eq!(rows[0].name_plain, "src");
    assert_eq!(rows[0].name_with_git_plain, "src (+3 -1)");
    assert_eq!(
        rows[0].name_with_git_colored,
        format!(
            "{} ({} {})",
            painted("src", palette::DIR),
            painted("+3", palette::GIT_ADDED),
            painted("-1", palette::GIT_REMOVED)
        )
    );
    assert_eq!(rows[1].name_with_git_plain, "clean.txt");
    assert_eq!(rows[1].name_with_git_colored, painted("clean.txt", palette::FILE));
    assert_eq!(rows[2].name_with_git_plain, "plain.txt");
}

#[test]
fn collecting_fails_with_the_first_failure_and_gives_no_rows() {
    let broken_type = Ok(RawEntry {
        name: "b".to_string(),
        file_type: Err("denied".to_string()),
        metadata: Err("also denied".to_string()),
    });
    let broken_meta = Ok(RawEntry {
        name: "c".to_string(),
        file_type: Ok(EntryType::File),
        metadata: Err("gone".to_string()),
    });
    let listing = vec![entry("a", EntryType::File, 0, None), broken_meta, broken_type];
    assert_eq!(
        collect_entries_at(&listing, false, false, false, &None, at(0)).unwrap_err(),
        "cannot read metadata for c: gone"
    );
    let listing = vec![
        Ok(RawEntry {
            name: "b".to_string(),
            file_type: Err("denied".to_string()),
            metadata: Err("also denied".to_string()),
        }),
        Err("interrupted".to_string()),
    ];
    assert_eq!(
        collect_entries_at(&listing, false, false, false, &None, at(0)).unwrap_err(),
        "cannot get type for b: denied"
    );
    let listing = vec![Err("interrupted".to_string()), entry("a", EntryType::File, 0, None)];
    assert_eq!(
        collect_entries_at(&listing, true, false, false, &None, at(0)).unwrap_err(),
        "cannot read entry: interrupted"
    );
}

#[test]
fn a_hidden_entry_that_is_left_out_cannot_fail() {
    let listing = vec![
        Ok(RawEntry {
            name: ".broken".to_string(),
            file_type: Err("denied".to_string()),
            metadata: Err("denied".to_string()),
        }),
        entry("a", EntryType::File, 0, None),
    ];
    let rows = collect_entries_at(&listing, false, false, false, &None, at(0)).unwrap();
    assert_eq!(rows.len(), 1);
    assert_eq!(
        collect_entries_at(&listing, true, false, false, &None, at(0)).unwrap_err(),
        "cannot get type for .broken: denied"
    );
}

#[test]
fn collecting_reads_the_clock_itself() {
    let listing = vec![entry("a", EntryType::File, 0, Some(0)), entry("b", EntryType::File, 0, None)];
    let rows = collect_entries(&listing, false, false, false, &None).unwrap();
    assert!(rows[0].modified_plain.ends_with("years ago"));
    assert_eq!(rows[0].modified_colored, painted(&rows[0].modified_plain, palette::MODIFIED_OLD));
    assert_eq!(rows[1].modified_plain, "unknown");
    let none: Vec<Result<RawEntry, String>> = Vec::new();
    assert!(collect_entries(&none, true, true, true, &None).unwrap().is_empty());
}
