use nuls::listing::{run, run_at, Options};
use nuls::entry::{Metadata, RawEntry};
use nuls::git::GitInfo;
use nuls::palette;
use nuls::row::{EntryRow, EntryType};
use nuls::status::GitStatus;
use nuls::status_map::StatusMap;
use nuls::table::{horizontal_border, pad_cell, render_row, render_table, Align, BorderKind};
use nuls::time::Timestamp;

fn painted(text: &str, color: &str) -> String {
    format!("{color}{text}{}", palette::RESET)
}

fn bar() -> String {
    painted("│", palette::BORDER)
}

fn row(name: &str, colored: &str, kind: &str, size: &str, modified: &str) -> EntryRow {
    EntryRow {
        name_plain: name.into(),
        name_with_git_plain: name.into(),
        name_with_git_colored: colored.into(),
        entry_type_plain: kind.into(),
        entry_type_colored: painted(kind, palette::TYPE),
        size_plain: size.into(),
        size_colored: painted(size, palette::SIZE),
        modified_plain: modified.into(),
        modified_colored: painted(modified, palette::MODIFIED),
        modified_time: None,
        is_dir: kind == "dir",
    }
}

#[test]
fn pad_cell_fills_up_to_the_width() {
    assert_eq!(pad_cell("abc", "abc", 6, Align::Left), "abc   ");
    assert_eq!(pad_cell("abc", "abc", 6, Align::Right), "   abc");
    assert_eq!(pad_cell("abc", "abc", 3, Align::Left), "abc");
    assert_eq!(pad_cell("abc", "abc", 2, Align::Right), "abc");
    assert_eq!(pad_cell("", "", 2, Align::Left), "  ");
    assert_eq!(pad_cell("", "", 0, Align::Right), "");
}

#[test]
fn pad_cell_measures_the_plain_text() {
    let colored = painted("ab", palette::DIR);
    assert_eq!(pad_cell(&colored, "ab", 4, Align::Left), format!("{colored}  "));
    assert_eq!(pad_cell(&colored, "ab", 4, Align::Right), format!("  {colored}"));
    // the width is counted in bytes: "é" takes two
    assert_eq!(pad_cell("é", "é", 4, Align::Left), "é  ");
    assert_eq!(pad_cell("x", "日本", 7, Align::Right), " x");
}

#[test]
fn borders_follow_the_widths() {
    assert_eq!(
        horizontal_border(&vec![1, 0, 3], BorderKind::Top),
        painted("┌───┬──┬─────┐", palette::BORDER)
    );
    assert_eq!(
        horizontal_border(&vec![1, 0, 3], BorderKind::Middle),
        painted("├───┼──┼─────┤", palette::BORDER)
    );
    assert_eq!(
        horizontal_border(&vec![1, 0, 3], BorderKind::Bottom),
        painted("└───┴──┴─────┘", palette::BORDER)
    );
    assert_eq!(horizontal_border(&vec![2], BorderKind::Top), painted("┌────┐", palette::BORDER));
    assert_eq!(horizontal_border(&vec![], BorderKind::Top), painted("┌", palette::BORDER));
}

#[test]
fn a_row_stands_between_strokes() {
    let columns = vec![
        ("7".to_string(), painted("7", palette::INDEX), Align::Right),
        ("ab".to_string(), painted("ab", palette::FILE), Align::Left),
    ];
    let line = render_row(&columns, &vec![3, 4]);
    assert_eq!(
        line,
        format!(
            "{bar}   {} {bar} {}   {bar}",
            painted("7", palette::INDEX),
            painted("ab", palette::FILE),
            bar = bar()
        )
    );
}

#[test]
fn a_row_has_as_many_cells_as_columns_and_widths() {
    let columns = vec![
        ("a".to_string(), "a".to_string(), Align::Left),
        ("b".to_string(), "b".to_string(), Align::Left),
    ];
    assert_eq!(render_row(&columns, &vec![1]), format!("{bar} a {bar}", bar = bar()));
    assert_eq!(render_row(&columns, &vec![1, 1, 1]), format!("{bar} a {bar} b {bar}", bar = bar()));
    assert_eq!(render_row(&vec![], &vec![1]), bar());
}

#[test]
fn an_empty_table_has_a_header_between_borders() {
    let lines = render_table(Vec::new());
    assert_eq!(lines.len(), 4);
    assert_eq!(lines[0], painted("┌───┬──────┬──────┬──────┬──────────┐", palette::BORDER));
    assert_eq!(
        lines[1],
        format!(
            "{bar} {} {bar} {} {bar} {} {bar} {} {bar} {} {bar}",
            painted("#", palette::INDEX),
            painted("name", palette::HEADER),
            painted("type", palette::HEADER),
            painted("size", palette::HEADER),
            painted("modified", palette::HEADER),
            bar = bar()
        )
    );
    assert_eq!(lines[2], painted("├───┼──────┼──────┼──────┼──────────┤", palette::BORDER));
    assert_eq!(lines[3], painted("└───┴──────┴──────┴──────┴──────────┘", palette::BORDER));
}

#[test]
fn a_table_is_as_wide_as_its_widest_texts() {
    let rows = vec![
        row("src", &painted("src", palette::DIR), "dir", "4.0 KB", "2 days ago"),
        row("a-long-name.txt", &painted("a-long-name.txt", palette::FILE), "file", "12 B", "just now"),
    ];
    let lines = render_table(rows);
    assert_eq!(lines.len(), 6);
    assert_eq!(
        lines[0],
        painted("┌───┬─────────────────┬──────┬────────┬────────────┐", palette::BORDER)
    );
    assert_eq!(
        lines[1],
        format!(
            "{bar} {} {bar} {}            {bar} {} {bar}   {} {bar} {}   {bar}",
            painted("#", palette::INDEX),
            painted("name", palette::HEADER),
            painted("type", palette::HEADER),
            painted("size", palette::HEADER),
            painted("modified", palette::HEADER),
            bar = bar()
        )
    );
    assert_eq!(
        lines[3],
        format!(
            "{bar} {} {bar} {}             {bar} {}  {bar} {} {bar} {} {bar}",
            painted("0", palette::INDEX),
            painted("src", palette::DIR),
            painted("dir", palette::TYPE),
            painted("4.0 KB", palette::SIZE),
            painted("2 days ago", palette::MODIFIED),
            bar = bar()
        )
    );
    assert_eq!(
        lines[4],
        format!(
            "{bar} {} {bar} {} {bar} {} {bar}   {} {bar} {}   {bar}",
            painted("1", palette::INDEX),
            painted("a-long-name.txt", palette::FILE),
            painted("file", palette::TYPE),
            painted("12 B", palette::SIZE),
            painted("just now", palette::MODIFIED),
            bar = bar()
        )
    );
    assert_eq!(
        lines[5],
        painted("└───┴─────────────────┴──────┴────────┴────────────┘", palette::BORDER)
    );
}

#[test]
fn the_index_column_grows_with_the_largest_index() {
    let rows: Vec<EntryRow> = (0..11).map(|_| row("a", "a", "file", "1 B", "just now")).collect();
    let lines = render_table(rows);
    assert_eq!(lines.len(), 15);
    assert!(lines[0].contains("┌────┬"));
    assert!(lines[3].starts_with(&format!("{}  {} ", bar(), painted("0", palette::INDEX))));
    assert!(lines[13].starts_with(&format!("{} {} ", bar(), painted("10", palette::INDEX))));
    let ten: Vec<EntryRow> = (0..10).map(|_| row("a", "a", "file", "1 B", "just now")).collect();
    assert!(render_table(ten)[0].contains("┌───┬"));
}

fn at(secs: u64) -> Timestamp {
    Timestamp { before_epoch: false, secs, nanos: 0 }
}

fn entry(name: &str, entry_type: EntryType, modified: u64) -> Result<RawEntry, String> {
    Ok(RawEntry {
        name: name.to_string(),
        file_type: Ok(entry_type),
        metadata: Ok(Metadata { mode: None, size: 10, modified: Some(at(modified)) }),
    })
}

fn options(include_hidden: bool, sort_modified: bool, reverse: bool, git: bool) -> Options {
    Options { include_hidden, sort_modified, reverse, git }
}

fn statuses() -> GitInfo {
    let mut map = StatusMap::new();
    map.insert("b".to_string(), GitStatus { added: Some(1), deleted: None, dirty: true, untracked: false });
    GitInfo { entries: map }
}

#[test]
fn the_listing_is_the_table_of_the_sorted_rows() {
    let listing = vec![entry("b", EntryType::File, 90), entry(".h", EntryType::File, 95), entry("a", EntryType::Dir, 10)];
    let lines = run_at(&options(false, false, false, false), &listing, Ok(None), at(100)).unwrap();
    assert_eq!(lines.len(), 6);
    assert!(lines[3].contains(&painted("a", palette::DIR)));
    assert!(lines[3].contains("1 minute ago"));
    assert!(lines[4].contains(&painted("b", palette::FILE)));
    assert!(lines[4].contains("10 seconds ago"));
    let lines = run_at(&options(true, true, true, false), &listing, Ok(None), at(100)).unwrap();
    assert_eq!(lines.len(), 7);
    assert!(lines[3].contains(&painted("a", palette::DIR)));
    assert!(lines[4].contains(&painted("b", palette::FILE)));
    assert!(lines[5].contains(&painted(".h", palette::DOTFILE)));
}

#[test]
fn the_listing_shows_statuses_only_where_asked() {
    let listing = vec![entry("b", EntryType::File, 90)];
    let with = run_at(&options(false, false, false, true), &listing, Ok(Some(statuses())), at(100)).unwrap();
    assert!(with[3].contains(&format!("({})", painted("+1", palette::GIT_ADDED))));
    let without = run_at(&options(false, false, false, false), &listing, Ok(Some(statuses())), at(100)).unwrap();
    assert!(!without[3].contains("+1"));
    let unavailable = run_at(&options(false, false, false, true), &listing, Ok(None), at(100)).unwrap();
    assert_eq!(unavailable, without);
}

#[test]
fn the_listing_fails_as_its_parts_fail() {
    let listing = vec![entry("b", EntryType::File, 90), Err("broken".to_string())];
    assert_eq!(
        run_at(&options(false, false, false, true), &listing, Err("git diff failed".to_string()), at(1))
            .unwrap_err(),
        "git diff failed"
    );
    assert_eq!(
        run_at(&options(false, false, false, false), &listing, Err("git diff failed".to_string()), at(1))
            .unwrap_err(),
        "cannot read entry: broken"
    );
    assert_eq!(
        run(&options(false, false, false, false), &listing, Ok(None)).unwrap_err(),
        "cannot read entry: broken"
    );
    let fine = vec![entry("b", EntryType::File, 0)];
    assert_eq!(run(&options(false, false, false, false), &fine, Ok(None)).unwrap().len(), 5);
}

#[test]
fn a_table_counts_its_widths_in_bytes() {
    let rows = vec![row("é", "é", "file", "1 B", "just now")];
    let lines = render_table(rows);
    // "é" takes two bytes, no more than the four of "name"
    assert!(lines[0].contains("┬──────┬"));
    assert!(lines[3].contains(&format!("{} é   {}", bar(), bar())));
    let rows = vec![row("ééééé", "ééééé", "file", "1 B", "just now")];
    let lines = render_table(rows);
    assert!(lines[0].starts_with(&format!("{}┌───┬────────────┬", palette::BORDER)));
    assert!(lines[3].contains(&format!("{} ééééé {}", bar(), bar())));
}

#[test]
fn a_copy_of_a_row_holds_the_same() {
    let mut first = row("a", "colored a", "dir", "1 B", "just now");
    first.modified_time = Some(at(7));
    let copy = first.duplicate();
    assert_eq!(copy.name_plain, "a");
    assert_eq!(copy.name_with_git_plain, "a");
    assert_eq!(copy.name_with_git_colored, "colored a");
    assert_eq!(copy.entry_type_plain, "dir");
    assert_eq!(copy.entry_type_colored, first.entry_type_colored);
    assert_eq!(copy.size_plain, "1 B");
    assert_eq!(copy.size_colored, first.size_colored);
    assert_eq!(copy.modified_plain, "just now");
    assert_eq!(copy.modified_colored, first.modified_colored);
    assert_eq!(copy.modified_time.map(|t| t.secs), Some(7));
    assert!(copy.is_dir);
}
