//! From what was read of a directory to the rows of the listing: which
//! entries are shown, how each is colored, and what its row holds.

use crate::git::GitInfo;
use crate::palette;
use crate::palette::{paint, painted};
use crate::row::{row_views, EntryRow, EntryType, RowView};
use crate::size::{format_size, size_text};
use crate::sort::{arranged, lemma_arranged_views, row_keys, sort_rows};
use crate::status::{colored_suffix, format_git, plain_suffix, GitStatus};
use crate::text::{ends_with, starts_with, str_ends_with, str_starts_with};
use crate::time::{
    color_modified, current_time, modified_label, modified_recency, recency_color,
    relative_time_at, Recency, Timestamp,
};
use vstd::prelude::*;
use vstd::string::*;

verus! {

/// What the file system tells of an entry beside its name and kind.
#[derive(Debug)]
pub struct Metadata {
    /// The permission bits, where the file system has them.
    pub mode: Option<u32>,
    /// The size in bytes.
    pub size: u64,
    /// The time of the last modification, where it is known.
    pub modified: Option<Timestamp>,
}

/// An entry as it was read from the directory. Its kind and its metadata
/// are read separately, and either reading may have failed with a message.
#[derive(Debug)]
pub struct RawEntry {
    pub name: String,
    pub file_type: Result<EntryType, String>,
    pub metadata: Result<Metadata, String>,
}

/// Whether one of the three execute bits is set in the permission bits.
pub open spec fn is_executable_mode(mode: Option<u32>) -> bool {
    match mode {
        Some(bits) => bits & 0o111 != 0,
        None => false,
    }
}

/// Whether the entry may be executed: one of the execute bits of the
/// owner, the group and the others is set. Without permission bits nothing
/// is executable.
pub fn is_executable(metadata: &Metadata) -> (executable: bool)
    ensures
        executable == is_executable_mode(metadata.mode),
{
    match metadata.mode {
        Some(bits) => bits & 0o111 != 0,
        None => false,
    }
}

/// Whether the name is that of a hidden entry: it starts with a dot.
pub open spec fn is_hidden_name(name: Seq<char>) -> bool {
    starts_with(name, "."@)
}

/// Whether the name is that of a hidden entry.
pub fn is_hidden(name: &str) -> (hidden: bool)
    ensures
        hidden == is_hidden_name(name@),
{
    str_starts_with(name, ".")
}

/// The color of a name. A directory has the color of directories. Of the
/// files, a hidden one has the color of dotfiles, else an executable one
/// that of executables, else one that ends in ".md" or ".toml" the warning
/// color, and every other the plain color of files.
pub open spec fn name_color(
    name: Seq<char>,
    entry_type: EntryType,
    is_executable: bool,
    is_hidden: bool,
) -> Seq<char> {
    match entry_type {
        EntryType::Dir => palette::DIR@,
        EntryType::File => if is_hidden {
            palette::DOTFILE@
        } else if is_executable {
            palette::EXEC@
        } else if ends_with(name, ".md"@) || ends_with(name, ".toml"@) {
            palette::WARN@
        } else {
            palette::FILE@
        },
    }
}

/// Paints a name in the color of its kind.
pub fn color_name(name: &str, entry_type: EntryType, is_executable: bool, is_hidden: bool) -> (out:
    String)
    ensures
        out@ == painted(name@, name_color(name@, entry_type, is_executable, is_hidden)),
{
    match entry_type {
        EntryType::Dir => paint(name, palette::DIR),
        EntryType::File => {
            if is_hidden {
                paint(name, palette::DOTFILE)
            } else if is_executable {
                paint(name, palette::EXEC)
            } else if str_ends_with(name, ".md") || str_ends_with(name, ".toml") {
                paint(name, palette::WARN)
            } else {
                paint(name, palette::FILE)
            }
        },
    }
}

/// The word that names a kind in the type column.
pub open spec fn type_word(entry_type: EntryType) -> Seq<char> {
    match entry_type {
        EntryType::Dir => "dir"@,
        EntryType::File => "file"@,
    }
}

/// The row of an entry with the given name, kind and metadata, as seen
/// `now` nanoseconds after the epoch. Where version control has a status
/// for the entry and the status has a plain suffix, the suffix follows the
/// name after one space, plain behind the plain name and colored behind
/// the colored one.
pub open spec fn row_of(
    name: Seq<char>,
    entry_type: EntryType,
    metadata: Metadata,
    status: Option<GitStatus>,
    now: int,
) -> RowView {
    let colored = painted(
        name,
        name_color(
            name,
            entry_type,
            is_executable_mode(metadata.mode),
            is_hidden_name(name),
        ),
    );
    let suffixed = status is Some && plain_suffix(status->0).len() > 0;
    RowView {
        name_plain: name,
        entry_type_plain: type_word(entry_type),
        entry_type_colored: painted(type_word(entry_type), palette::TYPE@),
        size_plain: size_text(metadata.size as nat),
        size_colored: painted(size_text(metadata.size as nat), palette::SIZE@),
        modified_plain: modified_label(now, metadata.modified),
        modified_colored: painted(
            modified_label(now, metadata.modified),
            recency_color(modified_recency(now, metadata.modified)),
        ),
        modified_time: metadata.modified,
        name_with_git_colored: if suffixed {
            colored + " "@ + colored_suffix(status->0)
        } else {
            colored
        },
        name_with_git_plain: if suffixed {
            name + " "@ + plain_suffix(status->0)
        } else {
            name
        },
        is_dir: entry_type == EntryType::Dir,
    }
}

/// The status that version control has for the name, if it has one.
pub open spec fn status_for(git: Option<Map<Seq<char>, GitStatus>>, name: Seq<char>) -> Option<
    GitStatus,
> {
    match git {
        Some(statuses) => if statuses.contains_key(name) {
            Some(statuses[name])
        } else {
            None
        },
        None => None,
    }
}

/// Whether an entry is shown: always if hidden entries are included, else
/// unless its name starts with a dot.
pub open spec fn is_shown(name: Seq<char>, include_hidden: bool) -> bool {
    include_hidden || !is_hidden_name(name)
}

/// The message with which an item of the listing fails, if it does. An
/// item that could not be read fails. An entry that is shown fails if its
/// kind could not be read, else if its metadata could not be read. An entry
/// that is not shown never fails.
pub open spec fn failure_of(item: Result<RawEntry, String>, include_hidden: bool) -> Option<
    Seq<char>,
> {
    match item {
        Err(why) => Some("cannot read entry: "@ + why@),
        Ok(entry) => if !is_shown(entry.name@, include_hidden) {
            None
        } else {
            match (entry.file_type, entry.metadata) {
                (Err(why), _) => Some("cannot get type for "@ + entry.name@ + ": "@ + why@),
                (Ok(_), Err(why)) => Some(
                    "cannot read metadata for "@ + entry.name@ + ": "@ + why@,
                ),
                (Ok(_), Ok(_)) => None,
            }
        },
    }
}

/// The message of the first item of the listing that fails, if one does.
pub open spec fn first_failure(listing: Seq<Result<RawEntry, String>>, include_hidden: bool) -> Option<
    Seq<char>,
>
    decreases listing.len(),
{
    if listing.len() == 0 {
        None
    } else {
        match first_failure(listing.drop_last(), include_hidden) {
            Some(message) => Some(message),
            None => failure_of(listing.last(), include_hidden),
        }
    }
}

/// The rows of the entries of the listing that are shown, in the order
/// of the listing. An item that fails has no row.
pub open spec fn shown_rows(
    listing: Seq<Result<RawEntry, String>>,
    include_hidden: bool,
    git: Option<Map<Seq<char>, GitStatus>>,
    now: int,
) -> Seq<RowView>
    decreases listing.len(),
{
    if listing.len() == 0 {
        Seq::empty()
    } else {
        let before = shown_rows(listing.drop_last(), include_hidden, git, now);
        match listing.last() {
            Ok(RawEntry { name, file_type: Ok(entry_type), metadata: Ok(metadata) }) => if is_shown(
                name@,
                include_hidden,
            ) {
                before.push(row_of(name@, entry_type, metadata, status_for(git, name@), now))
            } else {
                before
            },
            _ => before,
        }
    }
}

/// The statuses that `git_info` holds, if it holds any.
pub open spec fn statuses_in(git_info: Option<GitInfo>) -> Option<Map<Seq<char>, GitStatus>> {
    match git_info {
        Some(info) => Some(info.entries@),
        None => None,
    }
}

/// Whether `collected` is what the listing gives at the instant `now`:
/// the message of the first item that fails, and no rows at all, if one
/// fails; else the rows of the shown entries, sorted.
pub open spec fn collects(
    listing: Seq<Result<RawEntry, String>>,
    include_hidden: bool,
    sort_modified: bool,
    reverse: bool,
    git: Option<Map<Seq<char>, GitStatus>>,
    now: int,
    collected: Result<Vec<EntryRow>, String>,
) -> bool {
    match (first_failure(listing, include_hidden), collected) {
        (Some(message), Err(e)) => e@ == message,
        (None, Ok(rows)) => {
            let shown = shown_rows(listing, include_hidden, git, now);
            row_views(rows@) == arranged(shown, row_keys(shown, sort_modified), reverse)
        },
        _ => false,
    }
}

fn describe(subject: &str, name: &str, why: &str) -> (message: String)
    ensures
        message@ == subject@ + name@ + ": "@ + why@,
{
    let mut message = String::from_str(subject);
    message.append(name);
    message.append(": ");
    message.append(why);
    message
}

fn build_row(
    name: &String,
    entry_type: EntryType,
    metadata: &Metadata,
    git_info: &Option<GitInfo>,
    now: Timestamp,
) -> (row: EntryRow)
    ensures
        row@ == row_of(name@, entry_type, *metadata, status_for(statuses_in(*git_info), name@), now@),
{
    let hidden = is_hidden(name.as_str());
    let executable = is_executable(metadata);
    let (modified_plain, recency) = match metadata.modified {
        Some(ts) => relative_time_at(now, ts),
        None => (String::from_str("unknown"), Recency::Unknown),
    };
    let name_colored = color_name(name.as_str(), entry_type, executable, hidden);
    let type_plain = match entry_type {
        EntryType::Dir => String::from_str("dir"),
        EntryType::File => String::from_str("file"),
    };
    let status = match git_info {
        Some(info) => info.entries.get(name.as_str()),
        None => None,
    };
    let mut name_with_git_plain = name.clone();
    let mut name_with_git_colored = name_colored;
    match status {
        Some(found) => {
            if let Some((plain_suffix, colored_suffix)) = format_git(&found) {
                if plain_suffix.as_str().unicode_len() > 0 {
                    name_with_git_plain.append(" ");
                    name_with_git_plain.append(plain_suffix.as_str());
                    name_with_git_colored.append(" ");
                    name_with_git_colored.append(colored_suffix.as_str());
                }
            }
        },
        None => {},
    }
    let size_plain = format_size(metadata.size);
    EntryRow {
        name_plain: name.clone(),
        name_with_git_plain,
        name_with_git_colored,
        entry_type_colored: paint(type_plain.as_str(), palette::TYPE),
        entry_type_plain: type_plain,
        size_colored: paint(size_plain.as_str(), palette::SIZE),
        size_plain,
        modified_colored: color_modified(modified_plain.as_str(), recency),
        modified_plain,
        modified_time: metadata.modified,
        is_dir: entry_type == EntryType::Dir,
    }
}

/// Collects the rows of a listing as seen at the instant `now`. Hidden
/// entries are left out unless they are included. The first item that
/// fails ends the collecting with its message: no rows are given then.
/// Else every shown entry gets its row, and the rows are sorted.
pub fn collect_entries_at(
    listing: &Vec<Result<RawEntry, String>>,
    include_hidden: bool,
    sort_modified: bool,
    reverse: bool,
    git_info: &Option<GitInfo>,
    now: Timestamp,
) -> (collected: Result<Vec<EntryRow>, String>)
    ensures
        collects(
            listing@,
            include_hidden,
            sort_modified,
            reverse,
            statuses_in(*git_info),
            now@,
            collected,
        ),
{
    let ghost git = statuses_in(*git_info);
    let mut rows: Vec<EntryRow> = Vec::new();
    let mut i: usize = 0;
    assert(listing@.take(0) =~= Seq::<Result<RawEntry, String>>::empty());
    assert(row_views(rows@) =~= Seq::<RowView>::empty());
    while i < listing.len()
        invariant
            i <= listing.len(),
            git == statuses_in(*git_info),
            first_failure(listing@.take(i as int), include_hidden) is None,
            row_views(rows@) == shown_rows(listing@.take(i as int), include_hidden, git, now@),
        decreases listing.len() - i,
    {
        let ghost upto = listing@.take(i + 1);
        assert(upto.drop_last() =~= listing@.take(i as int));
        assert(upto.last() == listing@[i as int]);
        proof {
            lemma_failure_stays(listing@, include_hidden, i + 1);
        }
        match &listing[i] {
            Err(why) => {
                let mut message = String::from_str("cannot read entry: ");
                message.append(why.as_str());
                return Err(message);
            },
            Ok(entry) => {
                if include_hidden || !is_hidden(entry.name.as_str()) {
                    match &entry.file_type {
                        Err(why) => {
                            return Err(
                                describe("cannot get type for ", entry.name.as_str(), why.as_str()),
                            );
                        },
                        Ok(entry_type) => match &entry.metadata {
                            Err(why) => {
                                return Err(
                                    describe(
                                        "cannot read metadata for ",
                                        entry.name.as_str(),
                                        why.as_str(),
                                    ),
                                );
                            },
                            Ok(metadata) => {
                                let ghost had = row_views(rows@);
                                let row = build_row(
                                    &entry.name,
                                    *entry_type,
                                    metadata,
                                    git_info,
                                    now,
                                );
                                rows.push(row);
                                assert(row_views(rows@) =~= had.push(row@));
                            },
                        },
                    }
                }
            },
        }
        i += 1;
    }
    assert(listing@.take(i as int) =~= listing@);
    let ghost shown = row_views(rows@);
    proof {
        lemma_arranged_views(rows@, row_keys(shown, sort_modified), reverse);
    }
    sort_rows(&mut rows, sort_modified, reverse);
    Ok(rows)
}

proof fn lemma_failure_stays(listing: Seq<Result<RawEntry, String>>, include_hidden: bool, n: int)
    requires
        0 <= n <= listing.len(),
    ensures
        first_failure(listing.take(n), include_hidden) is Some ==> first_failure(
            listing,
            include_hidden,
        ) == first_failure(listing.take(n), include_hidden),
    decreases listing.len() - n,
{
    if n < listing.len() {
        assert(listing.take(n + 1).drop_last() =~= listing.take(n));
        lemma_failure_stays(listing, include_hidden, n + 1);
    } else {
        assert(listing.take(n) =~= listing);
    }
}

/// Collects the rows of a listing as seen at the moment of the call,
/// whenever that is: the clock is read once, and every row tells its
/// modification time from that instant.
pub fn collect_entries(
    listing: &Vec<Result<RawEntry, String>>,
    include_hidden: bool,
    sort_modified: bool,
    reverse: bool,
    git_info: &Option<GitInfo>,
) -> (collected: Result<Vec<EntryRow>, String>)
    ensures
        exists|now: Timestamp|
            collects(
                listing@,
                include_hidden,
                sort_modified,
                reverse,
                statuses_in(*git_info),
                #[trigger] now@,
                collected,
            ),
{
    let now = current_time();
    let collected = collect_entries_at(
        listing,
        include_hidden,
        sort_modified,
        reverse,
        git_info,
        now,
    );
    assert(collects(
        listing@,
        include_hidden,
        sort_modified,
        reverse,
        statuses_in(*git_info),
        now@,
        collected,
    ));
    collected
}

} // verus!
