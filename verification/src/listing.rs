//! The whole listing: from the options, what was read of the directory and
//! what version control gave, to the lines of the table.

use crate::entry::{collect_entries_at, first_failure, shown_rows, statuses_in, RawEntry};
use crate::git::GitInfo;
use crate::sort::{arranged, row_keys};
use crate::table::{render_table, table_lines};
use crate::text::string_texts;
use crate::time::{current_time, Timestamp};
use vstd::prelude::*;
use vstd::string::*;

verus! {

/// What was asked for on the command line.
#[derive(Clone, Copy, Debug)]
pub struct Options {
    /// Entries whose names start with a dot are shown too.
    pub include_hidden: bool,
    /// The rows are sorted by modification time, not by name.
    pub sort_modified: bool,
    /// The order of the rows is reversed.
    pub reverse: bool,
    /// The status of version control is shown behind the names.
    pub git: bool,
}

/// Whether `out` is the listing at the instant `now`. Where the status
/// of version control was asked for and loading it failed, the listing
/// fails with that message. Else it fails with the message of the first
/// item of the directory that fails, if one does. Else it is the table of
/// the rows of the shown entries, sorted; the statuses count only where
/// they were asked for.
pub open spec fn lists(
    options: Options,
    listing: Seq<Result<RawEntry, String>>,
    git: Result<Option<GitInfo>, String>,
    now: int,
    out: Result<Vec<String>, String>,
) -> bool {
    match (options.git, git) {
        (true, Err(why)) => out matches Err(e) && e@ == why@,
        _ => {
            let statuses = match (options.git, git) {
                (true, Ok(info)) => statuses_in(info),
                _ => None,
            };
            match (first_failure(listing, options.include_hidden), out) {
                (Some(message), Err(e)) => e@ == message,
                (None, Ok(lines)) => {
                    let shown = shown_rows(listing, options.include_hidden, statuses, now);
                    string_texts(lines@) == table_lines(
                        arranged(shown, row_keys(shown, options.sort_modified), options.reverse),
                    )
                },
                _ => false,
            }
        },
    }
}

/// Makes the listing as seen at the instant `now`: the lines of the
/// table, or the message of what failed.
pub fn run_at(
    options: &Options,
    listing: &Vec<Result<RawEntry, String>>,
    git: Result<Option<GitInfo>, String>,
    now: Timestamp,
) -> (out: Result<Vec<String>, String>)
    ensures
        lists(*options, listing@, git, now@, out),
{
    let git_info: Option<GitInfo> = if options.git {
        match git {
            Ok(info) => info,
            Err(why) => {
                return Err(why);
            },
        }
    } else {
        None
    };
    match collect_entries_at(
        listing,
        options.include_hidden,
        options.sort_modified,
        options.reverse,
        &git_info,
        now,
    ) {
        Ok(rows) => Ok(render_table(rows)),
        Err(message) => Err(message),
    }
}

/// Makes the listing as seen at the moment of the call, whenever that is.
pub fn run(
    options: &Options,
    listing: &Vec<Result<RawEntry, String>>,
    git: Result<Option<GitInfo>, String>,
) -> (out: Result<Vec<String>, String>)
    ensures
        exists|now: Timestamp| lists(*options, listing@, git, #[trigger] now@, out),
{
    let now = current_time();
    let out = run_at(options, listing, git, now);
    assert(lists(*options, listing@, git, now@, out));
    out
}

} // verus!
