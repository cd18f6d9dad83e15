//! The short status listing of version control: one line for every path
//! that is changed or untracked, a code of two characters before the path.

use crate::git::CommandOutcome;
use crate::status::GitStatus;
use crate::status_map::{put, StatusMap};
use crate::text::{
    chars_of, copy_range, has_at, is_space, lines, lines_of, space, starts_with, string_of,
    texts, trim, trim_bounds,
};
use vstd::prelude::*;
use vstd::string::*;

verus! {

/// Whether `s` consists of white space only.
pub open spec fn is_blank(s: Seq<char>) -> bool {
    forall|i: int| 0 <= i < s.len() ==> is_space(#[trigger] s[i])
}

/// Whether the rename arrow " -> " stands in `s` at position `at`.
pub open spec fn arrow_at(s: Seq<char>, at: int) -> bool {
    0 <= at <= s.len() && starts_with(s.skip(at), " -> "@)
}

/// The last position below `below` at which a rename arrow stands in `s`,
/// or -1 if there is none.
pub open spec fn last_arrow(s: Seq<char>, below: int) -> int
    decreases below,
{
    if below <= 0 {
        -1
    } else if arrow_at(s, below - 1) {
        below - 1
    } else {
        last_arrow(s, below - 1)
    }
}

/// The path that a status line tells of: what follows the last rename
/// arrow of `raw`, or all of `raw` where it has none.
pub open spec fn rename_target(raw: Seq<char>) -> Seq<char> {
    let at = last_arrow(raw, raw.len() as int);
    if at < 0 {
        raw
    } else {
        raw.skip(at + " -> "@.len())
    }
}

/// What one line of the status listing tells: nothing if it is the line
/// of an ignored file (it starts with "!!") or has fewer than three
/// characters; else a path and its status. The first two characters are
/// the code: the path is untracked if the code is "??" and dirty unless the
/// code is blank. The path is what follows the third character, without
/// white space around it, a rename reduced to its new path.
pub open spec fn parse_status_line(line: Seq<char>) -> Option<(Seq<char>, GitStatus)> {
    if starts_with(line, "!!"@) || line.len() < 3 {
        None
    } else {
        Some(
            (
                rename_target(trim(line.skip(3))),
                GitStatus {
                    added: None,
                    deleted: None,
                    dirty: !is_blank(line.take(2)),
                    untracked: line[0] == '?' && line[1] == '?',
                },
            ),
        )
    }
}

/// The entries that the lines of a status listing give, a later line
/// replacing what an earlier one told of the same path.
pub open spec fn status_entries(lines: Seq<Seq<char>>) -> Seq<(Seq<char>, GitStatus)>
    decreases lines.len(),
{
    if lines.len() == 0 {
        Seq::empty()
    } else {
        let before = status_entries(lines.drop_last());
        match parse_status_line(lines.last()) {
            Some((path, status)) => put(before, path, status),
            None => before,
        }
    }
}

fn read_rename_target(raw: &Vec<char>) -> (target: Vec<char>)
    ensures
        target@ == rename_target(raw@),
{
    let arrow = chars_of(" -> ");
    let mut below: usize = raw.len();
    while below > 0
        invariant
            below <= raw.len(),
            arrow@ == " -> "@,
            last_arrow(raw@, raw.len() as int) == last_arrow(raw@, below as int),
        decreases below,
    {
        if has_at(raw, below - 1, &arrow) {
            return copy_range(raw, below - 1 + arrow.len(), raw.len());
        }
        below -= 1;
    }
    let copy = copy_range(raw, 0, raw.len());
    assert(raw@.subrange(0, raw.len() as int) =~= raw@);
    copy
}

fn read_status_line(line: &Vec<char>) -> (told: Option<(String, GitStatus)>)
    ensures
        match (told, parse_status_line(line@)) {
            (Some((path, status)), Some((p, s))) => path@ == p && status == s,
            (None, None) => true,
            _ => false,
        },
{
    let ignored = chars_of("!!");
    assert(line@.skip(0) =~= line@);
    if has_at(line, 0, &ignored) || line.len() < 3 {
        return None;
    }
    let untracked = line[0] == '?' && line[1] == '?';
    let blank = space(line[0]) && space(line[1]);
    proof {
        let code = line@.take(2);
        assert(code[0] == line@[0] && code[1] == line@[1]);
        if !blank {
            if !is_space(line@[0]) {
                assert(!is_space(code[0]));
            } else {
                assert(!is_space(code[1]));
            }
        }
    }
    let (a, b) = trim_bounds(line, 3, line.len());
    let raw = copy_range(line, a, b);
    assert(line@.subrange(3, line.len() as int) =~= line@.skip(3));
    let target = read_rename_target(&raw);
    Some((string_of(&target), GitStatus { added: None, deleted: None, dirty: !blank, untracked }))
}

/// Reads the short status listing: for every path that it tells of,
/// whether the path is dirty and whether it is untracked. A command that
/// could not be run, or that failed, gives an error.
pub fn read_git_status(outcome: &CommandOutcome) -> (read: Result<StatusMap, String>)
    ensures
        match (*outcome, read) {
            (CommandOutcome::NotRun(why), Err(e)) => e@ == "failed to run git status: "@ + why@,
            (CommandOutcome::Exited { success: false, .. }, Err(e)) => e@ == "git status failed"@,
            (CommandOutcome::Exited { success: true, stdout }, Ok(map)) => map.entries()
                == status_entries(lines_of(stdout@)),
            _ => false,
        },
{
    match outcome {
        CommandOutcome::NotRun(why) => {
            let mut e = String::from_str("failed to run git status: ");
            e.append(why.as_str());
            Err(e)
        },
        CommandOutcome::Exited { success, stdout } => {
            if !*success {
                return Err(String::from_str("git status failed"));
            }
            let all = chars_of(stdout.as_str());
            let found = lines(&all);
            let mut map = StatusMap::new();
            let mut i: usize = 0;
            assert(texts(found@).take(0) =~= Seq::<Seq<char>>::empty());
            while i < found.len()
                invariant
                    i <= found.len(),
                    map.entries() == status_entries(texts(found@).take(i as int)),
                decreases found.len() - i,
            {
                let ghost shown = texts(found@);
                assert(shown.take(i + 1).drop_last() =~= shown.take(i as int));
                assert(shown.take(i + 1).last() == found@[i as int]@);
                match read_status_line(&found[i]) {
                    Some((path, status)) => {
                        map.insert(path, status);
                    },
                    None => {},
                }
                i += 1;
            }
            assert(texts(found@).take(i as int) =~= texts(found@));
            Ok(map)
        },
    }
}

} // verus!
