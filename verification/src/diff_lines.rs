//! The numeric diff listing of version control: one line for every
//! changed path, the added and the deleted lines before the path, with
//! tabs between the three.

use crate::git::CommandOutcome;
use crate::status::GitStatus;
use crate::status_map::{has_key, key_index, put, StatusMap};
use crate::text::{
    chars_of, lines, lines_of, parse_count, read_count, split, split_on, string_of, texts,
};
use vstd::prelude::*;
use vstd::string::*;

verus! {

/// What one line of the numeric diff listing tells: nothing if it has
/// fewer than three fields between tabs, or if neither of the first two
/// fields is a count; else the path, which is the third field, with the
/// added and the deleted lines.
pub open spec fn parse_numstat_line(line: Seq<char>) -> Option<
    (Seq<char>, Option<u64>, Option<u64>),
> {
    let fields = split_on(line, '\t');
    if fields.len() < 3 {
        None
    } else if parse_count(fields[0]) is None && parse_count(fields[1]) is None {
        None
    } else {
        Some((fields[2], parse_count(fields[0]), parse_count(fields[1])))
    }
}

/// `first` where it is present, else `second`.
pub open spec fn first_of(first: Option<u64>, second: Option<u64>) -> Option<u64> {
    if first is Some {
        first
    } else {
        second
    }
}

/// `es` after a line of the diff listing told `added` and `deleted` of
/// `path`. A path that had an entry becomes dirty, and a count that it
/// lacked is filled in; a count that it had stays. A new path gets an
/// entry that is dirty and not untracked.
pub open spec fn with_counts(
    es: Seq<(Seq<char>, GitStatus)>,
    path: Seq<char>,
    added: Option<u64>,
    deleted: Option<u64>,
) -> Seq<(Seq<char>, GitStatus)> {
    if has_key(es, path) {
        let had = es[key_index(es, path)].1;
        put(
            es,
            path,
            GitStatus {
                added: first_of(had.added, added),
                deleted: first_of(had.deleted, deleted),
                dirty: true,
                untracked: had.untracked,
            },
        )
    } else {
        put(es, path, GitStatus { added, deleted, dirty: true, untracked: false })
    }
}

/// `es` after the lines of a diff listing, taken in order.
pub open spec fn numstat_entries(es: Seq<(Seq<char>, GitStatus)>, lines: Seq<Seq<char>>) -> Seq<
    (Seq<char>, GitStatus),
>
    decreases lines.len(),
{
    if lines.len() == 0 {
        es
    } else {
        let before = numstat_entries(es, lines.drop_last());
        match parse_numstat_line(lines.last()) {
            Some((path, added, deleted)) => with_counts(before, path, added, deleted),
            None => before,
        }
    }
}

fn read_numstat_line(line: &Vec<char>) -> (told: Option<(String, Option<u64>, Option<u64>)>)
    ensures
        match (told, parse_numstat_line(line@)) {
            (Some((path, added, deleted)), Some((p, a, d))) => path@ == p && added == a && deleted
                == d,
            (None, None) => true,
            _ => false,
        },
{
    let fields = split(line, '\t');
    if fields.len() < 3 {
        return None;
    }
    assert(texts(fields@)[0] == fields@[0]@);
    assert(texts(fields@)[1] == fields@[1]@);
    assert(texts(fields@)[2] == fields@[2]@);
    let added = read_count(&fields[0]);
    let deleted = read_count(&fields[1]);
    if added.is_none() && deleted.is_none() {
        return None;
    }
    Some((string_of(&fields[2]), added, deleted))
}

/// Merges the numeric diff listing into `map`. Every path that the
/// listing counts becomes dirty; its counts are filled in where the map
/// had none. A command that could not be run, or that failed, gives an
/// error and leaves the map as it was.
pub fn merge_numstat(map: &mut StatusMap, outcome: &CommandOutcome) -> (merged: Result<(), String>)
    ensures
        match (*outcome, merged) {
            (CommandOutcome::NotRun(why), Err(e)) => e@ == "failed to run git diff: "@ + why@
                && final(map).entries() == old(map).entries(),
            (CommandOutcome::Exited { success: false, .. }, Err(e)) => e@ == "git diff failed"@
                && final(map).entries() == old(map).entries(),
            (CommandOutcome::Exited { success: true, stdout }, Ok(_)) => final(map).entries()
                == numstat_entries(old(map).entries(), lines_of(stdout@)),
            _ => false,
        },
{
    match outcome {
        CommandOutcome::NotRun(why) => {
            let mut e = String::from_str("failed to run git diff: ");
            e.append(why.as_str());
            Err(e)
        },
        CommandOutcome::Exited { success, stdout } => {
            if !*success {
                return Err(String::from_str("git diff failed"));
            }
            let all = chars_of(stdout.as_str());
            let found = lines(&all);
            let mut i: usize = 0;
            assert(texts(found@).take(0) =~= Seq::<Seq<char>>::empty());
            while i < found.len()
                invariant
                    i <= found.len(),
                    map.entries() == numstat_entries(
                        old(map).entries(),
                        texts(found@).take(i as int),
                    ),
                decreases found.len() - i,
            {
                let ghost shown = texts(found@);
                assert(shown.take(i + 1).drop_last() =~= shown.take(i as int));
                assert(shown.take(i + 1).last() == found@[i as int]@);
                match read_numstat_line(&found[i]) {
                    Some((path, added, deleted)) => {
                        let status = match map.position(&path) {
                            Some(at) => {
                                let had = map.status_at(at);
                                GitStatus {
                                    added: if had.added.is_some() {
                                        had.added
                                    } else {
                                        added
                                    },
                                    deleted: if had.deleted.is_some() {
                                        had.deleted
                                    } else {
                                        deleted
                                    },
                                    dirty: true,
                                    untracked: had.untracked,
                                }
                            },
                            None => GitStatus { added, deleted, dirty: true, untracked: false },
                        };
                        map.insert(path, status);
                    },
                    None => {},
                }
                i += 1;
            }
            assert(texts(found@).take(i as int) =~= texts(found@));
            Ok(())
        },
    }
}

} // verus!
