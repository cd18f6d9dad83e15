//! Loading the statuses of version control, one command at a time: the
//! library says which command is due, and is told how it ended.

use crate::diff_lines::{merge_numstat, numstat_entries};
use crate::paths::{begins_with, lies_under, path_components, rooted};
use crate::scope::{
    base_names, base_rooted, check_counts, counts_fit, gathers, lemma_counts_fit,
    scope_git_entries,
};
use crate::status_lines::{read_git_status, status_entries};
use crate::status_map::StatusMap;
use crate::text::{chars_of, copy_range, lines_of, string_of, trim, trim_bounds};
use vstd::prelude::*;
use vstd::string::*;

verus! {

/// How a command of version control ended.
#[derive(Debug)]
pub enum CommandOutcome {
    /// The command could not be run; the text says why.
    NotRun(String),
    /// The command ran to its end and wrote `stdout`.
    Exited { success: bool, stdout: String },
}

/// The statuses of the children of the listed directory, by name.
#[derive(Debug)]
pub struct GitInfo {
    pub entries: StatusMap,
}

/// Where the loading of the statuses stands: which command has to be run
/// next, or how the loading ended.
#[derive(Debug)]
pub enum GitLoad {
    /// Next comes `git rev-parse --show-toplevel`, run in the listed directory.
    FindRoot,
    /// Next comes `git status --porcelain=1`, run in `root`.
    ReadStatus { root: String },
    /// Next comes `git diff --numstat HEAD`, run in `root`.
    ReadNumstat { root: String, map: StatusMap },
    /// The end: the statuses; or none, where they cannot be had and the
    /// listing goes on without them; or an error.
    Done(Result<Option<GitInfo>, String>),
}

/// Whether the loading ended without statuses and without an error.
pub open spec fn is_unavailable(next: GitLoad) -> bool {
    next matches GitLoad::Done(Ok(None))
}

/// Whether `next` is the step that follows the search for the repository
/// root. Without a root, or with a listed directory that does not lie
/// under it, there are no statuses; else the status listing is read in
/// the root, which is what the command wrote, without the white space
/// around it.
pub open spec fn after_find_root(list_path: Seq<char>, outcome: CommandOutcome, next: GitLoad) -> bool {
    match outcome {
        CommandOutcome::Exited { success: true, stdout } => if lies_under(list_path, trim(stdout@)) {
            next matches GitLoad::ReadStatus { root } && root@ == trim(stdout@)
        } else {
            is_unavailable(next)
        },
        _ => is_unavailable(next),
    }
}

/// Whether `next` is the step that follows the status listing. Without
/// the listing there are no statuses; else the diff listing is read next.
pub open spec fn after_read_status(root: Seq<char>, outcome: CommandOutcome, next: GitLoad) -> bool {
    match outcome {
        CommandOutcome::Exited { success: true, stdout } => next matches GitLoad::ReadNumstat {
            root: r,
            map,
        } && r@ == root && map.entries() == status_entries(lines_of(stdout@)),
        _ => is_unavailable(next),
    }
}

/// Whether `next` is the end that follows the diff listing. A command
/// that could not be run leaves no statuses; one that failed is an error,
/// and so are line counts that do not fit in 64 bits. Else the statuses
/// are gathered under the children of the listed directory.
pub open spec fn after_read_numstat(
    root: Seq<char>,
    map: StatusMap,
    list_path: Seq<char>,
    outcome: CommandOutcome,
    next: GitLoad,
) -> bool {
    match outcome {
        CommandOutcome::NotRun(_) => is_unavailable(next),
        CommandOutcome::Exited { success: false, .. } => next matches GitLoad::Done(Err(e)) && e@
            == "git diff failed"@,
        CommandOutcome::Exited { success: true, stdout } => {
            let merged = numstat_entries(map.entries(), lines_of(stdout@));
            if counts_fit(merged) {
                next matches GitLoad::Done(Ok(Some(info))) && gathers(
                    info.entries@,
                    merged,
                    base_rooted(root, list_path),
                    base_names(root, list_path),
                )
            } else {
                next matches GitLoad::Done(Err(e)) && e@ == "git line counts are too large"@
            }
        },
    }
}

/// Takes the loading of the statuses one step further: from where it
/// stands and from how the command that was due ended, to the command
/// that is due next, or to the end. A loading that has ended stays as it is.
pub fn load_git_info(state: GitLoad, list_path: &str, outcome: &CommandOutcome) -> (next: GitLoad)
    ensures
        match state {
            GitLoad::FindRoot => after_find_root(list_path@, *outcome, next),
            GitLoad::ReadStatus { root } => after_read_status(root@, *outcome, next),
            GitLoad::ReadNumstat { root, map } => after_read_numstat(
                root@,
                map,
                list_path@,
                *outcome,
                next,
            ),
            GitLoad::Done(_) => next == state,
        },
{
    match state {
        GitLoad::FindRoot => match outcome {
            CommandOutcome::Exited { success, stdout } => {
                if !*success {
                    return GitLoad::Done(Ok(None));
                }
                let written = chars_of(stdout.as_str());
                let (a, b) = trim_bounds(&written, 0, written.len());
                assert(written@.subrange(0, written.len() as int) =~= written@);
                let root_chars = copy_range(&written, a, b);
                let list_chars = chars_of(list_path);
                let root_parts = path_components(&root_chars);
                let list_parts = path_components(&list_chars);
                if rooted(&list_chars) == rooted(&root_chars) && begins_with(
                    &list_parts,
                    &root_parts,
                ) {
                    GitLoad::ReadStatus { root: string_of(&root_chars) }
                } else {
                    GitLoad::Done(Ok(None))
                }
            },
            CommandOutcome::NotRun(_) => GitLoad::Done(Ok(None)),
        },
        GitLoad::ReadStatus { root } => match read_git_status(outcome) {
            Ok(map) => GitLoad::ReadNumstat { root, map },
            Err(_) => GitLoad::Done(Ok(None)),
        },
        GitLoad::ReadNumstat { root, map } => {
            let mut map = map;
            match merge_numstat(&mut map, outcome) {
                Ok(_) => {
                    if check_counts(&map) {
                        proof {
                            lemma_counts_fit(
                                map.entries(),
                                base_rooted(root@, list_path@),
                                base_names(root@, list_path@),
                            );
                        }
                        let scoped = scope_git_entries(map, root.as_str(), list_path);
                        GitLoad::Done(Ok(Some(GitInfo { entries: scoped })))
                    } else {
                        GitLoad::Done(Err(String::from_str("git line counts are too large")))
                    }
                },
                Err(e) => match outcome {
                    CommandOutcome::NotRun(_) => GitLoad::Done(Ok(None)),
                    CommandOutcome::Exited { .. } => GitLoad::Done(Err(e)),
                },
            }
        },
        GitLoad::Done(end) => GitLoad::Done(end),
    }
}

} // verus!
