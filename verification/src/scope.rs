//! From the paths of the repository to the children of the listed
//! directory: every status is gathered under the child in or under which
//! its path lies.

use crate::paths::{
    begins_with, components, is_name, is_prefix, is_rooted, lemma_components_are_names,
    lies_under, path_components, rooted,
};
use crate::status::{count_of, opt_total, sum_opts, GitStatus};
use crate::status_map::StatusMap;
use crate::text::{chars_of, copy_range, string_of, texts};
use vstd::prelude::*;
use vstd::string::*;

verus! {

/// Whether the listed directory, as the paths of version control have to
/// name it, starts at the root. Below the repository root it is told
/// relative to that root, like the paths of the listings; elsewhere it is
/// told as it was given.
pub open spec fn base_rooted(git_root: Seq<char>, list_path: Seq<char>) -> bool {
    if lies_under(list_path, git_root) {
        false
    } else {
        is_rooted(list_path)
    }
}

/// The names of the listed directory, as the paths of version control
/// have to name it: those below the repository root where it lies under
/// that root, else all of its names.
pub open spec fn base_names(git_root: Seq<char>, list_path: Seq<char>) -> Seq<Seq<char>> {
    if lies_under(list_path, git_root) {
        components(list_path).skip(components(git_root).len() as int)
    } else {
        components(list_path)
    }
}

/// The child of the listed directory in or under which `path` lies: the
/// name of `path` that follows the names of the directory. There is none
/// if `path` does not lie below the directory.
pub open spec fn child_of(path: Seq<char>, rooted: bool, names: Seq<Seq<char>>) -> Option<
    Seq<char>,
> {
    let parts = components(path);
    if is_rooted(path) == rooted && is_prefix(names, parts) && parts.len() > names.len() {
        Some(parts[names.len() as int])
    } else {
        None
    }
}

/// The statuses of the entries of `es` that lie in or under the child
/// `child` of the listed directory, in the order of `es`.
pub open spec fn group(
    es: Seq<(Seq<char>, GitStatus)>,
    rooted: bool,
    names: Seq<Seq<char>>,
    child: Seq<char>,
) -> Seq<GitStatus>
    decreases es.len(),
{
    if es.len() == 0 {
        Seq::empty()
    } else {
        let before = group(es.drop_last(), rooted, names, child);
        if child_of(es.last().0, rooted, names) == Some(child) {
            before.push(es.last().1)
        } else {
            before
        }
    }
}

/// The added lines of all of `statuses`: absent if none counts any.
pub open spec fn total_added(statuses: Seq<GitStatus>) -> Option<nat>
    decreases statuses.len(),
{
    if statuses.len() == 0 {
        None
    } else {
        opt_total(total_added(statuses.drop_last()), count_of(statuses.last().added))
    }
}

/// The deleted lines of all of `statuses`: absent if none counts any.
pub open spec fn total_deleted(statuses: Seq<GitStatus>) -> Option<nat>
    decreases statuses.len(),
{
    if statuses.len() == 0 {
        None
    } else {
        opt_total(total_deleted(statuses.drop_last()), count_of(statuses.last().deleted))
    }
}

/// Whether one of `statuses` is dirty.
pub open spec fn any_dirty(statuses: Seq<GitStatus>) -> bool {
    exists|i: int| 0 <= i < statuses.len() && (#[trigger] statuses[i]).dirty
}

/// Whether one of `statuses` is untracked.
pub open spec fn any_untracked(statuses: Seq<GitStatus>) -> bool {
    exists|i: int| 0 <= i < statuses.len() && (#[trigger] statuses[i]).untracked
}

/// Whether `status` sums `statuses` up: it counts the lines of all of
/// them, and it is dirty, or untracked, if one of them is.
pub open spec fn sums_up(status: GitStatus, statuses: Seq<GitStatus>) -> bool {
    &&& count_of(status.added) == total_added(statuses)
    &&& count_of(status.deleted) == total_deleted(statuses)
    &&& status.dirty == any_dirty(statuses)
    &&& status.untracked == any_untracked(statuses)
}

/// Whether a total that may be absent fits in 64 bits.
pub open spec fn fits(total: Option<nat>) -> bool {
    total is Some ==> total->0 <= u64::MAX
}

/// Whether the line counts of every child of the listed directory fit in
/// 64 bits.
pub open spec fn totals_fit(es: Seq<(Seq<char>, GitStatus)>, rooted: bool, names: Seq<Seq<char>>) -> bool {
    forall|child: Seq<char>|
        fits(total_added(#[trigger] group(es, rooted, names, child))) && fits(
            total_deleted(group(es, rooted, names, child)),
        )
}

/// Whether `scoped` gathers `es` under the children of the listed
/// directory: it has a child exactly if some entry lies in or under it, and
/// the status of a child sums up the statuses of those entries.
pub open spec fn gathers(
    scoped: Map<Seq<char>, GitStatus>,
    es: Seq<(Seq<char>, GitStatus)>,
    rooted: bool,
    names: Seq<Seq<char>>,
) -> bool {
    forall|child: Seq<char>|
        #![trigger group(es, rooted, names, child)]
        #![trigger scoped.contains_key(child)]
        {
            &&& scoped.contains_key(child) <==> group(es, rooted, names, child).len() > 0
            &&& scoped.contains_key(child) ==> sums_up(
                scoped[child],
                group(es, rooted, names, child),
            )
        }
}

/// A total that may be absent is at most another if, where it is
/// present, the other is present and not smaller.
spec fn at_most(a: Option<nat>, b: Option<nat>) -> bool {
    a is Some ==> b is Some && a->0 <= b->0
}

proof fn lemma_partial_totals(
    es: Seq<(Seq<char>, GitStatus)>,
    rooted: bool,
    names: Seq<Seq<char>>,
    child: Seq<char>,
    n: int,
)
    requires
        0 <= n <= es.len(),
    ensures
        at_most(
            total_added(group(es.take(n), rooted, names, child)),
            total_added(group(es, rooted, names, child)),
        ),
        at_most(
            total_deleted(group(es.take(n), rooted, names, child)),
            total_deleted(group(es, rooted, names, child)),
        ),
    decreases es.len() - n,
{
    if n < es.len() {
        lemma_partial_totals(es, rooted, names, child, n + 1);
        assert(es.take(n + 1).drop_last() =~= es.take(n));
        let g = group(es.take(n), rooted, names, child);
        let h = group(es.take(n + 1), rooted, names, child);
        if h != g {
            assert(h.drop_last() =~= g);
        }
    } else {
        assert(es.take(n) =~= es);
    }
}

proof fn lemma_any_after_push(statuses: Seq<GitStatus>, status: GitStatus)
    ensures
        any_dirty(statuses.push(status)) == (any_dirty(statuses) || status.dirty),
        any_untracked(statuses.push(status)) == (any_untracked(statuses) || status.untracked),
{
    let grown = statuses.push(status);
    let last = statuses.len() as int;
    assert(grown[last] == status);
    if any_dirty(statuses) {
        let i = choose|i: int| 0 <= i < statuses.len() && (#[trigger] statuses[i]).dirty;
        assert(grown[i].dirty);
    }
    if any_dirty(grown) {
        let i = choose|i: int| 0 <= i < grown.len() && (#[trigger] grown[i]).dirty;
        if i < last {
            assert(statuses[i].dirty);
        }
    }
    if any_untracked(statuses) {
        let i = choose|i: int| 0 <= i < statuses.len() && (#[trigger] statuses[i]).untracked;
        assert(grown[i].untracked);
    }
    if any_untracked(grown) {
        let i = choose|i: int| 0 <= i < grown.len() && (#[trigger] grown[i]).untracked;
        if i < last {
            assert(statuses[i].untracked);
        }
    }
}

/// The child of the listed directory in or under which `path` lies.
fn read_child(path: &str, base_is_rooted: bool, names: &Vec<Vec<char>>) -> (child: Option<String>)
    ensures
        match (child, child_of(path@, base_is_rooted, texts(names@))) {
            (Some(found), Some(c)) => found@ == c,
            (None, None) => true,
            _ => false,
        },
{
    let chars = chars_of(path);
    let parts = path_components(&chars);
    if rooted(&chars) == base_is_rooted && begins_with(&parts, names) && parts.len() > names.len() {
        assert(texts(parts@)[names.len() as int] == parts@[names.len() as int]@);
        Some(string_of(&parts[names.len()]))
    } else {
        None
    }
}

/// Gathers the statuses of `map` under the children of the listed
/// directory. A path that does not lie below the directory is left out.
/// Every other path counts for the child in or under which it lies: the
/// child is dirty, or untracked, if one of its paths is, and its added
/// and deleted lines are those of all its paths. Every key of the result
/// is the name of a child; no deeper path is left.
pub fn scope_git_entries(map: StatusMap, git_root: &str, list_path: &str) -> (scoped: StatusMap)
    requires
        totals_fit(
            map.entries(),
            base_rooted(git_root@, list_path@),
            base_names(git_root@, list_path@),
        ),
    ensures
        gathers(
            scoped@,
            map.entries(),
            base_rooted(git_root@, list_path@),
            base_names(git_root@, list_path@),
        ),
        forall|child: Seq<char>| scoped@.contains_key(child) ==> is_name(child),
{
    let root_chars = chars_of(git_root);
    let list_chars = chars_of(list_path);
    let root_parts = path_components(&root_chars);
    let list_parts = path_components(&list_chars);
    let under = rooted(&list_chars) == rooted(&root_chars) && begins_with(&list_parts, &root_parts);
    let base_is_rooted = if under {
        false
    } else {
        rooted(&list_chars)
    };
    let mut names: Vec<Vec<char>> = Vec::new();
    let skipped: usize = if under {
        root_parts.len()
    } else {
        0
    };
    let mut k: usize = skipped;
    assert(texts(names@) =~= texts(list_parts@).subrange(skipped as int, k as int));
    while k < list_parts.len()
        invariant
            skipped <= k <= list_parts.len(),
            texts(names@) == texts(list_parts@).subrange(skipped as int, k as int),
        decreases list_parts.len() - k,
    {
        let ghost had = texts(names@);
        let part = &list_parts[k];
        let copy = copy_range(part, 0, part.len());
        assert(part@.subrange(0, part.len() as int) =~= part@);
        names.push(copy);
        assert(texts(names@) =~= had.push(part@));
        assert(texts(list_parts@).subrange(skipped as int, k + 1) =~= texts(list_parts@).subrange(
            skipped as int,
            k as int,
        ).push(part@));
        k += 1;
    }
    let ghost es = map.entries();
    let ghost base = base_rooted(git_root@, list_path@);
    let ghost dir = base_names(git_root@, list_path@);
    assert(texts(names@) == dir) by {
        let all = texts(list_parts@);
        if under {
            assert(all.subrange(skipped as int, all.len() as int) =~= all.skip(skipped as int));
        } else {
            assert(all.subrange(0, all.len() as int) =~= all);
        }
    }
    let mut scoped = StatusMap::new();
    let mut i: usize = 0;
    assert(es.take(0) =~= Seq::<(Seq<char>, GitStatus)>::empty());
    while i < map.len()
        invariant
            i <= es.len(),
            es == map.entries(),
            texts(names@) == dir,
            base_is_rooted == base,
            totals_fit(es, base, dir),
            gathers(scoped@, es.take(i as int), base, dir),
            forall|child: Seq<char>| scoped@.contains_key(child) ==> is_name(child),
        decreases es.len() - i,
    {
        let status = map.status_at(i);
        let ghost path = es[i as int].0;
        let ghost before = es.take(i as int);
        let ghost after = es.take(i + 1);
        let ghost had = scoped@;
        assert(after.drop_last() =~= before);
        assert(after.last() == es[i as int]);
        match read_child(map.path_at(i).as_str(), base_is_rooted, &names) {
            Some(name) => {
                let ghost g = group(before, base, dir, name@);
                let ghost h = group(after, base, dir, name@);
                assert(h == g.push(status));
                proof {
                    lemma_components_are_names(path);
                    lemma_partial_totals(es, base, dir, name@, i + 1);
                    lemma_any_after_push(g, status);
                    assert(h.drop_last() =~= g);
                    assert(fits(total_added(group(es, base, dir, name@))));
                }
                let sum = match scoped.get(name.as_str()) {
                    Some(s) => s,
                    None => GitStatus { added: None, deleted: None, dirty: false, untracked: false },
                };
                assert(sums_up(sum, g)) by {
                    if !had.contains_key(name@) {
                        assert(g.len() == 0);
                    }
                }
                let gathered = GitStatus {
                    added: sum_opts(sum.added, status.added),
                    deleted: sum_opts(sum.deleted, status.deleted),
                    dirty: sum.dirty || status.dirty,
                    untracked: sum.untracked || status.untracked,
                };
                assert(sums_up(gathered, h));
                scoped.insert(name, gathered);
                assert forall|child: Seq<char>|
                    #![trigger group(after, base, dir, child)]
                    #![trigger scoped@.contains_key(child)]
                    {
                        &&& scoped@.contains_key(child) <==> group(after, base, dir, child).len()
                            > 0
                        &&& scoped@.contains_key(child) ==> sums_up(
                            scoped@[child],
                            group(after, base, dir, child),
                        )
                    } by {
                    if child != name@ {
                        assert(group(after, base, dir, child) == group(before, base, dir, child));
                        assert(had.contains_key(child) <==> group(before, base, dir, child).len()
                            > 0);
                    }
                }
            },
            None => {
                assert forall|child: Seq<char>|
                    #![trigger group(after, base, dir, child)]
                    #![trigger scoped@.contains_key(child)]
                    {
                        &&& scoped@.contains_key(child) <==> group(after, base, dir, child).len()
                            > 0
                        &&& scoped@.contains_key(child) ==> sums_up(
                            scoped@[child],
                            group(after, base, dir, child),
                        )
                    } by {
                    assert(group(after, base, dir, child) == group(before, base, dir, child));
                    assert(had.contains_key(child) <==> group(before, base, dir, child).len() > 0);
                }
            },
        }
        i += 1;
    }
    assert(es.take(i as int) =~= es);
    scoped
}

/// The statuses of the entries `es`, in order.
pub open spec fn statuses_of(es: Seq<(Seq<char>, GitStatus)>) -> Seq<GitStatus> {
    Seq::new(es.len(), |i: int| es[i].1)
}

/// Whether the line counts of all of `es` together fit in 64 bits.
pub open spec fn counts_fit(es: Seq<(Seq<char>, GitStatus)>) -> bool {
    fits(total_added(statuses_of(es))) && fits(total_deleted(statuses_of(es)))
}

proof fn lemma_total_of_front(statuses: Seq<GitStatus>, n: int)
    requires
        0 <= n <= statuses.len(),
    ensures
        at_most(total_added(statuses.take(n)), total_added(statuses)),
        at_most(total_deleted(statuses.take(n)), total_deleted(statuses)),
    decreases statuses.len() - n,
{
    if n < statuses.len() {
        lemma_total_of_front(statuses, n + 1);
        assert(statuses.take(n + 1).drop_last() =~= statuses.take(n));
    } else {
        assert(statuses.take(n) =~= statuses);
    }
}

proof fn lemma_group_within_all(
    es: Seq<(Seq<char>, GitStatus)>,
    rooted: bool,
    names: Seq<Seq<char>>,
    child: Seq<char>,
)
    ensures
        at_most(total_added(group(es, rooted, names, child)), total_added(statuses_of(es))),
        at_most(total_deleted(group(es, rooted, names, child)), total_deleted(statuses_of(es))),
    decreases es.len(),
{
    if es.len() > 0 {
        lemma_group_within_all(es.drop_last(), rooted, names, child);
        assert(statuses_of(es).drop_last() =~= statuses_of(es.drop_last()));
        let g = group(es.drop_last(), rooted, names, child);
        let h = group(es, rooted, names, child);
        if h != g {
            assert(h.drop_last() =~= g);
        }
    }
}

/// Where the counts of all entries together fit in 64 bits, so do those
/// of every child of a listed directory.
pub proof fn lemma_counts_fit(es: Seq<(Seq<char>, GitStatus)>, rooted: bool, names: Seq<Seq<char>>)
    requires
        counts_fit(es),
    ensures
        totals_fit(es, rooted, names),
{
    assert forall|child: Seq<char>|
        fits(total_added(#[trigger] group(es, rooted, names, child))) && fits(
            total_deleted(group(es, rooted, names, child)),
        ) by {
        lemma_group_within_all(es, rooted, names, child);
    }
}

/// Whether the line counts of all entries of `map` together fit in 64 bits.
pub fn check_counts(map: &StatusMap) -> (ok: bool)
    ensures
        ok == counts_fit(map.entries()),
{
    let ghost all = statuses_of(map.entries());
    let mut added: Option<u64> = None;
    let mut deleted: Option<u64> = None;
    let mut i: usize = 0;
    assert(all.take(0) =~= Seq::<GitStatus>::empty());
    while i < map.len()
        invariant
            i <= all.len(),
            all == statuses_of(map.entries()),
            count_of(added) == total_added(all.take(i as int)),
            count_of(deleted) == total_deleted(all.take(i as int)),
        decreases all.len() - i,
    {
        let status = map.status_at(i);
        proof {
            assert(all.take(i + 1).drop_last() =~= all.take(i as int));
            assert(all.take(i + 1).last() == status);
            lemma_total_of_front(all, i + 1);
        }
        if let (Some(x), Some(y)) = (added, status.added) {
            if x > u64::MAX - y {
                return false;
            }
        }
        if let (Some(x), Some(y)) = (deleted, status.deleted) {
            if x > u64::MAX - y {
                return false;
            }
        }
        added = sum_opts(added, status.added);
        deleted = sum_opts(deleted, status.deleted);
        i += 1;
    }
    assert(all.take(i as int) =~= all);
    true
}

} // verus!
