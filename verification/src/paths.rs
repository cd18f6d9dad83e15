//! Paths as version control writes them: names separated by slashes.

use crate::text::{copy_range, lemma_split_on, split, split_on, texts};
use vstd::prelude::*;

verus! {

/// Whether the path starts at the root: its first character is a slash.
pub open spec fn is_rooted(path: Seq<char>) -> bool {
    path.len() > 0 && path[0] == '/'
}

/// The pieces of `pieces` that are not empty, in order.
pub open spec fn nonempty(pieces: Seq<Seq<char>>) -> Seq<Seq<char>>
    decreases pieces.len(),
{
    if pieces.len() == 0 {
        pieces
    } else if pieces.last().len() == 0 {
        nonempty(pieces.drop_last())
    } else {
        nonempty(pieces.drop_last()).push(pieces.last())
    }
}

/// The names of which `path` consists: what stands between its slashes,
/// wherever that is not empty.
pub open spec fn components(path: Seq<char>) -> Seq<Seq<char>> {
    nonempty(split_on(path, '/'))
}

/// Whether `name` can name a file: it is not empty and holds no slash.
pub open spec fn is_name(name: Seq<char>) -> bool {
    name.len() > 0 && forall|i: int| 0 <= i < name.len() ==> name[i] != '/'
}

/// Whether `front` is the beginning of `parts`.
pub open spec fn is_prefix(front: Seq<Seq<char>>, parts: Seq<Seq<char>>) -> bool {
    front.len() <= parts.len() && parts.take(front.len() as int) == front
}

/// Whether `path` is `base` or lies below it: both start at the root or
/// neither does, and the names of `base` are the first names of `path`.
pub open spec fn lies_under(path: Seq<char>, base: Seq<char>) -> bool {
    is_rooted(path) == is_rooted(base) && is_prefix(components(base), components(path))
}

proof fn lemma_nonempty_names(pieces: Seq<Seq<char>>)
    requires
        forall|i: int, j: int|
            0 <= i < pieces.len() && 0 <= j < pieces[i].len() ==> pieces[i][j] != '/',
    ensures
        forall|i: int| 0 <= i < nonempty(pieces).len() ==> is_name(#[trigger] nonempty(pieces)[i]),
    decreases pieces.len(),
{
    if pieces.len() > 0 {
        let front = pieces.drop_last();
        assert forall|i: int, j: int|
            0 <= i < front.len() && 0 <= j < front[i].len() implies front[i][j] != '/' by {
            assert(front[i] == pieces[i]);
        }
        lemma_nonempty_names(front);
        let last = pieces.last();
        assert(last == pieces[pieces.len() - 1]);
        assert forall|i: int| 0 <= i < nonempty(pieces).len() implies is_name(
            #[trigger] nonempty(pieces)[i],
        ) by {
            if i < nonempty(front).len() {
                assert(nonempty(pieces)[i] == nonempty(front)[i]);
            } else {
                assert(nonempty(pieces)[i] == last);
                assert forall|j: int| 0 <= j < last.len() implies last[j] != '/' by {
                    assert(pieces[pieces.len() - 1][j] != '/');
                }
            }
        }
    }
}

/// Every component of a path is a name.
pub proof fn lemma_components_are_names(path: Seq<char>)
    ensures
        forall|i: int| 0 <= i < components(path).len() ==> is_name(#[trigger] components(path)[i]),
{
    lemma_split_on(path, '/');
    lemma_nonempty_names(split_on(path, '/'));
}

/// The names of which `path` consists.
pub fn path_components(path: &Vec<char>) -> (parts: Vec<Vec<char>>)
    ensures
        texts(parts@) == components(path@),
{
    let pieces = split(path, '/');
    let ghost all = texts(pieces@);
    let mut parts: Vec<Vec<char>> = Vec::new();
    let mut i: usize = 0;
    assert(all.take(0) =~= Seq::<Seq<char>>::empty());
    assert(texts(parts@) =~= Seq::<Seq<char>>::empty());
    while i < pieces.len()
        invariant
            i <= pieces.len(),
            all == texts(pieces@),
            texts(parts@) == nonempty(all.take(i as int)),
        decreases pieces.len() - i,
    {
        let piece = &pieces[i];
        assert(all.take(i + 1).drop_last() =~= all.take(i as int));
        assert(all.take(i + 1).last() == piece@);
        if piece.len() > 0 {
            let ghost kept = texts(parts@);
            let copy = copy_range(piece, 0, piece.len());
            assert(piece@.subrange(0, piece.len() as int) =~= piece@);
            parts.push(copy);
            assert(texts(parts@) =~= kept.push(piece@));
        }
        i += 1;
    }
    assert(all.take(i as int) =~= all);
    parts
}

/// Whether the path starts at the root.
pub fn rooted(path: &Vec<char>) -> (b: bool)
    ensures
        b == is_rooted(path@),
{
    path.len() > 0 && path[0] == '/'
}

/// Whether the characters of `a` are those of `b`.
pub fn same_chars(a: &Vec<char>, b: &Vec<char>) -> (same: bool)
    ensures
        same == (a@ == b@),
{
    if a.len() != b.len() {
        return false;
    }
    let mut i: usize = 0;
    while i < a.len()
        invariant
            i <= a.len(),
            a.len() == b.len(),
            forall|j: int| 0 <= j < i ==> a@[j] == b@[j],
        decreases a.len() - i,
    {
        if a[i] != b[i] {
            return false;
        }
        i += 1;
    }
    assert(a@ =~= b@);
    true
}

/// Whether `front` is the beginning of `parts`.
pub fn begins_with(parts: &Vec<Vec<char>>, front: &Vec<Vec<char>>) -> (b: bool)
    ensures
        b == is_prefix(texts(front@), texts(parts@)),
{
    if front.len() > parts.len() {
        return false;
    }
    let mut i: usize = 0;
    while i < front.len()
        invariant
            i <= front.len() <= parts.len(),
            forall|j: int| 0 <= j < i ==> front@[j]@ == parts@[j]@,
        decreases front.len() - i,
    {
        if !same_chars(&front[i], &parts[i]) {
            assert(texts(parts@).take(front.len() as int)[i as int] != texts(front@)[i as int]);
            return false;
        }
        i += 1;
    }
    assert(texts(parts@).take(front.len() as int) =~= texts(front@));
    true
}

} // verus!
