//! A map from paths to statuses that keeps its entries in the order in
//! which their paths were first inserted.

use crate::status::GitStatus;
use vstd::prelude::*;
use vstd::string::*;

verus! {

/// Whether some entry of `es` has the key `key`.
pub open spec fn has_key(es: Seq<(Seq<char>, GitStatus)>, key: Seq<char>) -> bool {
    exists|i: int| 0 <= i < es.len() && (#[trigger] es[i]).0 == key
}

/// The position of an entry of `es` with the key `key`, where there is one.
pub open spec fn key_index(es: Seq<(Seq<char>, GitStatus)>, key: Seq<char>) -> int {
    choose|i: int| 0 <= i < es.len() && (#[trigger] es[i]).0 == key
}

/// Whether no key occurs twice in `es`.
pub open spec fn distinct_keys(es: Seq<(Seq<char>, GitStatus)>) -> bool {
    forall|i: int, j: int|
        0 <= i < j < es.len() ==> (#[trigger] es[i]).0 != (#[trigger] es[j]).0
}

/// `es` with `value` under `key`: in the place of the entry that had the
/// key, or at the end where none had it.
pub open spec fn put(es: Seq<(Seq<char>, GitStatus)>, key: Seq<char>, value: GitStatus) -> Seq<
    (Seq<char>, GitStatus),
> {
    if has_key(es, key) {
        es.update(key_index(es, key), (key, value))
    } else {
        es.push((key, value))
    }
}

/// The map that the entries `es` stand for.
pub open spec fn as_map(es: Seq<(Seq<char>, GitStatus)>) -> Map<Seq<char>, GitStatus> {
    Map::new(|k: Seq<char>| has_key(es, k), |k: Seq<char>| es[key_index(es, k)].1)
}

/// Putting a value under a key keeps the keys distinct and changes the
/// map at that key alone.
pub proof fn lemma_put(es: Seq<(Seq<char>, GitStatus)>, key: Seq<char>, value: GitStatus)
    requires
        distinct_keys(es),
    ensures
        distinct_keys(put(es, key, value)),
        as_map(put(es, key, value)) == as_map(es).insert(key, value),
{
    let after = put(es, key, value);
    if has_key(es, key) {
        let at = key_index(es, key);
        assert(after.len() == es.len());
        assert forall|i: int| 0 <= i < es.len() implies (#[trigger] after[i]).0 == es[i].0 by {}
        assert(distinct_keys(after));
        assert forall|k: Seq<char>| has_key(after, k) == (has_key(es, k) || k == key) by {
            if has_key(es, k) {
                let i = key_index(es, k);
                assert(after[i].0 == k);
            }
            if has_key(after, k) {
                let i = key_index(after, k);
                assert(es[i].0 == k);
            }
        }
        assert forall|k: Seq<char>| has_key(after, k) implies (#[trigger] as_map(after)[k])
            == as_map(es).insert(key, value)[k] by {
            let i = key_index(after, k);
            assert(es[i].0 == k);
            if k != key {
                let j = key_index(es, k);
                assert(i == j);
            } else {
                assert(i == at);
            }
        }
    } else {
        let last = es.len() as int;
        assert(after[last].0 == key);
        assert forall|i: int| 0 <= i < es.len() implies (#[trigger] after[i]) == es[i] by {}
        assert(distinct_keys(after)) by {
            assert forall|i: int, j: int| 0 <= i < j < after.len() implies (#[trigger] after[i]).0
                != (#[trigger] after[j]).0 by {
                if j == last {
                    assert(es[i].0 != key);
                }
            }
        }
        assert forall|k: Seq<char>| has_key(after, k) == (has_key(es, k) || k == key) by {
            if has_key(es, k) {
                let i = key_index(es, k);
                assert(after[i].0 == k);
            }
            if has_key(after, k) {
                let i = key_index(after, k);
                if i < last {
                    assert(es[i].0 == k);
                }
            }
        }
        assert forall|k: Seq<char>| has_key(after, k) implies (#[trigger] as_map(after)[k])
            == as_map(es).insert(key, value)[k] by {
            let i = key_index(after, k);
            if k != key {
                assert(i < last);
                assert(es[i].0 == k);
                let j = key_index(es, k);
                assert(after[j].0 == k);
                assert(i == j);
            } else {
                assert(i == last);
            }
        }
    }
    assert(as_map(after) =~= as_map(es).insert(key, value));
}

/// A map from paths to statuses. No path occurs twice in it.
#[derive(Debug)]
pub struct StatusMap {
    entries: Vec<(String, GitStatus)>,
}

impl View for StatusMap {
    type V = Map<Seq<char>, GitStatus>;

    open spec fn view(&self) -> Map<Seq<char>, GitStatus> {
        as_map(self.entries())
    }
}

impl StatusMap {
    /// The entries of the map, in the order in which their paths came in.
    pub closed spec fn entries(&self) -> Seq<(Seq<char>, GitStatus)> {
        Seq::new(self.entries@.len(), |i: int| (self.entries@[i].0@, self.entries@[i].1))
    }

    /// The invariant of the type: no path occurs twice.
    #[verifier::type_invariant]
    pub open spec fn wf(&self) -> bool {
        distinct_keys(self.entries())
    }

    /// The map without entries.
    pub fn new() -> (map: StatusMap)
        ensures
            map.entries() == Seq::<(Seq<char>, GitStatus)>::empty(),
    {
        let entries: Vec<(String, GitStatus)> = Vec::new();
        assert(Seq::new(entries@.len(), |i: int| (entries@[i].0@, entries@[i].1))
            =~= Seq::<(Seq<char>, GitStatus)>::empty());
        StatusMap { entries }
    }

    /// The number of entries.
    pub fn len(&self) -> (n: usize)
        ensures
            n == self.entries().len(),
    {
        self.entries.len()
    }

    /// The path of the entry at position `i`.
    pub fn path_at(&self, i: usize) -> (path: &String)
        requires
            i < self.entries().len(),
        ensures
            path@ == self.entries()[i as int].0,
    {
        &self.entries[i].0
    }

    /// The status of the entry at position `i`.
    pub fn status_at(&self, i: usize) -> (status: GitStatus)
        requires
            i < self.entries().len(),
        ensures
            status == self.entries()[i as int].1,
    {
        self.entries[i].1
    }

    /// The position of the entry with the path `key`, if there is one.
    pub fn position(&self, key: &String) -> (found: Option<usize>)
        ensures
            found is Some <==> has_key(self.entries(), key@),
            found is Some ==> found->0 == key_index(self.entries(), key@),
    {
        proof {
            use_type_invariant(self);
        }
        let mut i: usize = 0;
        while i < self.entries.len()
            invariant
                i <= self.entries.len(),
                self.wf(),
                forall|j: int| 0 <= j < i ==> (#[trigger] self.entries()[j]).0 != key@,
            decreases self.entries.len() - i,
        {
            if self.entries[i].0 == *key {
                assert(self.entries()[i as int].0 == key@);
                return Some(i);
            }
            i += 1;
        }
        None
    }

    /// The status under the path `key`, if the map has one.
    pub fn get(&self, key: &str) -> (status: Option<GitStatus>)
        ensures
            status == if self@.contains_key(key@) {
                Some(self@[key@])
            } else {
                None
            },
    {
        let owned = String::from_str(key);
        match self.position(&owned) {
            Some(i) => Some(self.entries[i].1),
            None => None,
        }
    }

    /// Puts `value` under the path `key`, in the place of the status that
    /// the path had, if it had one.
    pub fn insert(&mut self, key: String, value: GitStatus)
        ensures
            final(self).entries() == put(old(self).entries(), key@, value),
            final(self)@ == old(self)@.insert(key@, value),
    {
        proof {
            use_type_invariant(&*self);
            lemma_put(self.entries(), key@, value);
        }
        let ghost before = self.entries();
        let found = self.position(&key);
        let mut taken = StatusMap::new();
        std::mem::swap(self, &mut taken);
        let mut entries = taken.entries;
        assert(Seq::new(entries@.len(), |i: int| (entries@[i].0@, entries@[i].1)) == before);
        match found {
            Some(i) => {
                entries[i] = (key, value);
                assert(Seq::new(entries@.len(), |i: int| (entries@[i].0@, entries@[i].1))
                    =~= before.update(i as int, (key@, value)));
            },
            None => {
                entries.push((key, value));
                assert(Seq::new(entries@.len(), |i: int| (entries@[i].0@, entries@[i].1))
                    =~= before.push((key@, value)));
            },
        }
        *self = StatusMap { entries };
    }
}

} // verus!
