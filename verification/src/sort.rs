//! The order of the rows: by name with directories first, or by
//! modification time with the newest first; stable, and reversed as a whole
//! where that is asked.

use crate::row::{row_views, EntryRow, RowView};
use crate::text::{
    chars_of, lemma_text_order, lowercased, string_texts, text_before, text_less, texts,
    to_lowercase,
};
use crate::time::Timestamp;
use std::cmp::Ordering;
use vstd::prelude::*;
use vstd::string::*;

verus! {

/// How two modification times stand to each other where the newest comes
/// first: a known time before an unknown one, and of two known times the
/// later one first.
pub open spec fn modified_order(a: Option<Timestamp>, b: Option<Timestamp>) -> Ordering {
    match (a, b) {
        (Some(x), Some(y)) => if y@ < x@ {
            Ordering::Less
        } else if y@ == x@ {
            Ordering::Equal
        } else {
            Ordering::Greater
        },
        (Some(_), None) => Ordering::Less,
        (None, Some(_)) => Ordering::Greater,
        (None, None) => Ordering::Equal,
    }
}

/// Compares two modification times so that the newest comes first and an
/// unknown time last.
pub fn compare_modified_desc(a: &Option<Timestamp>, b: &Option<Timestamp>) -> (order: Ordering)
    ensures
        order == modified_order(*a, *b),
{
    match (a, b) {
        (Some(x), Some(y)) => {
            let p = x.nanos_since_epoch();
            let q = y.nanos_since_epoch();
            if q < p {
                Ordering::Less
            } else if q == p {
                Ordering::Equal
            } else {
                Ordering::Greater
            }
        },
        (Some(_), None) => Ordering::Less,
        (None, Some(_)) => Ordering::Greater,
        (None, None) => Ordering::Equal,
    }
}

/// Whether the key `a` stands before the key `b`. A key is a rank, a
/// time and a name; the rank decides first, then the time, then the name in
/// the order of the dictionary.
pub open spec fn key_less(a: (int, int, Seq<char>), b: (int, int, Seq<char>)) -> bool {
    ||| a.0 < b.0
    ||| (a.0 == b.0 && a.1 < b.1)
    ||| (a.0 == b.0 && a.1 == b.1 && text_less(a.2, b.2))
}

/// The key of a row whose name in lower case is `name`. By name, a
/// directory ranks before a file and the time does not count. By
/// modification time, a known time ranks before an unknown one, and of
/// two known times the later one stands first.
pub open spec fn keyed(row: RowView, name: Seq<char>, by_modified: bool) -> (int, int, Seq<char>) {
    if by_modified {
        match row.modified_time {
            Some(t) => (0, -t@, name),
            None => (1, 0, name),
        }
    } else if row.is_dir {
        (0, 0, name)
    } else {
        (1, 0, name)
    }
}

/// The key of a row: its name is the shown name, status suffix included,
/// in lower case.
pub open spec fn row_key(row: RowView, by_modified: bool) -> (int, int, Seq<char>) {
    keyed(row, lowercased(row.name_with_git_plain), by_modified)
}

/// The keys of `rows` where `names` are their names in lower case.
pub open spec fn keys_with(rows: Seq<EntryRow>, names: Seq<Seq<char>>, by_modified: bool) -> Seq<
    (int, int, Seq<char>),
> {
    Seq::new(rows.len(), |i: int| keyed(rows[i]@, names[i], by_modified))
}

/// The keys of `rows`.
pub open spec fn row_keys(rows: Seq<RowView>, by_modified: bool) -> Seq<(int, int, Seq<char>)> {
    Seq::new(rows.len(), |i: int| row_key(rows[i], by_modified))
}

/// Whether the item at position `i` has to stand before the item at
/// position `j`: its key stands before the other key, or neither key
/// stands before the other and `i` is the earlier position.
pub open spec fn goes_first(keys: Seq<(int, int, Seq<char>)>, i: int, j: int) -> bool {
    key_less(keys[i], keys[j]) || (!key_less(keys[j], keys[i]) && i < j)
}

/// The place in `order` at which the position `n` is put: behind every
/// position that it does not have to stand before.
pub open spec fn place(keys: Seq<(int, int, Seq<char>)>, order: Seq<int>, n: int) -> int
    decreases order.len(),
{
    if order.len() == 0 {
        0
    } else if key_less(keys[n], keys[order.last()]) {
        place(keys, order.drop_last(), n)
    } else {
        order.len() as int
    }
}

/// The positions of `keys` in sorted order: each position is put, in
/// turn, into the order of those before it.
pub open spec fn sort_order(keys: Seq<(int, int, Seq<char>)>) -> Seq<int>
    decreases keys.len(),
{
    if keys.len() == 0 {
        Seq::empty()
    } else {
        let before = sort_order(keys.drop_last());
        before.insert(place(keys, before, keys.len() - 1), keys.len() - 1)
    }
}

/// `items` in the order that their `keys` give, or in the reverse of
/// that whole order.
pub open spec fn arranged<T>(items: Seq<T>, keys: Seq<(int, int, Seq<char>)>, reverse: bool) -> Seq<
    T,
> {
    let order = sort_order(keys);
    let sorted = Seq::new(items.len(), |a: int| items[order[a]]);
    if reverse {
        sorted.reverse()
    } else {
        sorted
    }
}

/// Whether `order` is an order of the positions below `count`: it holds
/// each of them once and nothing else.
pub open spec fn orders_all(order: Seq<int>, count: nat) -> bool {
    &&& order.len() == count
    &&& forall|a: int| 0 <= a < count ==> 0 <= #[trigger] order[a] < count
    &&& forall|a: int, b: int| 0 <= a < b < count ==> #[trigger] order[a] != #[trigger] order[b]
    &&& forall|i: int| 0 <= i < count ==> order.contains(i)
}

/// Whether `order` is sorted and stable: of two positions, the one that
/// stands first in it has to stand first.
pub open spec fn sorted_and_stable(keys: Seq<(int, int, Seq<char>)>, order: Seq<int>) -> bool {
    forall|a: int, b: int|
        0 <= a < b < order.len() ==> goes_first(keys, #[trigger] order[a], #[trigger] order[b])
}

/// The order of keys is strict: two keys do not stand before each other,
/// and a key that stands before a second one stands before every third
/// one that does not stand before the second.
pub proof fn lemma_key_order(
    a: (int, int, Seq<char>),
    b: (int, int, Seq<char>),
    c: (int, int, Seq<char>),
)
    ensures
        !key_less(a, a),
        !(key_less(a, b) && key_less(b, a)),
        key_less(a, b) ==> key_less(a, c) || key_less(c, b),
{
    lemma_text_order(a.2, b.2, c.2);
    lemma_text_order(a.2, a.2, a.2);
}

proof fn lemma_place(keys: Seq<(int, int, Seq<char>)>, order: Seq<int>, n: int)
    ensures
        0 <= place(keys, order, n) <= order.len(),
        forall|k: int|
            place(keys, order, n) <= k < order.len() ==> key_less(keys[n], keys[#[trigger] order[k]]),
        place(keys, order, n) > 0 ==> !key_less(keys[n], keys[order[place(keys, order, n) - 1]]),
    decreases order.len(),
{
    if order.len() > 0 && key_less(keys[n], keys[order.last()]) {
        lemma_place(keys, order.drop_last(), n);
        let p = place(keys, order, n);
        assert forall|k: int| p <= k < order.len() implies key_less(
            keys[n],
            keys[#[trigger] order[k]],
        ) by {
            if k < order.len() - 1 {
                assert(order.drop_last()[k] == order[k]);
            }
        }
        if p > 0 {
            assert(order.drop_last()[p - 1] == order[p - 1]);
        }
    }
}

/// The sorted order is an order of all positions: it holds every
/// position of `keys` once.
pub proof fn lemma_sort_order_permutes(keys: Seq<(int, int, Seq<char>)>)
    ensures
        orders_all(sort_order(keys), keys.len()),
    decreases keys.len(),
{
    if keys.len() > 0 {
        let n = keys.len() - 1;
        let before = sort_order(keys.drop_last());
        lemma_sort_order_permutes(keys.drop_last());
        lemma_place(keys, before, n);
        let p = place(keys, before, n);
        let order = sort_order(keys);
        assert(order == before.insert(p, n));
        assert forall|i: int| 0 <= i < keys.len() implies order.contains(i) by {
            if i == n {
                assert(order[p] == n);
            } else {
                assert(before.contains(i));
                let a = choose|a: int| 0 <= a < before.len() && before[a] == i;
                if a < p {
                    assert(order[a] == i);
                } else {
                    assert(order[a + 1] == i);
                }
            }
        }
    }
}

/// The sorted order is sorted and stable: of two positions, the one
/// that stands first in it has the key that stands before the other key,
/// or neither key stands before the other and it is the earlier position.
pub proof fn lemma_sort_order_sorted(keys: Seq<(int, int, Seq<char>)>)
    ensures
        sorted_and_stable(keys, sort_order(keys)),
    decreases keys.len(),
{
    if keys.len() > 0 {
        let n = keys.len() - 1;
        let front = keys.drop_last();
        let before = sort_order(front);
        lemma_sort_order_sorted(front);
        lemma_sort_order_permutes(front);
        lemma_sort_order_permutes(keys);
        lemma_place(keys, before, n);
        let p = place(keys, before, n);
        let order = sort_order(keys);
        assert(order == before.insert(p, n));
        assert forall|a: int, b: int| 0 <= a < b < keys.len() implies goes_first(
            keys,
            #[trigger] order[a],
            #[trigger] order[b],
        ) by {
            if a == p {
                assert(order[b] == before[b - 1]);
            } else if b == p {
                assert(order[a] == before[a]);
                if a < p - 1 {
                    assert(goes_first(front, before[a], before[p - 1]));
                    assert(front[before[a]] == keys[before[a]]);
                    assert(front[before[p - 1]] == keys[before[p - 1]]);
                    lemma_key_order(keys[n], keys[before[a]], keys[before[p - 1]]);
                    lemma_key_order(keys[before[a]], keys[before[p - 1]], keys[n]);
                }
            } else {
                let i = if a < p {
                    a
                } else {
                    a - 1
                };
                let j = if b < p {
                    b
                } else {
                    b - 1
                };
                assert(order[a] == before[i] && order[b] == before[j]);
                assert(goes_first(front, before[i], before[j]));
                assert(front[before[i]] == keys[before[i]]);
                assert(front[before[j]] == keys[before[j]]);
            }
        }
    }
}

/// There is one way only to sort: an order of all positions that is
/// sorted and stable is the sorted order.
pub proof fn lemma_sort_order_is_the_only_one(keys: Seq<(int, int, Seq<char>)>, order: Seq<int>)
    requires
        orders_all(order, keys.len()),
        sorted_and_stable(keys, order),
    ensures
        order == sort_order(keys),
    decreases keys.len(),
{
    if keys.len() == 0 {
        assert(order =~= sort_order(keys));
    } else {
        let n = keys.len() - 1;
        let front = keys.drop_last();
        assert(order.contains(n));
        let p = choose|p: int| 0 <= p < order.len() && order[p] == n;
        let rest = order.remove(p);
        assert forall|a: int| 0 <= a < n implies 0 <= #[trigger] rest[a] < n by {
            let from = if a < p {
                a
            } else {
                a + 1
            };
            assert(rest[a] == order[from]);
            assert(order[from] != order[p]);
        }
        assert forall|a: int, b: int| 0 <= a < b < n implies #[trigger] rest[a] != #[trigger] rest[b]
            && goes_first(front, rest[a], rest[b]) by {
            let from_a = if a < p {
                a
            } else {
                a + 1
            };
            let from_b = if b < p {
                b
            } else {
                b + 1
            };
            assert(rest[a] == order[from_a] && rest[b] == order[from_b]);
            assert(goes_first(keys, order[from_a], order[from_b]));
            assert(front[rest[a]] == keys[rest[a]] && front[rest[b]] == keys[rest[b]]);
        }
        assert forall|i: int| 0 <= i < n implies rest.contains(i) by {
            assert(order.contains(i));
            let a = choose|a: int| 0 <= a < order.len() && order[a] == i;
            if a < p {
                assert(rest[a] == i);
            } else {
                assert(rest[a - 1] == i);
            }
        }
        lemma_sort_order_is_the_only_one(front, rest);
        lemma_place(keys, rest, n);
        let q = place(keys, rest, n);
        if q < p {
            assert(key_less(keys[n], keys[rest[q]]));
            assert(rest[q] == order[q]);
            assert(goes_first(keys, order[q], order[p]));
            lemma_key_order(keys[n], keys[rest[q]], keys[n]);
        }
        if q > p {
            assert(rest[q - 1] == order[q]);
            assert(goes_first(keys, order[p], order[q]));
        }
        assert(order =~= rest.insert(p, n));
    }
}

/// Sorting by name puts every directory before every file.
pub proof fn lemma_directories_first(rows: Seq<EntryRow>)
    ensures
        ({
            let sorted = arranged(rows, row_keys(row_views(rows), false), false);
            &&& sorted.len() == rows.len()
            &&& forall|a: int, b: int|
                0 <= a < b < sorted.len() && (#[trigger] sorted[b]).is_dir ==> (
                #[trigger] sorted[a]).is_dir
        }),
{
    let keys = row_keys(row_views(rows), false);
    let order = sort_order(keys);
    let sorted = arranged(rows, keys, false);
    lemma_sort_order_permutes(keys);
    lemma_sort_order_sorted(keys);
    assert forall|a: int, b: int|
        0 <= a < b < sorted.len() && (#[trigger] sorted[b]).is_dir implies (
    #[trigger] sorted[a]).is_dir by {
        assert(goes_first(keys, order[a], order[b]));
        lemma_key_order(keys[order[a]], keys[order[b]], keys[order[a]]);
    }
}

/// Sorting by modification time puts every row with a known time before
/// every row without one, whatever their kinds.
pub proof fn lemma_known_times_first(rows: Seq<EntryRow>)
    ensures
        ({
            let sorted = arranged(rows, row_keys(row_views(rows), true), false);
            &&& sorted.len() == rows.len()
            &&& forall|a: int, b: int|
                0 <= a < b < sorted.len() && (#[trigger] sorted[b]).modified_time is Some ==> (
                #[trigger] sorted[a]).modified_time is Some
        }),
{
    let keys = row_keys(row_views(rows), true);
    let order = sort_order(keys);
    let sorted = arranged(rows, keys, false);
    lemma_sort_order_permutes(keys);
    lemma_sort_order_sorted(keys);
    assert forall|a: int, b: int|
        0 <= a < b < sorted.len() && (#[trigger] sorted[b]).modified_time is Some implies (
    #[trigger] sorted[a]).modified_time is Some by {
        assert(goes_first(keys, order[a], order[b]));
        lemma_key_order(keys[order[a]], keys[order[b]], keys[order[a]]);
    }
}

/// The sorted rows stand in order: no row has a key that stands before
/// the key of a row before it.
pub proof fn lemma_rows_in_order(rows: Seq<EntryRow>, by_modified: bool)
    ensures
        ({
            let sorted = arranged(rows, row_keys(row_views(rows), by_modified), false);
            &&& sorted.len() == rows.len()
            &&& forall|a: int, b: int|
                0 <= a < b < sorted.len() ==> !key_less(
                    row_key((#[trigger] sorted[b])@, by_modified),
                    row_key((#[trigger] sorted[a])@, by_modified),
                )
        }),
{
    let keys = row_keys(row_views(rows), by_modified);
    let order = sort_order(keys);
    let sorted = arranged(rows, keys, false);
    lemma_sort_order_permutes(keys);
    lemma_sort_order_sorted(keys);
    assert forall|a: int, b: int| 0 <= a < b < sorted.len() implies !key_less(
        row_key((#[trigger] sorted[b])@, by_modified),
        row_key((#[trigger] sorted[a])@, by_modified),
    ) by {
        assert(goes_first(keys, order[a], order[b]));
        lemma_key_order(keys[order[a]], keys[order[b]], keys[order[a]]);
    }
}

/// A reversed sort is the sort turned round as a whole: the item that
/// stands at a place counted from the start of the one stands at the same
/// place counted from the end of the other.
pub proof fn lemma_reverse_turns_round<T>(
    items: Seq<T>,
    keys: Seq<(int, int, Seq<char>)>,
)
    ensures
        arranged(items, keys, true) == arranged(items, keys, false).reverse(),
        arranged(items, keys, true).len() == items.len(),
        forall|a: int|
            0 <= a < items.len() ==> #[trigger] arranged(items, keys, true)[a] == arranged(
                items,
                keys,
                false,
            )[items.len() - 1 - a],
{
}

/// Sorting loses and adds nothing: the rows that come out are the rows
/// that went in, each as often as it went in. The place of each in the
/// input is told by the sorted order, which holds every place once.
pub proof fn lemma_arranged_keeps_items<T>(
    items: Seq<T>,
    keys: Seq<(int, int, Seq<char>)>,
    reverse: bool,
)
    requires
        keys.len() == items.len(),
    ensures
        arranged(items, keys, reverse).len() == items.len(),
        forall|i: int| 0 <= i < items.len() ==> arranged(items, keys, reverse).contains(items[i]),
        forall|a: int|
            0 <= a < items.len() ==> items.contains(#[trigger] arranged(items, keys, reverse)[a]),
{
    let order = sort_order(keys);
    let sorted = arranged(items, keys, false);
    let out = arranged(items, keys, reverse);
    lemma_sort_order_permutes(keys);
    assert forall|i: int| 0 <= i < items.len() implies out.contains(items[i]) by {
        assert(order.contains(i));
        let a = choose|a: int| 0 <= a < order.len() && order[a] == i;
        assert(sorted[a] == items[i]);
        if reverse {
            assert(out[items.len() - 1 - a] == items[i]);
        }
    }
    assert forall|a: int| 0 <= a < items.len() implies items.contains(#[trigger] out[a]) by {
        let k = if reverse {
            items.len() - 1 - a
        } else {
            a
        };
        assert(out[a] == items[order[k]]);
    }
}

/// The rows come out as the same texts in the same order whether the
/// rows themselves or their texts are sorted.
pub proof fn lemma_arranged_views(
    rows: Seq<EntryRow>,
    keys: Seq<(int, int, Seq<char>)>,
    reverse: bool,
)
    requires
        keys.len() == rows.len(),
    ensures
        row_views(arranged(rows, keys, reverse)) == arranged(row_views(rows), keys, reverse),
{
    lemma_sort_order_permutes(keys);
    assert(row_views(arranged(rows, keys, reverse)) =~= arranged(row_views(rows), keys, reverse));
}

/// Whether the key of the row `a` stands before the key of the row `b`,
/// where `a_name` and `b_name` are their names in lower case.
fn key_before(
    a: &EntryRow,
    a_name: &Vec<char>,
    b: &EntryRow,
    b_name: &Vec<char>,
    by_modified: bool,
) -> (before: bool)
    ensures
        before == key_less(keyed(a@, a_name@, by_modified), keyed(b@, b_name@, by_modified)),
{
    if by_modified {
        match compare_modified_desc(&a.modified_time, &b.modified_time) {
            Ordering::Less => true,
            Ordering::Greater => false,
            Ordering::Equal => text_before(a_name, b_name),
        }
    } else if a.is_dir != b.is_dir {
        a.is_dir
    } else {
        text_before(a_name, b_name)
    }
}

/// The positions that `order` holds, as numbers without bound.
spec fn positions(order: Seq<usize>) -> Seq<int> {
    Seq::new(order.len(), |a: int| order[a] as int)
}

/// The positions of the rows in sorted order, where `names` are their
/// names in lower case.
fn sorted_positions(rows: &Vec<EntryRow>, names: &Vec<Vec<char>>, by_modified: bool) -> (order: Vec<
    usize,
>)
    requires
        names.len() == rows.len(),
    ensures
        positions(order@) == sort_order(keys_with(rows@, texts(names@), by_modified)),
{
    let ghost keys = keys_with(rows@, texts(names@), by_modified);
    let mut order: Vec<usize> = Vec::new();
    let mut n: usize = 0;
    assert(keys.take(0) =~= Seq::<(int, int, Seq<char>)>::empty());
    assert(positions(order@) =~= Seq::<int>::empty());
    while n < rows.len()
        invariant
            n <= rows.len(),
            names.len() == rows.len(),
            keys == keys_with(rows@, texts(names@), by_modified),
            positions(order@) == sort_order(keys.take(n as int)),
        decreases rows.len() - n,
    {
        let ghost front = keys.take(n as int);
        let ghost upto = keys.take(n + 1);
        let ghost before = positions(order@);
        proof {
            lemma_sort_order_permutes(front);
            assert(upto.drop_last() =~= front);
        }
        let mut p: usize = order.len();
        assert(before.take(p as int) =~= before);
        while p > 0 && key_before(&rows[n], &names[n], &rows[order[p - 1]], &names[order[p - 1]], by_modified)
            invariant
                p <= order.len(),
                n < rows.len(),
                names.len() == rows.len(),
                order.len() == n,
                before == positions(order@),
                before == sort_order(front),
                forall|a: int| 0 <= a < n ==> 0 <= #[trigger] before[a] < n,
                keys == keys_with(rows@, texts(names@), by_modified),
                upto == keys.take(n + 1),
                place(upto, before, n as int) == place(upto, before.take(p as int), n as int),
            decreases p,
        {
            proof {
                let at = before[p - 1];
                assert(at == order@[p - 1]);
                assert(before.take(p as int).last() == at);
                assert(before.take(p as int).drop_last() =~= before.take(p - 1));
                assert(upto[n as int] == keys[n as int]);
                assert(upto[at] == keys[at]);
            }
            p -= 1;
        }
        proof {
            if p > 0 {
                let at = before[p - 1];
                assert(at == order@[p - 1]);
                assert(before.take(p as int).last() == at);
                assert(upto[n as int] == keys[n as int]);
                assert(upto[at] == keys[at]);
            }
            assert(place(upto, before, n as int) == p);
        }
        order.insert(p, n);
        assert(positions(order@) =~= before.insert(p as int, n as int));
        n += 1;
    }
    assert(keys.take(n as int) =~= keys);
    order
}

/// Puts the rows in order where `names` are their names in lower case:
/// by name, directories first, or by modification time, the newest first.
/// Rows whose keys do not decide keep the order in which they came.
/// With `reverse` the whole order is turned round.
pub fn sort_rows_by_names(
    rows: &mut Vec<EntryRow>,
    names: &Vec<String>,
    sort_modified: bool,
    reverse: bool,
)
    requires
        names.len() == old(rows).len(),
    ensures
        final(rows)@ == arranged(
            old(rows)@,
            keys_with(old(rows)@, string_texts(names@), sort_modified),
            reverse,
        ),
{
    let mut name_chars: Vec<Vec<char>> = Vec::new();
    let mut i: usize = 0;
    while i < names.len()
        invariant
            i <= names.len(),
            name_chars.len() == i,
            forall|k: int| 0 <= k < i ==> (#[trigger] name_chars@[k])@ == names@[k]@,
        decreases names.len() - i,
    {
        name_chars.push(chars_of(names[i].as_str()));
        i += 1;
    }
    assert(texts(name_chars@) =~= string_texts(names@));
    let ghost keys = keys_with(rows@, string_texts(names@), sort_modified);
    let order = sorted_positions(rows, &name_chars, sort_modified);
    proof {
        lemma_sort_order_permutes(keys);
    }
    let ghost wanted = arranged(rows@, keys, reverse);
    let count = rows.len();
    let mut sorted: Vec<EntryRow> = Vec::new();
    let mut a: usize = 0;
    while a < count
        invariant
            a <= count,
            count == rows.len(),
            order.len() == count,
            rows@ == old(rows)@,
            positions(order@) == sort_order(keys),
            forall|k: int| 0 <= k < count ==> 0 <= #[trigger] sort_order(keys)[k] < count,
            wanted == arranged(rows@, keys, reverse),
            sorted@ == wanted.take(a as int),
        decreases count - a,
    {
        let from = if reverse {
            order[count - 1 - a]
        } else {
            order[a]
        };
        proof {
            let k = if reverse {
                count - 1 - a
            } else {
                a as int
            };
            assert(positions(order@)[k] == from);
            assert(wanted[a as int] == rows@[from as int]);
        }
        sorted.push(rows[from].duplicate());
        assert(wanted.take(a + 1) =~= wanted.take(a as int).push(wanted[a as int]));
        a += 1;
    }
    assert(wanted.take(a as int) =~= wanted);
    *rows = sorted;
}

/// Puts the rows in order: by name, directories first and then in the
/// order of the dictionary without regard to case; or by modification
/// time, rows with a known time first and the newest of them first, the
/// name deciding between equal times. The name is the shown name, status
/// suffix included. Rows that nothing tells apart keep the order in which
/// they came. With `reverse` the whole order is turned round.
pub fn sort_rows(rows: &mut Vec<EntryRow>, sort_modified: bool, reverse: bool)
    ensures
        final(rows)@ == arranged(
            old(rows)@,
            row_keys(row_views(old(rows)@), sort_modified),
            reverse,
        ),
{
    let mut names: Vec<String> = Vec::new();
    let mut i: usize = 0;
    while i < rows.len()
        invariant
            i <= rows.len(),
            names.len() == i,
            rows@ == old(rows)@,
            forall|k: int|
                0 <= k < i ==> (#[trigger] names@[k])@ == lowercased(rows@[k].name_with_git_plain@),
        decreases rows.len() - i,
    {
        names.push(to_lowercase(rows[i].name_with_git_plain.as_str()));
        i += 1;
    }
    assert(keys_with(rows@, string_texts(names@), sort_modified) =~= row_keys(
        row_views(rows@),
        sort_modified,
    ));
    sort_rows_by_names(rows, &names, sort_modified, reverse);
}

} // verus!
