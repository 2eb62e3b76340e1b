//! A stable sort by an integer key.

use vstd::prelude::*;

verus! {

/// A value that is sorted by a number it carries.
pub trait Keyed: Sized {
    /// The number that the value is sorted by.
    spec fn key(&self) -> int;

    fn sort_key(&self) -> (key: u64)
        ensures
            key == self.key(),
    ;
}

/// A sorted sequence with one more item, behind every item whose key is not
/// greater.
pub open spec fn inserted<T: Keyed>(sorted: Seq<T>, item: T) -> Seq<T>
    decreases sorted.len(),
{
    if sorted.len() > 0 && sorted.last().key() > item.key() {
        inserted(sorted.drop_last(), item).push(sorted.last())
    } else {
        sorted.push(item)
    }
}

/// The items in ascending order of their keys; items with one key keep their
/// order.
pub open spec fn sorted_by_key<T: Keyed>(items: Seq<T>) -> Seq<T>
    decreases items.len(),
{
    if items.len() == 0 {
        items
    } else {
        inserted(sorted_by_key(items.drop_last()), items.last())
    }
}

/// Whether the keys never descend.
pub open spec fn ascending<T: Keyed>(items: Seq<T>) -> bool {
    forall|i: int, j: int| 0 <= i <= j < items.len() ==> items[i].key() <= items[j].key()
}

/// The items that have one key, in their order.
pub open spec fn having_key<T: Keyed>(items: Seq<T>, key: int) -> Seq<T>
    decreases items.len(),
{
    if items.len() == 0 {
        items
    } else if items.last().key() == key {
        having_key(items.drop_last(), key).push(items.last())
    } else {
        having_key(items.drop_last(), key)
    }
}

proof fn lemma_inserted<T: Keyed>(sorted: Seq<T>, item: T)
    requires
        ascending(sorted),
    ensures
        ascending(inserted(sorted, item)),
        inserted(sorted, item).to_multiset() == sorted.to_multiset().insert(item),
        inserted(sorted, item).len() == sorted.len() + 1,
        forall|i: int|
            0 <= i < inserted(sorted, item).len() ==> (#[trigger] inserted(
                sorted,
                item,
            )[i]).key() <= item.key() || (sorted.len() > 0 && inserted(sorted, item)[i].key()
                <= sorted.last().key()),
        forall|key: int|
            #[trigger] having_key(inserted(sorted, item), key) == (if key == item.key() {
                having_key(sorted, key).push(item)
            } else {
                having_key(sorted, key)
            }),
    decreases sorted.len(),
{
    broadcast use vstd::seq_lib::group_to_multiset_ensures;

    if sorted.len() > 0 && sorted.last().key() > item.key() {
        let shorter = sorted.drop_last();
        lemma_inserted(shorter, item);
        let result = inserted(sorted, item);
        assert(result.drop_last() == inserted(shorter, item));
        assert(sorted == shorter.push(sorted.last()));
        assert(result.to_multiset() == inserted(shorter, item).to_multiset().insert(sorted.last()));
        assert(sorted.to_multiset() == shorter.to_multiset().insert(sorted.last()));
        assert(result.to_multiset() =~= sorted.to_multiset().insert(item));
        assert forall|key: int| #[trigger]
            having_key(inserted(sorted, item), key) == (if key == item.key() {
                having_key(sorted, key).push(item)
            } else {
                having_key(sorted, key)
            }) by {
            assert(result.last() == sorted.last());
            assert(having_key(inserted(shorter, item), key) == (if key == item.key() {
                having_key(shorter, key).push(item)
            } else {
                having_key(shorter, key)
            }));
        }
    } else {
        assert(sorted.push(item).drop_last() == sorted);
    }
}

/// A sort yields the same items, in ascending order, and keeps the order of
/// items that share a key.
pub proof fn sort_is_stable<T: Keyed>(items: Seq<T>)
    ensures
        ascending(sorted_by_key(items)),
        sorted_by_key(items).to_multiset() == items.to_multiset(),
        sorted_by_key(items).len() == items.len(),
        forall|key: int| #[trigger]
            having_key(sorted_by_key(items), key) == having_key(items, key),
    decreases items.len(),
{
    broadcast use vstd::seq_lib::group_to_multiset_ensures;

    if items.len() > 0 {
        let shorter = items.drop_last();
        sort_is_stable(shorter);
        lemma_inserted(sorted_by_key(shorter), items.last());
        assert(items == shorter.push(items.last()));
        assert forall|key: int|
            #[trigger] having_key(sorted_by_key(items), key) == having_key(items, key) by {
            assert(having_key(sorted_by_key(shorter), key) == having_key(shorter, key));
        }
    }
}

/// Every item of a sorted sequence stems from the sequence that was sorted.
pub proof fn sort_keeps_members<T: Keyed>(items: Seq<T>)
    ensures
        sorted_by_key(items).len() == items.len(),
        forall|i: int|
            0 <= i < items.len() ==> items.contains(#[trigger] sorted_by_key(items)[i]),
{
    broadcast use vstd::seq_lib::group_to_multiset_ensures;

    sort_is_stable(items);
    let result = sorted_by_key(items);
    assert forall|i: int| 0 <= i < items.len() implies items.contains(#[trigger] result[i]) by {
        assert(result.contains(result[i]));
        assert(result.to_multiset().count(result[i]) > 0);
    }
}

/// A sort leaves an ascending sequence as it is.
pub proof fn sort_keeps_ascending<T: Keyed>(items: Seq<T>)
    requires
        ascending(items),
    ensures
        sorted_by_key(items) == items,
    decreases items.len(),
{
    if items.len() > 0 {
        sort_keeps_ascending(items.drop_last());
        assert(items == items.drop_last().push(items.last()));
    }
}

fn insert_by_key<T: Keyed>(list: &mut Vec<T>, item: T)
    ensures
        final(list)@ == inserted(old(list)@, item),
{
    let ghost before = list@;
    let mut index: usize = list.len();
    let key = item.sort_key();
    let ghost mut tail: Seq<T> = Seq::empty();
    assert(before.take(index as int) == before);
    assert(inserted(before, item) + tail == inserted(before, item));
    while index > 0 && list[index - 1].sort_key() > key
        invariant
            index <= list.len(),
            list@ == before,
            key == item.key(),
            tail == before.skip(index as int),
            inserted(before, item) == inserted(before.take(index as int), item) + tail,
        decreases index,
    {
        let ghost kept = before.take(index as int);
        proof {
            assert(kept.drop_last() == before.take(index - 1));
            assert(kept.last() == before[index - 1]);
            let shorter = inserted(before.take(index - 1), item);
            assert(shorter.push(kept.last()) + tail == shorter + seq![kept.last()].add(tail));
            tail = seq![kept.last()].add(tail);
            assert(tail == before.skip(index - 1));
        }
        index -= 1;
    }
    assert(index == 0 || before.take(index as int).last() == before[index - 1]);
    list.insert(index, item);
    assert(list@ == before.take(index as int).push(item) + before.skip(index as int));
}

/// Sorts by key; items with one key keep their order.
pub fn sort_by_key<T: Keyed>(items: Vec<T>) -> (sorted: Vec<T>)
    ensures
        sorted@ == sorted_by_key(items@),
{
    let ghost all = items@;
    let mut rest: Vec<T> = items;
    let mut sorted: Vec<T> = Vec::new();
    let ghost mut count: int = 0;
    assert(all.skip(0) == all);
    assert(all.take(0) == Seq::<T>::empty());
    while rest.len() > 0
        invariant
            0 <= count <= all.len(),
            rest@ == all.skip(count),
            sorted@ == sorted_by_key(all.take(count)),
        decreases rest.len(),
    {
        let item = rest.remove(0);
        proof {
            assert(rest@ == all.skip(count + 1));
            assert(all.take(count + 1).drop_last() == all.take(count));
            assert(all.take(count + 1).last() == item);
            count = count + 1;
        }
        insert_by_key(&mut sorted, item);
    }
    assert(all.take(count) == all);
    sorted
}

} // verus!
