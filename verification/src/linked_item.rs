//! A doubly linked list of values per key, kept in a storage map.
//!
//! The list of `key` lives under the keys `(key, None)` (the head) and
//! `(key, Some(v))` (one entry per value `v`). The head's `prev` is the last value
//! and its `next` the first; an entry's `prev`/`next` are its neighbours.
use vstd::prelude::*;

use crate::storage::StorageMap;

verus! {

/// One link of a list: the neighbours of a value (or, for the head, the last and
/// the first value).
#[derive(Clone, Copy, Debug, PartialEq, Eq)]
pub struct LinkedItem<Value> {
    pub prev: Option<Value>,
    pub next: Option<Value>,
}

/// The storage that holds the lists of all accounts.
pub type ListStorage = StorageMap<(u64, Option<u32>), LinkedItem<u32>>;

/// The view of a list storage.
pub type ListMap = Map<(u64, Option<u32>), LinkedItem<u32>>;

/// A link with no neighbours, which is what a missing entry reads as.
pub open spec fn empty_item() -> LinkedItem<u32> {
    LinkedItem { prev: None, next: None }
}

/// What reading the entry `(key, value)` gives: the stored link, or an empty one.
pub open spec fn read_item(m: ListMap, key: u64, value: Option<u32>) -> LinkedItem<u32> {
    match m.get((key, value)) {
        Some(item) => item,
        None => empty_item(),
    }
}

/// The storage after appending `value` to the list of `key`: the head is
/// rewritten to end at `value`, the old last entry (or the head, for an empty
/// list) is linked forward to `value`, and `value` gets an entry pointing back to
/// the old last value.
pub open spec fn appended(m: ListMap, key: u64, value: u32) -> ListMap {
    let head = read_item(m, key, None);
    let m1 = m.insert((key, None), LinkedItem { prev: Some(value), next: head.next });
    let prev = read_item(m1, key, head.prev);
    let m2 = m1.insert((key, head.prev), LinkedItem { prev: prev.prev, next: Some(value) });
    m2.insert((key, Some(value)), LinkedItem { prev: head.prev, next: None })
}

/// The storage after removing `value` from the list of `key`: its entry is taken
/// out and its two neighbours (the head standing in for a missing one) are linked
/// to each other. Nothing changes where `value` has no entry.
pub open spec fn removed(m: ListMap, key: u64, value: u32) -> ListMap {
    match m.get((key, Some(value))) {
        None => m,
        Some(item) => {
            let m0 = m.remove((key, Some(value)));
            let prev = read_item(m0, key, item.prev);
            let m1 = m0.insert((key, item.prev), LinkedItem { prev: prev.prev, next: item.next });
            let next = read_item(m1, key, item.next);
            m1.insert((key, item.next), LinkedItem { prev: item.prev, next: next.next })
        },
    }
}

/// The head that a list `s` has.
pub open spec fn head_item(s: Seq<u32>) -> LinkedItem<u32> {
    if s.len() == 0 {
        empty_item()
    } else {
        LinkedItem { prev: Some(s.last()), next: Some(s[0]) }
    }
}

/// The entry that the value at position `i` of a list `s` has.
pub open spec fn entry_item(s: Seq<u32>, i: int) -> LinkedItem<u32> {
    LinkedItem {
        prev: if i == 0 {
            None
        } else {
            Some(s[i - 1])
        },
        next: if i == s.len() - 1 {
            None
        } else {
            Some(s[i + 1])
        },
    }
}

/// The storage `m` holds, for `key`, exactly the list `s` of distinct values.
pub open spec fn holds_list(m: ListMap, key: u64, s: Seq<u32>) -> bool {
    &&& s.no_duplicates()
    &&& read_item(m, key, None) == head_item(s)
    &&& forall|i: int| 0 <= i < s.len() ==> m.get((key, Some(#[trigger] s[i]))) == Some(entry_item(s, i))
    &&& forall|v: u32| #[trigger] m.contains_key((key, Some(v))) ==> s.contains(v)
}

/// The two storages agree on everything stored for `key`.
pub open spec fn same_for_key(m1: ListMap, m2: ListMap, key: u64) -> bool {
    forall|o: Option<u32>| #[trigger] m1.get((key, o)) == #[trigger] m2.get((key, o))
}

/// Reads the link stored under `(key, value)`, or an empty link.
pub fn read(storage: &ListStorage, key: u64, value: Option<u32>) -> (r: LinkedItem<u32>)
    requires
        storage.wf(),
    ensures
        r == read_item(storage@, key, value),
{
    match storage.get(&(key, value)) {
        Some(item) => *item,
        None => LinkedItem { prev: None, next: None },
    }
}

/// Appends `value` at the end of the list of `key`.
pub fn append(storage: &mut ListStorage, key: u64, value: u32)
    requires
        old(storage).wf(),
    ensures
        final(storage).wf(),
        final(storage)@ == appended(old(storage)@, key, value),
{
    let head = read(storage, key, None);
    storage.insert((key, None), LinkedItem { prev: Some(value), next: head.next });
    let prev = read(storage, key, head.prev);
    storage.insert((key, head.prev), LinkedItem { prev: prev.prev, next: Some(value) });
    storage.insert((key, Some(value)), LinkedItem { prev: head.prev, next: None });
}

/// Removes `value` from the list of `key`, if it is there.
pub fn remove(storage: &mut ListStorage, key: u64, value: u32)
    requires
        old(storage).wf(),
    ensures
        final(storage).wf(),
        final(storage)@ == removed(old(storage)@, key, value),
{
    if let Some(item) = storage.remove(&(key, Some(value))) {
        let prev = read(storage, key, item.prev);
        storage.insert((key, item.prev), LinkedItem { prev: prev.prev, next: item.next });
        let next = read(storage, key, item.next);
        storage.insert((key, item.next), LinkedItem { prev: item.prev, next: next.next });
    }
}

/// Appending to the list of one key leaves the lists of all other keys as they were.
pub proof fn lemma_append_other_keys(m: ListMap, key: u64, value: u32, other: u64)
    requires
        other != key,
    ensures
        same_for_key(appended(m, key, value), m, other),
{
}

/// Removing from the list of one key leaves the lists of all other keys as they were.
pub proof fn lemma_remove_other_keys(m: ListMap, key: u64, value: u32, other: u64)
    requires
        other != key,
    ensures
        same_for_key(removed(m, key, value), m, other),
{
}

/// Whether a list is held depends only on what is stored for its key.
pub proof fn lemma_holds_list_same_key(m1: ListMap, m2: ListMap, key: u64, s: Seq<u32>)
    requires
        holds_list(m1, key, s),
        same_for_key(m1, m2, key),
    ensures
        holds_list(m2, key, s),
{
    assert(m1.get((key, None)) == m2.get((key, None)));
    assert forall|i: int| 0 <= i < s.len() implies m2.get((key, Some(#[trigger] s[i]))) == Some(
        entry_item(s, i),
    ) by {
        assert(m1.get((key, Some(s[i]))) == m2.get((key, Some(s[i]))));
    }
    assert forall|v: u32| #[trigger] m2.contains_key((key, Some(v))) implies s.contains(v) by {
        assert(m1.get((key, Some(v))) == m2.get((key, Some(v))));
    }
}

/// An empty storage holds the empty list for every key.
pub proof fn lemma_empty_holds_empty_list(key: u64)
    ensures
        holds_list(Map::empty(), key, Seq::empty()),
{
}

/// Appending a value that is not yet in the list of `key` gives the list with the
/// value added at its end.
pub proof fn lemma_append_holds_list(m: ListMap, key: u64, s: Seq<u32>, value: u32)
    requires
        holds_list(m, key, s),
        !s.contains(value),
    ensures
        holds_list(appended(m, key, value), key, s.push(value)),
{
    let t = s.push(value);
    let m3 = appended(m, key, value);
    let n = s.len() as int;
    let head = read_item(m, key, None);
    assert(t.no_duplicates()) by {
        assert forall|i: int, j: int| 0 <= i < t.len() && 0 <= j < t.len() && i != j implies t[i]
            != t[j] by {
            if i < n && j < n {
                assert(t[i] == s[i] && t[j] == s[j]);
            } else if i < n {
                assert(s.contains(t[i]));
            } else {
                assert(s.contains(t[j]));
            }
        }
    }
    if n > 0 {
        assert(m.get((key, Some(s[n - 1]))) == Some(entry_item(s, n - 1)));
    }
    assert(read_item(m3, key, None) == head_item(t));
    assert forall|i: int| 0 <= i < t.len() implies m3.get((key, Some(#[trigger] t[i]))) == Some(
        entry_item(t, i),
    ) by {
        if i < n {
            assert(t[i] == s[i]);
            assert(s.contains(s[i]));
            assert(m.get((key, Some(s[i]))) == Some(entry_item(s, i)));
            if i < n - 1 {
                assert(s.contains(s[n - 1]));
                assert(s[i] != s[n - 1]);
                assert(t[i + 1] == s[i + 1]);
            }
        }
    }
    assert forall|v: u32| #[trigger] m3.contains_key((key, Some(v))) implies t.contains(v) by {
        if v == value {
            assert(t[n] == value);
        } else if n > 0 && v == s[n - 1] {
            assert(t[n - 1] == v);
        } else {
            assert(m.contains_key((key, Some(v))));
            let j = choose|j: int| 0 <= j < s.len() && s[j] == v;
            assert(t[j] == v);
        }
    }
}

/// Removing a value from the list of `key` gives the list without it (the same
/// list, where the value is not in it).
pub proof fn lemma_remove_holds_list(m: ListMap, key: u64, s: Seq<u32>, value: u32)
    requires
        holds_list(m, key, s),
    ensures
        holds_list(removed(m, key, value), key, s.remove_value(value)),
{
    s.index_of_first_ensures(value);
    if !s.contains(value) {
        assert(!m.contains_key((key, Some(value))));
        assert(removed(m, key, value) == m);
    } else {
        let i = s.index_of_first(value).unwrap();
        lemma_remove_at_holds_list(m, key, s, i);
    }
}

#[verifier::rlimit(60)]
proof fn lemma_remove_at_holds_list(m: ListMap, key: u64, s: Seq<u32>, i: int)
    requires
        holds_list(m, key, s),
        0 <= i < s.len(),
    ensures
        holds_list(removed(m, key, s[i]), key, s.remove(i)),
{
    let value = s[i];
    let n = s.len() as int;
    let t = s.remove(i);
    let item = entry_item(s, i);
    assert(m.get((key, Some(value))) == Some(item));
    let m0 = m.remove((key, Some(value)));
    let prev = read_item(m0, key, item.prev);
    let m1 = m0.insert((key, item.prev), LinkedItem { prev: prev.prev, next: item.next });
    let next = read_item(m1, key, item.next);
    let m2 = m1.insert((key, item.next), LinkedItem { prev: item.prev, next: next.next });
    assert(removed(m, key, value) == m2);
    // the neighbours are other values than the removed one
    if i > 0 {
        assert(s[i - 1] != s[i]);
        assert(m.get((key, Some(s[i - 1]))) == Some(entry_item(s, i - 1)));
    }
    if i < n - 1 {
        assert(s[i + 1] != s[i]);
        assert(m.get((key, Some(s[i + 1]))) == Some(entry_item(s, i + 1)));
    }
    if i > 0 && i < n - 1 {
        assert(s[i - 1] != s[i + 1]);
    }
    assert(t.no_duplicates()) by {
        assert forall|a: int, b: int| 0 <= a < t.len() && 0 <= b < t.len() && a != b implies t[a]
            != t[b] by {
            let a0 = if a < i { a } else { a + 1 };
            let b0 = if b < i { b } else { b + 1 };
            assert(t[a] == s[a0] && t[b] == s[b0]);
        }
    }
    assert(read_item(m2, key, None) == head_item(t));
    assert forall|j: int| 0 <= j < t.len() implies m2.get((key, Some(#[trigger] t[j]))) == Some(
        entry_item(t, j),
    ) by {
        let j0 = if j < i { j } else { j + 1 };
        assert(t[j] == s[j0]);
        assert(m.get((key, Some(s[j0]))) == Some(entry_item(s, j0)));
        assert(s[j0] != value);
        if j0 > 0 {
            assert(s[j0 - 1] != s[j0]);
        }
        if j0 < n - 1 {
            assert(s[j0 + 1] != s[j0]);
        }
        if i > 0 {
            assert(s[i - 1] == s[i - 1]);
        }
        if j < t.len() - 1 {
            let j1 = if j + 1 < i { j + 1 } else { j + 2 };
            assert(t[j + 1] == s[j1]);
        }
        if j > 0 {
            let jm = if j - 1 < i { j - 1 } else { j };
            assert(t[j - 1] == s[jm]);
        }
    }
    assert forall|v: u32| #[trigger] m2.contains_key((key, Some(v))) implies t.contains(v) by {
        if m.contains_key((key, Some(v))) && v != value {
            let a = choose|a: int| 0 <= a < s.len() && s[a] == v;
            let a1 = if a < i { a } else { a - 1 };
            assert(t[a1] == v);
        } else {
            if i > 0 && v == s[i - 1] {
                assert(t[i - 1] == v);
            } else {
                assert(i < n - 1 && v == s[i + 1]);
                assert(t[i] == v);
            }
        }
    }
}

} // verus!
