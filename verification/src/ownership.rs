//! Who owns which kitty, kept twice over: once as a map from kitty to owner and
//! once as a linked list of kitties per owner. This module states when the two
//! agree and proves that adding and taking away an owned kitty keeps them in step.
use vstd::prelude::*;

use crate::linked_item::{
    appended, holds_list, lemma_append_holds_list, lemma_append_other_keys,
    lemma_empty_holds_empty_list, lemma_holds_list_same_key, lemma_remove_holds_list,
    lemma_remove_other_keys, removed, same_for_key, ListMap,
};

verus! {

/// The kitties of account `a`, in the order they were acquired.
pub open spec fn owned_of(owned: Map<u64, Seq<u32>>, a: u64) -> Seq<u32> {
    if owned.contains_key(a) {
        owned[a]
    } else {
        Seq::empty()
    }
}

/// The list storage holds every account's kitties, and a kitty is in an account's
/// list exactly when that account is its owner.
pub open spec fn ownership(lists: ListMap, owners: Map<u32, u64>, owned: Map<u64, Seq<u32>>) -> bool {
    &&& forall|a: u64| holds_list(lists, a, #[trigger] owned_of(owned, a))
    &&& forall|a: u64, k: u32|
        #![trigger owned_of(owned, a).contains(k)]
        owned_of(owned, a).contains(k) <==> (owners.contains_key(k) && owners[k] == a)
}

/// Nothing is owned by anyone in an empty storage.
pub proof fn lemma_ownership_empty()
    ensures
        ownership(Map::empty(), Map::empty(), Map::empty()),
{
    assert forall|a: u64| holds_list(Map::empty(), a, #[trigger] owned_of(Map::empty(), a)) by {
        lemma_empty_holds_empty_list(a);
    }
}

/// Giving an unowned kitty to `a` appends it to `a`'s list and to nobody else's.
pub proof fn lemma_ownership_append(
    lists: ListMap,
    owners: Map<u32, u64>,
    owned: Map<u64, Seq<u32>>,
    a: u64,
    k: u32,
)
    requires
        ownership(lists, owners, owned),
        !owners.contains_key(k),
    ensures
        ownership(
            appended(lists, a, k),
            owners.insert(k, a),
            owned.insert(a, owned_of(owned, a).push(k)),
        ),
{
    let lists2 = appended(lists, a, k);
    let owners2 = owners.insert(k, a);
    let owned2 = owned.insert(a, owned_of(owned, a).push(k));
    let s = owned_of(owned, a);
    assert(!s.contains(k));
    lemma_append_holds_list(lists, a, s, k);
    assert(owned_of(owned2, a) == s.push(k));
    assert forall|b: u64| holds_list(lists2, b, #[trigger] owned_of(owned2, b)) by {
        if b != a {
            assert(owned_of(owned2, b) == owned_of(owned, b));
            assert(holds_list(lists, b, owned_of(owned, b)));
            lemma_append_other_keys(lists, a, k, b);
            lemma_same_for_key_symmetric(lists2, lists, b);
            lemma_holds_list_same_key(lists, lists2, b, owned_of(owned, b));
        }
    }
    assert forall|b: u64, j: u32|
        #![trigger owned_of(owned2, b).contains(j)]
        owned_of(owned2, b).contains(j) <==> (owners2.contains_key(j) && owners2[j] == b) by {
        if b == a {
            if j == k {
                assert(s.push(k)[s.len() as int] == k);
            } else {
                assert(owned_of(owned, a).contains(j) <==> (owners.contains_key(j) && owners[j]
                    == a));
                if s.contains(j) {
                    let x = choose|x: int| 0 <= x < s.len() && s[x] == j;
                    assert(s.push(k)[x] == j);
                }
                if s.push(k).contains(j) {
                    let x = choose|x: int| 0 <= x < s.len() + 1 && s.push(k)[x] == j;
                    assert(s[x] == j);
                }
            }
        } else {
            assert(owned_of(owned2, b) == owned_of(owned, b));
            assert(owned_of(owned, b).contains(j) <==> (owners.contains_key(j) && owners[j] == b));
        }
    }
}

proof fn lemma_same_for_key_symmetric(m1: ListMap, m2: ListMap, key: u64)
    requires
        same_for_key(m1, m2, key),
    ensures
        same_for_key(m2, m1, key),
{
    assert forall|o: Option<u32>| #[trigger] m2.get((key, o)) == #[trigger] m1.get((key, o)) by {
        assert(m1.get((key, o)) == m2.get((key, o)));
    }
}

/// What is left of a list without repeats once one of its values is removed: all
/// the other values.
pub proof fn lemma_remove_value_contains(s: Seq<u32>, k: u32, x: u32)
    requires
        s.no_duplicates(),
    ensures
        s.remove_value(k).contains(x) <==> (s.contains(x) && x != k),
        s.remove_value(k).no_duplicates(),
{
    s.index_of_first_ensures(k);
    if s.contains(k) {
        let i = s.index_of_first(k).unwrap();
        let t = s.remove(i);
        assert(s.remove_value(k) == t);
        assert(t.len() == s.len() - 1);
        assert forall|a: int| 0 <= a < t.len() implies t[a] == s[if a < i { a } else { a + 1 }] by {}
        if t.contains(x) {
            let a = choose|a: int| 0 <= a < t.len() && t[a] == x;
            let a0 = if a < i { a } else { a + 1 };
            assert(s[a0] == x);
            assert(a0 != i);
        }
        if s.contains(x) && x != k {
            let a = choose|a: int| 0 <= a < s.len() && s[a] == x;
            assert(a != i);
            let a1 = if a < i { a } else { a - 1 };
            assert(t[a1] == x);
        }
        assert forall|a: int, b: int| 0 <= a < t.len() && 0 <= b < t.len() && a != b implies t[a]
            != t[b] by {
            let a0 = if a < i { a } else { a + 1 };
            let b0 = if b < i { b } else { b + 1 };
            assert(t[a] == s[a0] && t[b] == s[b0]);
        }
    }
}

/// Taking kitty `k` away from its owner `a` removes it from `a`'s list and
/// changes nobody else's.
pub proof fn lemma_ownership_remove(
    lists: ListMap,
    owners: Map<u32, u64>,
    owned: Map<u64, Seq<u32>>,
    a: u64,
    k: u32,
)
    requires
        ownership(lists, owners, owned),
        owners.contains_key(k),
        owners[k] == a,
    ensures
        ownership(
            removed(lists, a, k),
            owners.remove(k),
            owned.insert(a, owned_of(owned, a).remove_value(k)),
        ),
{
    let lists2 = removed(lists, a, k);
    let owners2 = owners.remove(k);
    let owned2 = owned.insert(a, owned_of(owned, a).remove_value(k));
    let s = owned_of(owned, a);
    assert(holds_list(lists, a, s));
    lemma_remove_holds_list(lists, a, s, k);
    assert(owned_of(owned2, a) == s.remove_value(k));
    assert forall|b: u64| holds_list(lists2, b, #[trigger] owned_of(owned2, b)) by {
        if b != a {
            assert(owned_of(owned2, b) == owned_of(owned, b));
            assert(holds_list(lists, b, owned_of(owned, b)));
            lemma_remove_other_keys(lists, a, k, b);
            lemma_same_for_key_symmetric(lists2, lists, b);
            lemma_holds_list_same_key(lists, lists2, b, owned_of(owned, b));
        }
    }
    assert forall|b: u64, j: u32|
        #![trigger owned_of(owned2, b).contains(j)]
        owned_of(owned2, b).contains(j) <==> (owners2.contains_key(j) && owners2[j] == b) by {
        if b == a {
            lemma_remove_value_contains(s, k, j);
            assert(owned_of(owned, a).contains(j) <==> (owners.contains_key(j) && owners[j] == a));
        } else {
            assert(owned_of(owned2, b) == owned_of(owned, b));
            assert(owned_of(owned, b).contains(j) <==> (owners.contains_key(j) && owners[j] == b));
            assert(owned_of(owned, a).contains(k) <==> (owners.contains_key(k) && owners[k] == a));
            if j == k {
                assert(owned_of(owned, b).contains(k) <==> (owners.contains_key(k) && owners[k]
                    == b));
            }
        }
    }
}

} // verus!
