use vstd::prelude::*;

verus! {

/// A key of a storage map: something that can be compared with another key of
/// the same type, where two keys are the same exactly when their views agree.
pub trait StorageKey: View + Sized {
    fn same_key(&self, other: &Self) -> (r: bool)
        ensures
            r == (self@ == other@),
    ;
}

impl StorageKey for u32 {
    fn same_key(&self, other: &Self) -> (r: bool) {
        *self == *other
    }
}

impl StorageKey for u64 {
    fn same_key(&self, other: &Self) -> (r: bool) {
        *self == *other
    }
}

/// Keys of the form `(account, optional index)`.
impl StorageKey for (u64, Option<u32>) {
    fn same_key(&self, other: &Self) -> (r: bool) {
        if self.0 != other.0 {
            return false;
        }
        match (self.1, other.1) {
            (None, None) => true,
            (Some(a), Some(b)) => a == b,
            _ => false,
        }
    }
}

/// Keys of the form `(account, index)`.
impl StorageKey for (u64, u32) {
    fn same_key(&self, other: &Self) -> (r: bool) {
        self.0 == other.0 && self.1 == other.1
    }
}

/// Compares two byte sequences.
pub fn bytes_equal(a: &[u8], b: &[u8]) -> (r: bool)
    ensures
        r == (a@ == b@),
{
    if a.len() != b.len() {
        return false;
    }
    let mut i: usize = 0;
    while i < a.len()
        invariant
            a@.len() == b@.len(),
            0 <= i <= a@.len(),
            forall|j: int| 0 <= j < i ==> a@[j] == b@[j],
        decreases a@.len() - i,
    {
        if a[i] != b[i] {
            return false;
        }
        i = i + 1;
    }
    assert(a@ =~= b@);
    true
}

impl StorageKey for [u8; 32] {
    fn same_key(&self, other: &Self) -> (r: bool) {
        bytes_equal(self.as_slice(), other.as_slice())
    }
}

impl StorageKey for ([u8; 32], [u8; 32]) {
    fn same_key(&self, other: &Self) -> (r: bool) {
        self.0.same_key(&other.0) && self.1.same_key(&other.1)
    }
}

impl StorageKey for Vec<u8> {
    fn same_key(&self, other: &Self) -> (r: bool) {
        bytes_equal(self.as_slice(), other.as_slice())
    }
}

/// A finite map from keys to values, as a runtime's storage map holds them:
/// each key at most once.
#[verifier::reject_recursive_types(K)]
pub struct StorageMap<K, V> {
    entries: Vec<(K, V)>,
}

/// Whether the entry at position `i` of `s` has key `k`.
pub open spec fn key_at<K: View, V>(s: Seq<(K, V)>, i: int, k: K::V) -> bool {
    0 <= i < s.len() && s[i].0@ == k
}

/// The position of key `k` in `s`, where there is one.
pub open spec fn position_of<K: View, V>(s: Seq<(K, V)>, k: K::V) -> int {
    choose|i: int| key_at(s, i, k)
}

/// The map that a sequence of entries stands for.
pub open spec fn entries_map<K: View, V>(s: Seq<(K, V)>) -> Map<K::V, V> {
    Map::new(|k: K::V| exists|i: int| key_at(s, i, k), |k: K::V| s[position_of(s, k)].1)
}

/// No key occurs twice among the entries.
pub open spec fn distinct_keys<K: View, V>(s: Seq<(K, V)>) -> bool {
    forall|i: int, j: int|
        #![trigger s[i], s[j]]
        0 <= i < s.len() && 0 <= j < s.len() && i != j ==> s[i].0@ != s[j].0@
}

/// With distinct keys, the entry found for a key is the entry at its position.
proof fn lemma_entry_at<K: View, V>(s: Seq<(K, V)>, i: int)
    requires
        distinct_keys(s),
        0 <= i < s.len(),
    ensures
        entries_map(s).contains_key(s[i].0@),
        entries_map(s)[s[i].0@] == s[i].1,
{
    assert(key_at(s, i, s[i].0@));
    let j = position_of(s, s[i].0@);
    assert(key_at(s, j, s[i].0@));
    assert(s[j] == s[j]);
}

impl<K: View, V> View for StorageMap<K, V> {
    type V = Map<K::V, V>;

    closed spec fn view(&self) -> Map<K::V, V> {
        entries_map(self.entries@)
    }
}

impl<K: StorageKey, V> StorageMap<K, V> {
    /// The map is well formed: no key occurs twice.
    pub closed spec fn wf(&self) -> bool {
        distinct_keys(self.entries@)
    }

    /// An empty map.
    pub fn new() -> (m: Self)
        ensures
            m.wf(),
            m@ == Map::<K::V, V>::empty(),
    {
        let m = StorageMap { entries: Vec::new() };
        assert(m@ =~= Map::<K::V, V>::empty());
        m
    }

    /// The number of keys in the map.
    pub fn len(&self) -> (n: usize)
        requires
            self.wf(),
        ensures
            n == self@.len(),
            self@.dom().finite(),
    {
        proof {
            self.lemma_dom();
        }
        self.entries.len()
    }

    proof fn lemma_dom(&self)
        requires
            self.wf(),
        ensures
            self@.dom() == self.entries@.map_values(|e: (K, V)| e.0@).to_set(),
            self@.dom().finite(),
            self@.len() == self.entries@.len(),
    {
        let s = self.entries@;
        let keys = s.map_values(|e: (K, V)| e.0@);
        assert forall|k: K::V| self@.dom().contains(k) <==> keys.to_set().contains(k) by {
            if self@.dom().contains(k) {
                let i = position_of(s, k);
                assert(keys[i] == k);
            }
            if keys.to_set().contains(k) {
                let i = choose|i: int| 0 <= i < keys.len() && keys[i] == k;
                assert(key_at(s, i, k));
            }
        }
        assert(self@.dom() =~= keys.to_set());
        assert(keys.no_duplicates()) by {
            assert forall|i: int, j: int|
                0 <= i < keys.len() && 0 <= j < keys.len() && i != j implies keys[i] != keys[j] by {
                assert(s[i] == s[i] && s[j] == s[j]);
            }
        }
        keys.unique_seq_to_set();
    }

    /// The position of `key` among the entries, if it has one.
    fn find(&self, key: &K) -> (r: Option<usize>)
        requires
            self.wf(),
        ensures
            match r {
                Some(i) => key_at(self.entries@, i as int, key@),
                None => !self@.contains_key(key@),
            },
    {
        let mut i: usize = 0;
        while i < self.entries.len()
            invariant
                0 <= i <= self.entries@.len(),
                forall|j: int| 0 <= j < i ==> !key_at(self.entries@, j, key@),
            decreases self.entries@.len() - i,
        {
            if self.entries[i].0.same_key(key) {
                return Some(i);
            }
            i = i + 1;
        }
        None
    }

    /// Whether the map has an entry for `key`.
    pub fn contains_key(&self, key: &K) -> (r: bool)
        requires
            self.wf(),
        ensures
            r == self@.contains_key(key@),
    {
        match self.find(key) {
            Some(i) => {
                proof {
                    lemma_entry_at(self.entries@, i as int);
                }
                true
            },
            None => false,
        }
    }

    /// The value stored under `key`, if any.
    pub fn get(&self, key: &K) -> (r: Option<&V>)
        requires
            self.wf(),
        ensures
            match r {
                Some(v) => self@.contains_key(key@) && self@[key@] == *v,
                None => !self@.contains_key(key@),
            },
    {
        match self.find(key) {
            Some(i) => {
                proof {
                    lemma_entry_at(self.entries@, i as int);
                }
                Some(&self.entries[i].1)
            },
            None => None,
        }
    }

    /// Stores `value` under `key`, replacing what was stored there.
    pub fn insert(&mut self, key: K, value: V)
        requires
            old(self).wf(),
        ensures
            final(self).wf(),
            final(self)@ == old(self)@.insert(key@, value),
    {
        let ghost s0 = self.entries@;
        let ghost k = key@;
        match self.find(&key) {
            Some(i) => {
                self.entries.set(i, (key, value));
                let ghost s1 = self.entries@;
                assert(distinct_keys(s1)) by {
                    assert forall|a: int, b: int|
                        #![trigger s1[a], s1[b]]
                        0 <= a < s1.len() && 0 <= b < s1.len() && a != b implies s1[a].0@
                        != s1[b].0@ by {
                        assert(s0[a] == s0[a] && s0[b] == s0[b]);
                        assert(s0[i as int] == s0[i as int]);
                    }
                }
                let ghost m1 = entries_map(s1);
                let ghost m2 = old(self)@.insert(k, value);
                assert forall|q: K::V|
                    #![trigger m1.dom().contains(q)]
                    #![trigger m2.dom().contains(q)]
                    m1.dom().contains(q) == m2.dom().contains(q) && (m1.dom().contains(q)
                        ==> m1[q] == m2[q]) by {
                    if entries_map(s1).contains_key(q) {
                        let p = position_of(s1, q);
                        lemma_entry_at(s1, p);
                        if p != i {
                            lemma_entry_at(s0, p);
                        }
                    }
                    if old(self)@.contains_key(q) {
                        let p = position_of(s0, q);
                        lemma_entry_at(s1, p);
                    }
                    lemma_entry_at(s1, i as int);
                }
                assert(m1 =~= m2);
            },
            None => {
                self.entries.push((key, value));
                let ghost s1 = self.entries@;
                let ghost n = s0.len() as int;
                assert(distinct_keys(s1)) by {
                    assert forall|a: int, b: int|
                        #![trigger s1[a], s1[b]]
                        0 <= a < s1.len() && 0 <= b < s1.len() && a != b implies s1[a].0@
                        != s1[b].0@ by {
                        if a < n && b < n {
                            assert(s0[a] == s0[a] && s0[b] == s0[b]);
                        } else if a < n {
                            lemma_entry_at(s0, a);
                        } else {
                            lemma_entry_at(s0, b);
                        }
                    }
                }
                let ghost m1 = entries_map(s1);
                let ghost m2 = old(self)@.insert(k, value);
                assert forall|q: K::V|
                    #![trigger m1.dom().contains(q)]
                    #![trigger m2.dom().contains(q)]
                    m1.dom().contains(q) == m2.dom().contains(q) && (m1.dom().contains(q)
                        ==> m1[q] == m2[q]) by {
                    if entries_map(s1).contains_key(q) {
                        let p = position_of(s1, q);
                        lemma_entry_at(s1, p);
                        if p != n {
                            lemma_entry_at(s0, p);
                        }
                    }
                    if old(self)@.contains_key(q) {
                        let p = position_of(s0, q);
                        lemma_entry_at(s1, p);
                    }
                    lemma_entry_at(s1, n);
                }
                assert(m1 =~= m2);
            },
        }
    }

    /// Removes the entry for `key`, handing back its value if there was one.
    pub fn remove(&mut self, key: &K) -> (r: Option<V>)
        requires
            old(self).wf(),
        ensures
            final(self).wf(),
            final(self)@ == old(self)@.remove(key@),
            r == old(self)@.get(key@),
    {
        let ghost s0 = self.entries@;
        let ghost k = key@;
        match self.find(key) {
            Some(i) => {
                proof {
                    lemma_entry_at(s0, i as int);
                }
                let (_, v) = self.entries.remove(i);
                let ghost s1 = self.entries@;
                let ghost ii = i as int;
                assert(distinct_keys(s1)) by {
                    assert forall|a: int, b: int|
                        #![trigger s1[a], s1[b]]
                        0 <= a < s1.len() && 0 <= b < s1.len() && a != b implies s1[a].0@
                        != s1[b].0@ by {
                        let a0 = if a < ii { a } else { a + 1 };
                        let b0 = if b < ii { b } else { b + 1 };
                        assert(s1[a] == s0[a0] && s1[b] == s0[b0]);
                        assert(s0[a0] == s0[a0] && s0[b0] == s0[b0]);
                    }
                }
                let ghost m1 = entries_map(s1);
                let ghost m2 = old(self)@.remove(k);
                assert forall|q: K::V|
                    #![trigger m1.dom().contains(q)]
                    #![trigger m2.dom().contains(q)]
                    m1.dom().contains(q) == m2.dom().contains(q) && (m1.dom().contains(q)
                        ==> m1[q] == m2[q]) by {
                    if entries_map(s1).contains_key(q) {
                        let p = position_of(s1, q);
                        lemma_entry_at(s1, p);
                        let p0 = if p < ii { p } else { p + 1 };
                        assert(s1[p] == s0[p0]);
                        lemma_entry_at(s0, p0);
                        assert(s0[ii] == s0[ii] && s0[p0] == s0[p0]);
                    }
                    if old(self)@.contains_key(q) && q != k {
                        let p = position_of(s0, q);
                        lemma_entry_at(s0, p);
                        let p1 = if p < ii { p } else { p - 1 };
                        assert(s1[p1] == s0[p]);
                        lemma_entry_at(s1, p1);
                    }
                }
                assert(m1 =~= m2);
                Some(v)
            },
            None => {
                assert(self@ =~= old(self)@.remove(k));
                None
            },
        }
    }
}

} // verus!
