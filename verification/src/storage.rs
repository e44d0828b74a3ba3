//! Byte strings and a key-value store keyed by byte strings.

use vstd::prelude::*;

verus! {

/// Compares two byte strings.
pub fn bytes_eq(a: &Vec<u8>, b: &Vec<u8>) -> (r: bool)
    ensures
        r == (a@ == b@),
{
    if a.len() != b.len() {
        return false;
    }
    let mut i: usize = 0;
    while i < a.len()
        invariant
            a.len() == b.len(),
            i <= a.len(),
            forall|j: int| 0 <= j < i ==> a@[j] == b@[j],
        decreases a.len() - i,
    {
        if a[i] != b[i] {
            return false;
        }
        i += 1;
    }
    assert(a@ =~= b@);
    true
}

/// Copies a byte string.
pub fn copy_bytes(a: &Vec<u8>) -> (r: Vec<u8>)
    ensures
        r@ == a@,
{
    let r = a.clone();
    assert(r@ =~= a@);
    r
}


/// One key-value pair of a [`ByteMap`].
pub struct Entry<V> {
    pub key: Vec<u8>,
    pub value: V,
}

/// A map from byte strings to values, kept as a list of entries whose keys
/// are pairwise distinct.
pub struct ByteMap<V> {
    entries: Vec<Entry<V>>,
}

impl<V: View> View for ByteMap<V> {
    type V = Map<Seq<u8>, V::V>;

    closed spec fn view(&self) -> Map<Seq<u8>, V::V> {
        Map::new(
            |k: Seq<u8>| Self::has_key(self.entries@, k),
            |k: Seq<u8>| self.entries@[Self::index_of(self.entries@, k)].value@,
        )
    }
}

impl<V: View> ByteMap<V> {
    spec fn has_key(s: Seq<Entry<V>>, k: Seq<u8>) -> bool {
        exists|i: int| 0 <= i < s.len() && (#[trigger] s[i]).key@ == k
    }

    spec fn index_of(s: Seq<Entry<V>>, k: Seq<u8>) -> int {
        choose|i: int| 0 <= i < s.len() && (#[trigger] s[i]).key@ == k
    }

    spec fn distinct(s: Seq<Entry<V>>) -> bool {
        forall|i: int, j: int|
            0 <= i < s.len() && 0 <= j < s.len() && i != j ==> (#[trigger] s[i]).key@ != (#[trigger] s[j]).key@
    }

    /// The map's internal invariant: no key occurs twice.
    pub closed spec fn wf(&self) -> bool {
        Self::distinct(self.entries@)
    }

    proof fn lemma_index_of(s: Seq<Entry<V>>, i: int)
        requires
            Self::distinct(s),
            0 <= i < s.len(),
        ensures
            Self::has_key(s, s[i].key@),
            Self::index_of(s, s[i].key@) == i,
    {
        let k = s[i].key@;
        assert(Self::has_key(s, k));
        let j = Self::index_of(s, k);
        assert(0 <= j < s.len() && s[j].key@ == k);
    }

    /// An empty map.
    pub fn new() -> (m: Self)
        ensures
            m.wf(),
            m@ == Map::<Seq<u8>, V::V>::empty(),
    {
        let m = ByteMap { entries: Vec::new() };
        assert(m@ =~= Map::<Seq<u8>, V::V>::empty());
        m
    }

    fn find(&self, key: &Vec<u8>) -> (r: Option<usize>)
        requires
            self.wf(),
        ensures
            match r {
                Some(i) => i < self.entries@.len() && self.entries@[i as int].key@ == key@,
                None => !Self::has_key(self.entries@, key@),
            },
    {
        let mut i: usize = 0;
        while i < self.entries.len()
            invariant
                i <= self.entries@.len(),
                forall|j: int| 0 <= j < i ==> (#[trigger] self.entries@[j]).key@ != key@,
            decreases self.entries@.len() - i,
        {
            if bytes_eq(&self.entries[i].key, key) {
                return Some(i);
            }
            i += 1;
        }
        None
    }

    /// Whether the map holds the key.
    pub fn contains_key(&self, key: &Vec<u8>) -> (r: bool)
        requires
            self.wf(),
        ensures
            r == self@.contains_key(key@),
    {
        self.find(key).is_some()
    }

    /// The value stored under the key, if any.
    pub fn get(&self, key: &Vec<u8>) -> (r: Option<&V>)
        requires
            self.wf(),
        ensures
            match r {
                Some(v) => self@.contains_key(key@) && v@ == self@[key@],
                None => !self@.contains_key(key@),
            },
    {
        match self.find(key) {
            Some(i) => {
                proof {
                    Self::lemma_index_of(self.entries@, i as int);
                }
                Some(&self.entries[i].value)
            },
            None => None,
        }
    }

    /// Stores the value under the key, replacing what was there.
    pub fn insert(&mut self, key: Vec<u8>, value: V)
        requires
            old(self).wf(),
        ensures
            final(self).wf(),
            final(self)@ == old(self)@.insert(key@, value@),
    {
        let ghost old_s = self.entries@;
        let ghost k = key@;
        let ghost v = value@;
        match self.find(&key) {
            Some(i) => {
                self.entries.set(i, Entry { key, value });
                let ghost s = self.entries@;
                assert(Self::distinct(s)) by {
                    assert forall|a: int, b: int|
                        0 <= a < s.len() && 0 <= b < s.len() && a != b implies
                        (#[trigger] s[a]).key@ != (#[trigger] s[b]).key@ by {
                        assert(s[a].key@ == old_s[a].key@);
                        assert(s[b].key@ == old_s[b].key@);
                    }
                }
                assert(self@ =~= old(self)@.insert(k, v)) by {
                    assert forall|q: Seq<u8>| #[trigger] self@.contains_key(q) == old(self)@.insert(k, v).contains_key(q) by {
                        if Self::has_key(s, q) {
                            let j = choose|j: int| 0 <= j < s.len() && (#[trigger] s[j]).key@ == q;
                            assert(old_s[j].key@ == q);
                        }
                        if Self::has_key(old_s, q) {
                            let j = choose|j: int| 0 <= j < old_s.len() && (#[trigger] old_s[j]).key@ == q;
                            assert(s[j].key@ == q);
                        }
                    }
                    assert forall|q: Seq<u8>| #[trigger] self@.contains_key(q) implies self@[q] == old(self)@.insert(k, v)[q] by {
                        let j = choose|j: int| 0 <= j < s.len() && (#[trigger] s[j]).key@ == q;
                        Self::lemma_index_of(s, j);
                        if j != i {
                            assert(old_s[j] == s[j]);
                            Self::lemma_index_of(old_s, j);
                        }
                    }
                }
            },
            None => {
                self.entries.push(Entry { key, value });
                let ghost s = self.entries@;
                let ghost n = old_s.len() as int;
                assert(Self::distinct(s)) by {
                    assert forall|a: int, b: int|
                        0 <= a < s.len() && 0 <= b < s.len() && a != b implies
                        (#[trigger] s[a]).key@ != (#[trigger] s[b]).key@ by {
                        if a < n && b < n {
                            assert(s[a] == old_s[a]);
                            assert(s[b] == old_s[b]);
                        } else if a < n {
                            assert(s[a] == old_s[a]);
                        } else if b < n {
                            assert(s[b] == old_s[b]);
                        }
                    }
                }
                assert(self@ =~= old(self)@.insert(k, v)) by {
                    assert forall|q: Seq<u8>| #[trigger] self@.contains_key(q) == old(self)@.insert(k, v).contains_key(q) by {
                        if Self::has_key(s, q) {
                            let j = choose|j: int| 0 <= j < s.len() && (#[trigger] s[j]).key@ == q;
                            if j < n {
                                assert(old_s[j] == s[j]);
                            }
                        }
                        if Self::has_key(old_s, q) {
                            let j = choose|j: int| 0 <= j < old_s.len() && (#[trigger] old_s[j]).key@ == q;
                            assert(s[j] == old_s[j]);
                        }
                        assert(s[n].key@ == k);
                    }
                    assert forall|q: Seq<u8>| #[trigger] self@.contains_key(q) implies self@[q] == old(self)@.insert(k, v)[q] by {
                        let j = choose|j: int| 0 <= j < s.len() && (#[trigger] s[j]).key@ == q;
                        Self::lemma_index_of(s, j);
                        if j != n {
                            assert(old_s[j] == s[j]);
                            Self::lemma_index_of(old_s, j);
                        }
                    }
                }
            },
        }
    }

    /// Removes the key and its value, if present.
    pub fn remove(&mut self, key: &Vec<u8>)
        requires
            old(self).wf(),
        ensures
            final(self).wf(),
            final(self)@ == old(self)@.remove(key@),
    {
        let ghost old_s = self.entries@;
        let ghost k = key@;
        match self.find(key) {
            Some(i) => {
                self.entries.remove(i);
                let ghost s = self.entries@;
                assert(forall|a: int| 0 <= a < s.len() ==> #[trigger] s[a] == old_s[if a < i { a } else { a + 1 }]);
                assert(Self::distinct(s)) by {
                    assert forall|a: int, b: int|
                        0 <= a < s.len() && 0 <= b < s.len() && a != b implies
                        (#[trigger] s[a]).key@ != (#[trigger] s[b]).key@ by {
                        let a2 = if a < i { a } else { a + 1 };
                        let b2 = if b < i { b } else { b + 1 };
                        assert(s[a] == old_s[a2]);
                        assert(s[b] == old_s[b2]);
                    }
                }
                assert(self@ =~= old(self)@.remove(k)) by {
                    assert forall|q: Seq<u8>| #[trigger] self@.contains_key(q) == old(self)@.remove(k).contains_key(q) by {
                        if Self::has_key(s, q) {
                            let j = choose|j: int| 0 <= j < s.len() && (#[trigger] s[j]).key@ == q;
                            let j2 = if j < i { j } else { j + 1 };
                            assert(old_s[j2] == s[j]);
                            assert(old_s[j2].key@ == q);
                        }
                        if Self::has_key(old_s, q) && q != k {
                            let j = choose|j: int| 0 <= j < old_s.len() && (#[trigger] old_s[j]).key@ == q;
                            assert(j != i);
                            let j2 = if j < i { j } else { j - 1 };
                            assert(s[j2] == old_s[j]);
                        }
                    }
                    assert forall|q: Seq<u8>| #[trigger] self@.contains_key(q) implies self@[q] == old(self)@.remove(k)[q] by {
                        let j = choose|j: int| 0 <= j < s.len() && (#[trigger] s[j]).key@ == q;
                        Self::lemma_index_of(s, j);
                        let j2 = if j < i { j } else { j + 1 };
                        assert(old_s[j2] == s[j]);
                        Self::lemma_index_of(old_s, j2);
                    }
                }
            },
            None => {
                assert(self@ =~= old(self)@.remove(k));
            },
        }
    }
}

} // verus!
