//! A small insertion-ordered map over integer keys.
//!
//! Entries are kept in the order in which their keys were first inserted;
//! each key appears at most once. Replacing the value of a present key keeps
//! its place.

use vstd::prelude::*;

verus! {

/// Integer key types that can be compared for equality in executable code.
pub trait MapKey: Copy + Sized {
    fn same(&self, other: &Self) -> (b: bool)
        ensures
            b == (*self == *other),
    ;
}

impl MapKey for u32 {
    fn same(&self, other: &Self) -> (b: bool) {
        *self == *other
    }
}

impl MapKey for u64 {
    fn same(&self, other: &Self) -> (b: bool) {
        *self == *other
    }
}

impl MapKey for u128 {
    fn same(&self, other: &Self) -> (b: bool) {
        *self == *other
    }
}

/// The mathematical model of a `KeyedVec`: keys in insertion order and their values.
pub struct KeyedView<K, W> {
    pub keys: Seq<K>,
    pub vals: Seq<W>,
}

impl<K, W> KeyedView<K, W> {
    pub open spec fn empty() -> Self {
        KeyedView { keys: Seq::empty(), vals: Seq::empty() }
    }

    pub open spec fn wf(self) -> bool {
        &&& self.keys.len() == self.vals.len()
        &&& self.keys.no_duplicates()
    }

    pub open spec fn len(self) -> nat {
        self.keys.len()
    }

    pub open spec fn contains(self, k: K) -> bool {
        self.keys.contains(k)
    }

    pub open spec fn get(self, k: K) -> Option<W> {
        if self.keys.contains(k) {
            Some(self.vals[self.keys.index_of(k)])
        } else {
            None
        }
    }

    /// Replace the value of a present key in place, or add a new key at the end.
    pub open spec fn insert(self, k: K, w: W) -> Self {
        if self.keys.contains(k) {
            KeyedView { keys: self.keys, vals: self.vals.update(self.keys.index_of(k), w) }
        } else {
            KeyedView { keys: self.keys.push(k), vals: self.vals.push(w) }
        }
    }

    /// The map of keys to values.
    pub open spec fn map(self) -> Map<K, W> {
        Map::new(|k: K| self.keys.contains(k), |k: K| self.vals[self.keys.index_of(k)])
    }
}

pub proof fn lemma_index_of_present<K>(s: Seq<K>, i: int)
    requires
        s.no_duplicates(),
        0 <= i < s.len(),
    ensures
        s.contains(s[i]),
        s.index_of(s[i]) == i,
{
    assert(s.contains(s[i]));
    let j = s.index_of(s[i]);
    assert(s[j] == s[i]);
}

/// Law: inserting keeps the model well formed; afterwards the inserted key
/// maps to the new value and every other key keeps its value.
pub proof fn lemma_insert_get<K, W>(m: KeyedView<K, W>, k: K, w: W, j: K)
    requires
        m.wf(),
    ensures
        m.insert(k, w).wf(),
        m.insert(k, w).get(j) == if j == k {
            Some(w)
        } else {
            m.get(j)
        },
        m.insert(k, w).contains(j) == (j == k || m.contains(j)),
{
    let n = m.insert(k, w);
    if m.keys.contains(k) {
        let i = m.keys.index_of(k);
        assert(m.keys[i] == k);
    } else {
        assert(n.keys.no_duplicates()) by {
            assert forall|a: int, b: int|
                0 <= a < n.keys.len() && 0 <= b < n.keys.len() && a != b implies n.keys[a]
                != n.keys[b] by {
                if a < m.keys.len() as int && b < m.keys.len() as int {
                } else if a == m.keys.len() as int {
                    assert(m.keys.contains(n.keys[b]) || n.keys[b] != k);
                } else {
                    assert(m.keys.contains(n.keys[a]) || n.keys[a] != k);
                }
            }
        }
        assert(n.keys[m.keys.len() as int] == k);
        lemma_index_of_present(n.keys, m.keys.len() as int);
        if j != k {
            if m.keys.contains(j) {
                let i = m.keys.index_of(j);
                assert(n.keys[i] == j);
                lemma_index_of_present(n.keys, i);
            }
            if n.keys.contains(j) {
                let i = n.keys.index_of(j);
                assert(n.keys[i] == j);
                assert(i < m.keys.len());
                assert(m.keys[i] == j);
            }
        }
    }
}

/// Map from `K` to `V`, remembering the order in which keys were first added.
pub struct KeyedVec<K, V> {
    keys: Vec<K>,
    vals: Vec<V>,
}

impl<K: MapKey, V: DeepView> KeyedVec<K, V> {
    pub closed spec fn view(&self) -> KeyedView<K, V::V> {
        KeyedView { keys: self.keys@, vals: self.vals.deep_view() }
    }

    pub open spec fn wf(&self) -> bool {
        self.view().wf()
    }

    pub fn new() -> (m: Self)
        ensures
            m.wf(),
            m.view() == KeyedView::<K, V::V>::empty(),
    {
        let m = KeyedVec { keys: Vec::new(), vals: Vec::new() };
        assert(m.vals.deep_view() =~= Seq::<V::V>::empty());
        m
    }

    pub fn len(&self) -> (n: usize)
        requires
            self.wf(),
        ensures
            n == self.view().len(),
    {
        self.keys.len()
    }

    /// Position of `k`, if present.
    pub fn position(&self, k: &K) -> (r: Option<usize>)
        requires
            self.wf(),
        ensures
            match r {
                Some(i) => i < self.view().len() && self.view().keys[i as int] == *k
                    && self.view().contains(*k) && self.view().keys.index_of(*k) == i,
                None => !self.view().contains(*k),
            },
    {
        let mut i: usize = 0;
        while i < self.keys.len()
            invariant
                self.wf(),
                i <= self.keys@.len(),
                forall|j: int| 0 <= j < i ==> self.keys@[j] != *k,
            decreases self.keys@.len() - i,
        {
            if self.keys[i].same(k) {
                proof {
                    lemma_index_of_present(self.keys@, i as int);
                }
                return Some(i);
            }
            i = i + 1;
        }
        None
    }

    pub fn key_at(&self, i: usize) -> (k: K)
        requires
            self.wf(),
            i < self.view().len(),
        ensures
            k == self.view().keys[i as int],
    {
        self.keys[i]
    }

    pub fn value_at(&self, i: usize) -> (v: &V)
        requires
            self.wf(),
            i < self.view().len(),
        ensures
            v.deep_view() == self.view().vals[i as int],
    {
        &self.vals[i]
    }

    pub fn get(&self, k: &K) -> (r: Option<&V>)
        requires
            self.wf(),
        ensures
            match r {
                Some(v) => self.view().get(*k) == Some(v.deep_view()),
                None => self.view().get(*k) is None,
            },
    {
        match self.position(k) {
            Some(i) => Some(&self.vals[i]),
            None => None,
        }
    }

    /// Put `v` in place of the value at position `i` and hand the old value back.
    pub fn swap_value_at(&mut self, i: usize, v: V) -> (old_v: V)
        requires
            old(self).wf(),
            i < old(self).view().len(),
        ensures
            final(self).wf(),
            final(self).view() == (KeyedView {
                keys: old(self).view().keys,
                vals: old(self).view().vals.update(i as int, v.deep_view()),
            }),
            old_v.deep_view() == old(self).view().vals[i as int],
    {
        let ghost dv = v.deep_view();
        self.vals.push(v);
        let old_v = self.vals.swap_remove(i);
        proof {
            assert(self.vals.deep_view() =~= old(self).vals.deep_view().update(i as int, dv));
        }
        old_v
    }

    /// Insert or replace; a new key goes to the end, an existing key keeps its place.
    pub fn insert(&mut self, k: K, v: V)
        requires
            old(self).wf(),
        ensures
            final(self).wf(),
            final(self).view() == old(self).view().insert(k, v.deep_view()),
    {
        let ghost dv = v.deep_view();
        proof {
            lemma_insert_get(self.view(), k, dv, k);
        }
        match self.position(&k) {
            Some(i) => {
                self.vals.set(i, v);
                proof {
                    assert(self.vals.deep_view() =~= old(self).vals.deep_view().update(i as int, dv));
                }
            },
            None => {
                self.keys.push(k);
                self.vals.push(v);
                proof {
                    assert(self.vals.deep_view() =~= old(self).vals.deep_view().push(dv));
                }
            },
        }
    }
}

} // verus!
