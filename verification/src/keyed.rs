//! Small maps kept as lists of key-value entries with distinct keys.
use vstd::prelude::*;

use crate::trade_types::Contract;

verus! {

/// A key that can be compared with another by its view.
pub trait MapKey: Sized {
    type KeyView;

    spec fn key_view(&self) -> Self::KeyView;

    fn same_key(&self, other: &Self) -> (r: bool)
        ensures
            r == (self.key_view() == other.key_view()),
    ;

}

impl MapKey for u32 {
    type KeyView = u32;

    open spec fn key_view(&self) -> u32 {
        *self
    }

    fn same_key(&self, other: &Self) -> (r: bool) {
        *self == *other
    }

}

impl MapKey for u64 {
    type KeyView = u64;

    open spec fn key_view(&self) -> u64 {
        *self
    }

    fn same_key(&self, other: &Self) -> (r: bool) {
        *self == *other
    }

}

impl MapKey for Contract {
    type KeyView = Seq<char>;

    open spec fn key_view(&self) -> Seq<char> {
        self@
    }

    fn same_key(&self, other: &Self) -> (r: bool) {
        self.same_name(other)
    }

}

/// No two entries have keys with the same view.
pub open spec fn keys_distinct<K: MapKey, V>(s: Seq<(K, V)>) -> bool {
    forall|i: int, j: int|
        0 <= i < s.len() && 0 <= j < s.len() && i != j ==> (#[trigger] s[i]).0.key_view() != (
        #[trigger] s[j]).0.key_view()
}

/// The position of the entry whose key has view `k`, if there is one.
pub open spec fn position_of<K: MapKey, V>(s: Seq<(K, V)>, k: K::KeyView) -> Option<int> {
    if exists|i: int| 0 <= i < s.len() && (#[trigger] s[i]).0.key_view() == k {
        Some(choose|i: int| 0 <= i < s.len() && (#[trigger] s[i]).0.key_view() == k)
    } else {
        None
    }
}

/// The entries as a map.
pub open spec fn entries_map<K: MapKey, V>(s: Seq<(K, V)>) -> Map<K::KeyView, V> {
    Map::new(|k: K::KeyView| position_of(s, k) is Some, |k: K::KeyView| s[position_of(s, k)->0].1)
}

pub proof fn lemma_position_of<K: MapKey, V>(s: Seq<(K, V)>, i: int)
    requires
        keys_distinct(s),
        0 <= i < s.len(),
    ensures
        position_of(s, s[i].0.key_view()) == Some(i),
        entries_map(s).contains_key(s[i].0.key_view()),
        entries_map(s)[s[i].0.key_view()] == s[i].1,
{
    let k = s[i].0.key_view();
    assert(exists|j: int| 0 <= j < s.len() && (#[trigger] s[j]).0.key_view() == k);
}

/// A map kept as a list of entries with distinct keys.
pub struct AssocList<K: MapKey, V> {
    entries: Vec<(K, V)>,
}

impl<K: MapKey, V> AssocList<K, V> {
    /// The keys of the entries are distinct.
    pub closed spec fn wf(self) -> bool {
        keys_distinct(self.entries@)
    }

    /// The entries, in storage order.
    pub closed spec fn entries_spec(self) -> Seq<(K, V)> {
        self.entries@
    }

    /// The map from key views to values.
    pub open spec fn map(self) -> Map<K::KeyView, V> {
        entries_map(self.entries_spec())
    }

    /// An empty map.
    pub fn new() -> (r: Self)
        ensures
            r.wf(),
            r.map() == Map::<K::KeyView, V>::empty(),
    {
        let r = AssocList { entries: Vec::new() };
        assert(r.map() =~= Map::<K::KeyView, V>::empty());
        r
    }

    fn find(&self, key: &K) -> (r: Option<usize>)
        requires
            self.wf(),
        ensures
            r matches Some(i) ==> position_of(self.entries_spec(), key.key_view()) == Some(i as int)
                && i < self.entries_spec().len(),
            r is None ==> position_of(self.entries_spec(), key.key_view()) is None,
    {
        let n = self.entries.len();
        for i in 0..n
            invariant
                n == self.entries@.len(),
                keys_distinct(self.entries@),
                forall|j: int| 0 <= j < i ==> (#[trigger] self.entries@[j]).0.key_view() != key.key_view(),
        {
            if self.entries[i].0.same_key(key) {
                proof {
                    lemma_position_of(self.entries@, i as int);
                }
                return Some(i);
            }
        }
        None
    }

    /// The value of the key, if any.
    pub fn get(&self, key: &K) -> (r: Option<&V>)
        requires
            self.wf(),
        ensures
            r is Some <==> self.map().contains_key(key.key_view()),
            r matches Some(v) ==> *v == self.map()[key.key_view()],
    {
        match self.find(key) {
            Some(i) => Some(&self.entries[i].1),
            None => None,
        }
    }

    /// Inserts the value under the key, returning the value it replaces.
    pub fn insert(&mut self, key: K, value: V) -> (r: Option<V>)
        requires
            old(self).wf(),
        ensures
            final(self).wf(),
            final(self).map() == old(self).map().insert(key.key_view(), value),
            r is Some <==> old(self).map().contains_key(key.key_view()),
            r matches Some(v) ==> v == old(self).map()[key.key_view()],
    {
        let found = self.find(&key);
        let mut entries: Vec<(K, V)> = Vec::new();
        std::mem::swap(&mut entries, &mut self.entries);
        let ghost s = entries@;
        let ghost k = key.key_view();
        let ghost e = (key, value);
        match found {
            Some(i) => {
                let ghost t = s.update(i as int, e);
                proof {
                    assert(keys_distinct(t)) by {
                        assert forall|a: int, b: int|
                            0 <= a < t.len() && 0 <= b < t.len() && a != b implies (
                            #[trigger] t[a]).0.key_view() != (#[trigger] t[b]).0.key_view() by {
                            assert(s[a].0.key_view() != s[b].0.key_view());
                        }
                    }
                    lemma_position_of(t, i as int);
                    lemma_position_of(s, i as int);
                    assert forall|k2: K::KeyView| k2 != k implies position_of(t, k2) == position_of(s, k2) by {
                        if position_of(s, k2) is Some {
                            let j = position_of(s, k2)->0;
                            assert(s[j].0.key_view() == k2);
                            lemma_position_of(t, j);
                        }
                        if position_of(t, k2) is Some {
                            let j = position_of(t, k2)->0;
                            assert(t[j].0.key_view() == k2);
                            assert(s[j].0.key_view() == k2);
                        }
                    }
                    assert(entries_map(t) =~= entries_map(s).insert(k, value)) by {
                        assert forall|k2: K::KeyView| k2 != k && position_of(t, k2) is Some implies t[position_of(
                            t,
                            k2,
                        )->0].1 == s[position_of(s, k2)->0].1 by {
                            let j = position_of(t, k2)->0;
                            assert(t[j].0.key_view() == k2);
                        }
                    }
                }
                let mut pair = (key, value);
                std::mem::swap(&mut pair, &mut entries[i]);
                self.entries = entries;
                proof {
                    assert(self.entries@ == t);
                }
                Some(pair.1)
            },
            None => {
                let ghost t = s.push(e);
                proof {
                    let n = s.len() as int;
                    assert(keys_distinct(t)) by {
                        assert forall|a: int, b: int|
                            0 <= a < t.len() && 0 <= b < t.len() && a != b implies (
                            #[trigger] t[a]).0.key_view() != (#[trigger] t[b]).0.key_view() by {
                            if a < n && b < n {
                                assert(s[a].0.key_view() != s[b].0.key_view());
                            } else if a < n {
                                assert(s[a].0.key_view() != k);
                            } else {
                                assert(s[b].0.key_view() != k);
                            }
                        }
                    }
                    lemma_position_of(t, n);
                    assert forall|k2: K::KeyView| k2 != k implies position_of(t, k2) == position_of(s, k2) by {
                        if position_of(s, k2) is Some {
                            let j = position_of(s, k2)->0;
                            assert(s[j].0.key_view() == k2);
                            assert(t[j] == s[j]);
                            lemma_position_of(t, j);
                        }
                        if position_of(t, k2) is Some {
                            let j = position_of(t, k2)->0;
                            assert(t[j].0.key_view() == k2);
                            assert(j != n);
                            assert(s[j].0.key_view() == k2);
                        }
                    }
                    assert(entries_map(t) =~= entries_map(s).insert(k, value)) by {
                        assert forall|k2: K::KeyView| k2 != k && position_of(t, k2) is Some implies t[position_of(
                            t,
                            k2,
                        )->0].1 == s[position_of(s, k2)->0].1 by {
                            let j = position_of(t, k2)->0;
                            assert(t[j].0.key_view() == k2);
                            assert(j != n);
                        }
                    }
                }
                entries.push((key, value));
                self.entries = entries;
                proof {
                    assert(self.entries@ == t);
                }
                None
            },
        }
    }

    /// Removes the key, returning its value.
    pub fn remove(&mut self, key: &K) -> (r: Option<V>)
        requires
            old(self).wf(),
        ensures
            final(self).wf(),
            final(self).map() == old(self).map().remove(key.key_view()),
            r is Some <==> old(self).map().contains_key(key.key_view()),
            r matches Some(v) ==> v == old(self).map()[key.key_view()],
    {
        match self.find(key) {
            None => {
                proof {
                    assert(self.map() =~= old(self).map().remove(key.key_view()));
                }
                None
            },
            Some(i) => {
                let mut entries: Vec<(K, V)> = Vec::new();
                std::mem::swap(&mut entries, &mut self.entries);
                let ghost s = entries@;
                let ghost k = key.key_view();
                let ghost t = s.remove(i as int);
                proof {
                    lemma_position_of(s, i as int);
                    assert forall|a: int| 0 <= a < t.len() implies #[trigger] t[a] == if a < i {
                        s[a]
                    } else {
                        s[a + 1]
                    } by {}
                    assert(keys_distinct(t)) by {
                        assert forall|a: int, b: int|
                            0 <= a < t.len() && 0 <= b < t.len() && a != b implies (
                            #[trigger] t[a]).0.key_view() != (#[trigger] t[b]).0.key_view() by {
                            let ia = if a < i {
                                a
                            } else {
                                a + 1
                            };
                            let ib = if b < i {
                                b
                            } else {
                                b + 1
                            };
                            assert(s[ia].0.key_view() != s[ib].0.key_view());
                        }
                    }
                    assert(entries_map(t) =~= entries_map(s).remove(k)) by {
                        assert forall|k2: K::KeyView| k2 != k implies (position_of(t, k2) is Some
                            <==> position_of(s, k2) is Some) by {
                            if position_of(s, k2) is Some {
                                let j = position_of(s, k2)->0;
                                assert(s[j].0.key_view() == k2);
                                assert(j != i);
                                let jt = if j < i {
                                    j
                                } else {
                                    j - 1
                                };
                                assert(t[jt] == s[j]);
                                lemma_position_of(t, jt);
                            }
                            if position_of(t, k2) is Some {
                                let j = position_of(t, k2)->0;
                                assert(t[j].0.key_view() == k2);
                            }
                        }
                        assert forall|k2: K::KeyView| k2 != k && position_of(t, k2) is Some implies t[position_of(
                            t,
                            k2,
                        )->0].1 == s[position_of(s, k2)->0].1 by {
                            let j = position_of(t, k2)->0;
                            let js = if j < i {
                                j
                            } else {
                                j + 1
                            };
                            assert(t[j] == s[js]);
                            lemma_position_of(s, js);
                        }
                        if position_of(t, k) is Some {
                            let j = position_of(t, k)->0;
                            let js = if j < i {
                                j
                            } else {
                                j + 1
                            };
                            assert(t[j] == s[js]);
                            assert(s[js].0.key_view() == k);
                        }
                    }
                }
                let removed = entries.remove(i);
                self.entries = entries;
                proof {
                    assert(self.entries@ == t);
                }
                Some(removed.1)
            },
        }
    }
}

} // verus!
