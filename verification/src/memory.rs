//! A small map kept as a list of entries, keyed by anything that can say
//! whether two keys are the same.
//!
//! The bot remembers a handful of things per pair — what it has reported,
//! when to ask next, which session it greeted — and never more than a few
//! dozen of each, so a list searched from the front is all it needs.

use vstd::prelude::*;

verus! {

/// A key that can tell, in running code, whether it is the same as another.
pub trait Same: View + Sized {
    fn same(&self, other: &Self) -> (b: bool)
        ensures
            b == (self@ == other@);
}

impl Same for String {
    fn same(&self, other: &String) -> (b: bool) {
        *self == *other
    }
}

/// What the entries say about a key: the value of the last entry holding it.
pub open spec fn lookup<K, V>(s: Seq<(K, V)>, k: K) -> Option<V>
    decreases s.len(),
{
    if s.len() == 0 {
        None
    } else if s.last().0 == k {
        Some(s.last().1)
    } else {
        lookup(s.drop_last(), k)
    }
}

/// No key appears twice.
pub open spec fn distinct_keys<K, V>(s: Seq<(K, V)>) -> bool {
    forall|i: int, j: int| 0 <= i < j < s.len() ==> s[i].0 != s[j].0
}

/// The map a list of entries stands for.
pub open spec fn map_of<K, V>(s: Seq<(K, V)>) -> Map<K, V> {
    Map::new(|k: K| lookup(s, k) is Some, |k: K| lookup(s, k)->0)
}

pub proof fn lemma_lookup_found<K, V>(s: Seq<(K, V)>, i: int)
    requires
        distinct_keys(s),
        0 <= i < s.len(),
    ensures
        lookup(s, s[i].0) == Some(s[i].1),
    decreases s.len(),
{
    if i < s.len() - 1 {
        assert(s.last().0 != s[i].0);
        assert(s.drop_last()[i] == s[i]);
        lemma_lookup_found(s.drop_last(), i);
    }
}

pub proof fn lemma_lookup_absent<K, V>(s: Seq<(K, V)>, k: K)
    requires
        forall|i: int| 0 <= i < s.len() ==> s[i].0 != k,
    ensures
        lookup(s, k) is None,
    decreases s.len(),
{
    if s.len() > 0 {
        assert(s.last() == s[s.len() - 1]);
        assert forall|i: int| 0 <= i < s.drop_last().len() implies s.drop_last()[i].0 != k by {
            assert(s.drop_last()[i] == s[i]);
        }
        lemma_lookup_absent(s.drop_last(), k);
    }
}

pub proof fn lemma_lookup_pushed<K, V>(s: Seq<(K, V)>, k: K, v: V, k2: K)
    ensures
        lookup(s.push((k, v)), k2) == if k2 == k { Some(v) } else { lookup(s, k2) },
{
    assert(s.push((k, v)).drop_last() == s);
}

pub proof fn lemma_lookup_updated<K, V>(s: Seq<(K, V)>, i: int, v: V, k2: K)
    requires
        distinct_keys(s),
        0 <= i < s.len(),
    ensures
        lookup(s.update(i, (s[i].0, v)), k2) == if k2 == s[i].0 { Some(v) } else { lookup(s, k2) },
    decreases s.len(),
{
    let t = s.update(i, (s[i].0, v));
    if i == s.len() - 1 {
        assert(t.drop_last() == s.drop_last());
    } else {
        assert(t.drop_last() == s.drop_last().update(i, (s[i].0, v)));
        assert(s.drop_last()[i] == s[i]);
        assert(s.last().0 != s[i].0);
        assert(distinct_keys(s.drop_last())) by {
            assert forall|a: int, b: int| 0 <= a < b < s.drop_last().len() implies
                s.drop_last()[a].0 != s.drop_last()[b].0 by {
                assert(s.drop_last()[a] == s[a]);
                assert(s.drop_last()[b] == s[b]);
            }
        }
        lemma_lookup_updated(s.drop_last(), i, v, k2);
    }
}

pub proof fn lemma_lookup_removed<K, V>(s: Seq<(K, V)>, i: int, k2: K)
    requires
        distinct_keys(s),
        0 <= i < s.len(),
    ensures
        lookup(s.remove(i), k2) == if k2 == s[i].0 { None } else { lookup(s, k2) },
    decreases s.len(),
{
    let t = s.remove(i);
    if i == s.len() - 1 {
        assert(t == s.drop_last());
        if k2 == s[i].0 {
            assert forall|j: int| 0 <= j < t.len() implies t[j].0 != k2 by {
                assert(t[j] == s[j]);
            }
            lemma_lookup_absent(t, k2);
        }
    } else {
        assert(t.drop_last() == s.drop_last().remove(i));
        assert(t.last() == s.last());
        assert(s.drop_last()[i] == s[i]);
        assert(s.last().0 != s[i].0);
        assert(distinct_keys(s.drop_last())) by {
            assert forall|a: int, b: int| 0 <= a < b < s.drop_last().len() implies
                s.drop_last()[a].0 != s.drop_last()[b].0 by {
                assert(s.drop_last()[a] == s[a]);
                assert(s.drop_last()[b] == s[b]);
            }
        }
        lemma_lookup_removed(s.drop_last(), i, k2);
    }
}

/// A map from keys to values, as a list with no key twice.
pub struct Keyed<K: View, V: View> {
    entries: Vec<(K, V)>,
}

impl<K: View, V: View> Keyed<K, V> {
    /// The entries, as plain values.
    pub closed spec fn entries(&self) -> Seq<(K::V, V::V)> {
        self.entries@.map_values(|e: (K, V)| (e.0@, e.1@))
    }

    #[verifier::type_invariant]
    closed spec fn no_key_twice(&self) -> bool {
        distinct_keys(self.entries())
    }
}

impl<K: View, V: View> View for Keyed<K, V> {
    type V = Map<K::V, V::V>;

    closed spec fn view(&self) -> Map<K::V, V::V> {
        map_of(self.entries())
    }
}

impl<K: Same, V: View> Keyed<K, V> {
    /// Nothing remembered yet.
    pub fn new() -> (m: Self)
        ensures
            m@ == Map::<K::V, V::V>::empty(),
    {
        let m = Keyed { entries: Vec::new() };
        assert(m.entries() == Seq::<(K::V, V::V)>::empty());
        assert(map_of(m.entries()) =~= Map::<K::V, V::V>::empty());
        m
    }

    /// Where `key` sits in the list, if it is there.
    fn find(&self, key: &K) -> (at: Option<usize>)
        ensures
            match at {
                Some(i) => i < self.entries().len() && self.entries()[i as int].0 == key@,
                None => forall|i: int| 0 <= i < self.entries().len() ==> self.entries()[i].0 != key@,
            },
    {
        let mut i: usize = 0;
        while i < self.entries.len()
            invariant
                0 <= i <= self.entries@.len(),
                forall|j: int| 0 <= j < i ==> self.entries()[j].0 != key@,
            decreases self.entries@.len() - i,
        {
            if self.entries[i].0.same(key) {
                return Some(i);
            }
            i = i + 1;
        }
        None
    }

    /// The value held for `key`, if any.
    pub fn get(&self, key: &K) -> (r: Option<&V>)
        ensures
            r is Some == self@.contains_key(key@),
            r matches Some(v) ==> self@[key@] == v@,
    {
        proof {
            use_type_invariant(self);
        }
        match self.find(key) {
            Some(i) => {
                proof {
                    lemma_lookup_found(self.entries(), i as int);
                }
                Some(&self.entries[i].1)
            },
            None => {
                proof {
                    lemma_lookup_absent(self.entries(), key@);
                }
                None
            },
        }
    }

    /// Holds `value` for `key`, replacing whatever was held for it.
    pub fn insert(&mut self, key: K, value: V)
        ensures
            final(self)@ == old(self)@.insert(key@, value@),
    {
        proof {
            use_type_invariant(&*self);
        }
        let ghost before = self.entries();
        match self.find(&key) {
            Some(i) => {
                let mut entries: Vec<(K, V)> = Vec::new();
                std::mem::swap(&mut entries, &mut self.entries);
                entries.set(i, (key, value));
                proof {
                    let now = entries@.map_values(|e: (K, V)| (e.0@, e.1@));
                    assert(now =~= before.update(i as int, (before[i as int].0, value@)));
                    assert(distinct_keys(now)) by {
                        assert forall|a: int, b: int| 0 <= a < b < now.len() implies
                            now[a].0 != now[b].0 by {
                            assert(now[a].0 == before[a].0);
                            assert(now[b].0 == before[b].0);
                        }
                    }
                }
                self.entries = entries;
                proof {
                    assert(self.entries() =~= before.update(i as int, (before[i as int].0, value@)));
                    assert forall|k: K::V| #[trigger] lookup(self.entries(), k) == if k == key@ {
                        Some(value@)
                    } else {
                        lookup(before, k)
                    } by {
                        lemma_lookup_updated(before, i as int, value@, k);
                    }
                    assert(map_of(self.entries()) =~= map_of(before).insert(key@, value@));
                }
            },
            None => {
                let ghost k = key@;
                let ghost v = value@;
                let mut entries: Vec<(K, V)> = Vec::new();
                std::mem::swap(&mut entries, &mut self.entries);
                entries.push((key, value));
                proof {
                    let now = entries@.map_values(|e: (K, V)| (e.0@, e.1@));
                    assert(now =~= before.push((k, v)));
                    assert(distinct_keys(now)) by {
                        assert forall|a: int, b: int| 0 <= a < b < now.len() implies
                            now[a].0 != now[b].0 by {
                            if b == now.len() - 1 {
                                assert(now[a] == before[a]);
                            } else {
                                assert(now[a] == before[a]);
                                assert(now[b] == before[b]);
                            }
                        }
                    }
                }
                self.entries = entries;
                proof {
                    assert(self.entries() =~= before.push((k, v)));
                    assert forall|k2: K::V| #[trigger] lookup(self.entries(), k2) == if k2 == k {
                        Some(v)
                    } else {
                        lookup(before, k2)
                    } by {
                        lemma_lookup_pushed(before, k, v, k2);
                    }
                    assert(map_of(self.entries()) =~= map_of(before).insert(k, v));
                }
            },
        }
    }

    /// Forgets `key`. Forgetting one it never held is not an error.
    pub fn remove(&mut self, key: &K)
        ensures
            final(self)@ == old(self)@.remove(key@),
    {
        proof {
            use_type_invariant(&*self);
        }
        let ghost before = self.entries();
        match self.find(key) {
            Some(i) => {
                let mut entries: Vec<(K, V)> = Vec::new();
                std::mem::swap(&mut entries, &mut self.entries);
                entries.remove(i);
                proof {
                    let now = entries@.map_values(|e: (K, V)| (e.0@, e.1@));
                    assert(now =~= before.remove(i as int));
                    assert(distinct_keys(now)) by {
                        assert forall|a: int, b: int| 0 <= a < b < now.len() implies
                            now[a].0 != now[b].0 by {
                            let a2 = if a < i { a } else { a + 1 };
                            let b2 = if b < i { b } else { b + 1 };
                            assert(now[a] == before[a2]);
                            assert(now[b] == before[b2]);
                        }
                    }
                }
                self.entries = entries;
                proof {
                    assert(self.entries() =~= before.remove(i as int));
                    assert forall|k: K::V| #[trigger] lookup(self.entries(), k) == if k == key@ {
                        None
                    } else {
                        lookup(before, k)
                    } by {
                        lemma_lookup_removed(before, i as int, k);
                    }
                    assert(map_of(self.entries()) =~= map_of(before).remove(key@));
                }
            },
            None => {
                proof {
                    lemma_lookup_absent(before, key@);
                    assert(map_of(before) =~= map_of(before).remove(key@));
                }
            },
        }
    }
}

} // verus!
