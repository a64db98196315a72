//! A string-keyed association map, the in-memory representation shared by
//! the queue store and the key-value store.
//!
//! Entries are held in a vector with pairwise-distinct keys; the
//! mathematical view is a finite `Map` from key characters to the deep view
//! of the stored value.
use vstd::prelude::*;

use crate::strutil::str_eq;

verus! {

/// Interpretation of an entry sequence as a finite map; a later entry for
/// the same key overrides an earlier one.
pub open spec fn entries_as_map<V: DeepView>(s: Seq<(String, V)>) -> Map<Seq<char>, V::V>
    decreases s.len(),
{
    if s.len() == 0 {
        Map::empty()
    } else {
        entries_as_map(s.drop_last()).insert(s.last().0@, s.last().1.deep_view())
    }
}

/// No two entries share a key.
pub open spec fn distinct_keys<V>(s: Seq<(String, V)>) -> bool {
    forall|i: int, j: int| 0 <= i < j < s.len() ==> s[i].0@ != s[j].0@
}

proof fn lemma_map_contains<V: DeepView>(s: Seq<(String, V)>, k: Seq<char>)
    ensures
        entries_as_map(s).contains_key(k) <==> exists|i: int| 0 <= i < s.len() && s[i].0@ == k,
    decreases s.len(),
{
    if s.len() > 0 {
        lemma_map_contains(s.drop_last(), k);
        if s.last().0@ == k {
            assert(s[s.len() - 1].0@ == k);
        } else {
            if exists|i: int| 0 <= i < s.len() && s[i].0@ == k {
                let i = choose|i: int| 0 <= i < s.len() && s[i].0@ == k;
                assert(s.drop_last()[i].0@ == k);
            }
            if exists|i: int| 0 <= i < s.drop_last().len() && s.drop_last()[i].0@ == k {
                let i = choose|i: int| 0 <= i < s.drop_last().len() && s.drop_last()[i].0@ == k;
                assert(s[i].0@ == k);
            }
        }
    }
}

proof fn lemma_map_index<V: DeepView>(s: Seq<(String, V)>, i: int)
    requires
        distinct_keys(s),
        0 <= i < s.len(),
    ensures
        entries_as_map(s).contains_key(s[i].0@),
        entries_as_map(s)[s[i].0@] == s[i].1.deep_view(),
    decreases s.len(),
{
    lemma_map_contains(s, s[i].0@);
    if i < s.len() - 1 {
        assert(distinct_keys(s.drop_last()));
        assert(s.drop_last()[i] == s[i]);
        lemma_map_index(s.drop_last(), i);
        assert(s.last().0@ != s[i].0@);
    }
}

proof fn lemma_map_dom_len<V: DeepView>(s: Seq<(String, V)>)
    requires
        distinct_keys(s),
    ensures
        entries_as_map(s).dom().finite(),
        entries_as_map(s).dom().len() == s.len(),
    decreases s.len(),
{
    if s.len() > 0 {
        assert(distinct_keys(s.drop_last()));
        lemma_map_dom_len(s.drop_last());
        lemma_map_contains(s.drop_last(), s.last().0@);
        assert(forall|i: int|
            0 <= i < s.drop_last().len() ==> s.drop_last()[i].0@ != s.last().0@);
        assert(!entries_as_map(s.drop_last()).contains_key(s.last().0@));
        assert(entries_as_map(s).dom() =~= entries_as_map(s.drop_last()).dom().insert(
            s.last().0@,
        ));
    }
}

proof fn lemma_distinct_remove<V: DeepView>(s: Seq<(String, V)>, i: int)
    requires
        distinct_keys(s),
        0 <= i < s.len(),
    ensures
        distinct_keys(s.remove(i)),
{
    let t = s.remove(i);
    assert forall|a: int, b: int| 0 <= a < b < t.len() implies t[a].0@ != t[b].0@ by {
        let a0 = if a < i {
            a
        } else {
            a + 1
        };
        let b0 = if b < i {
            b
        } else {
            b + 1
        };
        assert(t[a] == s[a0]);
        assert(t[b] == s[b0]);
    }
}

proof fn lemma_map_remove_idx<V: DeepView>(s: Seq<(String, V)>, i: int)
    requires
        distinct_keys(s),
        0 <= i < s.len(),
    ensures
        entries_as_map(s.remove(i)) == entries_as_map(s).remove(s[i].0@),
    decreases s.len(),
{
    let t = s.remove(i);
    let k = s[i].0@;
    if i == s.len() - 1 {
        assert(t =~= s.drop_last());
        lemma_map_contains(s.drop_last(), k);
        assert(forall|j: int| 0 <= j < s.drop_last().len() ==> s.drop_last()[j].0@ != k);
        assert(!entries_as_map(s.drop_last()).contains_key(k));
        assert(entries_as_map(s.drop_last()).insert(k, s[i].1.deep_view()).remove(k)
            =~= entries_as_map(s.drop_last()));
    } else {
        assert(distinct_keys(s.drop_last()));
        lemma_map_remove_idx(s.drop_last(), i);
        assert(t.len() == s.len() - 1);
        assert(t.last() == s.last());
        assert(t.drop_last() =~= s.drop_last().remove(i));
        assert(s.drop_last()[i] == s[i]);
        assert(s.last().0@ != k);
        assert(entries_as_map(t) == entries_as_map(s.drop_last()).remove(k).insert(
            s.last().0@,
            s.last().1.deep_view(),
        ));
        assert(entries_as_map(s.drop_last()).remove(k).insert(
            s.last().0@,
            s.last().1.deep_view(),
        ) =~= entries_as_map(s.drop_last()).insert(
            s.last().0@,
            s.last().1.deep_view(),
        ).remove(k));
    }
}

/// In-memory mapping owned by a store: string keys, opaque values.
pub struct StrMap<V> {
    entries: Vec<(String, V)>,
}

impl<V: DeepView> View for StrMap<V> {
    type V = Map<Seq<char>, V::V>;

    closed spec fn view(&self) -> Map<Seq<char>, V::V> {
        entries_as_map(self.entries@)
    }
}

impl<V: DeepView> StrMap<V> {
    /// Keys are pairwise distinct.
    pub closed spec fn wf(self) -> bool {
        distinct_keys(self.entries@)
    }

    /// The keys in insertion order.
    pub closed spec fn keys(self) -> Seq<Seq<char>> {
        Seq::new(self.entries@.len(), |i: int| self.entries@[i].0@)
    }

    /// An empty mapping.
    pub fn new() -> (r: Self)
        ensures
            r@ == Map::<Seq<char>, V::V>::empty(),
            r.wf(),
            r.keys() == Seq::<Seq<char>>::empty(),
    {
        let r = StrMap { entries: Vec::new() };
        proof {
            assert(r.keys() =~= Seq::<Seq<char>>::empty());
        }
        r
    }

    fn find(&self, k: &str) -> (r: Option<usize>)
        ensures
            match r {
                Some(i) => i < self.entries@.len() && self.entries@[i as int].0@ == k@,
                None => forall|i: int| 0 <= i < self.entries@.len() ==> self.entries@[i].0@ != k@,
            },
    {
        let mut i: usize = 0;
        while i < self.entries.len()
            invariant
                0 <= i <= self.entries@.len(),
                forall|j: int| 0 <= j < i ==> self.entries@[j].0@ != k@,
            decreases self.entries@.len() - i,
        {
            if str_eq(self.entries[i].0.as_str(), k) {
                return Some(i);
            }
            i += 1;
        }
        None
    }

    /// Look a value up without mutating anything.
    pub fn get(&self, k: &str) -> (r: Option<&V>)
        requires
            self.wf(),
        ensures
            r is Some <==> self@.contains_key(k@),
            r matches Some(v) ==> v.deep_view() == self@[k@],
    {
        proof {
            lemma_map_contains(self.entries@, k@);
        }
        match self.find(k) {
            Some(i) => {
                proof {
                    lemma_map_index(self.entries@, i as int);
                }
                Some(&self.entries[i].1)
            },
            None => None,
        }
    }

    /// Insert or overwrite the entry for `k`.
    pub fn insert(&mut self, k: String, v: V)
        requires
            old(self).wf(),
        ensures
            final(self).wf(),
            final(self)@ == old(self)@.insert(k@, v.deep_view()),
    {
        let ghost kv = k@;
        let ghost dv = v.deep_view();
        let ghost s0 = self.entries@;
        match self.find(k.as_str()) {
            Some(i) => {
                proof {
                    lemma_distinct_remove(s0, i as int);
                    lemma_map_remove_idx(s0, i as int);
                }
                let _prev = self.entries.remove(i);
                proof {
                    assert forall|j: int|
                        0 <= j < self.entries@.len() implies self.entries@[j].0@ != kv by {
                        let j0 = if j < i as int {
                            j
                        } else {
                            j + 1
                        };
                        assert(self.entries@[j] == s0[j0]);
                    }
                }
            },
            None => {},
        }
        let ghost s1 = self.entries@;
        proof {
            assert(entries_as_map(s1) == old(self)@.remove(kv) || entries_as_map(s1)
                == old(self)@);
            assert(forall|j: int| 0 <= j < s1.len() ==> s1[j].0@ != kv);
        }
        self.entries.push((k, v));
        proof {
            let s2 = self.entries@;
            assert(s2.drop_last() =~= s1);
            assert(s2.last().0@ == kv);
            assert(s2.last().1.deep_view() == dv);
            assert(entries_as_map(s2) == entries_as_map(s1).insert(kv, dv));
            if entries_as_map(s1) == old(self)@.remove(kv) {
                assert(old(self)@.remove(kv).insert(kv, dv) =~= old(self)@.insert(kv, dv));
            }
            assert(final(self)@ == old(self)@.insert(kv, dv));
            assert forall|a: int, b: int| 0 <= a < b < s2.len() implies s2[a].0@ != s2[b].0@ by {
                if b < s2.len() - 1 {
                    assert(s2[a] == s1[a]);
                    assert(s2[b] == s1[b]);
                } else {
                    assert(s2[a] == s1[a]);
                }
            }
        }
    }

    /// Remove the entry for `k`, handing its value back if one was present.
    pub fn remove(&mut self, k: &str) -> (r: Option<V>)
        requires
            old(self).wf(),
        ensures
            final(self).wf(),
            final(self)@ == old(self)@.remove(k@),
            r is Some <==> old(self)@.contains_key(k@),
            r matches Some(v) ==> v.deep_view() == old(self)@[k@],
            !old(self)@.contains_key(k@) ==> *final(self) == *old(self),
    {
        let ghost s0 = self.entries@;
        proof {
            lemma_map_contains(s0, k@);
        }
        match self.find(k) {
            Some(i) => {
                proof {
                    lemma_map_index(s0, i as int);
                    lemma_map_remove_idx(s0, i as int);
                    lemma_distinct_remove(s0, i as int);
                }
                let pair = self.entries.remove(i);
                Some(pair.1)
            },
            None => {
                proof {
                    assert(old(self)@.remove(k@) =~= old(self)@);
                }
                None
            },
        }
    }

    /// Number of entries, equal to the cardinality of the map's domain.
    pub fn len(&self) -> (r: usize)
        requires
            self.wf(),
        ensures
            r == self@.dom().len(),
            r == self.keys().len(),
    {
        proof {
            lemma_map_dom_len(self.entries@);
        }
        self.entries.len()
    }

    /// The `i`-th key, for snapshot iteration.
    pub fn key_at(&self, i: usize) -> (r: &String)
        requires
            self.wf(),
            i < self.keys().len(),
        ensures
            r@ == self.keys()[i as int],
            self@.contains_key(r@),
    {
        proof {
            lemma_map_contains(self.entries@, self.entries@[i as int].0@);
        }
        &self.entries[i].0
    }

    /// The value stored under the `i`-th key.
    pub fn val_at(&self, i: usize) -> (r: &V)
        requires
            self.wf(),
            i < self.keys().len(),
        ensures
            self@.contains_key(self.keys()[i as int]),
            r.deep_view() == self@[self.keys()[i as int]],
    {
        proof {
            lemma_map_index(self.entries@, i as int);
        }
        &self.entries[i].1
    }

    /// How the key sequence and the map view correspond: the keys are
    /// distinct and enumerate the domain exactly.
    pub proof fn lemma_view(self)
        requires
            self.wf(),
        ensures
            self@.dom().finite(),
            self@.dom().len() == self.keys().len(),
            forall|i: int, j: int|
                0 <= i < j < self.keys().len() ==> self.keys()[i] != self.keys()[j],
            forall|i: int|
                0 <= i < self.keys().len() ==> self@.contains_key(#[trigger] self.keys()[i]),
            forall|k: Seq<char>|
                #[trigger] self@.contains_key(k) ==> exists|i: int|
                    0 <= i < self.keys().len() && self.keys()[i] == k,
    {
        lemma_map_dom_len(self.entries@);
        assert forall|i: int|
            0 <= i < self.keys().len() implies self@.contains_key(#[trigger] self.keys()[i]) by {
            lemma_map_index(self.entries@, i);
        }
        assert forall|k: Seq<char>| #[trigger] self@.contains_key(k) implies exists|i: int|
            0 <= i < self.keys().len() && self.keys()[i] == k by {
            lemma_map_contains(self.entries@, k);
            let i = choose|i: int| 0 <= i < self.entries@.len() && self.entries@[i].0@ == k;
            assert(self.keys()[i] == k);
        }
    }
}

} // verus!
