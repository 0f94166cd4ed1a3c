use crate::util::str_eq;
use vstd::prelude::*;

verus! {

/// Looks a key up in an association list: the value beside the first
/// matching key.
pub open spec fn assoc<V>(s: Seq<(String, V)>, key: Seq<char>) -> Option<V>
    decreases s.len(),
{
    if s.len() == 0 {
        None
    } else if s[0].0@ == key {
        Some(s[0].1)
    } else {
        assoc(s.drop_first(), key)
    }
}

/// A key that `assoc` misses occurs nowhere in the list.
pub proof fn lemma_assoc_none<V>(s: Seq<(String, V)>, key: Seq<char>)
    requires
        assoc(s, key) is None,
    ensures
        forall|i: int| 0 <= i < s.len() ==> s[i].0@ != key,
    decreases s.len(),
{
    if s.len() > 0 {
        lemma_assoc_none(s.drop_first(), key);
        assert(forall|i: int| 1 <= i < s.len() ==> s[i] == s.drop_first()[i - 1]);
    }
}

/// Looking up after appending an entry: the old binding still wins where
/// there is one; otherwise the new entry is found under its own key.
pub proof fn lemma_assoc_push<V>(s: Seq<(String, V)>, key: Seq<char>, kv: (String, V))
    ensures
        assoc(s.push(kv), key) == if assoc(s, key) is Some {
            assoc(s, key)
        } else if kv.0@ == key {
            Some(kv.1)
        } else {
            None
        },
    decreases s.len(),
{
    if s.len() == 0 {
        assert(s.push(kv)[0] == kv);
        assert(s.push(kv).drop_first() =~= Seq::<(String, V)>::empty());
        if kv.0@ == key {
            assert(assoc(s.push(kv), key) == Some(kv.1));
        } else {
            assert(assoc(s.push(kv).drop_first(), key) is None);
            assert(assoc(s.push(kv), key) is None);
        }
    } else {
        lemma_assoc_push(s.drop_first(), key, kv);
        assert(s.push(kv)[0] == s[0]);
        assert(s.push(kv).drop_first() =~= s.drop_first().push(kv));
        if s[0].0@ == key {
            assert(assoc(s.push(kv), key) == Some(s[0].1));
            assert(assoc(s, key) == Some(s[0].1));
        } else {
            assert(assoc(s.push(kv), key) == assoc(s.drop_first().push(kv), key));
            assert(assoc(s, key) == assoc(s.drop_first(), key));
        }
    }
}

/// Looking up after replacing the value at one index, the keys being
/// pairwise distinct: the lookup changes under that key alone.
pub proof fn lemma_assoc_update<V>(s: Seq<(String, V)>, i: int, v: V, key: Seq<char>)
    requires
        0 <= i < s.len(),
        forall|p: int, q: int| 0 <= p < q < s.len() ==> s[p].0@ != s[q].0@,
    ensures
        assoc(s.update(i, (s[i].0, v)), key) == if s[i].0@ == key {
            Some(v)
        } else {
            assoc(s, key)
        },
    decreases s.len(),
{
    let t = s.update(i, (s[i].0, v));
    if i == 0 {
        assert(t[0] == (s[0].0, v));
        assert(t.drop_first() =~= s.drop_first());
    } else {
        assert(t[0] == s[0]);
        assert(t.drop_first() =~= s.drop_first().update(i - 1, (s.drop_first()[i - 1].0, v)));
        assert(forall|p: int, q: int|
            0 <= p < q < s.drop_first().len() ==> s.drop_first()[p].0@ != s.drop_first()[q].0@);
        lemma_assoc_update(s.drop_first(), i - 1, v, key);
        if s[0].0@ == key {
            assert(s[i].0@ != key);
        }
    }
}

/// A listing of values under string keys, each key held once. The engine
/// uses it wherever the source kept a hash map, so that lookups and
/// iteration have exact meanings.
pub struct Table<V> {
    pub entries: Vec<(String, V)>,
}

impl<V> Table<V> {
    /// Keys are pairwise distinct.
    pub open spec fn wf(self) -> bool {
        forall|i: int, j: int|
            0 <= i < j < self.entries@.len() ==> self.entries@[i].0@ != self.entries@[j].0@
    }

    /// The binding under a key.
    pub open spec fn spec_get(self, key: Seq<char>) -> Option<V> {
        assoc(self.entries@, key)
    }

    /// Whether a key is bound.
    pub open spec fn spec_contains(self, key: Seq<char>) -> bool {
        self.spec_get(key) is Some
    }

    /// An empty table.
    pub fn new() -> (r: Self)
        ensures
            r.entries@.len() == 0,
            r.wf(),
    {
        Table { entries: Vec::new() }
    }

    /// The index of the entry under a key, if the key is bound.
    pub fn find(&self, key: &str) -> (r: Option<usize>)
        ensures
            match r {
                Some(i) => i < self.entries@.len() && self.entries@[i as int].0@ == key@
                    && self.spec_get(key@) == Some(self.entries@[i as int].1),
                None => self.spec_get(key@) is None,
            },
    {
        proof {
            assert(self.entries@.skip(0) =~= self.entries@);
        }
        let mut i: usize = 0;
        while i < self.entries.len()
            invariant
                0 <= i <= self.entries@.len(),
                assoc(self.entries@, key@) == assoc(self.entries@.skip(i as int), key@),
            decreases self.entries@.len() - i,
        {
            proof {
                assert(self.entries@.skip(i as int).drop_first() =~= self.entries@.skip(i + 1));
                assert(self.entries@.skip(i as int)[0] == self.entries@[i as int]);
            }
            if str_eq(self.entries[i].0.as_str(), key) {
                return Some(i);
            }
            i += 1;
        }
        None
    }

    /// A borrow of the value under a key.
    pub fn get(&self, key: &str) -> (r: Option<&V>)
        ensures
            match r {
                Some(v) => self.spec_get(key@) == Some(*v),
                None => self.spec_get(key@) is None,
            },
    {
        match self.find(key) {
            Some(i) => Some(&self.entries[i].1),
            None => None,
        }
    }

    /// Replaces the value at an index, keeping the key.
    pub fn set_at(&mut self, i: usize, v: V)
        requires
            i < old(self).entries@.len(),
            old(self).wf(),
        ensures
            final(self).entries@ == old(self).entries@.update(
                i as int,
                (old(self).entries@[i as int].0, v),
            ),
            final(self).wf(),
            forall|k: Seq<char>|
                final(self).spec_get(k) == if old(self).entries@[i as int].0@ == k {
                    Some(v)
                } else {
                    old(self).spec_get(k)
                },
    {
        let key = self.entries[i].0.clone();
        self.entries.set(i, (key, v));
        proof {
            assert(self.entries@ =~= old(self).entries@.update(
                i as int,
                (old(self).entries@[i as int].0, v),
            ));
            assert forall|k: Seq<char>|
                self.spec_get(k) == if old(self).entries@[i as int].0@ == k {
                    Some(v)
                } else {
                    old(self).spec_get(k)
                } by {
                lemma_assoc_update(old(self).entries@, i as int, v, k);
            }
        }
    }

    /// Adds a binding under a key not yet bound.
    pub fn push(&mut self, key: String, v: V)
        requires
            old(self).spec_get(key@) is None,
            old(self).wf(),
        ensures
            final(self).entries@ == old(self).entries@.push((key, v)),
            final(self).wf(),
            forall|k: Seq<char>|
                final(self).spec_get(k) == if key@ == k {
                    Some(v)
                } else {
                    old(self).spec_get(k)
                },
    {
        proof {
            lemma_assoc_none(old(self).entries@, key@);
        }
        let ghost kv = (key, v);
        self.entries.push((key, v));
        proof {
            assert forall|k: Seq<char>|
                self.spec_get(k) == if kv.0@ == k {
                    Some(kv.1)
                } else {
                    old(self).spec_get(k)
                } by {
                lemma_assoc_push(old(self).entries@, k, kv);
            }
        }
    }

    /// How many keys are bound.
    pub fn len(&self) -> (r: usize)
        ensures
            r == self.entries@.len(),
    {
        self.entries.len()
    }
}

} // verus!
