//! A small verified association map keyed by post ids, abstracted as a
//! `Map<Seq<u8>, V>`. Both the post registry and the vote ledger are built
//! on it.

use vstd::prelude::*;
use crate::types::PostId;

verus! {

/// Compares two post ids byte for byte.
pub(crate) fn id_eq(a: &PostId, b: &PostId) -> (r: bool)
    ensures
        r == (a@ == b@),
{
    let mut i: usize = 0;
    while i < 32
        invariant
            0 <= i <= 32,
            forall|k: int| 0 <= k < i ==> a@[k] == b@[k],
        decreases 32 - i,
    {
        if a[i] != b[i] {
            assert(a@[i as int] != b@[i as int]);
            return false;
        }
        i = i + 1;
    }
    proof {
        assert(a@ =~= b@);
    }
    true
}

/// True when no two entries share a key.
pub open spec fn distinct_keys<V>(s: Seq<(PostId, V)>) -> bool {
    forall|i: int, j: int| 0 <= i < j < s.len() ==> s[i].0@ != s[j].0@
}

/// The map an entry sequence stands for; later entries win.
pub open spec fn entries_to_map<V>(s: Seq<(PostId, V)>) -> Map<Seq<u8>, V>
    decreases s.len(),
{
    if s.len() == 0 {
        Map::empty()
    } else {
        entries_to_map(s.drop_last()).insert(s.last().0@, s.last().1)
    }
}

/// A key is in the map exactly when some entry carries it.
pub proof fn lemma_entries_to_map_dom<V>(s: Seq<(PostId, V)>, k: Seq<u8>)
    ensures
        entries_to_map(s).contains_key(k) <==> exists|i: int| 0 <= i < s.len() && s[i].0@ == k,
    decreases s.len(),
{
    if s.len() == 0 {
    } else {
        lemma_entries_to_map_dom(s.drop_last(), k);
        if s.last().0@ == k {
            assert(s[s.len() - 1].0@ == k);
        } else {
            if entries_to_map(s).contains_key(k) {
                let i = choose|i: int| 0 <= i < s.drop_last().len() && s.drop_last()[i].0@ == k;
                assert(s[i].0@ == k);
            }
            if exists|i: int| 0 <= i < s.len() && s[i].0@ == k {
                let i = choose|i: int| 0 <= i < s.len() && s[i].0@ == k;
                assert(i < s.len() - 1);
                assert(s.drop_last()[i].0@ == k);
            }
        }
    }
}

/// With distinct keys, the entry at `i` gives the map's value at its key.
pub proof fn lemma_entries_to_map_get<V>(s: Seq<(PostId, V)>, i: int)
    requires
        distinct_keys(s),
        0 <= i < s.len(),
    ensures
        entries_to_map(s).contains_key(s[i].0@),
        entries_to_map(s)[s[i].0@] == s[i].1,
    decreases s.len(),
{
    if i == s.len() - 1 {
    } else {
        assert(distinct_keys(s.drop_last()));
        lemma_entries_to_map_get(s.drop_last(), i);
        assert(s.drop_last()[i] == s[i]);
        assert(s[i].0@ != s.last().0@);
    }
}

/// Appending an entry inserts its key.
pub proof fn lemma_entries_to_map_push<V>(s: Seq<(PostId, V)>, p: (PostId, V))
    ensures
        entries_to_map(s.push(p)) == entries_to_map(s).insert(p.0@, p.1),
{
    assert(s.push(p).drop_last() =~= s);
    assert(s.push(p).last() == p);
}

/// With distinct keys, removing the entry at `i` removes its key.
pub proof fn lemma_entries_to_map_remove<V>(s: Seq<(PostId, V)>, i: int)
    requires
        distinct_keys(s),
        0 <= i < s.len(),
    ensures
        entries_to_map(s.remove(i)) == entries_to_map(s).remove(s[i].0@),
    decreases s.len(),
{
    let k = s[i].0@;
    if i == s.len() - 1 {
        assert(s.remove(i) =~= s.drop_last());
        lemma_entries_to_map_dom(s.drop_last(), k);
        assert(forall|j: int| 0 <= j < s.drop_last().len() ==> s.drop_last()[j].0@ != k);
        assert(!entries_to_map(s.drop_last()).contains_key(k));
        assert(entries_to_map(s.drop_last()).insert(k, s[i].1).remove(k) =~= entries_to_map(
            s.drop_last(),
        ));
    } else {
        assert(distinct_keys(s.drop_last()));
        lemma_entries_to_map_remove(s.drop_last(), i);
        assert(s.remove(i).drop_last() =~= s.drop_last().remove(i));
        assert(s.remove(i).last() == s.last());
        assert(k != s.last().0@);
        assert(entries_to_map(s.drop_last()).remove(k).insert(s.last().0@, s.last().1)
            =~= entries_to_map(s.drop_last()).insert(s.last().0@, s.last().1).remove(k));
    }
}

/// An association map from post ids to values, with unique keys.
pub struct IdMap<V> {
    entries: Vec<(PostId, V)>,
}

impl<V> IdMap<V> {
    /// Keys are pairwise distinct.
    pub closed spec fn wf(&self) -> bool {
        distinct_keys(self.entries@)
    }

    /// The map this store holds.
    pub closed spec fn as_map(&self) -> Map<Seq<u8>, V> {
        entries_to_map(self.entries@)
    }

    pub fn new() -> (r: Self)
        ensures
            r.wf(),
            r.as_map() == Map::<Seq<u8>, V>::empty(),
    {
        IdMap { entries: Vec::new() }
    }

    /// The index of the entry carrying `id`, if any.
    fn position(&self, id: &PostId) -> (r: Option<usize>)
        ensures
            match r {
                Some(i) => i < self.entries@.len() && self.entries@[i as int].0@ == id@,
                None => forall|j: int| 0 <= j < self.entries@.len() ==> self.entries@[j].0@ != id@,
            },
    {
        let mut i: usize = 0;
        while i < self.entries.len()
            invariant
                0 <= i <= self.entries@.len(),
                forall|j: int| 0 <= j < i ==> self.entries@[j].0@ != id@,
            decreases self.entries@.len() - i,
        {
            if id_eq(&self.entries[i].0, id) {
                return Some(i);
            }
            i = i + 1;
        }
        None
    }

    pub fn contains(&self, id: &PostId) -> (r: bool)
        requires
            self.wf(),
        ensures
            r == self.as_map().contains_key(id@),
    {
        proof {
            lemma_entries_to_map_dom(self.entries@, id@);
        }
        self.position(id).is_some()
    }

    pub fn get(&self, id: &PostId) -> (r: Option<&V>)
        requires
            self.wf(),
        ensures
            match r {
                Some(v) => self.as_map().contains_key(id@) && *v == self.as_map()[id@],
                None => !self.as_map().contains_key(id@),
            },
    {
        proof {
            lemma_entries_to_map_dom(self.entries@, id@);
        }
        match self.position(id) {
            Some(i) => {
                proof {
                    lemma_entries_to_map_get(self.entries@, i as int);
                }
                Some(&self.entries[i].1)
            },
            None => None,
        }
    }

    /// Inserts `v` under `id`, replacing any existing entry.
    pub fn insert(&mut self, id: PostId, v: V)
        requires
            old(self).wf(),
        ensures
            final(self).wf(),
            final(self).as_map() == old(self).as_map().insert(id@, v),
    {
        let ghost m0 = self.as_map();
        match self.position(&id) {
            Some(i) => {
                proof {
                    lemma_entries_to_map_remove(self.entries@, i as int);
                }
                let _replaced = self.entries.remove(i);
                proof {
                    lemma_entries_to_map_push(self.entries@, (id, v));
                }
                self.entries.push((id, v));
                proof {
                    assert(m0.remove(id@).insert(id@, v) =~= m0.insert(id@, v));
                }
            },
            None => {
                proof {
                    lemma_entries_to_map_push(self.entries@, (id, v));
                }
                self.entries.push((id, v));
            },
        }
    }

    /// Removes the entry under `id`, returning its value if present.
    pub fn remove(&mut self, id: &PostId) -> (r: Option<V>)
        requires
            old(self).wf(),
        ensures
            final(self).wf(),
            final(self).as_map() == old(self).as_map().remove(id@),
            match r {
                Some(v) => old(self).as_map().contains_key(id@) && v == old(self).as_map()[id@],
                None => !old(self).as_map().contains_key(id@),
            },
    {
        proof {
            lemma_entries_to_map_dom(self.entries@, id@);
        }
        match self.position(id) {
            Some(i) => {
                proof {
                    lemma_entries_to_map_get(self.entries@, i as int);
                    lemma_entries_to_map_remove(self.entries@, i as int);
                }
                let entry = self.entries.remove(i);
                Some(entry.1)
            },
            None => {
                proof {
                    assert(self.as_map().remove(id@) =~= self.as_map());
                }
                None
            },
        }
    }
}

} // verus!
