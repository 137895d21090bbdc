//! Association lists with unique keys, viewed as finite maps.

use vstd::prelude::*;

verus! {

/// No two entries of `s` share a key.
pub open spec fn keys_unique<K, W>(s: Seq<(K, W)>) -> bool {
    forall|i: int, j: int|
        0 <= i < s.len() && 0 <= j < s.len() && i != j ==> #[trigger] s[i].0 != #[trigger] s[j].0
}

/// The map that an association list denotes; a later entry wins over an earlier one.
pub open spec fn pairs_to_map<K, W>(s: Seq<(K, W)>) -> Map<K, W>
    decreases s.len(),
{
    if s.len() == 0 {
        Map::empty()
    } else {
        pairs_to_map(s.drop_last()).insert(s.last().0, s.last().1)
    }
}

/// The map of an association list is finite.
pub proof fn lemma_map_finite<K, W>(s: Seq<(K, W)>)
    ensures
        pairs_to_map(s).dom().finite(),
    decreases s.len(),
{
    if s.len() > 0 {
        lemma_map_finite(s.drop_last());
    }
}

/// A key is in the map exactly where some entry bears it.
pub proof fn lemma_map_domain<K, W>(s: Seq<(K, W)>, k: K)
    ensures
        pairs_to_map(s).contains_key(k) <==> exists|i: int| 0 <= i < s.len() && #[trigger] s[i].0 == k,
    decreases s.len(),
{
    if s.len() > 0 {
        lemma_map_domain(s.drop_last(), k);
        if pairs_to_map(s).contains_key(k) && s.last().0 != k {
            let i = choose|i: int| 0 <= i < s.len() - 1 && #[trigger] s.drop_last()[i].0 == k;
            assert(s[i].0 == k);
        }
        if exists|i: int| 0 <= i < s.len() && #[trigger] s[i].0 == k {
            let i = choose|i: int| 0 <= i < s.len() && #[trigger] s[i].0 == k;
            if i < s.len() - 1 {
                assert(s.drop_last()[i].0 == k);
            }
        }
    }
}

/// With unique keys, each entry is what the map holds for its key.
pub proof fn lemma_map_at<K, W>(s: Seq<(K, W)>, i: int)
    requires
        keys_unique(s),
        0 <= i < s.len(),
    ensures
        pairs_to_map(s).contains_key(s[i].0),
        pairs_to_map(s)[s[i].0] == s[i].1,
    decreases s.len(),
{
    if i < s.len() - 1 {
        assert(s.drop_last()[i] == s[i]);
        lemma_map_at(s.drop_last(), i);
        assert(s.last().0 != s[i].0);
    }
}

/// With unique keys, the map has one key per entry.
pub proof fn lemma_map_len<K, W>(s: Seq<(K, W)>)
    requires
        keys_unique(s),
    ensures
        pairs_to_map(s).len() == s.len(),
    decreases s.len(),
{
    if s.len() > 0 {
        let p = s.drop_last();
        lemma_map_len(p);
        lemma_map_finite(p);
        lemma_map_domain(p, s.last().0);
        if pairs_to_map(p).contains_key(s.last().0) {
            let i = choose|i: int| 0 <= i < p.len() && #[trigger] p[i].0 == s.last().0;
            assert(s[i].0 == s[s.len() - 1].0);
        }
    }
}

/// Appending an entry with a new key adds that key to the map.
pub proof fn lemma_push<K, W>(s: Seq<(K, W)>, k: K, w: W)
    requires
        keys_unique(s),
        !pairs_to_map(s).contains_key(k),
    ensures
        keys_unique(s.push((k, w))),
        pairs_to_map(s.push((k, w))) == pairs_to_map(s).insert(k, w),
{
    let t = s.push((k, w));
    assert(t.drop_last() =~= s);
    assert forall|i: int, j: int|
        0 <= i < t.len() && 0 <= j < t.len() && i != j implies #[trigger] t[i].0 != #[trigger] t[j].0 by {
        if i == s.len() {
            lemma_map_domain(s, k);
            assert(s[j].0 == t[j].0);
        } else if j == s.len() {
            lemma_map_domain(s, k);
            assert(s[i].0 == t[i].0);
        }
    }
}

/// Replacing the value of an entry sets that key in the map.
pub proof fn lemma_update<K, W>(s: Seq<(K, W)>, i: int, w: W)
    requires
        keys_unique(s),
        0 <= i < s.len(),
    ensures
        keys_unique(s.update(i, (s[i].0, w))),
        pairs_to_map(s.update(i, (s[i].0, w))) == pairs_to_map(s).insert(s[i].0, w),
    decreases s.len(),
{
    let t = s.update(i, (s[i].0, w));
    assert forall|a: int, b: int|
        0 <= a < t.len() && 0 <= b < t.len() && a != b implies #[trigger] t[a].0 != #[trigger] t[b].0 by {
        assert(t[a].0 == s[a].0 && t[b].0 == s[b].0);
    }
    if i == s.len() - 1 {
        assert(t.drop_last() =~= s.drop_last());
    } else {
        let p = s.drop_last();
        assert(t.drop_last() =~= p.update(i, (p[i].0, w)));
        lemma_update(p, i, w);
        assert(s.last().0 != s[i].0);
        assert(pairs_to_map(t) =~= pairs_to_map(s).insert(s[i].0, w));
    }
}

/// Removing an entry removes its key from the map.
pub proof fn lemma_remove<K, W>(s: Seq<(K, W)>, i: int)
    requires
        keys_unique(s),
        0 <= i < s.len(),
    ensures
        keys_unique(s.remove(i)),
        pairs_to_map(s.remove(i)) == pairs_to_map(s).remove(s[i].0),
    decreases s.len(),
{
    let t = s.remove(i);
    assert forall|a: int, b: int|
        0 <= a < t.len() && 0 <= b < t.len() && a != b implies #[trigger] t[a].0 != #[trigger] t[b].0 by {
        let a2 = if a < i { a } else { a + 1 };
        let b2 = if b < i { b } else { b + 1 };
        assert(t[a] == s[a2] && t[b] == s[b2]);
    }
    let p = s.drop_last();
    if i == s.len() - 1 {
        assert(t =~= p);
        lemma_map_domain(p, s[i].0);
        if pairs_to_map(p).contains_key(s[i].0) {
            let j = choose|j: int| 0 <= j < p.len() && #[trigger] p[j].0 == s[i].0;
            assert(s[j].0 == s[i].0);
        }
        assert(pairs_to_map(t) =~= pairs_to_map(s).remove(s[i].0));
    } else {
        assert(t.drop_last() =~= p.remove(i));
        assert(t.last() == s.last());
        lemma_remove(p, i);
        assert(s.last().0 != s[i].0);
        assert(pairs_to_map(t) =~= pairs_to_map(s).remove(s[i].0));
    }
}

/// A map from marker names to values, kept as a list of entries with unique names.
pub struct NameMap<V> {
    entries: Vec<(String, V)>,
}

impl<V: View> NameMap<V> {
    /// The entries, by the view of their name and value, in storage order.
    pub closed spec fn pairs(&self) -> Seq<(Seq<char>, V::V)> {
        self.entries@.map_values(|e: (String, V)| (e.0@, e.1@))
    }

    pub open spec fn wf(&self) -> bool {
        keys_unique(self.pairs())
    }

    pub open spec fn map(&self) -> Map<Seq<char>, V::V> {
        pairs_to_map(self.pairs())
    }

    pub fn new() -> (r: Self)
        ensures
            r.wf(),
            r.pairs() == Seq::<(Seq<char>, V::V)>::empty(),
    {
        let r = NameMap { entries: Vec::new() };
        assert(r.pairs() =~= Seq::<(Seq<char>, V::V)>::empty());
        r
    }

    pub fn len(&self) -> (r: usize)
        ensures
            r == self.pairs().len(),
    {
        self.entries.len()
    }

    pub fn key_at(&self, i: usize) -> (r: &String)
        requires
            i < self.pairs().len(),
        ensures
            r@ == self.pairs()[i as int].0,
    {
        &self.entries[i].0
    }

    pub fn value_at(&self, i: usize) -> (r: &V)
        requires
            i < self.pairs().len(),
        ensures
            r@ == self.pairs()[i as int].1,
    {
        &self.entries[i].1
    }

    /// The position of the entry named `k`, if there is one.
    pub fn index_of(&self, k: &str) -> (r: Option<usize>)
        requires
            self.wf(),
        ensures
            match r {
                Some(i) => i < self.pairs().len() && self.pairs()[i as int].0 == k@
                    && self.map().contains_key(k@) && self.map()[k@] == self.pairs()[i as int].1,
                None => !self.map().contains_key(k@),
            },
    {
        let key = k.to_owned();
        let mut i: usize = 0;
        while i < self.entries.len()
            invariant
                self.wf(),
                key@ == k@,
                i <= self.entries@.len(),
                forall|j: int| 0 <= j < i ==> #[trigger] self.pairs()[j].0 != k@,
            decreases self.entries@.len() - i,
        {
            if self.entries[i].0 == key {
                proof {
                    lemma_map_at(self.pairs(), i as int);
                }
                return Some(i);
            }
            i = i + 1;
        }
        proof {
            lemma_map_domain(self.pairs(), k@);
        }
        None
    }

    pub fn contains(&self, k: &str) -> (r: bool)
        requires
            self.wf(),
        ensures
            r == self.map().contains_key(k@),
    {
        self.index_of(k).is_some()
    }

    pub fn get(&self, k: &str) -> (r: Option<&V>)
        requires
            self.wf(),
        ensures
            match r {
                Some(v) => self.map().contains_key(k@) && v@ == self.map()[k@],
                None => !self.map().contains_key(k@),
            },
    {
        match self.index_of(k) {
            Some(i) => Some(&self.entries[i].1),
            None => None,
        }
    }

    /// Sets the value of `k`, in place where `k` is present, else as a new last entry.
    pub fn insert(&mut self, k: String, v: V)
        requires
            old(self).wf(),
        ensures
            final(self).wf(),
            final(self).map() == old(self).map().insert(k@, v@),
    {
        match self.index_of(k.as_str()) {
            Some(i) => {
                proof {
                    lemma_update(self.pairs(), i as int, v@);
                }
                self.entries.set(i, (k, v));
                assert(self.pairs() =~= old(self).pairs().update(i as int, (k@, v@)));
            },
            None => {
                proof {
                    lemma_push(self.pairs(), k@, v@);
                }
                self.entries.push((k, v));
                assert(self.pairs() =~= old(self).pairs().push((k@, v@)));
            },
        }
    }

    /// Takes the entry at `i` out of the map.
    pub fn take_at(&mut self, i: usize) -> (r: (String, V))
        requires
            old(self).wf(),
            i < old(self).pairs().len(),
        ensures
            final(self).wf(),
            r.0@ == old(self).pairs()[i as int].0,
            r.1@ == old(self).pairs()[i as int].1,
            old(self).map().contains_key(r.0@),
            old(self).map()[r.0@] == r.1@,
            final(self).map() == old(self).map().remove(r.0@),
    {
        proof {
            lemma_remove(self.pairs(), i as int);
            lemma_map_at(self.pairs(), i as int);
        }
        let r = self.entries.remove(i);
        assert(self.pairs() =~= old(self).pairs().remove(i as int));
        r
    }

    /// Removes the entry named `k`, if there is one.
    pub fn remove(&mut self, k: &str)
        requires
            old(self).wf(),
        ensures
            final(self).wf(),
            final(self).map() == old(self).map().remove(k@),
    {
        match self.index_of(k) {
            Some(i) => {
                let _ = self.take_at(i);
            },
            None => {
                assert(self.map() =~= old(self).map().remove(k@));
            },
        }
    }

    pub fn clear(&mut self)
        ensures
            final(self).wf(),
            final(self).pairs() == Seq::<(Seq<char>, V::V)>::empty(),
    {
        self.entries.clear();
        assert(self.pairs() =~= Seq::<(Seq<char>, V::V)>::empty());
    }
}

} // verus!
