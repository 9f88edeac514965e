//! A small association map from node ids to values, backed by a vector of
//! key/value pairs whose keys are unique. Its contracts speak of the
//! abstract `Map` view, so callers never see the vector.

use vstd::prelude::*;

verus! {

use crate::NodeId;

/// The abstract map described by a sequence of key/value pairs.
pub open spec fn map_of<V>(s: Seq<(NodeId, V)>) -> Map<NodeId, V>
    decreases s.len(),
{
    if s.len() == 0 {
        Map::empty()
    } else {
        map_of(s.drop_last()).insert(s.last().0, s.last().1)
    }
}

/// No key occurs twice in the pair sequence.
pub open spec fn keys_unique<V>(s: Seq<(NodeId, V)>) -> bool {
    forall|i: int, j: int| 0 <= i < j < s.len() ==> s[i].0 != s[j].0
}

/// A key is in the abstract map exactly when some pair carries it.
pub proof fn lemma_map_of_dom<V>(s: Seq<(NodeId, V)>)
    ensures
        forall|k: NodeId| #[trigger] map_of(s).dom().contains(k)
            <==> exists|i: int| 0 <= i < s.len() && s[i].0 == k,
    decreases s.len(),
{
    if s.len() > 0 {
        lemma_map_of_dom(s.drop_last());
        assert forall|k: NodeId| #[trigger] map_of(s).dom().contains(k)
            implies exists|i: int| 0 <= i < s.len() && s[i].0 == k by {
            if k == s.last().0 {
                assert(s[s.len() - 1].0 == k);
            } else {
                assert(map_of(s.drop_last()).dom().contains(k));
                let i = choose|i: int| 0 <= i < s.drop_last().len() && s.drop_last()[i].0 == k;
                assert(s[i] == s.drop_last()[i]);
                assert(s[i].0 == k);
            }
        }
        assert forall|k: NodeId| (exists|i: int| 0 <= i < s.len() && s[i].0 == k)
            implies #[trigger] map_of(s).dom().contains(k) by {
            let i = choose|i: int| 0 <= i < s.len() && s[i].0 == k;
            if i < s.len() - 1 {
                assert(s.drop_last()[i].0 == k);
                assert(exists|j: int| 0 <= j < s.drop_last().len() && s.drop_last()[j].0 == k);
                assert(map_of(s.drop_last()).dom().contains(k));
            } else {
                assert(k == s.last().0);
            }
        }
    }
}

/// With unique keys, the abstract map sends each listed key to its value.
pub proof fn lemma_map_of_val<V>(s: Seq<(NodeId, V)>, i: int)
    requires
        keys_unique(s),
        0 <= i < s.len(),
    ensures
        map_of(s).dom().contains(s[i].0),
        map_of(s)[s[i].0] == s[i].1,
    decreases s.len(),
{
    if i < s.len() - 1 {
        assert(keys_unique(s.drop_last()));
        lemma_map_of_val(s.drop_last(), i);
        assert(s.drop_last()[i] == s[i]);
        assert(s[i].0 != s.last().0);
    }
}

/// Replacing the value at one position updates the abstract map at that
/// pair's key.
pub proof fn lemma_map_of_update<V>(s: Seq<(NodeId, V)>, i: int, p: (NodeId, V))
    requires
        keys_unique(s),
        0 <= i < s.len(),
        p.0 == s[i].0,
    ensures
        map_of(s.update(i, p)) == map_of(s).insert(p.0, p.1),
    decreases s.len(),
{
    let t = s.update(i, p);
    if i == s.len() - 1 {
        assert(t.drop_last() =~= s.drop_last());
        assert(t.last() == p);
        assert(map_of(t) =~= map_of(s).insert(p.0, p.1));
    } else {
        assert(keys_unique(s.drop_last()));
        assert(s.drop_last()[i] == s[i]);
        lemma_map_of_update(s.drop_last(), i, p);
        assert(t.drop_last() =~= s.drop_last().update(i, p));
        assert(t.last() == s.last());
        assert(p.0 != s.last().0);
        assert(map_of(t) =~= map_of(s).insert(p.0, p.1));
    }
}

/// Removing one position removes that pair's key from the abstract map.
pub proof fn lemma_map_of_remove<V>(s: Seq<(NodeId, V)>, i: int)
    requires
        keys_unique(s),
        0 <= i < s.len(),
    ensures
        map_of(s.remove(i)) == map_of(s).remove(s[i].0),
    decreases s.len(),
{
    let k = s[i].0;
    if i == s.len() - 1 {
        assert(s.remove(i) =~= s.drop_last());
        lemma_map_of_dom(s.drop_last());
        assert(!map_of(s.drop_last()).dom().contains(k)) by {
            if map_of(s.drop_last()).dom().contains(k) {
                let j = choose|j: int| 0 <= j < s.drop_last().len() && s.drop_last()[j].0 == k;
                assert(s[j].0 == s[i].0);
            }
        }
        assert(map_of(s.remove(i)) =~= map_of(s).remove(k));
    } else {
        assert(keys_unique(s.drop_last()));
        lemma_map_of_remove(s.drop_last(), i);
        assert(s.remove(i).drop_last() =~= s.drop_last().remove(i));
        assert(s.remove(i).last() == s.last());
        assert(k != s.last().0);
        assert(map_of(s.remove(i)) =~= map_of(s).remove(k));
    }
}

/// Association map with unique keys and a `Map` view.
pub struct AssocMap<V> {
    entries: Vec<(NodeId, V)>,
}

impl<V> View for AssocMap<V> {
    type V = Map<NodeId, V>;

    open spec fn view(&self) -> Map<NodeId, V> {
        map_of(self.kv())
    }
}

impl<V> AssocMap<V> {
    /// The underlying pair sequence, in insertion order.
    pub closed spec fn kv(self) -> Seq<(NodeId, V)> {
        self.entries@
    }

    /// Well-formed: no key occurs twice.
    pub open spec fn wf(self) -> bool {
        keys_unique(self.kv())
    }

    pub fn new() -> (r: Self)
        ensures
            r.wf(),
            r.kv().len() == 0,
            r@ == Map::<NodeId, V>::empty(),
    {
        AssocMap { entries: Vec::new() }
    }

    pub fn len(&self) -> (n: usize)
        ensures
            n == self.kv().len(),
    {
        self.entries.len()
    }

    pub fn key_at(&self, i: usize) -> (k: NodeId)
        requires
            i < self.kv().len(),
        ensures
            k == self.kv()[i as int].0,
    {
        self.entries[i].0
    }

    pub fn val_at(&self, i: usize) -> (v: &V)
        requires
            i < self.kv().len(),
        ensures
            *v == self.kv()[i as int].1,
    {
        &self.entries[i].1
    }

    /// Each listed pair is in the view; useful to callers that walk the map.
    pub proof fn lemma_kv_in_view(&self, i: int)
        requires
            self.wf(),
            0 <= i < self.kv().len(),
        ensures
            self@.dom().contains(self.kv()[i].0),
            self@[self.kv()[i].0] == self.kv()[i].1,
    {
        lemma_map_of_val(self.kv(), i);
    }

    /// Each key of the view is listed at some position.
    pub proof fn lemma_view_in_kv(&self, k: NodeId)
        requires
            self@.dom().contains(k),
        ensures
            exists|i: int| 0 <= i < self.kv().len() && self.kv()[i].0 == k,
    {
        lemma_map_of_dom(self.kv());
    }

    pub fn get(&self, k: NodeId) -> (r: Option<&V>)
        requires
            self.wf(),
        ensures
            match r {
                Some(v) => self@.dom().contains(k) && *v == self@[k],
                None => !self@.dom().contains(k),
            },
    {
        let n = self.entries.len();
        let mut i: usize = 0;
        while i < n
            invariant
                n == self.entries@.len(),
                i <= n,
                keys_unique(self.entries@),
                forall|j: int| 0 <= j < i ==> self.entries@[j].0 != k,
            decreases n - i,
        {
            if self.entries[i].0 == k {
                proof {
                    lemma_map_of_val(self.entries@, i as int);
                }
                return Some(&self.entries[i].1);
            }
            i += 1;
        }
        proof {
            lemma_map_of_dom(self.entries@);
        }
        None
    }

    pub fn contains_key(&self, k: NodeId) -> (r: bool)
        requires
            self.wf(),
        ensures
            r == self@.dom().contains(k),
    {
        self.get(k).is_some()
    }

    /// Insert the value under the key, replacing any previous value.
    pub fn upsert(&mut self, k: NodeId, v: V)
        requires
            old(self).wf(),
        ensures
            final(self).wf(),
            final(self)@ == old(self)@.insert(k, v),
    {
        let ghost orig = self.entries@;
        let n = self.entries.len();
        let mut i: usize = 0;
        while i < n
            invariant
                self.entries@ == orig,
                orig == old(self).entries@,
                n == orig.len(),
                i <= n,
                keys_unique(orig),
                forall|j: int| 0 <= j < i ==> orig[j].0 != k,
            decreases n - i,
        {
            if self.entries[i].0 == k {
                proof {
                    lemma_map_of_update(orig, i as int, (k, v));
                }
                self.entries[i] = (k, v);
                proof {
                    assert(self.entries@ == orig.update(i as int, (k, v)));
                    assert(keys_unique(self.entries@)) by {
                        assert(forall|j: int| 0 <= j < self.entries@.len()
                            ==> (#[trigger] self.entries@[j]).0 == orig[j].0);
                    }
                    assert(self@ == map_of(orig).insert(k, v));
                }
                return;
            }
            i += 1;
        }
        self.entries.push((k, v));
        proof {
            assert(self.entries@.drop_last() =~= orig);
            assert(keys_unique(self.entries@));
        }
    }

    /// Remove the key, if present.
    pub fn remove(&mut self, k: NodeId)
        requires
            old(self).wf(),
        ensures
            final(self).wf(),
            final(self)@ == old(self)@.remove(k),
    {
        let ghost orig = self.entries@;
        let n = self.entries.len();
        let mut i: usize = 0;
        while i < n
            invariant
                self.entries@ == orig,
                orig == old(self).entries@,
                n == orig.len(),
                i <= n,
                keys_unique(orig),
                forall|j: int| 0 <= j < i ==> orig[j].0 != k,
            decreases n - i,
        {
            if self.entries[i].0 == k {
                proof {
                    lemma_map_of_remove(orig, i as int);
                }
                self.entries.remove(i);
                proof {
                    assert(self.entries@ == orig.remove(i as int));
                    assert(keys_unique(self.entries@)) by {
                        assert(forall|j: int| 0 <= j < self.entries@.len()
                            ==> (#[trigger] self.entries@[j]) == orig[if j < i { j } else { j + 1 }]);
                    }
                    assert(self@ == map_of(orig).remove(k));
                }
                return;
            }
            i += 1;
        }
        proof {
            lemma_map_of_dom(orig);
            assert(!map_of(orig).dom().contains(k));
            assert(map_of(orig).remove(k) =~= map_of(orig));
        }
    }
}

} // verus!
