//! Cluster membership, possibly in joint consensus, and the quorum
//! computation that drives commit advancement: the greatest value that a
//! strict majority of every constituent node set has reached.

use vstd::prelude::*;

verus! {

use crate::NodeId;
use crate::assoc::AssocMap;

/// No node id occurs twice.
pub open spec fn seq_unique(s: Seq<NodeId>) -> bool {
    forall|i: int, j: int| 0 <= i < j < s.len() ==> s[i] != s[j]
}

/// How many members of `members` have a reported value of at least `v`.
/// Ids absent from `m` count as not satisfying.
pub open spec fn count_ge(members: Seq<NodeId>, m: Map<NodeId, u64>, v: u64) -> int
    decreases members.len(),
{
    if members.len() == 0 {
        0
    } else {
        count_ge(members.drop_last(), m, v) + if m.dom().contains(members.last())
            && m[members.last()] >= v {
            1int
        } else {
            0int
        }
    }
}

/// A strict majority of `members` has reported at least `v`.
pub open spec fn set_has_quorum_ge(members: Seq<NodeId>, m: Map<NodeId, u64>, v: u64) -> bool {
    2 * count_ge(members, m, v) > members.len()
}

pub proof fn lemma_count_ge_bounds(members: Seq<NodeId>, m: Map<NodeId, u64>, v: u64)
    ensures
        0 <= count_ge(members, m, v) <= members.len(),
    decreases members.len(),
{
    if members.len() > 0 {
        lemma_count_ge_bounds(members.drop_last(), m, v);
    }
}

/// A positive count names at least one satisfying member.
pub proof fn lemma_count_ge_pos(members: Seq<NodeId>, m: Map<NodeId, u64>, v: u64)
    requires
        count_ge(members, m, v) > 0,
    ensures
        exists|i: int|
            0 <= i < members.len() && m.dom().contains(#[trigger] members[i])
                && m[members[i]] >= v,
    decreases members.len(),
{
    if members.len() > 0 {
        if m.dom().contains(members.last()) && m[members.last()] >= v {
            assert(members[members.len() - 1] == members.last());
        } else {
            lemma_count_ge_pos(members.drop_last(), m, v);
            let i = choose|i: int|
                0 <= i < members.drop_last().len() && m.dom().contains(
                    #[trigger] members.drop_last()[i],
                ) && m[members.drop_last()[i]] >= v;
            assert(members[i] == members.drop_last()[i]);
        }
    }
}

/// A zero count means no member satisfies the level.
pub proof fn lemma_count_ge_zero(members: Seq<NodeId>, m: Map<NodeId, u64>, v: u64)
    requires
        count_ge(members, m, v) == 0,
    ensures
        forall|i: int|
            0 <= i < members.len()
                ==> !(m.dom().contains(#[trigger] members[i]) && m[members[i]] >= v),
    decreases members.len(),
{
    if members.len() > 0 {
        lemma_count_ge_bounds(members.drop_last(), m, v);
        lemma_count_ge_zero(members.drop_last(), m, v);
        assert forall|i: int| 0 <= i < members.len()
            implies !(m.dom().contains(#[trigger] members[i]) && m[members[i]] >= v) by {
            if i < members.len() - 1 {
                assert(members.drop_last()[i] == members[i]);
                assert(!(m.dom().contains(members.drop_last()[i])
                    && m[members.drop_last()[i]] >= v));
            } else {
                assert(members[i] == members.last());
            }
        }
    }
}

/// If every member counted at level `hi` also reaches level `lo`, the
/// count at `lo` is no smaller.
pub proof fn lemma_count_ge_superset(
    members: Seq<NodeId>,
    m: Map<NodeId, u64>,
    hi: u64,
    lo: u64,
)
    requires
        forall|i: int|
            0 <= i < members.len() && m.dom().contains(#[trigger] members[i])
                && m[members[i]] >= hi ==> m[members[i]] >= lo,
    ensures
        count_ge(members, m, lo) >= count_ge(members, m, hi),
    decreases members.len(),
{
    if members.len() > 0 {
        assert(forall|i: int| 0 <= i < members.len() - 1
            ==> #[trigger] members.drop_last()[i] == members[i]);
        lemma_count_ge_superset(members.drop_last(), m, hi, lo);
        assert(members[members.len() - 1] == members.last());
    }
}

/// The least value reported by a member counted at level `v`, if any.
pub open spec fn min_counted(members: Seq<NodeId>, m: Map<NodeId, u64>, v: u64) -> Option<u64>
    decreases members.len(),
{
    if members.len() == 0 {
        Option::<u64>::None
    } else {
        let rest = min_counted(members.drop_last(), m, v);
        let last_val = if m.dom().contains(members.last()) && m[members.last()] >= v {
            Option::<u64>::Some(m[members.last()])
        } else {
            Option::<u64>::None
        };
        match (rest, last_val) {
            (Option::<u64>::None, lv) => lv,
            (rv, Option::<u64>::None) => rv,
            (Option::<u64>::Some(a), Option::<u64>::Some(b)) => if a <= b {
                Option::<u64>::Some(a)
            } else {
                Option::<u64>::Some(b)
            },
        }
    }
}

pub proof fn lemma_min_counted(members: Seq<NodeId>, m: Map<NodeId, u64>, v: u64)
    ensures
        min_counted(members, m, v) is None ==> count_ge(members, m, v) == 0,
        min_counted(members, m, v) matches Some(w) ==> {
            &&& w >= v
            &&& exists|i: int|
                0 <= i < members.len() && m.dom().contains(#[trigger] members[i])
                    && m[members[i]] == w
            &&& forall|i: int|
                0 <= i < members.len() && m.dom().contains(#[trigger] members[i])
                    && m[members[i]] >= v ==> m[members[i]] >= w
        },
    decreases members.len(),
{
    if members.len() > 0 {
        lemma_min_counted(members.drop_last(), m, v);
        assert(members[members.len() - 1] == members.last());
        let rest = min_counted(members.drop_last(), m, v);
        let lastok = m.dom().contains(members.last()) && m[members.last()] >= v;
        match min_counted(members, m, v) {
            None => {},
            Some(w) => {
                match rest {
                    Some(wr) => {
                        let i = choose|i: int|
                            0 <= i < members.drop_last().len() && m.dom().contains(
                                #[trigger] members.drop_last()[i],
                            ) && m[members.drop_last()[i]] == wr;
                        assert(members.drop_last()[i] == members[i]);
                        assert(m.dom().contains(members[i]) && m[members[i]] == wr);
                        if w != wr {
                            assert(lastok && w == m[members.last()]);
                        }
                    },
                    None => {
                        lemma_count_ge_zero(members.drop_last(), m, v);
                        assert(lastok && w == m[members.last()]);
                    },
                }
                assert(exists|i: int|
                    0 <= i < members.len() && m.dom().contains(#[trigger] members[i])
                        && m[members[i]] == w);
                assert forall|i: int|
                    0 <= i < members.len() && m.dom().contains(#[trigger] members[i])
                        && m[members[i]] >= v implies m[members[i]] >= w by {
                    if i < members.len() - 1 {
                        assert(members.drop_last()[i] == members[i]);
                        match rest {
                            Some(wr) => {
                                assert(m[members.drop_last()[i]] >= wr);
                                assert(w <= wr);
                            },
                            None => {
                                assert(!(m.dom().contains(members.drop_last()[i])
                                    && m[members.drop_last()[i]] >= v));
                            },
                        }
                    } else {
                        assert(members[i] == members.last());
                        assert(lastok ==> m[members.last()] >= w);
                    }
                }
            },
        }
    }
}

/// Either a single node set, or, during a configuration change, the
/// joint pair of the outgoing and the incoming set.
pub struct MembershipConfig {
    pub members: Vec<NodeId>,
    pub members_after_consensus: Option<Vec<NodeId>>,
}

impl MembershipConfig {
    /// Well-formed: no constituent set lists a node twice.
    pub open spec fn wf(self) -> bool {
        &&& seq_unique(self.members@)
        &&& match self.members_after_consensus {
            Some(ms) => seq_unique(ms@),
            None => true,
        }
    }

    /// The node is in the union of all constituent sets.
    pub open spec fn contains_node(self, id: NodeId) -> bool {
        self.members@.contains(id) || match self.members_after_consensus {
            Some(ms) => ms@.contains(id),
            None => false,
        }
    }

    /// In every constituent set, a strict majority has reported at least
    /// `v`. Under joint consensus both sets must agree independently.
    pub open spec fn quorum_accepts(self, m: Map<NodeId, u64>, v: u64) -> bool {
        &&& set_has_quorum_ge(self.members@, m, v)
        &&& match self.members_after_consensus {
            Some(ms) => set_has_quorum_ge(ms@, m, v),
            None => true,
        }
    }

    /// Any accepted value is dominated by some reported value that is
    /// itself accepted: the witness for maximality over all of `u64`.
    pub proof fn lemma_quorum_value_bounded(self, m: Map<NodeId, u64>, v: u64) -> (w: u64)
        requires
            self.wf(),
            self.quorum_accepts(m, v),
        ensures
            w >= v,
            self.quorum_accepts(m, w),
            exists|id: NodeId| m.dom().contains(id) && m[id] == w,
    {
        lemma_count_ge_bounds(self.members@, m, v);
        lemma_min_counted(self.members@, m, v);
        assert(count_ge(self.members@, m, v) > 0);
        let w0 = choose|w0: u64| min_counted(self.members@, m, v) == Option::<u64>::Some(w0);
        let w = match self.members_after_consensus {
            Some(ms) => {
                lemma_count_ge_bounds(ms@, m, v);
                lemma_min_counted(ms@, m, v);
                assert(count_ge(ms@, m, v) > 0);
                let w1 = choose|w1: u64| min_counted(ms@, m, v) == Option::<u64>::Some(w1);
                if w1 < w0 {
                    w1
                } else {
                    w0
                }
            },
            None => w0,
        };
        lemma_count_ge_superset(self.members@, m, v, w);
        match self.members_after_consensus {
            Some(ms) => lemma_count_ge_superset(ms@, m, v, w),
            None => (),
        }
        w
    }

    /// The union of all constituent sets, each node once.
    pub fn all_nodes(&self) -> (r: Vec<NodeId>)
        requires
            self.wf(),
        ensures
            seq_unique(r@),
            forall|id: NodeId| #[trigger] r@.contains(id) <==> self.contains_node(id),
    {
        let mut out: Vec<NodeId> = Vec::new();
        let n = self.members.len();
        let mut i: usize = 0;
        while i < n
            invariant
                n == self.members@.len(),
                i <= n,
                out@ == self.members@.take(i as int),
            decreases n - i,
        {
            out.push(self.members[i]);
            proof {
                assert(out@ =~= self.members@.take(i as int + 1));
            }
            i += 1;
        }
        proof {
            assert(out@ =~= self.members@);
        }
        match &self.members_after_consensus {
            Some(ms) => {
                let k = ms.len();
                let mut j: usize = 0;
                while j < k
                    invariant
                        k == ms@.len(),
                        j <= k,
                        seq_unique(out@),
                        self.members_after_consensus == Some(*ms),
                        forall|id: NodeId| #[trigger] out@.contains(id)
                            <==> self.members@.contains(id) || ms@.take(j as int).contains(id),
                    decreases k - j,
                {
                    let id = ms[j];
                    let ghost prev = out@;
                    if !vec_contains(&out, id) {
                        out.push(id);
                    }
                    proof {
                        lemma_push_contains(prev, id);
                        assert(ms@.take(j as int + 1) =~= ms@.take(j as int).push(ms@[j as int]));
                        lemma_push_contains(ms@.take(j as int), ms@[j as int]);
                        if !prev.contains(id) {
                            assert(seq_unique(out@)) by {
                                assert(forall|l: int| 0 <= l < prev.len()
                                    ==> #[trigger] out@[l] == prev[l]);
                            }
                        }
                    }
                    j += 1;
                }
                proof {
                    assert(ms@.take(k as int) =~= ms@);
                }
                out
            },
            None => out,
        }
    }

    /// Whether the node sits in any constituent set.
    pub fn is_member(&self, id: NodeId) -> (r: bool)
        ensures
            r == self.contains_node(id),
    {
        if vec_contains(&self.members, id) {
            return true;
        }
        match &self.members_after_consensus {
            Some(ms) => vec_contains(ms, id),
            None => false,
        }
    }

    /// Whether `v` has a strict majority in every constituent set.
    pub fn quorum_check(&self, map: &AssocMap<u64>, v: u64) -> (r: bool)
        requires
            map.wf(),
        ensures
            r == self.quorum_accepts(map@, v),
    {
        if !set_quorum_ge(&self.members, map, v) {
            return false;
        }
        match &self.members_after_consensus {
            Some(ms) => set_quorum_ge(ms, map, v),
            None => true,
        }
    }

    /// The largest value `v` such that in every constituent set a strict
    /// majority of that set's members have reported at least `v`; `None`
    /// when no value can satisfy the quorums.
    pub fn greatest_majority_value(&self, map: &AssocMap<u64>) -> (r: Option<u64>)
        requires
            self.wf(),
            map.wf(),
        ensures
            match r {
                Some(v) => {
                    &&& self.quorum_accepts(map@, v)
                    &&& forall|v2: u64| v2 > v ==> !self.quorum_accepts(map@, v2)
                    &&& exists|id: NodeId| map@.dom().contains(id) && map@[id] == v
                },
                None => forall|v: u64| !self.quorum_accepts(map@, v),
            },
    {
        let n = map.len();
        let mut best: Option<u64> = None;
        let mut i: usize = 0;
        while i < n
            invariant
                self.wf(),
                map.wf(),
                n == map.kv().len(),
                i <= n,
                match best {
                    Some(b) => {
                        &&& self.quorum_accepts(map@, b)
                        &&& exists|j: int| 0 <= j < map.kv().len() && (#[trigger] map.kv()[j]).1 == b
                        &&& forall|j: int| 0 <= j < i
                            ==> (self.quorum_accepts(map@, (#[trigger] map.kv()[j]).1)
                                ==> map.kv()[j].1 <= b)
                    },
                    None => forall|j: int| 0 <= j < i
                        ==> !self.quorum_accepts(map@, (#[trigger] map.kv()[j]).1),
                },
            decreases n - i,
        {
            let v = *map.val_at(i);
            if self.quorum_check(map, v) {
                best = match best {
                    Some(b) => if v > b {
                        Some(v)
                    } else {
                        Some(b)
                    },
                    None => Some(v),
                };
            }
            i += 1;
        }
        proof {
            match best {
                Some(b) => {
                    assert forall|v2: u64| v2 > b implies !self.quorum_accepts(map@, v2) by {
                        if self.quorum_accepts(map@, v2) {
                            let w = self.lemma_quorum_value_bounded(map@, v2);
                            let id = choose|id: NodeId| map@.dom().contains(id) && map@[id] == w;
                            map.lemma_view_in_kv(id);
                            let j = choose|j: int|
                                0 <= j < map.kv().len() && map.kv()[j].0 == id;
                            map.lemma_kv_in_view(j);
                            assert(map.kv()[j].1 == w);
                            assert(false);
                        }
                    }
                    let j = choose|j: int|
                        0 <= j < map.kv().len() && (#[trigger] map.kv()[j]).1 == b;
                    map.lemma_kv_in_view(j);
                    assert(map@.dom().contains(map.kv()[j].0) && map@[map.kv()[j].0] == b);
                },
                None => {
                    assert forall|v2: u64| !self.quorum_accepts(map@, v2) by {
                        if self.quorum_accepts(map@, v2) {
                            let w = self.lemma_quorum_value_bounded(map@, v2);
                            let id = choose|id: NodeId| map@.dom().contains(id) && map@[id] == w;
                            map.lemma_view_in_kv(id);
                            let j = choose|j: int|
                                0 <= j < map.kv().len() && map.kv()[j].0 == id;
                            map.lemma_kv_in_view(j);
                            assert(map.kv()[j].1 == w);
                            assert(false);
                        }
                    }
                },
            }
        }
        best
    }
}

/// How many of `members` have an entry of at least `v` in the map.
fn count_set_ge(members: &Vec<NodeId>, map: &AssocMap<u64>, v: u64) -> (c: usize)
    requires
        map.wf(),
    ensures
        c == count_ge(members@, map@, v),
        c <= members@.len(),
{
    let n = members.len();
    let mut c: usize = 0;
    let mut i: usize = 0;
    while i < n
        invariant
            map.wf(),
            n == members@.len(),
            i <= n,
            c <= i,
            c == count_ge(members@.take(i as int), map@, v),
        decreases n - i,
    {
        let id = members[i];
        let hit = match map.get(id) {
            Some(val) => *val >= v,
            None => false,
        };
        proof {
            assert(members@.take(i as int + 1).drop_last() =~= members@.take(i as int));
            assert(members@.take(i as int + 1).last() == members@[i as int]);
        }
        if hit {
            c += 1;
        }
        i += 1;
    }
    proof {
        assert(members@.take(n as int) =~= members@);
    }
    c
}

/// Whether a strict majority of `members` has an entry of at least `v`.
fn set_quorum_ge(members: &Vec<NodeId>, map: &AssocMap<u64>, v: u64) -> (r: bool)
    requires
        map.wf(),
    ensures
        r == set_has_quorum_ge(members@, map@, v),
{
    let c = count_set_ge(members, map, v);
    let n = members.len();
    proof {
        assert(c > n / 2 <==> 2 * (c as int) > n as int) by (nonlinear_arith);
    }
    c > n / 2
}

/// Linear scan for a node id.
fn vec_contains(v: &Vec<NodeId>, id: NodeId) -> (r: bool)
    ensures
        r == v@.contains(id),
{
    let n = v.len();
    let mut i: usize = 0;
    while i < n
        invariant
            n == v@.len(),
            i <= n,
            forall|j: int| 0 <= j < i ==> v@[j] != id,
        decreases n - i,
    {
        if v[i] == id {
            assert(v@[i as int] == id);
            return true;
        }
        i += 1;
    }
    false
}

/// Pushing an element adds exactly that element to a sequence's contents.
pub proof fn lemma_push_contains(s: Seq<NodeId>, x: NodeId)
    ensures
        forall|y: NodeId| #[trigger] s.push(x).contains(y) <==> s.contains(y) || y == x,
{
    assert forall|y: NodeId| #[trigger] s.push(x).contains(y)
        implies s.contains(y) || y == x by {
        let i = choose|i: int| 0 <= i < s.push(x).len() && s.push(x)[i] == y;
        if i < s.len() {
            assert(s[i] == y);
        }
    }
    assert forall|y: NodeId| s.contains(y) || y == x
        implies #[trigger] s.push(x).contains(y) by {
        if s.contains(y) {
            let i = choose|i: int| 0 <= i < s.len() && s[i] == y;
            assert(s.push(x)[i] == y);
        } else {
            assert(s.push(x)[s.len() as int] == y);
        }
    }
}

} // verus!
