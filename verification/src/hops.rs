//! Next hops and equal-cost hop sets for routing.

use vstd::prelude::*;

verus! {

/// One next hop toward a destination.
#[derive(Debug, Clone, PartialEq, Eq, Hash)]
pub struct NextHop {
    /// Node ID of the next hop.
    pub node_id: u64,
    /// Cost to reach it.
    pub cost: u32,
    /// Optional interface or connection identifier.
    pub interface: Option<String>,
}

impl NextHop {
    /// A next hop without interface information.
    pub fn new(node_id: u64, cost: u32) -> (r: NextHop)
        ensures
            r.node_id == node_id && r.cost == cost && r.interface is None,
    {
        NextHop { node_id, cost, interface: None }
    }

    /// A next hop with an interface identifier.
    pub fn with_interface(node_id: u64, cost: u32, interface: String) -> (r: NextHop)
        ensures
            r.node_id == node_id && r.cost == cost && r.interface == Some(interface),
    {
        NextHop { node_id, cost, interface: Some(interface) }
    }
}

/// A copy of a next hop, equal to the original.
pub fn clone_next_hop(h: &NextHop) -> (r: NextHop)
    ensures
        r == *h,
{
    NextHop {
        node_id: h.node_id,
        cost: h.cost,
        interface: match &h.interface {
            Some(s) => Some(s.clone()),
            None => None,
        },
    }
}

/// An exact copy of a hop set: the same cost and the same hops in the
/// same order.
pub fn clone_hop_set(hs: &HopSet) -> (r: HopSet)
    ensures
        r.cost == hs.cost,
        r.hops@ == hs.hops@,
{
    let mut hops: Vec<NextHop> = Vec::new();
    let m = hs.hops.len();
    let mut k: usize = 0;
    while k < m
        invariant
            k <= m,
            m == hs.hops@.len(),
            hops@ == hs.hops@.subrange(0, k as int),
        decreases m - k,
    {
        hops.push(clone_next_hop(&hs.hops[k]));
        k = k + 1;
        proof {
            assert(hops@ =~= hs.hops@.subrange(0, k as int));
        }
    }
    proof {
        assert(hs.hops@.subrange(0, m as int) =~= hs.hops@);
        assert(Seq::<NextHop>::empty() =~= hs.hops@.subrange(0, 0));
    }
    HopSet { hops, cost: hs.cost }
}

/// The node IDs of a sequence of hops, in order.
pub open spec fn hop_ids(hops: Seq<NextHop>) -> Seq<u64> {
    hops.map_values(|h: NextHop| h.node_id)
}

/// Whether some hop in the sequence has the given node ID.
pub open spec fn hops_contain(hops: Seq<NextHop>, node_id: u64) -> bool {
    exists|i: int| 0 <= i < hops.len() && (#[trigger] hops[i]).node_id == node_id
}

/// The next hops of equal cost toward one destination, kept sorted by
/// node ID so that selection among them is reproducible.
#[derive(Debug, Clone, PartialEq, Eq)]
pub struct HopSet {
    /// The hops, strictly ascending by node ID.
    pub hops: Vec<NextHop>,
    /// The shared cost of these hops.
    pub cost: u32,
}

impl HopSet {
    /// Hops are strictly ascending by node ID, so each node appears once,
    /// and each hop carries the set's cost.
    pub open spec fn wf(self) -> bool {
        &&& forall|i: int, j: int|
            0 <= i < j < self.hops@.len() ==> (#[trigger] self.hops@[i]).node_id < (
            #[trigger] self.hops@[j]).node_id
        &&& forall|i: int| 0 <= i < self.hops@.len() ==> (#[trigger] self.hops@[i]).cost == self.cost
    }

    /// An empty hop set with the given cost.
    pub fn new(cost: u32) -> (r: HopSet)
        ensures
            r.wf(),
            r.hops@.len() == 0,
            r.cost == cost,
    {
        HopSet { hops: Vec::new(), cost }
    }

    /// A hop set holding exactly one hop, at that hop's cost.
    pub fn single(hop: NextHop) -> (r: HopSet)
        ensures
            r.wf(),
            r.hops@ =~= seq![hop],
            r.cost == hop.cost,
    {
        let cost = hop.cost;
        let mut hops: Vec<NextHop> = Vec::new();
        hops.push(hop);
        HopSet { hops, cost }
    }

    /// Add a hop. Succeeds exactly when its cost matches the set's cost;
    /// then the hop is in the set, and a hop that was already there for
    /// the same node stays as it was. A mismatched cost changes nothing.
    pub fn add_hop(&mut self, hop: NextHop) -> (r: bool)
        requires
            old(self).wf(),
        ensures
            final(self).wf(),
            r == (hop.cost == old(self).cost),
            final(self).cost == old(self).cost,
            !r ==> final(self).hops@ == old(self).hops@,
            r ==> (forall|n: u64|
                hops_contain(final(self).hops@, n) <==> (hops_contain(old(self).hops@, n) || n
                    == hop.node_id)),
    {
        if hop.cost != self.cost {
            return false;
        }
        let n = self.hops.len();
        let ghost old_hops = self.hops@;
        let mut i: usize = 0;
        loop
            invariant
                i <= n,
                n == self.hops@.len(),
                self == old(self),
                old_hops == self.hops@,
                forall|j: int| 0 <= j < i ==> (#[trigger] self.hops@[j]).node_id < hop.node_id,
            ensures
                i <= n,
                self == old(self),
                old_hops == self.hops@,
                forall|j: int| 0 <= j < i ==> (#[trigger] old_hops[j]).node_id < hop.node_id,
                i < n ==> old_hops[i as int].node_id >= hop.node_id,
            decreases n - i,
        {
            if i >= n {
                break;
            }
            if self.hops[i].node_id >= hop.node_id {
                break;
            }
            i = i + 1;
        }
        if i < n {
            let same = self.hops[i].node_id == hop.node_id;
            if same {
                proof {
                    assert(hops_contain(old_hops, hop.node_id));
                    assert forall|n2: u64| hops_contain(self.hops@, n2) <==> (hops_contain(
                        old_hops,
                        n2,
                    ) || n2 == hop.node_id) by {}
                }
                return true;
            }
        }
        self.hops.insert(i, hop);
        proof {
            let ins = i as int;
            assert(self.hops@ =~= old_hops.insert(ins, hop));
            assert(self.wf()) by {
                assert forall|a: int, b: int|
                    0 <= a < b < self.hops@.len() implies (#[trigger] self.hops@[a]).node_id < (
                    #[trigger] self.hops@[b]).node_id by {
                    if b < ins {
                        assert(self.hops@[a] == old_hops[a] && self.hops@[b] == old_hops[b]);
                    } else if a > ins {
                        assert(self.hops@[a] == old_hops[a - 1] && self.hops@[b] == old_hops[b
                            - 1]);
                    } else if a < ins && b == ins {
                        assert(self.hops@[a] == old_hops[a]);
                    } else if a == ins && b > ins {
                        assert(self.hops@[b] == old_hops[b - 1]);
                        assert(old_hops[b - 1].node_id >= old_hops[ins].node_id);
                    } else {
                        assert(self.hops@[a] == old_hops[a] && self.hops@[b] == old_hops[b - 1]);
                        assert(old_hops[b - 1].node_id >= old_hops[ins].node_id);
                    }
                }
                assert forall|a: int| 0 <= a < self.hops@.len() implies (
                #[trigger] self.hops@[a]).cost == self.cost by {
                    if a < ins {
                        assert(self.hops@[a] == old_hops[a]);
                    } else if a > ins {
                        assert(self.hops@[a] == old_hops[a - 1]);
                    }
                }
            }
            assert forall|n2: u64| hops_contain(self.hops@, n2) <==> (hops_contain(old_hops, n2)
                || n2 == hop.node_id) by {
                if hops_contain(self.hops@, n2) {
                    let w = choose|w: int|
                        0 <= w < self.hops@.len() && (#[trigger] self.hops@[w]).node_id == n2;
                    if w < ins {
                        assert(old_hops[w].node_id == n2);
                    } else if w > ins {
                        assert(old_hops[w - 1].node_id == n2);
                    }
                }
                if hops_contain(old_hops, n2) {
                    let w = choose|w: int|
                        0 <= w < old_hops.len() && (#[trigger] old_hops[w]).node_id == n2;
                    if w < ins {
                        assert(self.hops@[w].node_id == n2);
                    } else {
                        assert(self.hops@[w + 1].node_id == n2);
                    }
                }
                if n2 == hop.node_id {
                    assert(self.hops@[ins].node_id == n2);
                }
            }
        }
        true
    }

    /// Remove every hop with the given node ID; yields whether hops
    /// remain.
    pub fn remove_hop(&mut self, node_id: u64) -> (r: bool)
        requires
            old(self).wf(),
        ensures
            final(self).wf(),
            final(self).cost == old(self).cost,
            r == (final(self).hops@.len() > 0),
            forall|n: u64|
                hops_contain(final(self).hops@, n) <==> (hops_contain(old(self).hops@, n) && n
                    != node_id),
    {
        let ghost old_hops = self.hops@;
        let n = self.hops.len();
        let mut kept: Vec<NextHop> = Vec::new();
        let mut i: usize = 0;
        while i < n
            invariant
                i <= n,
                n == old_hops.len(),
                self.hops@ == old_hops,
                self.cost == old(self).cost,
                forall|a: int, b: int|
                    0 <= a < b < n ==> (#[trigger] old_hops[a]).node_id < (
                    #[trigger] old_hops[b]).node_id,
                forall|a: int| 0 <= a < n ==> (#[trigger] old_hops[a]).cost == self.cost,
                forall|a: int, b: int|
                    0 <= a < b < kept@.len() ==> (#[trigger] kept@[a]).node_id < (
                    #[trigger] kept@[b]).node_id,
                forall|a: int| 0 <= a < kept@.len() ==> (#[trigger] kept@[a]).cost == self.cost,
                forall|n2: u64|
                    hops_contain(kept@, n2) <==> (hops_contain(old_hops.subrange(0, i as int), n2)
                        && n2 != node_id),
            decreases n - i,
        {
            let ghost prefix = old_hops.subrange(0, i as int);
            let ghost kept_old = kept@;
            if self.hops[i].node_id != node_id {
                let h = clone_next_hop(&self.hops[i]);
                proof {
                    assert forall|a: int|
                        0 <= a < kept_old.len() implies (#[trigger] kept_old[a]).node_id
                        < old_hops[i as int].node_id by {
                        assert(hops_contain(kept_old, kept_old[a].node_id));
                        let w = choose|w: int|
                            0 <= w < prefix.len() && (#[trigger] prefix[w]).node_id
                                == kept_old[a].node_id;
                    }
                }
                kept.push(h);
            }
            i = i + 1;
            proof {
                let prefix2 = old_hops.subrange(0, i as int);
                assert forall|n2: u64| hops_contain(kept@, n2) <==> (hops_contain(prefix2, n2)
                    && n2 != node_id) by {
                    assert(prefix2 =~= prefix.push(old_hops[i - 1]));
                    if hops_contain(kept@, n2) {
                        let w = choose|w: int|
                            0 <= w < kept@.len() && (#[trigger] kept@[w]).node_id == n2;
                        if w < kept_old.len() {
                            assert(hops_contain(kept_old, n2));
                            let w2 = choose|w2: int|
                                0 <= w2 < prefix.len() && (#[trigger] prefix[w2]).node_id == n2;
                            assert(prefix2[w2].node_id == n2);
                        } else {
                            assert(kept@[w] == old_hops[i - 1]);
                            assert(prefix2[i - 1].node_id == n2);
                        }
                    }
                    if hops_contain(prefix2, n2) && n2 != node_id {
                        let w = choose|w: int|
                            0 <= w < prefix2.len() && (#[trigger] prefix2[w]).node_id == n2;
                        if w < prefix.len() {
                            assert(prefix[w].node_id == n2);
                            assert(hops_contain(kept_old, n2));
                            let w2 = choose|w2: int|
                                0 <= w2 < kept_old.len() && (#[trigger] kept_old[w2]).node_id
                                    == n2;
                            assert(kept@[w2].node_id == n2);
                        } else {
                            assert(old_hops[i - 1].node_id == n2);
                            assert(kept@.last().node_id == n2);
                        }
                    }
                }
            }
        }
        proof {
            assert(old_hops.subrange(0, n as int) =~= old_hops);
        }
        self.hops = kept;
        self.hops.len() > 0
    }

    /// Whether the set holds no hop.
    pub fn is_empty(&self) -> (r: bool)
        ensures
            r == (self.hops@.len() == 0),
    {
        self.hops.len() == 0
    }

    /// The number of hops in the set.
    pub fn len(&self) -> (r: usize)
        ensures
            r == self.hops@.len(),
    {
        self.hops.len()
    }

    /// The node IDs of all hops, ascending.
    pub fn node_ids(&self) -> (r: Vec<u64>)
        ensures
            r@ == hop_ids(self.hops@),
    {
        let mut out: Vec<u64> = Vec::new();
        let n = self.hops.len();
        let mut i: usize = 0;
        while i < n
            invariant
                i <= n,
                n == self.hops@.len(),
                out@ == hop_ids(self.hops@).subrange(0, i as int),
            decreases n - i,
        {
            out.push(self.hops[i].node_id);
            i = i + 1;
            assert(out@ =~= hop_ids(self.hops@).subrange(0, i as int));
        }
        assert(out@ =~= hop_ids(self.hops@));
        out
    }

    /// Whether some hop has the given node ID.
    pub fn contains_node(&self, node_id: u64) -> (r: bool)
        ensures
            r == hops_contain(self.hops@, node_id),
    {
        let n = self.hops.len();
        let mut i: usize = 0;
        while i < n
            invariant
                i <= n,
                n == self.hops@.len(),
                forall|j: int| 0 <= j < i ==> (#[trigger] self.hops@[j]).node_id != node_id,
            decreases n - i,
        {
            if self.hops[i].node_id == node_id {
                return true;
            }
            i = i + 1;
        }
        proof {
            if hops_contain(self.hops@, node_id) {
                let w = choose|w: int|
                    0 <= w < self.hops@.len() && (#[trigger] self.hops@[w]).node_id == node_id;
            }
        }
        false
    }

    /// Build a hop set from arbitrary hops: the cost becomes the minimum
    /// cost among them (zero when there are none), and exactly the nodes
    /// offered at that minimum cost are members.
    pub fn from_hops(input: Vec<NextHop>) -> (r: HopSet)
        ensures
            r.wf(),
            input@.len() == 0 ==> r.cost == 0 && r.hops@.len() == 0,
            forall|i: int| 0 <= i < input@.len() ==> r.cost <= (#[trigger] input@[i]).cost,
            input@.len() > 0 ==> exists|i: int|
                0 <= i < input@.len() && (#[trigger] input@[i]).cost == r.cost,
            forall|n: u64|
                hops_contain(r.hops@, n) <==> exists|i: int|
                    0 <= i < input@.len() && (#[trigger] input@[i]).node_id == n && input@[i].cost
                        == r.cost,
    {
        let n = input.len();
        if n == 0 {
            let r = HopSet::new(0);
            proof {
                assert forall|n2: u64| !hops_contain(r.hops@, n2) by {}
            }
            return r;
        }
        let mut min_cost: u32 = input[0].cost;
        let mut i: usize = 1;
        while i < n
            invariant
                1 <= i <= n,
                n == input@.len(),
                forall|j: int| 0 <= j < i ==> min_cost <= (#[trigger] input@[j]).cost,
                exists|j: int| 0 <= j < i && (#[trigger] input@[j]).cost == min_cost,
            decreases n - i,
        {
            if input[i].cost < min_cost {
                min_cost = input[i].cost;
            }
            i = i + 1;
        }
        let mut set = HopSet::new(min_cost);
        let mut j: usize = 0;
        while j < n
            invariant
                j <= n,
                n == input@.len(),
                set.wf(),
                set.cost == min_cost,
                forall|k: int| 0 <= k < n ==> min_cost <= (#[trigger] input@[k]).cost,
                exists|k: int| 0 <= k < n && (#[trigger] input@[k]).cost == min_cost,
                forall|n2: u64|
                    hops_contain(set.hops@, n2) <==> exists|k: int|
                        0 <= k < j && (#[trigger] input@[k]).node_id == n2 && input@[k].cost
                            == min_cost,
            decreases n - j,
        {
            let ghost set_old = set.hops@;
            if input[j].cost == min_cost {
                let h = clone_next_hop(&input[j]);
                let added = set.add_hop(h);
            }
            j = j + 1;
            proof {
                assert forall|n2: u64| hops_contain(set.hops@, n2) <==> exists|k: int|
                    0 <= k < j && (#[trigger] input@[k]).node_id == n2 && input@[k].cost
                        == min_cost by {
                    if hops_contain(set.hops@, n2) {
                        if hops_contain(set_old, n2) {
                            let w = choose|w: int|
                                0 <= w < j - 1 && (#[trigger] input@[w]).node_id == n2
                                    && input@[w].cost == min_cost;
                        } else {
                            assert(input@[j - 1].node_id == n2 && input@[j - 1].cost == min_cost);
                        }
                    }
                    if exists|k: int|
                        0 <= k < j && (#[trigger] input@[k]).node_id == n2 && input@[k].cost
                            == min_cost {
                        let k = choose|k: int|
                            0 <= k < j && (#[trigger] input@[k]).node_id == n2 && input@[k].cost
                                == min_cost;
                        if k < j - 1 {
                            assert(hops_contain(set_old, n2));
                        }
                    }
                }
            }
        }
        set
    }
}

} // verus!
