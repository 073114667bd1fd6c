//! The link-state topology database: one record per known node, freshness
//! by modular sequence comparison, aging, and shortest-path computation
//! from the local node.

use vstd::prelude::*;

use crate::clock::unix_now_secs;
use crate::topo_msg::spec_seq_newer;
use crate::topo_msg::NeighborInfo;
use crate::topo_msg::TopologyUpdate;
use crate::topo_msg::DEFAULT_TOPOLOGY_TTL;

verus! {

/// Records older than this many seconds are ignored and evicted, the
/// local one excepted.
pub const MAX_TOPOLOGY_AGE_SECS: u64 = 300;

/// One link of a node.
#[derive(Debug, Clone, PartialEq, Eq)]
pub struct LinkInfo {
    /// Cost of the link.
    pub cost: u32,
    /// Optional address information.
    pub addr: Option<String>,
    /// When the link was last seen, seconds since the Unix epoch.
    pub last_seen: u64,
}

/// Everything known about one node.
#[derive(Debug, Clone, PartialEq, Eq)]
pub struct NodeInfo {
    /// The node's ID.
    pub node_id: u64,
    /// Its latest sequence number.
    pub sequence_number: u64,
    /// When this record was last replaced.
    pub last_updated: u64,
    /// Its neighbors with their links.
    pub neighbors: Vec<(u64, LinkInfo)>,
}

/// A computed route from the local node.
#[derive(Debug, Clone, PartialEq, Eq, Structural)]
pub struct ComputedRoute {
    /// The destination.
    pub dst_node: u64,
    /// The neighbor to hand the frame to.
    pub next_hop: u64,
    /// Total path cost.
    pub total_cost: u32,
    /// Number of hops on the path.
    pub hop_count: u8,
}

/// Counters describing the database.
#[derive(Debug, Clone, PartialEq, Eq, Structural)]
pub struct TopologyStats {
    /// How many nodes are known.
    pub total_nodes: usize,
    /// How many routes are computed.
    pub total_routes: usize,
    /// The local sequence counter.
    pub local_sequence: u64,
}

/// The record of `node_id`, when one is stored.
pub open spec fn spec_node_lookup(nodes: Seq<NodeInfo>, node_id: u64) -> Option<NodeInfo>
    decreases nodes.len(),
{
    if nodes.len() == 0 {
        None
    } else if nodes[0].node_id == node_id {
        Some(nodes[0])
    } else {
        spec_node_lookup(nodes.subrange(1, nodes.len() as int), node_id)
    }
}

/// The route to `dst`, when one is computed.
pub open spec fn spec_route_lookup(routes: Seq<ComputedRoute>, dst: u64) -> Option<ComputedRoute>
    decreases routes.len(),
{
    if routes.len() == 0 {
        None
    } else if routes[0].dst_node == dst {
        Some(routes[0])
    } else {
        spec_route_lookup(routes.subrange(1, routes.len() as int), dst)
    }
}

/// One step of a walk: `from` lists `to` as a neighbor with link cost
/// `cost`.
pub open spec fn spec_edge(nodes: Seq<NodeInfo>, from: u64, to: u64, cost: u32) -> bool {
    spec_node_lookup(nodes, from) matches Some(info) && exists|j: int|
        0 <= j < info.neighbors@.len() && (#[trigger] info.neighbors@[j]).0 == to
            && info.neighbors@[j].1.cost == cost
}

/// A walk away from `local` over stored links: each element is the node
/// stepped to and the cost of the link taken.
pub open spec fn spec_is_path(nodes: Seq<NodeInfo>, local: u64, path: Seq<(u64, u32)>) -> bool {
    &&& path.len() > 0
    &&& spec_edge(nodes, local, path[0].0, path[0].1)
    &&& forall|k: int|
        0 <= k < path.len() - 1 ==> spec_edge(
            nodes,
            (#[trigger] path[k]).0,
            path[k + 1].0,
            path[k + 1].1,
        )
}

/// Link costs added with saturation at the 32-bit bound.
pub open spec fn spec_sat_add(a: u32, b: u32) -> u32 {
    if a + b > u32::MAX {
        u32::MAX
    } else {
        (a + b) as u32
    }
}

/// The saturating cost of a walk.
pub open spec fn spec_path_cost(path: Seq<(u64, u32)>) -> u32
    decreases path.len(),
{
    if path.len() == 0 {
        0
    } else {
        spec_sat_add(spec_path_cost(path.drop_last()), path.last().1)
    }
}

/// A route is realized by a stored walk: from the local node to the
/// route's destination, at exactly the route's saturating cost, leaving by
/// the route's next hop.
pub open spec fn spec_route_sound(nodes: Seq<NodeInfo>, local: u64, r: ComputedRoute) -> bool {
    exists|p: Seq<(u64, u32)>|
        #[trigger] spec_is_path(nodes, local, p) && p.last().0 == r.dst_node && spec_path_cost(p)
            == r.total_cost && p[0].0 == r.next_hop
}

/// Every route of the batch is realized by a stored walk.
pub open spec fn spec_routes_sound(
    nodes: Seq<NodeInfo>,
    local: u64,
    routes: Seq<ComputedRoute>,
) -> bool {
    forall|a: int| 0 <= a < routes.len() ==> spec_route_sound(nodes, local, #[trigger] routes[a])
}

/// Extending a walk by one stored link keeps it a walk, adds that link's
/// cost with saturation, and keeps the first hop.
pub proof fn lemma_path_push(nodes: Seq<NodeInfo>, local: u64, p: Seq<(u64, u32)>, v: (u64, u32))
    requires
        spec_is_path(nodes, local, p),
        spec_edge(nodes, p.last().0, v.0, v.1),
    ensures
        spec_is_path(nodes, local, p.push(v)),
        spec_path_cost(p.push(v)) == spec_sat_add(spec_path_cost(p), v.1),
        p.push(v)[0] == p[0],
        p.push(v).last() == v,
{
    let q = p.push(v);
    assert(q.drop_last() =~= p);
    assert(q[0] == p[0]);
    assert forall|k: int|
        0 <= k < q.len() - 1 implies spec_edge(
        nodes,
        (#[trigger] q[k]).0,
        q[k + 1].0,
        q[k + 1].1,
    ) by {
        if k < p.len() - 1 {
            assert(q[k] == p[k] && q[k + 1] == p[k + 1]);
        } else {
            assert(q[k] == p.last() && q[k + 1] == v);
        }
    }
}

/// A single stored link out of the local node is a walk of its own cost.
pub proof fn lemma_path_single(nodes: Seq<NodeInfo>, local: u64, v: (u64, u32))
    requires
        spec_edge(nodes, local, v.0, v.1),
    ensures
        spec_is_path(nodes, local, seq![v]),
        spec_path_cost(seq![v]) == v.1,
        seq![v][0] == v,
        seq![v].last() == v,
{
    let q = seq![v];
    assert(q[0] == v && q.last() == v);
    assert(q.drop_last() =~= Seq::<(u64, u32)>::empty());
    assert(spec_path_cost(q.drop_last()) == 0);
}

/// What one distance-table entry claims: the local node stands at cost
/// zero, and any other node is reached by a stored walk of the entry's
/// cost that leaves by the entry's next hop.
pub open spec fn spec_table_entry_ok(
    nodes: Seq<NodeInfo>,
    local: u64,
    ent: (u64, u32, u64, u8, bool),
) -> bool {
    if ent.0 == local {
        ent.1 == 0
    } else {
        exists|p: Seq<(u64, u32)>|
            #[trigger] spec_is_path(nodes, local, p) && p.last().0 == ent.0 && spec_path_cost(p)
                == ent.1 && p[0].0 == ent.2
    }
}

/// An entry with the same destination, cost and next hop claims the same.
pub proof fn lemma_entry_ok_same_fields(
    nodes: Seq<NodeInfo>,
    local: u64,
    a: (u64, u32, u64, u8, bool),
    b: (u64, u32, u64, u8, bool),
)
    requires
        spec_table_entry_ok(nodes, local, a),
        b.0 == a.0,
        b.1 == a.1,
        b.2 == a.2,
    ensures
        spec_table_entry_ok(nodes, local, b),
{
    if a.0 != local {
        let p = choose|p: Seq<(u64, u32)>|
            #[trigger] spec_is_path(nodes, local, p) && p.last().0 == a.0 && spec_path_cost(p)
                == a.1 && p[0].0 == a.2;
        assert(spec_is_path(nodes, local, p) && p.last().0 == b.0 && spec_path_cost(p) == b.1
            && p[0].0 == b.2);
    }
}

/// The link-state database of one node.
#[derive(Debug)]
pub struct TopologyDatabase {
    /// This node's ID.
    pub local_node_id: u64,
    /// One record per known node.
    pub nodes: Vec<NodeInfo>,
    /// Routes computed from the local node.
    pub routes: Vec<ComputedRoute>,
    /// The sequence counter for locally emitted updates.
    pub local_sequence: u64,
}

impl TopologyDatabase {
    /// Each node has one record and each destination one route; no route
    /// leads to the local node itself.
    pub open spec fn wf(self) -> bool {
        &&& forall|i: int, j: int|
            0 <= i < j < self.nodes@.len() ==> (#[trigger] self.nodes@[i]).node_id != (
            #[trigger] self.nodes@[j]).node_id
        &&& forall|i: int, j: int|
            0 <= i < j < self.routes@.len() ==> (#[trigger] self.routes@[i]).dst_node != (
            #[trigger] self.routes@[j]).dst_node
        &&& forall|i: int|
            0 <= i < self.routes@.len() ==> (#[trigger] self.routes@[i]).dst_node
                != self.local_node_id
    }

    /// An empty database whose first local sequence number is 1.
    pub fn new(local_node_id: u64) -> (r: TopologyDatabase)
        ensures
            r.wf(),
            r.local_node_id == local_node_id,
            r.nodes@.len() == 0,
            r.routes@.len() == 0,
            r.local_sequence == 1,
    {
        TopologyDatabase {
            local_node_id,
            nodes: Vec::new(),
            routes: Vec::new(),
            local_sequence: 1,
        }
    }

    /// Hand out the current local sequence number and advance it, wrapping
    /// at the 64-bit boundary.
    pub fn next_sequence_number(&mut self) -> (r: u64)
        ensures
            r == old(self).local_sequence,
            final(self).local_sequence == vstd::wrapping::u64_specs::wrapping_add(
                old(self).local_sequence,
                1,
            ),
            final(self).local_node_id == old(self).local_node_id,
            final(self).nodes == old(self).nodes,
            final(self).routes == old(self).routes,
    {
        let seq = self.local_sequence;
        self.local_sequence = self.local_sequence.wrapping_add(1);
        seq
    }

    /// Store `info` as the record of its node, replacing an older record.
    fn upsert_node(&mut self, info: NodeInfo)
        requires
            old(self).wf(),
        ensures
            final(self).wf(),
            final(self).local_node_id == old(self).local_node_id,
            final(self).local_sequence == old(self).local_sequence,
            final(self).routes == old(self).routes,
            spec_node_lookup(final(self).nodes@, info.node_id) == Some(info),
            forall|other: u64|
                other != info.node_id ==> #[trigger] spec_node_lookup(final(self).nodes@, other)
                    == spec_node_lookup(old(self).nodes@, other),
    {
        let ghost old_nodes = self.nodes@;
        let n = self.nodes.len();
        let mut i: usize = 0;
        loop
            invariant
                i <= n,
                n == self.nodes@.len(),
                self == old(self),
                old_nodes == self.nodes@,
                forall|j: int| 0 <= j < i ==> (#[trigger] old_nodes[j]).node_id != info.node_id,
            ensures
                i <= n,
                self == old(self),
                old_nodes == self.nodes@,
                forall|j: int| 0 <= j < i ==> (#[trigger] old_nodes[j]).node_id != info.node_id,
                i < n ==> old_nodes[i as int].node_id == info.node_id,
            decreases n - i,
        {
            if i >= n {
                break;
            }
            if self.nodes[i].node_id == info.node_id {
                break;
            }
            i = i + 1;
        }
        let ghost node_id = info.node_id;
        if i < n {
            self.nodes[i] = info;
            proof {
                assert(self.nodes@ =~= old_nodes.update(i as int, self.nodes@[i as int]));
                lemma_node_lookup_at(self.nodes@, node_id, i as int);
                assert forall|other: u64| other != node_id implies #[trigger] spec_node_lookup(
                    self.nodes@,
                    other,
                ) == spec_node_lookup(old_nodes, other) by {
                    lemma_node_lookup_same_except(old_nodes, self.nodes@, i as int, other);
                }
            }
        } else {
            self.nodes.push(info);
            proof {
                assert(self.nodes@ =~= old_nodes.push(self.nodes@[n as int]));
                lemma_node_lookup_at(self.nodes@, node_id, n as int);
                assert forall|other: u64| other != node_id implies #[trigger] spec_node_lookup(
                    self.nodes@,
                    other,
                ) == spec_node_lookup(old_nodes, other) by {
                    lemma_node_lookup_same_except(old_nodes, self.nodes@, n as int, other);
                }
            }
        }
    }

    /// Record a change of the local neighbor set at clock reading `now`:
    /// the local record gets a fresh sequence number and the new
    /// neighbors, routes are recomputed, and the returned advertisement
    /// carries the same sequence number and neighbors with the default
    /// TTL.
    pub fn update_local_neighbors_at(&mut self, neighbors: Vec<NeighborInfo>, now: u64) -> (r:
        TopologyUpdate)
        requires
            old(self).wf(),
        ensures
            final(self).wf(),
            final(self).local_node_id == old(self).local_node_id,
            r.originator_node == old(self).local_node_id,
            r.sequence_number == old(self).local_sequence,
            r.neighbors == neighbors,
            r.ttl == DEFAULT_TOPOLOGY_TTL,
            ({
                let stored = spec_node_lookup(final(self).nodes@, old(self).local_node_id);
                stored matches Some(info) && info.sequence_number == r.sequence_number
                    && info.last_updated == now && info.neighbors@.len() == neighbors@.len() && (
                forall|j: int|
                    0 <= j < neighbors@.len() ==> (#[trigger] info.neighbors@[j]).0
                        == neighbors@[j].node_id && info.neighbors@[j].1.cost == neighbors@[j].cost
                        && info.neighbors@[j].1.last_seen == now)
            }),
            forall|other: u64|
                other != old(self).local_node_id ==> #[trigger] spec_node_lookup(
                    final(self).nodes@,
                    other,
                ) == spec_node_lookup(old(self).nodes@, other),
    {
        let sequence = self.next_sequence_number();
        let mut neighbor_links: Vec<(u64, LinkInfo)> = Vec::new();
        let count = neighbors.len();
        let mut i: usize = 0;
        while i < count
            invariant
                i <= count,
                count == neighbors@.len(),
                neighbor_links@.len() == i,
                forall|j: int|
                    0 <= j < i ==> (#[trigger] neighbor_links@[j]).0 == neighbors@[j].node_id
                        && neighbor_links@[j].1.cost == neighbors@[j].cost
                        && neighbor_links@[j].1.last_seen == now,
            decreases count - i,
        {
            let n = &neighbors[i];
            let addr = match &n.addr {
                Some(a) => Some(a.clone()),
                None => None,
            };
            neighbor_links.push((n.node_id, LinkInfo { cost: n.cost, addr, last_seen: now }));
            i = i + 1;
        }
        let info = NodeInfo {
            node_id: self.local_node_id,
            sequence_number: sequence,
            last_updated: now,
            neighbors: neighbor_links,
        };
        self.upsert_node(info);
        self.compute_routes();
        TopologyUpdate {
            originator_node: self.local_node_id,
            sequence_number: sequence,
            neighbors,
            ttl: DEFAULT_TOPOLOGY_TTL,
            timestamp: now,
        }
    }

    /// Record a change of the local neighbor set, stamped with the
    /// current clock reading.
    pub fn update_local_neighbors(&mut self, neighbors: Vec<NeighborInfo>) -> (r: TopologyUpdate)
        requires
            old(self).wf(),
        ensures
            final(self).wf(),
            final(self).local_node_id == old(self).local_node_id,
            r.originator_node == old(self).local_node_id,
            r.sequence_number == old(self).local_sequence,
            r.neighbors == neighbors,
            r.ttl == DEFAULT_TOPOLOGY_TTL,
    {
        let now = unix_now_secs();
        self.update_local_neighbors_at(neighbors, now)
    }

    /// Accept or reject a received advertisement at clock reading `now`.
    /// Rejected, with nothing changed, exactly when the update is older
    /// than the age bound or not strictly newer than the stored record.
    /// Accepted otherwise: the originator's record then carries exactly
    /// the update's sequence number, other records are untouched, and
    /// routes are recomputed.
    pub fn process_topology_update_at(&mut self, update: TopologyUpdate, now: u64) -> (r: bool)
        requires
            old(self).wf(),
        ensures
            final(self).wf(),
            final(self).local_node_id == old(self).local_node_id,
            final(self).local_sequence == old(self).local_sequence,
            r == !({
                ||| now - update.timestamp > MAX_TOPOLOGY_AGE_SECS && now >= update.timestamp
                ||| (spec_node_lookup(old(self).nodes@, update.originator_node) matches Some(
                    existing,
                ) && !spec_seq_newer(update.sequence_number, existing.sequence_number))
            }),
            !r ==> final(self).nodes == old(self).nodes && final(self).routes == old(self).routes,
            r ==> ({
                let stored = spec_node_lookup(final(self).nodes@, update.originator_node);
                stored matches Some(info) && info.sequence_number == update.sequence_number
                    && info.last_updated == now && info.node_id == update.originator_node
                    && info.neighbors@.len() == update.neighbors@.len() && (forall|j: int|
                    0 <= j < update.neighbors@.len() ==> (#[trigger] info.neighbors@[j]).0
                        == update.neighbors@[j].node_id && info.neighbors@[j].1.cost
                        == update.neighbors@[j].cost && info.neighbors@[j].1.last_seen == now)
            }),
            r ==> forall|other: u64|
                other != update.originator_node ==> #[trigger] spec_node_lookup(
                    final(self).nodes@,
                    other,
                ) == spec_node_lookup(old(self).nodes@, other),
            r ==> (spec_node_lookup(final(self).nodes@, final(self).local_node_id) matches Some(
                li,
            ) ==> (forall|j: int|
                0 <= j < li.neighbors@.len() && (#[trigger] li.neighbors@[j]).0 != final(self).local_node_id ==> spec_route_lookup(final(self).routes@, li.neighbors@[j].0)
                    is Some)),
    {
        if now >= update.timestamp && now - update.timestamp > MAX_TOPOLOGY_AGE_SECS {
            return false;
        }
        let existing_seq: Option<u64> = match self.find_node(update.originator_node) {
            Some(info) => Some(info.sequence_number),
            None => None,
        };
        match existing_seq {
            Some(seq) => {
                if !update.is_newer_than(seq) {
                    return false;
                }
            },
            None => {},
        }
        let mut neighbor_links: Vec<(u64, LinkInfo)> = Vec::new();
        let count = update.neighbors.len();
        let mut i: usize = 0;
        while i < count
            invariant
                i <= count,
                count == update.neighbors@.len(),
                neighbor_links@.len() == i,
                forall|j: int|
                    0 <= j < i ==> (#[trigger] neighbor_links@[j]).0
                        == update.neighbors@[j].node_id && neighbor_links@[j].1.cost
                        == update.neighbors@[j].cost && neighbor_links@[j].1.last_seen == now,
            decreases count - i,
        {
            let n = &update.neighbors[i];
            let addr = match &n.addr {
                Some(a) => Some(a.clone()),
                None => None,
            };
            neighbor_links.push((n.node_id, LinkInfo { cost: n.cost, addr, last_seen: now }));
            i = i + 1;
        }
        let info = NodeInfo {
            node_id: update.originator_node,
            sequence_number: update.sequence_number,
            last_updated: now,
            neighbors: neighbor_links,
        };
        self.upsert_node(info);
        self.compute_routes();
        true
    }

    /// Accept or reject a received advertisement, judged against the
    /// current clock reading.
    pub fn process_topology_update(&mut self, update: TopologyUpdate) -> (r: bool)
        requires
            old(self).wf(),
        ensures
            final(self).wf(),
            final(self).local_node_id == old(self).local_node_id,
            final(self).local_sequence == old(self).local_sequence,
            r ==> ({
                let stored = spec_node_lookup(final(self).nodes@, update.originator_node);
                stored matches Some(info) && info.sequence_number == update.sequence_number
            }),
            !r ==> final(self).nodes == old(self).nodes && final(self).routes == old(self).routes,
            (spec_node_lookup(old(self).nodes@, update.originator_node) matches Some(existing)
                && !spec_seq_newer(update.sequence_number, existing.sequence_number)) ==> !r,
    {
        let now = unix_now_secs();
        self.process_topology_update_at(update, now)
    }

    /// The stored record of `node_id`, when there is one.
    pub fn find_node(&self, node_id: u64) -> (r: Option<&NodeInfo>)
        ensures
            match r {
                Some(info) => spec_node_lookup(self.nodes@, node_id) == Some(*info),
                None => spec_node_lookup(self.nodes@, node_id) is None,
            },
    {
        let n = self.nodes.len();
        let mut i: usize = 0;
        while i < n
            invariant
                i <= n,
                n == self.nodes@.len(),
                forall|j: int| 0 <= j < i ==> (#[trigger] self.nodes@[j]).node_id != node_id,
            decreases n - i,
        {
            if self.nodes[i].node_id == node_id {
                proof {
                    lemma_node_lookup_at(self.nodes@, node_id, i as int);
                }
                return Some(&self.nodes[i]);
            }
            i = i + 1;
        }
        proof {
            lemma_node_lookup_miss(self.nodes@, node_id);
        }
        None
    }

    /// Recompute shortest paths from the local node over the stored
    /// records: iterative relaxation to a fixed point, edge costs
    /// saturating, then a sweep that guarantees a route for each direct
    /// neighbor of the local record. The node records and the sequence
    /// counter are untouched; afterwards each destination has at most
    /// one route, none leads home, every route is realized by a stored
    /// walk of exactly its cost leaving by its next hop, and every
    /// non-local neighbor of the local record is routed.
    pub fn compute_routes(&mut self)
        requires
            old(self).wf(),
        ensures
            final(self).wf(),
            final(self).local_node_id == old(self).local_node_id,
            final(self).local_sequence == old(self).local_sequence,
            final(self).nodes == old(self).nodes,
            spec_routes_sound(
                final(self).nodes@,
                final(self).local_node_id,
                final(self).routes@,
            ),
            spec_node_lookup(final(self).nodes@, final(self).local_node_id) matches Some(li)
                ==> (forall|j: int|
                0 <= j < li.neighbors@.len() && (#[trigger] li.neighbors@[j]).0 != final(self).local_node_id ==> spec_route_lookup(final(self).routes@, li.neighbors@[j].0)
                    is Some),
    {
        // Distance table: destination, best cost so far, next hop from the
        // local node, hop count, settled flag.
        let mut table: Vec<(u64, u32, u64, u8, bool)> = Vec::new();
        table.push((self.local_node_id, 0, self.local_node_id, 0, false));
        let local = self.local_node_id;
        let node_count = self.nodes.len();
        // At most one settling round per table entry; the table can gain
        // an entry only for the local node or a neighbor of a stored
        // node, so their total count bounds the rounds.
        let mut total_degree: usize = 0;
        let mut d: usize = 0;
        while d < node_count
            invariant
                d <= node_count,
                node_count == self.nodes@.len(),
                self == old(self),
            decreases node_count - d,
        {
            let deg = self.nodes[d].neighbors.len();
            total_degree = if total_degree > usize::MAX - deg {
                usize::MAX
            } else {
                total_degree + deg
            };
            d = d + 1;
        }
        let mut rounds: usize = 0;
        let max_rounds = if total_degree == usize::MAX {
            total_degree
        } else {
            total_degree + 1
        };
        loop
            invariant
                table_unique(table@),
                rounds <= max_rounds,
                self == old(self),
                local == self.local_node_id,
                forall|t: int|
                    0 <= t < table@.len() ==> spec_table_entry_ok(
                        self.nodes@,
                        local,
                        #[trigger] table@[t],
                    ),
            decreases max_rounds - rounds,
        {
            if rounds >= max_rounds {
                break;
            }
            rounds = rounds + 1;
            // Pick the unsettled entry with the least cost.
            let tlen = table.len();
            let mut best: usize = tlen;
            let mut ti: usize = 0;
            while ti < tlen
                invariant
                    ti <= tlen,
                    tlen == table@.len(),
                    best <= tlen,
                    best < tlen ==> !table@[best as int].4,
                decreases tlen - ti,
            {
                if !table[ti].4 {
                    if best == tlen || table[ti].1 < table[best].1 {
                        best = ti;
                    }
                }
                ti = ti + 1;
            }
            if best == tlen {
                break;
            }
            let (cur_node, cur_cost, cur_hop, cur_hops, _) = table[best];
            let ghost tb = table@;
            table[best] = (cur_node, cur_cost, cur_hop, cur_hops, true);
            proof {
                assert(table@ =~= tb.update(
                    best as int,
                    (cur_node, cur_cost, cur_hop, cur_hops, true),
                ));
                assert(table_unique(table@)) by {
                    assert(forall|a: int|
                        0 <= a < table@.len() ==> (#[trigger] table@[a]).0 == tb[a].0);
                }
                assert(spec_table_entry_ok(self.nodes@, local, tb[best as int]));
                assert forall|t: int|
                    0 <= t < table@.len() implies spec_table_entry_ok(
                    self.nodes@,
                    local,
                    #[trigger] table@[t],
                ) by {
                    if t == best as int {
                        lemma_entry_ok_same_fields(self.nodes@, local, tb[t], table@[t]);
                    } else {
                        assert(table@[t] == tb[t]);
                    }
                }
                lemma_entry_ok_same_fields(
                    self.nodes@,
                    local,
                    tb[best as int],
                    (cur_node, cur_cost, cur_hop, cur_hops, true),
                );
            }
            // Relax the settled node's outgoing links.
            let info = match self.find_node(cur_node) {
                Some(info) => info,
                None => {
                    continue;
                },
            };
            let deg = info.neighbors.len();
            let mut e: usize = 0;
            let mut updates: Vec<(u64, u32)> = Vec::new();
            while e < deg
                invariant
                    e <= deg,
                    deg == info.neighbors@.len(),
                    updates@.len() == e,
                    forall|j: int|
                        0 <= j < e ==> (#[trigger] updates@[j]).0 == info.neighbors@[j].0
                            && updates@[j].1 == spec_sat_add(cur_cost, info.neighbors@[j].1.cost),
                decreases deg - e,
            {
                let neighbor = info.neighbors[e].0;
                let link_cost = info.neighbors[e].1.cost;
                let new_cost = if cur_cost > u32::MAX - link_cost {
                    u32::MAX
                } else {
                    cur_cost + link_cost
                };
                updates.push((neighbor, new_cost));
                e = e + 1;
            }
            let ulen = updates.len();
            let mut u: usize = 0;
            while u < ulen
                invariant
                    u <= ulen,
                    ulen == updates@.len(),
                    ulen == info.neighbors@.len(),
                    table_unique(table@),
                    local == self.local_node_id,
                    spec_node_lookup(self.nodes@, cur_node) == Some(*info),
                    forall|j: int|
                        0 <= j < ulen ==> (#[trigger] updates@[j]).0 == info.neighbors@[j].0
                            && updates@[j].1 == spec_sat_add(cur_cost, info.neighbors@[j].1.cost),
                    spec_table_entry_ok(
                        self.nodes@,
                        local,
                        (cur_node, cur_cost, cur_hop, cur_hops, true),
                    ),
                    forall|t: int|
                        0 <= t < table@.len() ==> spec_table_entry_ok(
                            self.nodes@,
                            local,
                            #[trigger] table@[t],
                        ),
                decreases ulen - u,
            {
                let (neighbor, new_cost) = updates[u];
                let ghost uj = u as int;
                u = u + 1;
                if neighbor == local {
                    continue;
                }
                let next_hop = if cur_node == local {
                    neighbor
                } else {
                    cur_hop
                };
                let ghost link_cost = info.neighbors@[uj].1.cost;
                proof {
                    assert(spec_edge(self.nodes@, cur_node, neighbor, link_cost)) by {
                        assert(info.neighbors@[uj].0 == neighbor);
                    }
                    assert(new_cost == spec_sat_add(cur_cost, link_cost));
                }
                let hops = if cur_hops == u8::MAX {
                    u8::MAX
                } else {
                    cur_hops + 1
                };
                proof {
                    // A walk realizing the relaxed entry: the link alone out
                    // of the local node, or the settled node's walk extended
                    // by the link.
                    if cur_node == local {
                        lemma_path_single(self.nodes@, local, (neighbor, link_cost));
                        let p = seq![(neighbor, link_cost)];
                        assert(cur_cost == 0);
                        assert(spec_sat_add(0u32, link_cost) == link_cost);
                        assert(spec_is_path(self.nodes@, local, p) && p.last().0 == neighbor
                            && spec_path_cost(p) == new_cost && p[0].0 == next_hop);
                    } else {
                        let p = choose|p: Seq<(u64, u32)>|
                            #[trigger] spec_is_path(self.nodes@, local, p) && p.last().0 == cur_node
                                && spec_path_cost(p) == cur_cost && p[0].0 == cur_hop;
                        lemma_path_push(self.nodes@, local, p, (neighbor, link_cost));
                        let q = p.push((neighbor, link_cost));
                        assert(spec_is_path(self.nodes@, local, q) && q.last().0 == neighbor
                            && spec_path_cost(q) == new_cost && q[0].0 == next_hop);
                    }
                    assert(spec_table_entry_ok(
                        self.nodes@,
                        local,
                        (neighbor, new_cost, next_hop, hops, false),
                    ));
                }
                let tlen2 = table.len();
                let mut found: usize = tlen2;
                let mut tj: usize = 0;
                loop
                    invariant_except_break
                        found == tlen2,
                    invariant
                        tj <= tlen2,
                        tlen2 == table@.len(),
                        forall|j: int| 0 <= j < tj ==> (#[trigger] table@[j]).0 != neighbor,
                    ensures
                        found <= tlen2,
                        tlen2 == table@.len(),
                        found < tlen2 ==> table@[found as int].0 == neighbor,
                        found == tlen2 ==> forall|j: int|
                            0 <= j < tlen2 ==> (#[trigger] table@[j]).0 != neighbor,
                    decreases tlen2 - tj,
                {
                    if tj >= tlen2 {
                        break;
                    }
                    if table[tj].0 == neighbor {
                        found = tj;
                        break;
                    }
                    tj = tj + 1;
                }
                if found < tlen2 {
                    let entry = table[found];
                    if new_cost < entry.1 {
                        let ghost tb2 = table@;
                        table[found] = (neighbor, new_cost, next_hop, hops, entry.4);
                        proof {
                            assert(table@ =~= tb2.update(
                                found as int,
                                (neighbor, new_cost, next_hop, hops, entry.4),
                            ));
                            assert(table_unique(table@)) by {
                                assert(forall|a: int|
                                    0 <= a < table@.len() ==> (#[trigger] table@[a]).0
                                        == tb2[a].0);
                            }
                            assert forall|t: int|
                                0 <= t < table@.len() implies spec_table_entry_ok(
                                self.nodes@,
                                local,
                                #[trigger] table@[t],
                            ) by {
                                if t == found as int {
                                    lemma_entry_ok_same_fields(
                                        self.nodes@,
                                        local,
                                        (neighbor, new_cost, next_hop, hops, false),
                                        table@[t],
                                    );
                                } else {
                                    assert(table@[t] == tb2[t]);
                                }
                            }
                        }
                    }
                } else {
                    let ghost before = table@;
                    proof {
                        assert(forall|j: int|
                            0 <= j < before.len() ==> (#[trigger] before[j]).0 != neighbor);
                    }
                    table.push((neighbor, new_cost, next_hop, hops, false));
                    proof {
                        assert(table@ =~= before.push((neighbor, new_cost, next_hop, hops, false)));
                        assert(table_unique(table@)) by {
                            assert forall|a: int, b: int|
                                0 <= a < b < table@.len() implies (#[trigger] table@[a]).0 != (
                                #[trigger] table@[b]).0 by {
                                if b == table@.len() - 1 {
                                    assert(table@[a] == before[a]);
                                    assert(before[a].0 != neighbor);
                                } else {
                                    assert(table@[a] == before[a] && table@[b] == before[b]);
                                }
                            }
                        }
                        assert forall|t: int|
                            0 <= t < table@.len() implies spec_table_entry_ok(
                            self.nodes@,
                            local,
                            #[trigger] table@[t],
                        ) by {
                            if t < table@.len() - 1 {
                                assert(table@[t] == before[t]);
                            } else {
                                assert(table@[t] == (neighbor, new_cost, next_hop, hops, false));
                            }
                        }
                    }
                }
            }
        }
        // Emit routes for every reached destination other than the local
        // node.
        let mut routes: Vec<ComputedRoute> = Vec::new();
        let tlen = table.len();
        let mut i: usize = 0;
        while i < tlen
            invariant
                i <= tlen,
                tlen == table@.len(),
                table_unique(table@),
                local == self.local_node_id,
                forall|a: int, b: int|
                    0 <= a < b < routes@.len() ==> (#[trigger] routes@[a]).dst_node != (
                    #[trigger] routes@[b]).dst_node,
                forall|a: int| 0 <= a < routes@.len() ==> (#[trigger] routes@[a]).dst_node != local,
                forall|a: int|
                    0 <= a < routes@.len() ==> exists|t: int|
                        0 <= t < i && (#[trigger] routes@[a]).dst_node == table@[t].0,
                forall|t: int|
                    0 <= t < table@.len() ==> spec_table_entry_ok(
                        self.nodes@,
                        local,
                        #[trigger] table@[t],
                    ),
                spec_routes_sound(self.nodes@, local, routes@),
            decreases tlen - i,
        {
            let (dst, cost, hop, hops, settled) = table[i];
            if dst != local && settled {
                let ghost routes_old = routes@;
                proof {
                    assert forall|a: int| 0 <= a < routes_old.len() implies (
                    #[trigger] routes_old[a]).dst_node != dst by {
                        let t = choose|t: int|
                            0 <= t < i && (#[trigger] routes_old[a]).dst_node == table@[t].0;
                        assert(table@[t].0 != table@[i as int].0);
                    }
                }
                routes.push(
                    ComputedRoute { dst_node: dst, next_hop: hop, total_cost: cost, hop_count: hops },
                );
                proof {
                    assert(spec_table_entry_ok(self.nodes@, local, table@[i as int]));
                    let made = (ComputedRoute {
                        dst_node: dst,
                        next_hop: hop,
                        total_cost: cost,
                        hop_count: hops,
                    });
                    assert(spec_route_sound(self.nodes@, local, made)) by {
                        let p = choose|p: Seq<(u64, u32)>|
                            #[trigger] spec_is_path(self.nodes@, local, p) && p.last().0 == dst
                                && spec_path_cost(p) == cost && p[0].0 == hop;
                        assert(spec_is_path(self.nodes@, local, p) && p.last().0 == made.dst_node
                            && spec_path_cost(p) == made.total_cost && p[0].0 == made.next_hop);
                    }
                    assert forall|a: int|
                        0 <= a < routes@.len() implies spec_route_sound(
                        self.nodes@,
                        local,
                        #[trigger] routes@[a],
                    ) by {
                        if a < routes_old.len() {
                            assert(routes@[a] == routes_old[a]);
                        } else {
                            assert(routes@[a] == made);
                        }
                    }
                }
            }
            i = i + 1;
        }
        self.routes = routes;
        // The sweep: any non-local neighbor of the local record that the
        // relaxation left without a route gets its one-hop route.
        let mut local_neighbors: Vec<(u64, u32)> = Vec::new();
        match self.find_node(local) {
            Some(info) => {
                let deg = info.neighbors.len();
                let mut e: usize = 0;
                while e < deg
                    invariant
                        e <= deg,
                        deg == info.neighbors@.len(),
                        local_neighbors@.len() == e,
                        forall|j: int|
                            0 <= j < e ==> #[trigger] local_neighbors@[j] == (
                            info.neighbors@[j].0,
                            info.neighbors@[j].1.cost,
                            ),
                    decreases deg - e,
                {
                    local_neighbors.push((info.neighbors[e].0, info.neighbors[e].1.cost));
                    e = e + 1;
                }
            },
            None => {},
        }
        let ghost local_rec = spec_node_lookup(self.nodes@, local);
        let m = local_neighbors.len();
        let mut k: usize = 0;
        while k < m
            invariant
                k <= m,
                m == local_neighbors@.len(),
                local == self.local_node_id,
                self.nodes == old(self).nodes,
                self.local_sequence == old(self).local_sequence,
                local_rec == spec_node_lookup(self.nodes@, local),
                local_rec matches Some(li) ==> (m == li.neighbors@.len() && forall|j: int|
                    0 <= j < m ==> #[trigger] local_neighbors@[j] == (
                    li.neighbors@[j].0,
                    li.neighbors@[j].1.cost,
                    )),
                local_rec is None ==> m == 0,
                forall|a: int, b: int|
                    0 <= a < b < self.routes@.len() ==> (#[trigger] self.routes@[a]).dst_node != (
                    #[trigger] self.routes@[b]).dst_node,
                forall|a: int|
                    0 <= a < self.routes@.len() ==> (#[trigger] self.routes@[a]).dst_node != local,
                forall|j: int|
                    0 <= j < k && (#[trigger] local_neighbors@[j]).0 != local ==> spec_route_lookup(
                        self.routes@,
                        local_neighbors@[j].0,
                    ) is Some,
                spec_routes_sound(self.nodes@, local, self.routes@),
            decreases m - k,
        {
            let (nid, cost) = local_neighbors[k];
            let ghost routes_before = self.routes@;
            if nid != local {
                let missing = match self.get_route(nid) {
                    Some(_) => false,
                    None => true,
                };
                if missing {
                    proof {
                        lemma_route_lookup_none_absent(self.routes@, nid);
                    }
                    let direct = ComputedRoute {
                        dst_node: nid,
                        next_hop: nid,
                        total_cost: cost,
                        hop_count: 1,
                    };
                    self.routes.push(direct);
                    proof {
                        assert(self.routes@ =~= routes_before.push(direct));
                        assert forall|a: int, b: int|
                            0 <= a < b < self.routes@.len() implies (
                        #[trigger] self.routes@[a]).dst_node != (
                        #[trigger] self.routes@[b]).dst_node by {
                            if b == self.routes@.len() - 1 {
                                assert(self.routes@[a] == routes_before[a]);
                            } else {
                                assert(self.routes@[a] == routes_before[a] && self.routes@[b]
                                    == routes_before[b]);
                            }
                        }
                        lemma_route_lookup_push(routes_before, direct, nid);
                        assert(local_rec is Some);
                        let li = local_rec.unwrap();
                        assert(spec_node_lookup(self.nodes@, local) == Some(li));
                        assert(spec_edge(self.nodes@, local, nid, cost)) by {
                            assert(local_neighbors@[k as int] == (
                                li.neighbors@[k as int].0,
                                li.neighbors@[k as int].1.cost,
                            ));
                            assert(0 <= k < li.neighbors@.len() && li.neighbors@[k as int].0 == nid
                                && li.neighbors@[k as int].1.cost == cost);
                        }
                        lemma_path_single(self.nodes@, local, (nid, cost));
                        assert(spec_route_sound(self.nodes@, local, direct)) by {
                            let p = seq![(nid, cost)];
                            assert(spec_is_path(self.nodes@, local, p) && p.last().0
                                == direct.dst_node && spec_path_cost(p) == direct.total_cost
                                && p[0].0 == direct.next_hop);
                        }
                        assert forall|a: int|
                            0 <= a < self.routes@.len() implies spec_route_sound(
                            self.nodes@,
                            local,
                            #[trigger] self.routes@[a],
                        ) by {
                            if a < routes_before.len() {
                                assert(self.routes@[a] == routes_before[a]);
                            } else {
                                assert(self.routes@[a] == direct);
                            }
                        }
                    }
                }
            }
            k = k + 1;
            proof {
                assert forall|j: int|
                    0 <= j < k && (#[trigger] local_neighbors@[j]).0 != local implies spec_route_lookup(
                    self.routes@,
                    local_neighbors@[j].0,
                ) is Some by {
                    if j < k - 1 {
                        if self.routes@ != routes_before {
                            lemma_route_lookup_push(
                                routes_before,
                                self.routes@.last(),
                                local_neighbors@[j].0,
                            );
                            assert(self.routes@ == routes_before.push(self.routes@.last()));
                        }
                    }
                }
            }
        }
        proof {
            if local_rec is Some {
                let li = local_rec.unwrap();
                assert forall|j: int|
                    0 <= j < li.neighbors@.len() && (#[trigger] li.neighbors@[j]).0
                        != self.local_node_id implies spec_route_lookup(
                    self.routes@,
                    li.neighbors@[j].0,
                ) is Some by {
                    assert(local_neighbors@[j] == (li.neighbors@[j].0, li.neighbors@[j].1.cost));
                }
            }
        }
    }

    /// All computed routes.
    pub fn get_routes(&self) -> (r: &Vec<ComputedRoute>)
        ensures
            r == &self.routes,
    {
        &self.routes
    }

    /// The computed route to `dst_node`, when there is one.
    pub fn get_route(&self, dst_node: u64) -> (r: Option<&ComputedRoute>)
        ensures
            match r {
                Some(route) => spec_route_lookup(self.routes@, dst_node) == Some(*route),
                None => spec_route_lookup(self.routes@, dst_node) is None,
            },
    {
        let n = self.routes.len();
        let mut i: usize = 0;
        while i < n
            invariant
                i <= n,
                n == self.routes@.len(),
                forall|j: int| 0 <= j < i ==> (#[trigger] self.routes@[j]).dst_node != dst_node,
            decreases n - i,
        {
            if self.routes[i].dst_node == dst_node {
                proof {
                    lemma_route_lookup_at(self.routes@, dst_node, i as int);
                }
                return Some(&self.routes[i]);
            }
            i = i + 1;
        }
        proof {
            lemma_route_lookup_miss(self.routes@, dst_node);
        }
        None
    }

    /// All stored node records.
    pub fn get_nodes(&self) -> (r: &Vec<NodeInfo>)
        ensures
            r == &self.nodes,
    {
        &self.nodes
    }

    /// One advertisement per stored non-local record, with a reduced TTL,
    /// for bringing a fresh peer up to date.
    pub fn get_all_topology_updates(&self) -> (r: Vec<TopologyUpdate>)
        requires
            self.wf(),
        ensures
            forall|a: int|
                0 <= a < r@.len() ==> ((#[trigger] r@[a]).originator_node != self.local_node_id
                    && (spec_node_lookup(self.nodes@, r@[a].originator_node) matches Some(info)
                    && info.sequence_number == r@[a].sequence_number)),
            forall|i: int|
                0 <= i < self.nodes@.len() && (#[trigger] self.nodes@[i]).node_id
                    != self.local_node_id ==> exists|a: int|
                    0 <= a < r@.len() && (#[trigger] r@[a]).originator_node
                        == self.nodes@[i].node_id,
    {
        let mut updates: Vec<TopologyUpdate> = Vec::new();
        let n = self.nodes.len();
        let mut i: usize = 0;
        while i < n
            invariant
                i <= n,
                n == self.nodes@.len(),
                self.wf(),
                forall|a: int|
                    0 <= a < updates@.len() ==> ((#[trigger] updates@[a]).originator_node
                        != self.local_node_id && (spec_node_lookup(
                        self.nodes@,
                        updates@[a].originator_node,
                    ) matches Some(info) && info.sequence_number == updates@[a].sequence_number)),
                forall|j: int|
                    0 <= j < i && (#[trigger] self.nodes@[j]).node_id != self.local_node_id
                        ==> exists|a: int|
                        0 <= a < updates@.len() && (#[trigger] updates@[a]).originator_node
                            == self.nodes@[j].node_id,
            decreases n - i,
        {
            if self.nodes[i].node_id != self.local_node_id {
                let info = &self.nodes[i];
                let deg = info.neighbors.len();
                let mut neighbors: Vec<NeighborInfo> = Vec::new();
                let mut e: usize = 0;
                while e < deg
                    invariant
                        e <= deg,
                        deg == info.neighbors@.len(),
                    decreases deg - e,
                {
                    let addr = match &info.neighbors[e].1.addr {
                        Some(a) => Some(a.clone()),
                        None => None,
                    };
                    neighbors.push(
                        NeighborInfo {
                            node_id: info.neighbors[e].0,
                            cost: info.neighbors[e].1.cost,
                            addr,
                        },
                    );
                    e = e + 1;
                }
                let ghost before = updates@;
                updates.push(
                    TopologyUpdate {
                        originator_node: info.node_id,
                        sequence_number: info.sequence_number,
                        neighbors,
                        ttl: DEFAULT_TOPOLOGY_TTL - 1,
                        timestamp: info.last_updated,
                    },
                );
                proof {
                    assert(forall|j: int|
                        0 <= j < i ==> (#[trigger] self.nodes@[j]).node_id != self.nodes@[i
                            as int].node_id);
                    lemma_node_lookup_at(self.nodes@, self.nodes@[i as int].node_id, i as int);
                    assert forall|a: int|
                        0 <= a < updates@.len() implies ((#[trigger] updates@[a]).originator_node
                        != self.local_node_id && (spec_node_lookup(
                        self.nodes@,
                        updates@[a].originator_node,
                    ) matches Some(info2) && info2.sequence_number
                        == updates@[a].sequence_number)) by {
                        if a < before.len() {
                            assert(updates@[a] == before[a]);
                        } else {
                            assert(updates@[a].originator_node == self.nodes@[i as int].node_id);
                        }
                    }
                    assert forall|j: int|
                        0 <= j < i + 1 && (#[trigger] self.nodes@[j]).node_id
                            != self.local_node_id implies exists|a: int|
                        0 <= a < updates@.len() && (#[trigger] updates@[a]).originator_node
                            == self.nodes@[j].node_id by {
                        if j < i as int {
                            let a0 = choose|a0: int|
                                0 <= a0 < before.len() && (#[trigger] before[a0]).originator_node
                                    == self.nodes@[j].node_id;
                            assert(updates@[a0] == before[a0]);
                        } else {
                            assert(updates@[updates@.len() - 1].originator_node == self.nodes@[i
                                as int].node_id);
                        }
                    }
                }
            }
            i = i + 1;
        }
        updates
    }

    /// Drop every non-local record older than the age bound, judged at
    /// clock reading `now`. Kept records are untouched; afterwards no
    /// non-local record is older than the bound. When nothing was aged,
    /// records and routes are exactly as they were; when something was
    /// dropped, routes are recomputed over the remaining records.
    pub fn cleanup_old_entries_at(&mut self, now: u64)
        requires
            old(self).wf(),
        ensures
            final(self).wf(),
            final(self).local_node_id == old(self).local_node_id,
            final(self).local_sequence == old(self).local_sequence,
            (forall|i: int|
                0 <= i < old(self).nodes@.len() ==> ((#[trigger] old(self).nodes@[i]).node_id
                    == old(self).local_node_id || !(now >= old(self).nodes@[i].last_updated && now
                    - old(self).nodes@[i].last_updated > MAX_TOPOLOGY_AGE_SECS))) ==> final(self).nodes@ == old(self).nodes@ && final(self).routes@ == old(self).routes@,
            (exists|i: int|
                0 <= i < old(self).nodes@.len() && (#[trigger] old(self).nodes@[i]).node_id != old(
                    self,
                ).local_node_id && now >= old(self).nodes@[i].last_updated && now - old(
                    self,
                ).nodes@[i].last_updated > MAX_TOPOLOGY_AGE_SECS) ==> (spec_routes_sound(
                final(self).nodes@,
                final(self).local_node_id,
                final(self).routes@,
            ) && (spec_node_lookup(final(self).nodes@, final(self).local_node_id) matches Some(li)
                ==> (forall|j: int|
                0 <= j < li.neighbors@.len() && (#[trigger] li.neighbors@[j]).0 != final(self).local_node_id ==> spec_route_lookup(final(self).routes@, li.neighbors@[j].0)
                    is Some))),
            forall|i: int|
                0 <= i < final(self).nodes@.len() ==> ((#[trigger] final(self).nodes@[i]).node_id
                    == old(self).local_node_id || !(now >= final(self).nodes@[i].last_updated
                    && now - final(self).nodes@[i].last_updated > MAX_TOPOLOGY_AGE_SECS)),
            forall|i: int|
                0 <= i < final(self).nodes@.len() ==> old(self).nodes@.contains(
                    #[trigger] final(self).nodes@[i],
                ),
            forall|i: int|
                0 <= i < old(self).nodes@.len() && ((#[trigger] old(self).nodes@[i]).node_id
                    == old(self).local_node_id || !(now >= old(self).nodes@[i].last_updated && now
                    - old(self).nodes@[i].last_updated > MAX_TOPOLOGY_AGE_SECS)) ==> final(self).nodes@.contains(old(self).nodes@[i]),
    {
        let ghost old_nodes = self.nodes@;
        proof {
            assert forall|a: int|
                0 <= a < self.nodes@.len() implies old_nodes.contains(
                #[trigger] self.nodes@[a]) by {
                assert(self.nodes@[a] == old_nodes[a]);
            }
        }
        let mut i: usize = self.nodes.len();
        let mut removed_any = false;
        while i > 0
            invariant
                i <= self.nodes@.len(),
                self.local_node_id == old(self).local_node_id,
                self.local_sequence == old(self).local_sequence,
                self.routes@ == old(self).routes@,
                old(self).wf(),
                forall|a: int, b: int|
                    0 <= a < b < self.nodes@.len() ==> (#[trigger] self.nodes@[a]).node_id != (
                    #[trigger] self.nodes@[b]).node_id,
                forall|a: int|
                    i <= a < self.nodes@.len() ==> ((#[trigger] self.nodes@[a]).node_id == old(
                        self,
                    ).local_node_id || !(now >= self.nodes@[a].last_updated && now
                        - self.nodes@[a].last_updated > MAX_TOPOLOGY_AGE_SECS)),
                forall|a: int|
                    0 <= a < self.nodes@.len() ==> old_nodes.contains(#[trigger] self.nodes@[a]),
                forall|a: int| 0 <= a < i ==> #[trigger] self.nodes@[a] == old_nodes[a],
                forall|a: int|
                    i <= a < old_nodes.len() && ((#[trigger] old_nodes[a]).node_id == old(
                        self,
                    ).local_node_id || !(now >= old_nodes[a].last_updated && now
                        - old_nodes[a].last_updated > MAX_TOPOLOGY_AGE_SECS))
                        ==> self.nodes@.contains(old_nodes[a]),
                !removed_any ==> self.nodes@ == old_nodes,
                removed_any ==> exists|a: int|
                    0 <= a < old_nodes.len() && (#[trigger] old_nodes[a]).node_id != old(
                        self,
                    ).local_node_id && now >= old_nodes[a].last_updated && now
                        - old_nodes[a].last_updated > MAX_TOPOLOGY_AGE_SECS,
                forall|a: int|
                    i <= a < old_nodes.len() && (#[trigger] old_nodes[a]).node_id != old(
                        self,
                    ).local_node_id && now >= old_nodes[a].last_updated && now
                        - old_nodes[a].last_updated > MAX_TOPOLOGY_AGE_SECS ==> removed_any,
            decreases i,
        {
            i = i - 1;
            let node = &self.nodes[i];
            let keep = node.node_id == self.local_node_id || !(now >= node.last_updated && now
                - node.last_updated > MAX_TOPOLOGY_AGE_SECS);
            if !keep {
                let ghost before = self.nodes@;
                proof {
                    assert(before[i as int] == old_nodes[i as int]);
                    assert(old_nodes[i as int].node_id != old(self).local_node_id && now
                        >= old_nodes[i as int].last_updated && now - old_nodes[i
                        as int].last_updated > MAX_TOPOLOGY_AGE_SECS);
                }
                self.nodes.remove(i);
                removed_any = true;
                proof {
                    assert(self.nodes@ =~= before.remove(i as int));
                    assert forall|a: int, b: int|
                        0 <= a < b < self.nodes@.len() implies (
                    #[trigger] self.nodes@[a]).node_id != (#[trigger] self.nodes@[b]).node_id by {
                        let a0 = if a < i as int { a } else { a + 1 };
                        let b0 = if b < i as int { b } else { b + 1 };
                        assert(self.nodes@[a] == before[a0] && self.nodes@[b] == before[b0]);
                    }
                    assert forall|a: int|
                        0 <= a < self.nodes@.len() implies old_nodes.contains(
                        #[trigger] self.nodes@[a]) by {
                        let a0 = if a < i as int { a } else { a + 1 };
                        assert(self.nodes@[a] == before[a0]);
                        assert(old_nodes.contains(before[a0]));
                    }
                    assert forall|a: int|
                        i <= a < self.nodes@.len() implies ((#[trigger] self.nodes@[a]).node_id
                            == old(self).local_node_id || !(now >= self.nodes@[a].last_updated
                            && now - self.nodes@[a].last_updated > MAX_TOPOLOGY_AGE_SECS)) by {
                        assert(self.nodes@[a] == before[a + 1]);
                    }
                    assert forall|a: int| 0 <= a < i implies #[trigger] self.nodes@[a]
                        == old_nodes[a] by {
                        assert(self.nodes@[a] == before[a]);
                    }
                    assert forall|a: int|
                        i <= a < old_nodes.len() && ((#[trigger] old_nodes[a]).node_id == old(
                            self,
                        ).local_node_id || !(now >= old_nodes[a].last_updated && now
                            - old_nodes[a].last_updated > MAX_TOPOLOGY_AGE_SECS))
                            implies self.nodes@.contains(old_nodes[a]) by {
                        if a > i {
                            assert(before.contains(old_nodes[a]));
                            let p = choose|p: int|
                                0 <= p < before.len() && before[p] == old_nodes[a];
                            if p < i as int {
                                assert(self.nodes@[p] == before[p]);
                            } else if p > i as int {
                                assert(self.nodes@[p - 1] == before[p]);
                            } else {
                                assert(before[i as int] == old_nodes[a]);
                                assert(false);
                            }
                        }
                    }
                }
            } else {
                proof {
                    assert(self.nodes@[i as int] == old_nodes[i as int]);
                    assert forall|a: int|
                        i <= a < old_nodes.len() && ((#[trigger] old_nodes[a]).node_id == old(
                            self,
                        ).local_node_id || !(now >= old_nodes[a].last_updated && now
                            - old_nodes[a].last_updated > MAX_TOPOLOGY_AGE_SECS))
                            implies self.nodes@.contains(old_nodes[a]) by {
                        if a == i as int {
                            assert(self.nodes@[i as int] == old_nodes[a]);
                        }
                    }
                }
            }
        }
        if removed_any {
            self.compute_routes();
        } else {
            proof {
                assert(self.wf()) by {
                    assert(forall|a: int, b: int|
                        0 <= a < b < self.routes@.len() ==> (#[trigger] self.routes@[a]).dst_node
                            != (#[trigger] self.routes@[b]).dst_node);
                    assert(forall|a: int|
                        0 <= a < self.routes@.len() ==> (#[trigger] self.routes@[a]).dst_node
                            != self.local_node_id);
                }
            }
        }
    }

    /// Drop aged non-local records, judged against the current clock
    /// reading.
    pub fn cleanup_old_entries(&mut self)
        requires
            old(self).wf(),
        ensures
            final(self).wf(),
            final(self).local_node_id == old(self).local_node_id,
            final(self).local_sequence == old(self).local_sequence,
    {
        let now = unix_now_secs();
        self.cleanup_old_entries_at(now);
    }

    /// Counters describing the database.
    pub fn get_stats(&self) -> (r: TopologyStats)
        ensures
            r.total_nodes == self.nodes@.len(),
            r.total_routes == self.routes@.len(),
            r.local_sequence == self.local_sequence,
    {
        TopologyStats {
            total_nodes: self.nodes.len(),
            total_routes: self.routes.len(),
            local_sequence: self.local_sequence,
        }
    }
}

/// Destinations in the distance table are unique.
pub open spec fn table_unique(table: Seq<(u64, u32, u64, u8, bool)>) -> bool {
    forall|a: int, b: int|
        0 <= a < b < table.len() ==> (#[trigger] table[a]).0 != (#[trigger] table[b]).0
}

/// A copy of a node record: same node, sequence number, timestamp and
/// neighbor links.
pub fn clone_node_info(info: &NodeInfo) -> (r: NodeInfo)
    ensures
        r.node_id == info.node_id,
        r.sequence_number == info.sequence_number,
        r.last_updated == info.last_updated,
        r.neighbors@ == info.neighbors@,
{
    let deg = info.neighbors.len();
    let mut neighbors: Vec<(u64, LinkInfo)> = Vec::new();
    let mut e: usize = 0;
    while e < deg
        invariant
            e <= deg,
            deg == info.neighbors@.len(),
            neighbors@ == info.neighbors@.subrange(0, e as int),
        decreases deg - e,
    {
        let addr = match &info.neighbors[e].1.addr {
            Some(a) => Some(a.clone()),
            None => None,
        };
        neighbors.push(
            (
                info.neighbors[e].0,
                LinkInfo {
                    cost: info.neighbors[e].1.cost,
                    addr,
                    last_seen: info.neighbors[e].1.last_seen,
                },
            ),
        );
        e = e + 1;
        assert(neighbors@ =~= info.neighbors@.subrange(0, e as int));
    }
    assert(neighbors@ =~= info.neighbors@);
    NodeInfo {
        node_id: info.node_id,
        sequence_number: info.sequence_number,
        last_updated: info.last_updated,
        neighbors,
    }
}

/// Looking up the key at position `at` finds that entry, when no earlier
/// entry has the key.
pub proof fn lemma_node_lookup_at(nodes: Seq<NodeInfo>, node_id: u64, at: int)
    requires
        0 <= at < nodes.len(),
        nodes[at].node_id == node_id,
        forall|j: int| 0 <= j < at ==> (#[trigger] nodes[j]).node_id != node_id,
    ensures
        spec_node_lookup(nodes, node_id) == Some(nodes[at]),
    decreases at,
{
    if at > 0 {
        let tail = nodes.subrange(1, nodes.len() as int);
        assert(forall|j: int| 0 <= j < at - 1 ==> (#[trigger] tail[j]).node_id != node_id) by {
            assert(forall|j: int| 0 <= j < tail.len() ==> #[trigger] tail[j] == nodes[j + 1]);
        }
        lemma_node_lookup_at(tail, node_id, at - 1);
    }
}

/// A key held by no record is not found.
pub proof fn lemma_node_lookup_miss(nodes: Seq<NodeInfo>, node_id: u64)
    requires
        forall|j: int| 0 <= j < nodes.len() ==> (#[trigger] nodes[j]).node_id != node_id,
    ensures
        spec_node_lookup(nodes, node_id) is None,
    decreases nodes.len(),
{
    if nodes.len() > 0 {
        let tail = nodes.subrange(1, nodes.len() as int);
        assert(forall|j: int| 0 <= j < tail.len() ==> (#[trigger] tail[j]).node_id != node_id) by {
            assert(forall|j: int| 0 <= j < tail.len() ==> #[trigger] tail[j] == nodes[j + 1]);
        }
        lemma_node_lookup_miss(tail, node_id);
    }
}

/// Replacing or appending the record at `at` leaves lookups of other keys
/// unchanged, when keys are unique.
pub proof fn lemma_node_lookup_same_except(
    old_nodes: Seq<NodeInfo>,
    new_nodes: Seq<NodeInfo>,
    at: int,
    other: u64,
)
    requires
        0 <= at < new_nodes.len(),
        new_nodes.len() == old_nodes.len() || new_nodes.len() == old_nodes.len() + 1,
        new_nodes.len() == old_nodes.len() + 1 ==> at == old_nodes.len(),
        forall|j: int|
            0 <= j < new_nodes.len() && j != at ==> #[trigger] new_nodes[j] == old_nodes[j],
        new_nodes[at].node_id != other,
        at < old_nodes.len() ==> old_nodes[at].node_id != other,
    ensures
        spec_node_lookup(new_nodes, other) == spec_node_lookup(old_nodes, other),
    decreases new_nodes.len(),
{
    if old_nodes.len() == 0 {
        assert(new_nodes.len() == 1 && at == 0);
        assert(spec_node_lookup(new_nodes.subrange(1, 1), other) is None);
    } else if at == 0 {
        assert(new_nodes[0].node_id != other && old_nodes[0].node_id != other);
        if new_nodes.len() == old_nodes.len() {
            assert(new_nodes.subrange(1, new_nodes.len() as int) =~= old_nodes.subrange(
                1,
                old_nodes.len() as int,
            ));
        } else {
            assert(false);
        }
    } else {
        assert(new_nodes[0] == old_nodes[0]);
        if new_nodes[0].node_id == other {
        } else {
            let new_tail = new_nodes.subrange(1, new_nodes.len() as int);
            let old_tail = old_nodes.subrange(1, old_nodes.len() as int);
            assert(forall|j: int|
                0 <= j < new_tail.len() && j != at - 1 ==> #[trigger] new_tail[j] == old_tail[j])
                by {
                assert(forall|j: int|
                    0 <= j < new_tail.len() ==> #[trigger] new_tail[j] == new_nodes[j + 1]);
                assert(forall|j: int|
                    0 <= j < old_tail.len() ==> #[trigger] old_tail[j] == old_nodes[j + 1]);
            }
            assert(new_tail[at - 1] == new_nodes[at]);
            lemma_node_lookup_same_except(old_tail, new_tail, at - 1, other);
        }
    }
}

/// Looking up the route key at position `at` finds that entry, when no
/// earlier entry has the key.
pub proof fn lemma_route_lookup_at(routes: Seq<ComputedRoute>, dst: u64, at: int)
    requires
        0 <= at < routes.len(),
        routes[at].dst_node == dst,
        forall|j: int| 0 <= j < at ==> (#[trigger] routes[j]).dst_node != dst,
    ensures
        spec_route_lookup(routes, dst) == Some(routes[at]),
    decreases at,
{
    if at > 0 {
        let tail = routes.subrange(1, routes.len() as int);
        assert(forall|j: int| 0 <= j < at - 1 ==> (#[trigger] tail[j]).dst_node != dst) by {
            assert(forall|j: int| 0 <= j < tail.len() ==> #[trigger] tail[j] == routes[j + 1]);
        }
        lemma_route_lookup_at(tail, dst, at - 1);
    }
}

/// A destination held by no route is not found.
/// A destination that lookup misses is held by no route.
pub proof fn lemma_route_lookup_none_absent(routes: Seq<ComputedRoute>, dst: u64)
    requires
        spec_route_lookup(routes, dst) is None,
    ensures
        forall|j: int| 0 <= j < routes.len() ==> (#[trigger] routes[j]).dst_node != dst,
    decreases routes.len(),
{
    if routes.len() > 0 {
        let tail = routes.subrange(1, routes.len() as int);
        lemma_route_lookup_none_absent(tail, dst);
        assert forall|j: int| 0 <= j < routes.len() implies (#[trigger] routes[j]).dst_node
            != dst by {
            if j > 0 {
                assert(tail[j - 1] == routes[j]);
            }
        }
    }
}

/// Appending a route changes no lookup that already succeeded, and
/// resolves the appended destination when it did not.
pub proof fn lemma_route_lookup_push(routes: Seq<ComputedRoute>, x: ComputedRoute, dst: u64)
    ensures
        spec_route_lookup(routes, dst) is Some ==> spec_route_lookup(routes.push(x), dst)
            == spec_route_lookup(routes, dst),
        spec_route_lookup(routes, dst) is None && x.dst_node == dst ==> spec_route_lookup(
            routes.push(x),
            dst,
        ) == Some(x),
        spec_route_lookup(routes, dst) is None && x.dst_node != dst ==> spec_route_lookup(
            routes.push(x),
            dst,
        ) is None,
    decreases routes.len(),
{
    reveal_with_fuel(spec_route_lookup, 3);
    if routes.len() == 0 {
        assert(routes.push(x)[0] == x);
        assert(routes.push(x).subrange(1, 1) =~= Seq::<ComputedRoute>::empty());
    } else {
        let tail = routes.subrange(1, routes.len() as int);
        lemma_route_lookup_push(tail, x, dst);
        assert(routes.push(x)[0] == routes[0]);
        assert(routes.push(x).subrange(1, routes.len() as int + 1) =~= tail.push(x));
        if routes[0].dst_node == dst {
            assert(spec_route_lookup(routes, dst) == Some(routes[0]));
            assert(spec_route_lookup(routes.push(x), dst) == Some(routes[0]));
        } else {
            assert(spec_route_lookup(routes, dst) == spec_route_lookup(tail, dst));
            assert(spec_route_lookup(routes.push(x), dst) == spec_route_lookup(tail.push(x), dst));
        }
    }
}

pub proof fn lemma_route_lookup_miss(routes: Seq<ComputedRoute>, dst: u64)
    requires
        forall|j: int| 0 <= j < routes.len() ==> (#[trigger] routes[j]).dst_node != dst,
    ensures
        spec_route_lookup(routes, dst) is None,
    decreases routes.len(),
{
    if routes.len() > 0 {
        let tail = routes.subrange(1, routes.len() as int);
        assert(forall|j: int| 0 <= j < tail.len() ==> (#[trigger] tail[j]).dst_node != dst) by {
            assert(forall|j: int| 0 <= j < tail.len() ==> #[trigger] tail[j] == routes[j + 1]);
        }
        lemma_route_lookup_miss(tail, dst);
    }
}



} // verus!
