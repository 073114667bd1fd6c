//! Link-state advertisement messages: neighbor announcements flooded with
//! a TTL, ordered by sequence numbers that compare modularly so that
//! wraparound keeps freshness intact.

use vstd::prelude::*;

use crate::clock::unix_now_secs;

verus! {

/// Default TTL of a freshly emitted topology update.
pub const DEFAULT_TOPOLOGY_TTL: u8 = 8;

/// One announced neighbor of an originating node.
#[derive(Debug, Clone, PartialEq, Eq)]
pub struct NeighborInfo {
    /// Node ID of the neighbor.
    pub node_id: u64,
    /// Cost to reach it.
    pub cost: u32,
    /// Optional address information.
    pub addr: Option<String>,
}

impl NeighborInfo {
    /// Describe one neighbor.
    pub fn new(node_id: u64, cost: u32, addr: Option<String>) -> (r: NeighborInfo)
        ensures
            r.node_id == node_id && r.cost == cost && r.addr == addr,
    {
        NeighborInfo { node_id, cost, addr }
    }
}

/// A copy of a neighbor record, equal to the original.
pub fn clone_neighbor(n: &NeighborInfo) -> (r: NeighborInfo)
    ensures
        r == *n,
{
    NeighborInfo {
        node_id: n.node_id,
        cost: n.cost,
        addr: match &n.addr {
            Some(a) => Some(a.clone()),
            None => None,
        },
    }
}

/// A copy of a neighbor list, equal to the original.
pub fn clone_neighbors(ns: &Vec<NeighborInfo>) -> (r: Vec<NeighborInfo>)
    ensures
        r@ == ns@,
{
    let mut out: Vec<NeighborInfo> = Vec::new();
    let len = ns.len();
    let mut i: usize = 0;
    while i < len
        invariant
            i <= len,
            len == ns@.len(),
            out@ == ns@.subrange(0, i as int),
        decreases len - i,
    {
        out.push(clone_neighbor(&ns[i]));
        i = i + 1;
        assert(out@ =~= ns@.subrange(0, i as int));
    }
    assert(out@ =~= ns@);
    out
}

/// `a` is strictly newer than `b` under modular 64-bit comparison: their
/// wrapped difference lies strictly between zero and half the sequence
/// space.
pub open spec fn spec_seq_newer(a: u64, b: u64) -> bool {
    let d = vstd::wrapping::u64_specs::wrapping_sub(a, b);
    0 < d < 0x8000_0000_0000_0000
}

/// A link-state advertisement.
#[derive(Debug, Clone, PartialEq, Eq)]
pub struct TopologyUpdate {
    /// The node whose neighbor set this is.
    pub originator_node: u64,
    /// Freshness; strictly increases per originator, compared modularly.
    pub sequence_number: u64,
    /// The originator's neighbors.
    pub neighbors: Vec<NeighborInfo>,
    /// Flooding time-to-live.
    pub ttl: u8,
    /// Creation time, seconds since the Unix epoch.
    pub timestamp: u64,
}

impl TopologyUpdate {
    /// An advertisement stamped with the current clock reading.
    pub fn new(originator_node: u64, sequence_number: u64, neighbors: Vec<NeighborInfo>, ttl: u8)
        -> (r: TopologyUpdate)
        ensures
            r.originator_node == originator_node,
            r.sequence_number == sequence_number,
            r.neighbors == neighbors,
            r.ttl == ttl,
    {
        let timestamp = unix_now_secs();
        TopologyUpdate { originator_node, sequence_number, neighbors, ttl, timestamp }
    }

    /// Whether the update may still be forwarded.
    pub fn should_forward(&self) -> (r: bool)
        ensures
            r == (self.ttl > 0),
    {
        self.ttl > 0
    }

    /// Lower the TTL by one, stopping at zero.
    pub fn decrement_ttl(&mut self)
        ensures
            final(self).ttl == (if old(self).ttl > 0 {
                (old(self).ttl - 1) as u8
            } else {
                0u8
            }),
            final(self).originator_node == old(self).originator_node,
            final(self).sequence_number == old(self).sequence_number,
            final(self).neighbors == old(self).neighbors,
            final(self).timestamp == old(self).timestamp,
    {
        if self.ttl > 0 {
            self.ttl = self.ttl - 1;
        }
    }

    /// Whether this update is strictly newer than a stored sequence
    /// number, under modular comparison.
    pub fn is_newer_than(&self, other_seq: u64) -> (r: bool)
        ensures
            r == spec_seq_newer(self.sequence_number, other_seq),
    {
        let d = self.sequence_number.wrapping_sub(other_seq);
        d > 0 && d < 0x8000_0000_0000_0000
    }
}

/// A request for topology information.
#[derive(Debug, Clone, PartialEq, Eq, Structural)]
pub struct TopologyRequest {
    /// The node making the request.
    pub requesting_node: u64,
    /// A specific node of interest, or none for all nodes.
    pub target_node: Option<u64>,
    /// Request ID for correlation.
    pub request_id: u64,
}

impl TopologyRequest {
    /// Describe a request.
    pub fn new(requesting_node: u64, target_node: Option<u64>, request_id: u64) -> (r:
        TopologyRequest)
        ensures
            r.requesting_node == requesting_node,
            r.target_node == target_node,
            r.request_id == request_id,
    {
        TopologyRequest { requesting_node, target_node, request_id }
    }
}

} // verus!
