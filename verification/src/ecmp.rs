//! Equal-cost multi-path selection: a deterministic hash over
//! `(destination, correlation ID)` picks one hop out of a hop set, so the
//! same flow takes the same path while the hop set is unchanged.

use vstd::prelude::*;

use crate::hops::clone_next_hop;
use crate::hops::HopSet;
use crate::hops::NextHop;

verus! {

/// A 64-bit mixing of `x`: an xor-shift-multiply finalizer that spreads
/// input bits over the whole word.
pub open spec fn spec_mix64(x: u64) -> u64 {
    let a = (x ^ (x >> 30)) as u64;
    let b = vstd::wrapping::u64_specs::wrapping_mul(a, 0xBF58476D1CE4E5B9);
    let c = (b ^ (b >> 27)) as u64;
    let d = vstd::wrapping::u64_specs::wrapping_mul(c, 0x94D049BB133111EB);
    (d ^ (d >> 31)) as u64
}

/// The hop index that the selector picks for a flow: the mixed hash of
/// `seed xor dst xor corr`, modulo the hop count.
pub open spec fn spec_hop_index(seed: u64, dst_node: u64, corr_id: u64, len: int) -> int
    recommends
        len > 0,
{
    spec_mix64(seed ^ dst_node ^ corr_id) as int % len
}

/// Mix `x` as `spec_mix64` does.
pub fn mix64(x: u64) -> (r: u64)
    ensures
        r == spec_mix64(x),
{
    let a = x ^ (x >> 30);
    let b = a.wrapping_mul(0xBF58476D1CE4E5B9);
    let c = b ^ (b >> 27);
    let d = c.wrapping_mul(0x94D049BB133111EB);
    d ^ (d >> 31)
}

/// Selector of one hop among equals, seeded so that distinct nodes can
/// shift their choices independently.
#[derive(Debug, Clone, Copy, PartialEq, Eq, Structural)]
pub struct EcmpSelector {
    /// Seed mixed into every selection.
    pub hash_seed: u64,
}

/// The outcome of an ECMP selection.
#[derive(Debug, Clone, PartialEq, Eq)]
pub struct EcmpDecision {
    /// The selected next hop.
    pub next_hop: NextHop,
    /// How many hops were available.
    pub total_hops: usize,
    /// The cost of the selected path.
    pub cost: u32,
}

impl EcmpDecision {
    /// Record a selection outcome.
    pub fn new(next_hop: NextHop, total_hops: usize, cost: u32) -> (r: EcmpDecision)
        ensures
            r.next_hop == next_hop && r.total_hops == total_hops && r.cost == cost,
    {
        EcmpDecision { next_hop, total_hops, cost }
    }
}

impl EcmpSelector {
    /// A selector with the default seed.
    pub fn new() -> (r: EcmpSelector)
        ensures
            r.hash_seed == 0x517cc1b727220a95u64,
    {
        EcmpSelector { hash_seed: 0x517cc1b727220a95 }
    }

    /// A selector with the given seed.
    pub fn with_seed(seed: u64) -> (r: EcmpSelector)
        ensures
            r.hash_seed == seed,
    {
        EcmpSelector { hash_seed: seed }
    }

    /// Pick a hop for the flow `(dst_node, corr_id)`: none from an empty
    /// set, else exactly the hop at the hashed index. The result is a
    /// function of the seed, the hop set and the flow alone, so repeated
    /// lookups for one flow return the same hop while the hop set is
    /// unchanged.
    pub fn select_hop(&self, hop_set: &HopSet, dst_node: u64, corr_id: u64) -> (r: Option<NextHop>)
        ensures
            hop_set.hops@.len() == 0 ==> r is None,
            hop_set.hops@.len() > 0 ==> r == Some(
                hop_set.hops@[spec_hop_index(
                    self.hash_seed,
                    dst_node,
                    corr_id,
                    hop_set.hops@.len() as int,
                )],
            ),
    {
        let n = hop_set.hops.len();
        if n == 0 {
            return None;
        }
        let hash = mix64(self.hash_seed ^ dst_node ^ corr_id);
        let index = (hash % (n as u64)) as usize;
        proof {
            assert(hash % (n as u64) == spec_hop_index(
                self.hash_seed,
                dst_node,
                corr_id,
                n as int,
            ));
        }
        Some(clone_next_hop(&hop_set.hops[index]))
    }

    /// Pick a hop using only the destination, with a zero correlation ID.
    pub fn select_hop_simple(&self, hop_set: &HopSet, dst_node: u64) -> (r: Option<NextHop>)
        ensures
            hop_set.hops@.len() == 0 ==> r is None,
            hop_set.hops@.len() > 0 ==> r == Some(
                hop_set.hops@[spec_hop_index(
                    self.hash_seed,
                    dst_node,
                    0,
                    hop_set.hops@.len() as int,
                )],
            ),
    {
        self.select_hop(hop_set, dst_node, 0)
    }
}

/// ECMP selection is consistent: for one seed and one flow, two hop sets
/// holding the same hops yield the same selected hop.
pub proof fn lemma_ecmp_consistent(
    seed: u64,
    first: Seq<NextHop>,
    second: Seq<NextHop>,
    dst_node: u64,
    corr_id: u64,
)
    requires
        first == second,
        first.len() > 0,
    ensures
        first[spec_hop_index(seed, dst_node, corr_id, first.len() as int)] == second[spec_hop_index(
            seed,
            dst_node,
            corr_id,
            second.len() as int,
        )],
{
}

} // verus!
