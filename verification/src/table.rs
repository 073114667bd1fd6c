//! The routing table: destination to equal-cost hop set, an epoch bumped
//! on every recomputation, and the routing decision itself.

use vstd::prelude::*;

use crate::ecmp::spec_hop_index;
use crate::ecmp::EcmpDecision;
use crate::ecmp::EcmpSelector;
use crate::hops::clone_next_hop;
use crate::hops::HopSet;
use crate::hops::NextHop;
use crate::router::DropReason;
use crate::router::RouteUpdate;
use crate::router::RouterStats;
use crate::router::RoutingContext;
use crate::router::RoutingDecision;
use crate::topology::ComputedRoute;

verus! {

/// The hop set stored for `dst`, when one is.
pub open spec fn spec_table_lookup(routes: Seq<(u64, HopSet)>, dst: u64) -> Option<HopSet>
    decreases routes.len(),
{
    if routes.len() == 0 {
        None
    } else if routes[0].0 == dst {
        Some(routes[0].1)
    } else {
        spec_table_lookup(routes.subrange(1, routes.len() as int), dst)
    }
}

/// What the routing decision is for context `ctx`, given the local node,
/// the stored hop set and the selector seed: local delivery home, a TTL
/// drop, a no-route drop on a missing or empty hop set, else the hop the
/// selector picks.
pub open spec fn spec_decision(
    local: u64,
    seed: u64,
    stored: Option<HopSet>,
    ctx: RoutingContext,
) -> RoutingDecision {
    if ctx.dst_node == local {
        RoutingDecision::Local
    } else if ctx.ttl == 0 {
        RoutingDecision::Drop(DropReason::TtlExpired)
    } else {
        match stored {
            None => RoutingDecision::Drop(DropReason::NoRoute),
            Some(hs) => {
                if hs.hops@.len() == 0 {
                    RoutingDecision::Drop(DropReason::NoRoute)
                } else {
                    RoutingDecision::Forward(
                        EcmpDecision {
                            next_hop: hs.hops@[spec_hop_index(
                                seed,
                                ctx.dst_node,
                                ctx.corr_id,
                                hs.hops@.len() as int,
                            )],
                            total_hops: hs.hops@.len() as usize,
                            cost: hs.cost,
                        },
                    )
                }
            },
        }
    }
}

/// A destination stored at some position resolves: lookup finds an
/// entry for it.
pub proof fn lemma_table_lookup_some_of_entry(routes: Seq<(u64, HopSet)>, a: int)
    requires
        0 <= a < routes.len(),
    ensures
        spec_table_lookup(routes, routes[a].0) is Some,
    decreases a,
{
    if routes[0].0 != routes[a].0 {
        let tail = routes.subrange(1, routes.len() as int);
        assert(tail[a - 1] == routes[a]);
        lemma_table_lookup_some_of_entry(tail, a - 1);
    }
}

/// A destination that lookup resolves is stored at some position.
pub proof fn lemma_table_lookup_some_means_entry(routes: Seq<(u64, HopSet)>, d: u64)
    requires
        spec_table_lookup(routes, d) is Some,
    ensures
        exists|a: int| 0 <= a < routes.len() && (#[trigger] routes[a]).0 == d,
    decreases routes.len(),
{
    if routes.len() > 0 && routes[0].0 != d {
        let tail = routes.subrange(1, routes.len() as int);
        lemma_table_lookup_some_means_entry(tail, d);
        let a0 = choose|a0: int| 0 <= a0 < tail.len() && (#[trigger] tail[a0]).0 == d;
        assert(routes[a0 + 1] == tail[a0]);
    }
}

/// A hop set that lookup resolves in a table of well-formed hop sets is
/// itself well formed.
pub proof fn lemma_table_lookup_wf(routes: Seq<(u64, HopSet)>, d: u64)
    requires
        spec_table_lookup(routes, d) is Some,
        forall|i: int| 0 <= i < routes.len() ==> (#[trigger] routes[i]).1.wf(),
    ensures
        spec_table_lookup(routes, d).unwrap().wf(),
    decreases routes.len(),
{
    if routes.len() > 0 && routes[0].0 != d {
        let tail = routes.subrange(1, routes.len() as int);
        assert(forall|i: int| 0 <= i < tail.len() ==> (#[trigger] tail[i]).1.wf()) by {
            assert(forall|i: int| 0 <= i < tail.len() ==> #[trigger] tail[i] == routes[i + 1]);
        }
        lemma_table_lookup_wf(tail, d);
    }
}

/// The cost and hops a stored hop set holds, for stating what a batch
/// of updates leaves behind.
pub open spec fn spec_hopset_opt_view(o: Option<HopSet>) -> Option<(u32, Seq<NextHop>)> {
    match o {
        Some(hs) => Some((hs.cost, hs.hops@)),
        None => None,
    }
}

/// The epoch after a batch of updates: each one above the running epoch
/// advances it.
pub open spec fn spec_updates_epoch(epoch: u32, updates: Seq<RouteUpdate>) -> u32
    decreases updates.len(),
{
    if updates.len() == 0 {
        epoch
    } else {
        let e2 = if updates[0].epoch > epoch {
            updates[0].epoch
        } else {
            epoch
        };
        spec_updates_epoch(e2, updates.subrange(1, updates.len() as int))
    }
}

/// What a batch of updates leaves stored for destination `d`: walked in
/// order, an update at or above the running epoch replaces the entry
/// when it is about `d` (or removes it, when it carries no hop set), and
/// the running epoch advances as the batch goes.
pub open spec fn spec_updates_apply(
    cur: Option<(u32, Seq<NextHop>)>,
    epoch: u32,
    updates: Seq<RouteUpdate>,
    d: u64,
) -> Option<(u32, Seq<NextHop>)>
    decreases updates.len(),
{
    if updates.len() == 0 {
        cur
    } else {
        let u = updates[0];
        let cur2 = if u.epoch >= epoch && u.destination == d {
            spec_hopset_opt_view(u.hop_set)
        } else {
            cur
        };
        let e2 = if u.epoch > epoch {
            u.epoch
        } else {
            epoch
        };
        spec_updates_apply(cur2, e2, updates.subrange(1, updates.len() as int), d)
    }
}

/// The in-memory routing table with ECMP selection.
#[derive(Debug)]
pub struct RoutingTable {
    /// This node's ID.
    pub local_node_id: u64,
    /// Destination to hop set, one entry per destination.
    pub routes: Vec<(u64, HopSet)>,
    /// The hop selector.
    pub ecmp_selector: EcmpSelector,
    /// Bumped on every recomputation.
    pub current_epoch: u32,
    /// Decisions made.
    pub decisions_counter: u64,
    /// Frames sent onward.
    pub forwards_counter: u64,
    /// Frames delivered locally.
    pub local_counter: u64,
    /// Frames dropped.
    pub drops_counter: u64,
}

impl RoutingTable {
    /// Each destination has one entry and each stored hop set is well
    /// formed.
    pub open spec fn wf(self) -> bool {
        &&& forall|i: int, j: int|
            0 <= i < j < self.routes@.len() ==> (#[trigger] self.routes@[i]).0 != (
            #[trigger] self.routes@[j]).0
        &&& forall|i: int| 0 <= i < self.routes@.len() ==> (#[trigger] self.routes@[i]).1.wf()
    }

    /// An empty table for the given node, at epoch zero.
    pub fn new(local_node_id: u64) -> (r: RoutingTable)
        ensures
            r.wf(),
            r.local_node_id == local_node_id,
            r.routes@.len() == 0,
            r.current_epoch == 0,
            r.decisions_counter == 0 && r.forwards_counter == 0 && r.local_counter == 0
                && r.drops_counter == 0,
    {
        RoutingTable {
            local_node_id,
            routes: Vec::new(),
            ecmp_selector: EcmpSelector::new(),
            current_epoch: 0,
            decisions_counter: 0,
            forwards_counter: 0,
            local_counter: 0,
            drops_counter: 0,
        }
    }

    /// The stored hop set of `dst_node`, when there is one.
    pub fn get_route(&self, dst_node: u64) -> (r: Option<&HopSet>)
        ensures
            match r {
                Some(hs) => spec_table_lookup(self.routes@, dst_node) == Some(*hs),
                None => spec_table_lookup(self.routes@, dst_node) is None,
            },
    {
        let n = self.routes.len();
        let mut i: usize = 0;
        while i < n
            invariant
                i <= n,
                n == self.routes@.len(),
                forall|j: int| 0 <= j < i ==> (#[trigger] self.routes@[j]).0 != dst_node,
            decreases n - i,
        {
            if self.routes[i].0 == dst_node {
                proof {
                    lemma_table_lookup_at(self.routes@, dst_node, i as int);
                }
                return Some(&self.routes[i].1);
            }
            i = i + 1;
        }
        proof {
            lemma_table_lookup_miss(self.routes@, dst_node);
        }
        None
    }

    /// Install or replace the route of `dst_node`.
    pub fn add_route(&mut self, dst_node: u64, hop_set: HopSet)
        requires
            old(self).wf(),
            hop_set.wf(),
        ensures
            final(self).wf(),
            final(self).local_node_id == old(self).local_node_id,
            final(self).current_epoch == old(self).current_epoch,
            final(self).ecmp_selector == old(self).ecmp_selector,
            spec_table_lookup(final(self).routes@, dst_node) == Some(hop_set),
            forall|other: u64|
                other != dst_node ==> #[trigger] spec_table_lookup(final(self).routes@, other)
                    == spec_table_lookup(old(self).routes@, other),
    {
        let ghost old_routes = self.routes@;
        let n = self.routes.len();
        let mut i: usize = 0;
        loop
            invariant
                i <= n,
                n == self.routes@.len(),
                self == old(self),
                old_routes == self.routes@,
                forall|j: int| 0 <= j < i ==> (#[trigger] old_routes[j]).0 != dst_node,
            ensures
                i <= n,
                self == old(self),
                old_routes == self.routes@,
                forall|j: int| 0 <= j < i ==> (#[trigger] old_routes[j]).0 != dst_node,
                i < n ==> old_routes[i as int].0 == dst_node,
            decreases n - i,
        {
            if i >= n {
                break;
            }
            if self.routes[i].0 == dst_node {
                break;
            }
            i = i + 1;
        }
        if i < n {
            self.routes[i] = (dst_node, hop_set);
            proof {
                assert(self.routes@ =~= old_routes.update(i as int, self.routes@[i as int]));
                lemma_table_lookup_at(self.routes@, dst_node, i as int);
                assert forall|other: u64| other != dst_node implies #[trigger] spec_table_lookup(
                    self.routes@,
                    other,
                ) == spec_table_lookup(old_routes, other) by {
                    lemma_table_lookup_same_except(old_routes, self.routes@, i as int, other);
                }
            }
        } else {
            self.routes.push((dst_node, hop_set));
            proof {
                assert(self.routes@ =~= old_routes.push(self.routes@[n as int]));
                lemma_table_lookup_at(self.routes@, dst_node, n as int);
                assert forall|other: u64| other != dst_node implies #[trigger] spec_table_lookup(
                    self.routes@,
                    other,
                ) == spec_table_lookup(old_routes, other) by {
                    lemma_table_lookup_same_except(old_routes, self.routes@, n as int, other);
                }
            }
        }
    }

    /// Remove the route of `dst_node`, if any.
    pub fn remove_route(&mut self, dst_node: u64)
        requires
            old(self).wf(),
        ensures
            final(self).wf(),
            final(self).local_node_id == old(self).local_node_id,
            final(self).current_epoch == old(self).current_epoch,
            final(self).ecmp_selector == old(self).ecmp_selector,
            spec_table_lookup(final(self).routes@, dst_node) is None,
            forall|other: u64|
                other != dst_node ==> #[trigger] spec_table_lookup(final(self).routes@, other)
                    == spec_table_lookup(old(self).routes@, other),
    {
        let ghost old_routes = self.routes@;
        let n = self.routes.len();
        let mut i: usize = 0;
        loop
            invariant
                i <= n,
                n == self.routes@.len(),
                self == old(self),
                old_routes == self.routes@,
                forall|j: int| 0 <= j < i ==> (#[trigger] old_routes[j]).0 != dst_node,
            ensures
                i <= n,
                self == old(self),
                old_routes == self.routes@,
                forall|j: int| 0 <= j < i ==> (#[trigger] old_routes[j]).0 != dst_node,
                i < n ==> old_routes[i as int].0 == dst_node,
            decreases n - i,
        {
            if i >= n {
                break;
            }
            if self.routes[i].0 == dst_node {
                break;
            }
            i = i + 1;
        }
        if i < n {
            self.routes.remove(i);
            proof {
                assert(self.routes@ =~= old_routes.remove(i as int));
                lemma_table_lookup_remove(old_routes, dst_node, i as int);
                assert(self.wf()) by {
                    assert forall|a: int, b: int|
                        0 <= a < b < self.routes@.len() implies (#[trigger] self.routes@[a]).0
                        != (#[trigger] self.routes@[b]).0 by {
                        let a0 = if a < i as int {
                            a
                        } else {
                            a + 1
                        };
                        let b0 = if b < i as int {
                            b
                        } else {
                            b + 1
                        };
                        assert(self.routes@[a] == old_routes[a0] && self.routes@[b]
                            == old_routes[b0]);
                    }
                    assert forall|a: int|
                        0 <= a < self.routes@.len() implies (#[trigger] self.routes@[a]).1.wf()
                        by {
                        let a0 = if a < i as int {
                            a
                        } else {
                            a + 1
                        };
                        assert(self.routes@[a] == old_routes[a0]);
                    }
                }
            }
        } else {
            proof {
                lemma_table_lookup_miss(old_routes, dst_node);
            }
        }
    }

    /// Replace the non-local routes with single-hop routes derived from
    /// computed topology paths and bump the epoch. Each computed
    /// destination other than the local node gets the single hop the
    /// computation chose; a route stored under the local node's own ID,
    /// if any, is retained untouched; every other previously stored route
    /// is gone.
    pub fn update_routes_from_topology(&mut self, computed_routes: &Vec<ComputedRoute>)
        requires
            old(self).wf(),
            forall|i: int, j: int|
                0 <= i < j < computed_routes@.len() ==> (
                #[trigger] computed_routes@[i]).dst_node != (
                #[trigger] computed_routes@[j]).dst_node,
        ensures
            final(self).wf(),
            final(self).local_node_id == old(self).local_node_id,
            final(self).current_epoch == vstd::wrapping::u32_specs::wrapping_add(
                old(self).current_epoch,
                1,
            ),
            forall|i: int|
                0 <= i < computed_routes@.len() && (#[trigger] computed_routes@[i]).dst_node
                    != old(self).local_node_id ==> (spec_table_lookup(
                    final(self).routes@,
                    computed_routes@[i].dst_node,
                ) matches Some(hs) && hs.cost == computed_routes@[i].total_cost && hs.hops@
                    =~= seq![
                    NextHop {
                        node_id: computed_routes@[i].next_hop,
                        cost: computed_routes@[i].total_cost,
                        interface: None,
                    },
                ]),
            spec_hopset_opt_view(
                spec_table_lookup(final(self).routes@, old(self).local_node_id),
            ) == spec_hopset_opt_view(
                spec_table_lookup(old(self).routes@, old(self).local_node_id),
            ),
            forall|d: u64|
                #[trigger] spec_table_lookup(final(self).routes@, d) is Some ==> (d == old(
                    self,
                ).local_node_id || exists|j: int|
                    0 <= j < computed_routes@.len() && (#[trigger] computed_routes@[j]).dst_node
                        == d),
    {
        let local_id = self.local_node_id;
        let kept: Option<HopSet> = match self.get_route(local_id) {
            Some(hs) => {
                proof {
                    lemma_table_lookup_wf(self.routes@, local_id);
                }
                Some(crate::hops::clone_hop_set(hs))
            },
            None => None,
        };
        let ghost old_local_view = spec_hopset_opt_view(
            spec_table_lookup(old(self).routes@, local_id),
        );
        self.routes = Vec::new();
        match kept {
            Some(hs) => {
                self.routes.push((local_id, hs));
                proof {
                    lemma_table_lookup_at(self.routes@, local_id, 0);
                    assert forall|d: u64|
                        d != local_id implies #[trigger] spec_table_lookup(
                        self.routes@,
                        d,
                    ) is None by {
                        lemma_table_lookup_miss(self.routes@, d);
                    }
                }
            },
            None => {
                proof {
                    assert forall|d: u64| #[trigger] spec_table_lookup(
                        self.routes@,
                        d,
                    ) is None by {
                        lemma_table_lookup_miss(self.routes@, d);
                    }
                }
            },
        }
        let n = computed_routes.len();
        let mut i: usize = 0;
        while i < n
            invariant
                i <= n,
                n == computed_routes@.len(),
                self.wf(),
                self.local_node_id == old(self).local_node_id,
                local_id == old(self).local_node_id,
                self.current_epoch == old(self).current_epoch,
                self.ecmp_selector == old(self).ecmp_selector,
                forall|i2: int, j2: int|
                    0 <= i2 < j2 < n ==> (#[trigger] computed_routes@[i2]).dst_node != (
                    #[trigger] computed_routes@[j2]).dst_node,
                spec_hopset_opt_view(spec_table_lookup(self.routes@, local_id))
                    == old_local_view,
                old_local_view == spec_hopset_opt_view(
                    spec_table_lookup(old(self).routes@, local_id),
                ),
                forall|j: int|
                    0 <= j < i && (#[trigger] computed_routes@[j]).dst_node
                        != self.local_node_id ==> (spec_table_lookup(
                        self.routes@,
                        computed_routes@[j].dst_node,
                    ) matches Some(hs) && hs.cost == computed_routes@[j].total_cost && hs.hops@
                        =~= seq![
                        NextHop {
                            node_id: computed_routes@[j].next_hop,
                            cost: computed_routes@[j].total_cost,
                            interface: None,
                        },
                    ]),
                forall|d: u64|
                    #[trigger] spec_table_lookup(self.routes@, d) is Some ==> (d == local_id
                        || exists|j: int|
                        0 <= j < i && (#[trigger] computed_routes@[j]).dst_node == d),
            decreases n - i,
        {
            let route = &computed_routes[i];
            if route.dst_node != self.local_node_id {
                let hop = NextHop::new(route.next_hop, route.total_cost);
                let hop_set = HopSet::single(hop);
                let ghost before = self.routes@;
                self.add_route(route.dst_node, hop_set);
                proof {
                    assert forall|j: int|
                        0 <= j < i + 1 && (#[trigger] computed_routes@[j]).dst_node
                            != self.local_node_id implies (spec_table_lookup(
                        self.routes@,
                        computed_routes@[j].dst_node,
                    ) matches Some(hs) && hs.cost == computed_routes@[j].total_cost && hs.hops@
                        =~= seq![
                        NextHop {
                            node_id: computed_routes@[j].next_hop,
                            cost: computed_routes@[j].total_cost,
                            interface: None,
                        },
                    ]) by {
                        if j < i as int {
                            assert(computed_routes@[j].dst_node != computed_routes@[i
                                as int].dst_node);
                            assert(spec_table_lookup(
                                self.routes@,
                                computed_routes@[j].dst_node,
                            ) == spec_table_lookup(before, computed_routes@[j].dst_node));
                        }
                    }
                    assert(spec_table_lookup(self.routes@, local_id) == spec_table_lookup(
                        before,
                        local_id,
                    ));
                    assert forall|d: u64|
                        #[trigger] spec_table_lookup(self.routes@, d) is Some implies (d
                        == local_id || exists|j: int|
                        0 <= j < i + 1 && (#[trigger] computed_routes@[j]).dst_node == d) by {
                        if d == computed_routes@[i as int].dst_node {
                            assert(computed_routes@[i as int].dst_node == d);
                        } else {
                            assert(spec_table_lookup(self.routes@, d) == spec_table_lookup(
                                before,
                                d,
                            ));
                        }
                    }
                }
            }
            i = i + 1;
        }
        self.current_epoch = self.current_epoch.wrapping_add(1);
    }

    /// Apply a batch of route updates, taking only those at the current
    /// epoch or newer and advancing the epoch to the newest seen: what
    /// each destination holds afterwards is exactly what walking the
    /// batch in order leaves for it.
    pub fn update_routes(&mut self, updates: Vec<RouteUpdate>)
        requires
            old(self).wf(),
            forall|i: int|
                0 <= i < updates@.len() ==> (match (#[trigger] updates@[i]).hop_set {
                    Some(hs) => hs.wf(),
                    None => true,
                }),
        ensures
            final(self).wf(),
            final(self).local_node_id == old(self).local_node_id,
            final(self).current_epoch == spec_updates_epoch(old(self).current_epoch, updates@),
            forall|d: u64|
                spec_hopset_opt_view(#[trigger] spec_table_lookup(final(self).routes@, d))
                    == spec_updates_apply(
                    spec_hopset_opt_view(spec_table_lookup(old(self).routes@, d)),
                    old(self).current_epoch,
                    updates@,
                    d,
                ),
    {
        let n = updates.len();
        let mut i: usize = 0;
        proof {
            assert(updates@.subrange(0, n as int) =~= updates@);
        }
        while i < n
            invariant
                i <= n,
                n == updates@.len(),
                self.wf(),
                self.local_node_id == old(self).local_node_id,
                forall|j: int|
                    0 <= j < n ==> (match (#[trigger] updates@[j]).hop_set {
                        Some(hs) => hs.wf(),
                        None => true,
                    }),
                spec_updates_epoch(old(self).current_epoch, updates@) == spec_updates_epoch(
                    self.current_epoch,
                    updates@.subrange(i as int, n as int),
                ),
                forall|d: u64|
                    spec_updates_apply(
                        spec_hopset_opt_view(spec_table_lookup(old(self).routes@, d)),
                        old(self).current_epoch,
                        updates@,
                        d,
                    ) == spec_updates_apply(
                        spec_hopset_opt_view(#[trigger] spec_table_lookup(self.routes@, d)),
                        self.current_epoch,
                        updates@.subrange(i as int, n as int),
                        d,
                    ),
            decreases n - i,
        {
            let ghost rem = updates@.subrange(i as int, n as int);
            let ghost epoch_before = self.current_epoch;
            let ghost routes_before = self.routes@;
            proof {
                assert(rem[0] == updates@[i as int]);
                assert(rem.subrange(1, rem.len() as int) =~= updates@.subrange(
                    i as int + 1,
                    n as int,
                ));
            }
            let update = &updates[i];
            if update.epoch >= self.current_epoch {
                if update.epoch > self.current_epoch {
                    self.current_epoch = update.epoch;
                }
                match &update.hop_set {
                    Some(hs) => {
                        let copy = crate::hops::clone_hop_set(hs);
                        self.add_route(update.destination, copy);
                    },
                    None => {
                        self.remove_route(update.destination);
                    },
                }
            }
            i = i + 1;
            proof {
                assert forall|d: u64|
                    spec_updates_apply(
                        spec_hopset_opt_view(spec_table_lookup(old(self).routes@, d)),
                        old(self).current_epoch,
                        updates@,
                        d,
                    ) == spec_updates_apply(
                        spec_hopset_opt_view(#[trigger] spec_table_lookup(self.routes@, d)),
                        self.current_epoch,
                        updates@.subrange(i as int, n as int),
                        d,
                    ) by {
                    assert(spec_updates_apply(
                        spec_hopset_opt_view(spec_table_lookup(routes_before, d)),
                        epoch_before,
                        rem,
                        d,
                    ) == spec_updates_apply(
                        spec_hopset_opt_view(spec_table_lookup(self.routes@, d)),
                        self.current_epoch,
                        updates@.subrange(i as int, n as int),
                        d,
                    ));
                }
            }
        }
        proof {
            assert(updates@.subrange(n as int, n as int) =~= Seq::<RouteUpdate>::empty());
        }
    }

    /// Decide where a frame in context `ctx` goes: home when the
    /// destination is the local node, a TTL drop when the TTL is spent, a
    /// no-route drop when no nonempty hop set is stored, else forward
    /// through the hop the selector picks for the flow. Counters advance
    /// accordingly.
    pub fn decide(&mut self, ctx: &RoutingContext) -> (r: RoutingDecision)
        requires
            old(self).wf(),
        ensures
            final(self).wf(),
            final(self).routes@ == old(self).routes@,
            final(self).local_node_id == old(self).local_node_id,
            final(self).current_epoch == old(self).current_epoch,
            final(self).ecmp_selector == old(self).ecmp_selector,
            r == spec_decision(
                old(self).local_node_id,
                old(self).ecmp_selector.hash_seed,
                spec_table_lookup(old(self).routes@, ctx.dst_node),
                *ctx,
            ),
    {
        self.decisions_counter = self.decisions_counter.wrapping_add(1);
        if ctx.dst_node == self.local_node_id {
            self.local_counter = self.local_counter.wrapping_add(1);
            return RoutingDecision::Local;
        }
        if ctx.ttl == 0 {
            self.drops_counter = self.drops_counter.wrapping_add(1);
            return RoutingDecision::Drop(DropReason::TtlExpired);
        }
        let selector = self.ecmp_selector;
        let local = self.local_node_id;
        let decision = match self.get_route(ctx.dst_node) {
            None => RoutingDecision::Drop(DropReason::NoRoute),
            Some(hop_set) => {
                match selector.select_hop(hop_set, ctx.dst_node, ctx.corr_id) {
                    None => RoutingDecision::Drop(DropReason::NoRoute),
                    Some(next_hop) => {
                        let total = hop_set.len();
                        let cost = hop_set.cost;
                        RoutingDecision::Forward(EcmpDecision { next_hop, total_hops: total, cost })
                    },
                }
            },
        };
        match &decision {
            RoutingDecision::Forward(_) => {
                self.forwards_counter = self.forwards_counter.wrapping_add(1);
            },
            _ => {
                self.drops_counter = self.drops_counter.wrapping_add(1);
            },
        }
        decision
    }

    /// Whether a destination is the local node or has a stored route.
    pub fn is_reachable(&self, dst_node: u64) -> (r: bool)
        ensures
            r == (dst_node == self.local_node_id || spec_table_lookup(self.routes@, dst_node)
                is Some),
    {
        if dst_node == self.local_node_id {
            return true;
        }
        match self.get_route(dst_node) {
            Some(_) => true,
            None => false,
        }
    }

    /// The current routing epoch.
    pub fn get_epoch(&self) -> (r: u32)
        ensures
            r == self.current_epoch,
    {
        self.current_epoch
    }

    /// Set the routing epoch.
    pub fn set_epoch(&mut self, epoch: u32)
        requires
            old(self).wf(),
        ensures
            final(self).wf(),
            final(self).current_epoch == epoch,
            final(self).routes@ == old(self).routes@,
            final(self).local_node_id == old(self).local_node_id,
    {
        self.current_epoch = epoch;
    }

    /// Bump the routing epoch by one, saturating at its maximum, and
    /// yield the new value.
    pub fn increment_epoch(&mut self) -> (r: u32)
        requires
            old(self).wf(),
            old(self).current_epoch < u32::MAX,
        ensures
            final(self).wf(),
            final(self).current_epoch == old(self).current_epoch + 1,
            r == final(self).current_epoch,
            final(self).routes@ == old(self).routes@,
            final(self).local_node_id == old(self).local_node_id,
    {
        self.current_epoch = self.current_epoch + 1;
        self.current_epoch
    }

    /// Drop all routes.
    pub fn clear_routes(&mut self)
        requires
            old(self).wf(),
        ensures
            final(self).wf(),
            final(self).routes@.len() == 0,
            final(self).local_node_id == old(self).local_node_id,
            final(self).current_epoch == old(self).current_epoch,
    {
        self.routes = Vec::new();
    }

    /// Counters describing the table.
    pub fn get_stats(&self) -> (r: RouterStats)
        ensures
            r.local_node_id == self.local_node_id,
            r.total_routes == self.routes@.len(),
            r.decisions_made == self.decisions_counter,
            r.packets_forwarded == self.forwards_counter,
            r.packets_local == self.local_counter,
            r.packets_dropped == self.drops_counter,
    {
        RouterStats {
            local_node_id: self.local_node_id,
            total_routes: self.routes.len(),
            decisions_made: self.decisions_counter,
            packets_forwarded: self.forwards_counter,
            packets_local: self.local_counter,
            packets_dropped: self.drops_counter,
            drop_reasons: Vec::new(),
        }
    }
}

/// A frame arriving with one hop of life left reaches the local node when
/// it is addressed there; addressed anywhere else, the decision after the
/// forwarding decrement is a TTL drop.
pub proof fn lemma_ttl_one_on_arrival(
    local: u64,
    seed: u64,
    stored: Option<HopSet>,
    ctx: RoutingContext,
)
    requires
        ctx.ttl == 0,
    ensures
        ctx.dst_node == local ==> spec_decision(local, seed, stored, ctx)
            == RoutingDecision::Local,
        ctx.dst_node != local ==> spec_decision(local, seed, stored, ctx)
            == RoutingDecision::Drop(DropReason::TtlExpired),
{
}

/// Looking up the key at position `at` finds that entry, when no earlier
/// entry has the key.
pub proof fn lemma_table_lookup_at(routes: Seq<(u64, HopSet)>, dst: u64, at: int)
    requires
        0 <= at < routes.len(),
        routes[at].0 == dst,
        forall|j: int| 0 <= j < at ==> (#[trigger] routes[j]).0 != dst,
    ensures
        spec_table_lookup(routes, dst) == Some(routes[at].1),
    decreases at,
{
    if at > 0 {
        let tail = routes.subrange(1, routes.len() as int);
        assert(forall|j: int| 0 <= j < at - 1 ==> (#[trigger] tail[j]).0 != dst) by {
            assert(forall|j: int| 0 <= j < tail.len() ==> #[trigger] tail[j] == routes[j + 1]);
        }
        lemma_table_lookup_at(tail, dst, at - 1);
    }
}

/// A key held by no entry is not found.
pub proof fn lemma_table_lookup_miss(routes: Seq<(u64, HopSet)>, dst: u64)
    requires
        forall|j: int| 0 <= j < routes.len() ==> (#[trigger] routes[j]).0 != dst,
    ensures
        spec_table_lookup(routes, dst) is None,
    decreases routes.len(),
{
    if routes.len() > 0 {
        let tail = routes.subrange(1, routes.len() as int);
        assert(forall|j: int| 0 <= j < tail.len() ==> (#[trigger] tail[j]).0 != dst) by {
            assert(forall|j: int| 0 <= j < tail.len() ==> #[trigger] tail[j] == routes[j + 1]);
        }
        lemma_table_lookup_miss(tail, dst);
    }
}

/// Replacing or appending the entry at `at` leaves lookups of other keys
/// unchanged.
pub proof fn lemma_table_lookup_same_except(
    old_routes: Seq<(u64, HopSet)>,
    new_routes: Seq<(u64, HopSet)>,
    at: int,
    other: u64,
)
    requires
        0 <= at < new_routes.len(),
        new_routes.len() == old_routes.len() || new_routes.len() == old_routes.len() + 1,
        new_routes.len() == old_routes.len() + 1 ==> at == old_routes.len(),
        forall|j: int|
            0 <= j < new_routes.len() && j != at ==> #[trigger] new_routes[j] == old_routes[j],
        new_routes[at].0 != other,
        at < old_routes.len() ==> old_routes[at].0 != other,
    ensures
        spec_table_lookup(new_routes, other) == spec_table_lookup(old_routes, other),
    decreases new_routes.len(),
{
    if old_routes.len() == 0 {
        assert(new_routes.len() == 1 && at == 0);
        assert(spec_table_lookup(new_routes.subrange(1, 1), other) is None);
    } else if at == 0 {
        assert(new_routes.len() == old_routes.len());
        assert(new_routes.subrange(1, new_routes.len() as int) =~= old_routes.subrange(
            1,
            old_routes.len() as int,
        ));
    } else {
        assert(new_routes[0] == old_routes[0]);
        if new_routes[0].0 == other {
        } else {
            let new_tail = new_routes.subrange(1, new_routes.len() as int);
            let old_tail = old_routes.subrange(1, old_routes.len() as int);
            assert(forall|j: int|
                0 <= j < new_tail.len() && j != at - 1 ==> #[trigger] new_tail[j] == old_tail[j])
                by {
                assert(forall|j: int|
                    0 <= j < new_tail.len() ==> #[trigger] new_tail[j] == new_routes[j + 1]);
                assert(forall|j: int|
                    0 <= j < old_tail.len() ==> #[trigger] old_tail[j] == old_routes[j + 1]);
            }
            assert(new_tail[at - 1] == new_routes[at]);
            lemma_table_lookup_same_except(old_tail, new_tail, at - 1, other);
        }
    }
}

/// Removing the entry with a key makes it missing and leaves other keys
/// as they were, when no earlier entry has the key and keys are unique.
pub proof fn lemma_table_lookup_remove(routes: Seq<(u64, HopSet)>, dst: u64, at: int)
    requires
        0 <= at < routes.len(),
        routes[at].0 == dst,
        forall|i: int, j: int| 0 <= i < j < routes.len() ==> (#[trigger] routes[i]).0 != (#[trigger] routes[j]).0,
        forall|j: int| 0 <= j < at ==> (#[trigger] routes[j]).0 != dst,
    ensures
        spec_table_lookup(routes.remove(at), dst) is None,
        forall|other: u64|
            other != dst ==> #[trigger] spec_table_lookup(routes.remove(at), other)
                == spec_table_lookup(routes, other),
    decreases routes.len(),
{
    let removed = routes.remove(at);
    let tail = routes.subrange(1, routes.len() as int);
    if at == 0 {
        assert(removed =~= tail);
        assert(forall|j: int| 0 <= j < tail.len() ==> (#[trigger] tail[j]).0 != dst) by {
            assert(forall|j: int| 0 <= j < tail.len() ==> #[trigger] tail[j] == routes[j + 1]);
        }
        lemma_table_lookup_miss(tail, dst);
        assert forall|other: u64| other != dst implies #[trigger] spec_table_lookup(
            removed,
            other,
        ) == spec_table_lookup(routes, other) by {
            assert(spec_table_lookup(routes, other) == spec_table_lookup(tail, other));
        }
    } else {
        assert(forall|i: int, j: int|
            0 <= i < j < tail.len() ==> (#[trigger] tail[i]).0 != (#[trigger] tail[j]).0) by {
            assert(forall|j: int| 0 <= j < tail.len() ==> #[trigger] tail[j] == routes[j + 1]);
        }
        assert(forall|j: int| 0 <= j < at - 1 ==> (#[trigger] tail[j]).0 != dst) by {
            assert(forall|j: int| 0 <= j < tail.len() ==> #[trigger] tail[j] == routes[j + 1]);
        }
        assert(tail[at - 1] == routes[at]);
        lemma_table_lookup_remove(tail, dst, at - 1);
        assert(removed[0] == routes[0]);
        assert(removed.subrange(1, removed.len() as int) =~= tail.remove(at - 1));
        assert(routes[0].0 != dst);
        assert(spec_table_lookup(removed, dst) == spec_table_lookup(tail.remove(at - 1), dst));
        assert forall|other: u64| other != dst implies #[trigger] spec_table_lookup(
            removed,
            other,
        ) == spec_table_lookup(routes, other) by {
            if routes[0].0 == other {
            } else {
                assert(spec_table_lookup(removed, other) == spec_table_lookup(
                    tail.remove(at - 1),
                    other,
                ));
                assert(spec_table_lookup(routes, other) == spec_table_lookup(tail, other));
            }
        }
    }
}

} // verus!
