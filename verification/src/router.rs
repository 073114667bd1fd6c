//! Routing decisions: the outcome of asking where a frame should go, and
//! the context the question is asked in.

use vstd::prelude::*;

use crate::ecmp::EcmpDecision;
use crate::hops::HopSet;

verus! {

/// Why a frame was not forwarded.
#[derive(Debug, Clone, Copy, PartialEq, Eq, Structural)]
pub enum DropReason {
    /// No route to the destination.
    NoRoute,
    /// The TTL expired.
    TtlExpired,
    /// The destination is invalid.
    InvalidDestination,
    /// A routing loop was detected.
    RoutingLoop,
    /// Administratively prohibited.
    AdminProhibited,
}

impl DropReason {
    /// A short description of the reason.
    pub fn describe(&self) -> (r: &'static str)
        ensures
            true,
    {
        match self {
            DropReason::NoRoute => "no route to destination",
            DropReason::TtlExpired => "TTL expired",
            DropReason::InvalidDestination => "invalid destination",
            DropReason::RoutingLoop => "routing loop detected",
            DropReason::AdminProhibited => "administratively prohibited",
        }
    }
}

/// Where a frame goes: onward to a chosen hop, up to the local node, or
/// nowhere.
#[derive(Debug, Clone, PartialEq, Eq)]
pub enum RoutingDecision {
    /// Forward through the selected next hop.
    Forward(EcmpDecision),
    /// Deliver locally; this node is the destination.
    Local,
    /// Drop the frame.
    Drop(DropReason),
}

/// The inputs of one routing decision.
#[derive(Debug, Clone, Copy, PartialEq, Eq, Structural)]
pub struct RoutingContext {
    /// Source node.
    pub src_node: u64,
    /// Destination node.
    pub dst_node: u64,
    /// Remaining time to live.
    pub ttl: u8,
    /// Correlation ID, kept stable per flow for ECMP.
    pub corr_id: u64,
    /// Route class for policy routing.
    pub route_class: u32,
    /// Partition ID.
    pub partition: u32,
    /// Routing epoch.
    pub epoch: u32,
}

impl RoutingContext {
    /// A context with default class, partition and epoch.
    pub fn new(src_node: u64, dst_node: u64, ttl: u8, corr_id: u64) -> (r: RoutingContext)
        ensures
            r == (RoutingContext {
                src_node,
                dst_node,
                ttl,
                corr_id,
                route_class: 0,
                partition: 0,
                epoch: 0,
            }),
    {
        RoutingContext { src_node, dst_node, ttl, corr_id, route_class: 0, partition: 0, epoch: 0 }
    }

    /// The context one hop later, or none when the TTL is spent.
    pub fn decrement_ttl(&self) -> (r: Option<RoutingContext>)
        ensures
            self.ttl == 0 ==> r is None,
            self.ttl > 0 ==> r == Some(RoutingContext { ttl: (self.ttl - 1) as u8, ..*self }),
    {
        if self.ttl > 0 {
            Some(RoutingContext { ttl: self.ttl - 1, ..*self })
        } else {
            None
        }
    }

    /// Whether the TTL is spent.
    pub fn is_ttl_expired(&self) -> (r: bool)
        ensures
            r == (self.ttl == 0),
    {
        self.ttl == 0
    }
}

/// Counters describing a router.
#[derive(Debug, Clone, PartialEq, Eq)]
pub struct RouterStats {
    /// This node's ID.
    pub local_node_id: u64,
    /// How many destinations have routes.
    pub total_routes: usize,
    /// Decisions made.
    pub decisions_made: u64,
    /// Frames sent onward.
    pub packets_forwarded: u64,
    /// Frames delivered locally.
    pub packets_local: u64,
    /// Frames dropped.
    pub packets_dropped: u64,
    /// Drop counts by reason description.
    pub drop_reasons: Vec<(String, u64)>,
}

impl RouterStats {
    /// Zeroed counters for a node.
    pub fn new(local_node_id: u64) -> (r: RouterStats)
        ensures
            r.local_node_id == local_node_id,
            r.total_routes == 0,
            r.decisions_made == 0,
            r.packets_forwarded == 0,
            r.packets_local == 0,
            r.packets_dropped == 0,
            r.drop_reasons@.len() == 0,
    {
        RouterStats {
            local_node_id,
            total_routes: 0,
            decisions_made: 0,
            packets_forwarded: 0,
            packets_local: 0,
            packets_dropped: 0,
            drop_reasons: Vec::new(),
        }
    }
}

/// A change to the routing table: a new hop set for a destination, or its
/// removal.
#[derive(Debug, Clone, PartialEq, Eq)]
pub struct RouteUpdate {
    /// The destination the change is about.
    pub destination: u64,
    /// The new hop set, or none to remove the route.
    pub hop_set: Option<HopSet>,
    /// The routing epoch the change belongs to.
    pub epoch: u32,
}

impl RouteUpdate {
    /// A change installing `hop_set` for `destination`.
    pub fn new(destination: u64, hop_set: HopSet, epoch: u32) -> (r: RouteUpdate)
        ensures
            r.destination == destination,
            r.hop_set == Some(hop_set),
            r.epoch == epoch,
    {
        RouteUpdate { destination, hop_set: Some(hop_set), epoch }
    }

    /// A change removing the route of `destination`.
    pub fn remove(destination: u64, epoch: u32) -> (r: RouteUpdate)
        ensures
            r.destination == destination,
            r.hop_set is None,
            r.epoch == epoch,
    {
        RouteUpdate { destination, hop_set: None, epoch }
    }
}

} // verus!
