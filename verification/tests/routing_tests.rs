use mesh_core::ecmp::EcmpSelector;
use mesh_core::hops::HopSet;
use mesh_core::hops::NextHop;
use mesh_core::router::DropReason;
use mesh_core::router::RouterStats;
use mesh_core::router::RouteUpdate;
use mesh_core::router::RoutingContext;
use mesh_core::router::RoutingDecision;
use mesh_core::table::RoutingTable;
use mesh_core::topology::ComputedRoute;
use std::collections::HashMap;

fn collect_hop_set(hops: Vec<NextHop>) -> HopSet {
    HopSet::from_hops(hops)
}

#[test]
fn test_ecmp_selection() {
    let selector = EcmpSelector::new();

    let hop1 = NextHop::new(1001, 10);
    let hop2 = NextHop::new(2002, 10);
    let hop3 = NextHop::new(3003, 10);

    let hop_set = collect_hop_set(vec![hop1, hop2, hop3]);

    // Test that selection is consistent
    let dst_node = 5005;
    let corr_id = 12345;

    let selection1 = selector.select_hop(&hop_set, dst_node, corr_id);
    let selection2 = selector.select_hop(&hop_set, dst_node, corr_id);

    assert_eq!(selection1, selection2);
    assert!(selection1.is_some());

    // Test that different flows can select different hops
    let mut selections = HashMap::new();
    for i in 0..100 {
        if let Some(hop) = selector.select_hop(&hop_set, dst_node, i) {
            *selections.entry(hop.node_id).or_insert(0) += 1;
        }
    }

    // Should have some distribution across hops
    assert!(selections.len() > 1);
}

#[test]
fn test_ecmp_empty_hop_set() {
    let selector = EcmpSelector::new();
    let empty_hop_set = HopSet::new(10);

    let result = selector.select_hop(&empty_hop_set, 1001, 12345);
    assert!(result.is_none());
}

#[test]
fn test_ecmp_single_hop() {
    let selector = EcmpSelector::new();
    let hop = NextHop::new(1001, 10);
    let hop_set = HopSet::single(hop.clone());

    let result = selector.select_hop(&hop_set, 2002, 12345);
    assert_eq!(result, Some(hop));
}

#[test]
fn test_consistent_hashing() {
    let selector1 = EcmpSelector::with_seed(12345);
    let selector2 = EcmpSelector::with_seed(12345);
    let selector3 = EcmpSelector::with_seed(54321);

    let hop1 = NextHop::new(1001, 10);
    let hop2 = NextHop::new(2002, 10);
    let hop_set = collect_hop_set(vec![hop1, hop2]);

    let dst_node = 5005;
    let corr_id = 12345;

    // Same seed should produce same results
    let result1 = selector1.select_hop(&hop_set, dst_node, corr_id);
    let result2 = selector2.select_hop(&hop_set, dst_node, corr_id);
    assert_eq!(result1, result2);

    // Different seed might produce different results
    let result3 = selector3.select_hop(&hop_set, dst_node, corr_id);

    assert!(result1.is_some());
    assert!(result3.is_some());
}

#[test]
fn test_next_hop_creation() {
    let hop = NextHop::new(1001, 10);
    assert_eq!(hop.node_id, 1001);
    assert_eq!(hop.cost, 10);
    assert_eq!(hop.interface, None);

    let hop_with_iface = NextHop::with_interface(2002, 5, "eth0".to_string());
    assert_eq!(hop_with_iface.node_id, 2002);
    assert_eq!(hop_with_iface.cost, 5);
    assert_eq!(hop_with_iface.interface, Some("eth0".to_string()));
}

#[test]
fn test_hop_set_operations() {
    let mut hop_set = HopSet::new(10);

    let hop1 = NextHop::new(1001, 10);
    let hop2 = NextHop::new(2002, 10);
    let hop3 = NextHop::new(3003, 15); // Different cost

    // Add hops with matching cost
    assert!(hop_set.add_hop(hop1.clone()));
    assert!(hop_set.add_hop(hop2.clone()));
    assert_eq!(hop_set.len(), 2);

    // Try to add hop with different cost
    assert!(!hop_set.add_hop(hop3));
    assert_eq!(hop_set.len(), 2);

    // Check contains
    assert!(hop_set.contains_node(1001));
    assert!(hop_set.contains_node(2002));
    assert!(!hop_set.contains_node(3003));

    // Remove hop
    assert!(hop_set.remove_hop(1001));
    assert_eq!(hop_set.len(), 1);
    assert!(!hop_set.contains_node(1001));

    // Remove last hop
    assert!(!hop_set.remove_hop(2002));
    assert!(hop_set.is_empty());
}

#[test]
fn test_hop_set_from_iterator() {
    let hops = vec![
        NextHop::new(1001, 10),
        NextHop::new(2002, 10),
        NextHop::new(3003, 15), // Higher cost, should be filtered out
        NextHop::new(4004, 10),
    ];

    let hop_set: HopSet = HopSet::from_hops(hops);

    assert_eq!(hop_set.cost, 10);
    assert_eq!(hop_set.len(), 3);
    assert!(hop_set.contains_node(1001));
    assert!(hop_set.contains_node(2002));
    assert!(hop_set.contains_node(4004));
    assert!(!hop_set.contains_node(3003)); // Filtered out due to higher cost
}

#[test]
fn test_routing_context() {
    let ctx = RoutingContext::new(1001, 2002, 64, 12345);
    assert_eq!(ctx.src_node, 1001);
    assert_eq!(ctx.dst_node, 2002);
    assert_eq!(ctx.ttl, 64);
    assert_eq!(ctx.corr_id, 12345);
    assert!(!ctx.is_ttl_expired());

    // Test TTL decrement
    let ctx2 = ctx.decrement_ttl().unwrap();
    assert_eq!(ctx2.ttl, 63);

    // Test TTL expiration
    let mut ctx3 = ctx.clone();
    ctx3.ttl = 1;
    let ctx4 = ctx3.decrement_ttl().unwrap();
    assert_eq!(ctx4.ttl, 0);
    assert!(ctx4.is_ttl_expired());

    // Test TTL already expired
    let ctx5 = ctx4.decrement_ttl();
    assert!(ctx5.is_none());
}

#[test]
fn test_drop_reason_display() {
    assert_eq!(DropReason::NoRoute.describe(), "no route to destination");
    assert_eq!(DropReason::TtlExpired.describe(), "TTL expired");
    assert_eq!(DropReason::InvalidDestination.describe(), "invalid destination");
    assert_eq!(DropReason::RoutingLoop.describe(), "routing loop detected");
    assert_eq!(DropReason::AdminProhibited.describe(), "administratively prohibited");
}

#[test]
fn test_route_update() {
    let hop = NextHop::new(1001, 10);
    let hop_set = HopSet::single(hop);

    let update = RouteUpdate::new(2002, hop_set.clone(), 1);
    assert_eq!(update.destination, 2002);
    assert_eq!(update.hop_set, Some(hop_set));
    assert_eq!(update.epoch, 1);

    let remove_update = RouteUpdate::remove(2002, 2);
    assert_eq!(remove_update.destination, 2002);
    assert_eq!(remove_update.hop_set, None);
    assert_eq!(remove_update.epoch, 2);
}

#[test]
fn test_router_stats() {
    let mut stats = RouterStats::new(1001);
    assert_eq!(stats.local_node_id, 1001);
    assert_eq!(stats.total_routes, 0);
    assert_eq!(stats.decisions_made, 0);

    stats.packets_dropped += 1;
    stats.drop_reasons.push(("no_route".to_string(), 1));

    assert_eq!(stats.packets_dropped, 1);
    assert_eq!(stats.drop_reasons[0], ("no_route".to_string(), 1));
}

#[test]
fn routing_decisions_cover_local_ttl_and_routes() {
    let mut table = RoutingTable::new(1001);
    // Local delivery wins even with no routes.
    let local_ctx = RoutingContext::new(5, 1001, 0, 9);
    assert_eq!(table.decide(&local_ctx), RoutingDecision::Local);

    // TTL of one on arrival: after the forwarding decrement it is spent.
    let arriving = RoutingContext::new(5, 2002, 1, 9);
    let after_decrement = arriving.decrement_ttl().unwrap();
    assert_eq!(
        table.decide(&after_decrement),
        RoutingDecision::Drop(DropReason::TtlExpired)
    );

    // No route for an unknown destination.
    let ctx = RoutingContext::new(5, 2002, 64, 9);
    assert_eq!(table.decide(&ctx), RoutingDecision::Drop(DropReason::NoRoute));

    // A computed route makes it forwardable.
    let computed = vec![ComputedRoute { dst_node: 2002, next_hop: 3003, total_cost: 4, hop_count: 2 }];
    table.update_routes_from_topology(&computed);
    match table.decide(&ctx) {
        RoutingDecision::Forward(decision) => {
            assert_eq!(decision.next_hop.node_id, 3003);
            assert_eq!(decision.total_hops, 1);
            assert_eq!(decision.cost, 4);
        }
        other => panic!("expected a forward, got {:?}", other),
    }
    assert_eq!(table.get_epoch(), 1);
}
