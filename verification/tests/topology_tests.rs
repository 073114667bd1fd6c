use mesh_core::topo_msg::NeighborInfo;
use mesh_core::topo_msg::TopologyRequest;
use mesh_core::topo_msg::TopologyUpdate;
use mesh_core::topology::TopologyDatabase;

#[test]
fn test_topology_update_creation() {
    let neighbors = vec![
        NeighborInfo::new(2002, 100, Some("127.0.0.1:9002".to_string())),
        NeighborInfo::new(3003, 150, Some("127.0.0.1:9003".to_string())),
    ];

    let update = TopologyUpdate::new(1001, 1, neighbors.clone(), 5);

    assert_eq!(update.originator_node, 1001);
    assert_eq!(update.sequence_number, 1);
    assert_eq!(update.neighbors, neighbors);
    assert_eq!(update.ttl, 5);
    assert!(update.should_forward());
}

#[test]
fn topology_test_ttl_decrement() {
    let mut update = TopologyUpdate::new(1001, 1, vec![], 1);
    assert!(update.should_forward());

    update.decrement_ttl();
    assert!(!update.should_forward());
    assert_eq!(update.ttl, 0);

    // Should not go below 0
    update.decrement_ttl();
    assert_eq!(update.ttl, 0);
}

#[test]
fn test_sequence_number_comparison() {
    let update1 = TopologyUpdate::new(1001, 1, vec![], 5);
    let update2 = TopologyUpdate::new(1001, 2, vec![], 5);

    assert!(update2.is_newer_than(update1.sequence_number));
    assert!(!update1.is_newer_than(update2.sequence_number));
}

#[test]
fn test_topology_request() {
    let request = TopologyRequest::new(1001, Some(2002), 12345);

    assert_eq!(request.requesting_node, 1001);
    assert_eq!(request.target_node, Some(2002));
    assert_eq!(request.request_id, 12345);
}

#[test]
fn sequence_comparison_handles_wraparound() {
    let update = TopologyUpdate::new(1, 5, vec![], 5);
    // A freshly wrapped sequence number is newer than one near the top.
    assert!(update.is_newer_than(u64::MAX - 2));
    // Equal sequence numbers are never newer.
    assert!(!update.is_newer_than(5));
}

#[test]
fn accepted_update_stores_its_sequence_number() {
    let mut db = TopologyDatabase::new(1001);
    let update = TopologyUpdate {
        originator_node: 2002,
        sequence_number: 7,
        neighbors: vec![NeighborInfo::new(1001, 10, None)],
        ttl: 8,
        timestamp: 1000,
    };
    assert!(db.process_topology_update_at(update, 1000));
    let stored = db.find_node(2002).unwrap();
    assert_eq!(stored.sequence_number, 7);

    // A stale sequence number is rejected and the record keeps the newer one.
    let stale = TopologyUpdate {
        originator_node: 2002,
        sequence_number: 6,
        neighbors: vec![],
        ttl: 8,
        timestamp: 1001,
    };
    assert!(!db.process_topology_update_at(stale, 1001));
    assert_eq!(db.find_node(2002).unwrap().sequence_number, 7);

    // An update older than the age bound is ignored outright.
    let aged = TopologyUpdate {
        originator_node: 3003,
        sequence_number: 1,
        neighbors: vec![],
        ttl: 8,
        timestamp: 100,
    };
    assert!(!db.process_topology_update_at(aged, 1000));
    assert!(db.find_node(3003).is_none());
}

#[test]
fn dijkstra_routes_through_the_middle_node() {
    // A - B - C in a line, seen from A (1001).
    let mut db = TopologyDatabase::new(1001);
    let a_neighbors = vec![NeighborInfo::new(2002, 1, None)];
    db.update_local_neighbors_at(a_neighbors, 1000);
    let b_update = TopologyUpdate {
        originator_node: 2002,
        sequence_number: 1,
        neighbors: vec![NeighborInfo::new(1001, 1, None), NeighborInfo::new(3003, 1, None)],
        ttl: 8,
        timestamp: 1000,
    };
    assert!(db.process_topology_update_at(b_update, 1000));
    let route_b = db.get_route(2002).unwrap();
    assert_eq!(route_b.next_hop, 2002);
    assert_eq!(route_b.total_cost, 1);
    let route_c = db.get_route(3003).unwrap();
    assert_eq!(route_c.next_hop, 2002);
    assert_eq!(route_c.total_cost, 2);
    assert!(db.get_route(1001).is_none());
}

#[test]
fn cleanup_drops_aged_records_but_keeps_local() {
    let mut db = TopologyDatabase::new(1001);
    db.update_local_neighbors_at(vec![NeighborInfo::new(2002, 1, None)], 100);
    let update = TopologyUpdate {
        originator_node: 2002,
        sequence_number: 1,
        neighbors: vec![],
        ttl: 8,
        timestamp: 100,
    };
    assert!(db.process_topology_update_at(update, 100));
    assert_eq!(db.get_nodes().len(), 2);
    db.cleanup_old_entries_at(100 + 301);
    // The aged peer record is gone; the local one stays.
    assert_eq!(db.get_nodes().len(), 1);
    assert_eq!(db.get_nodes()[0].node_id, 1001);
}
