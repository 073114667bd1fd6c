//! The wire form of topology advertisements, and route retention when the
//! table is rebuilt from computed paths.

use mesh_core::hops::HopSet;
use mesh_core::hops::NextHop;
use mesh_core::table::RoutingTable;
use mesh_core::topo_msg::NeighborInfo;
use mesh_core::topo_msg::TopologyUpdate;
use mesh_core::topo_wire::decode_topology_update;
use mesh_core::topo_wire::encode_topology_update;
use mesh_core::topology::ComputedRoute;

#[test]
fn topology_update_round_trip() {
    let update = TopologyUpdate {
        originator_node: 1001,
        sequence_number: 7,
        neighbors: vec![
            NeighborInfo::new(2002, 1, Some("10.0.0.2:9000".to_string())),
            NeighborInfo::new(3003, 5, None),
        ],
        ttl: 8,
        timestamp: 1_700_000_000,
    };
    let bytes = encode_topology_update(&update).expect("encodable");
    let back = decode_topology_update(&bytes).expect("decodable");
    assert_eq!(back.originator_node, 1001);
    assert_eq!(back.sequence_number, 7);
    assert_eq!(back.ttl, 8);
    assert_eq!(back.timestamp, 1_700_000_000);
    assert_eq!(back.neighbors.len(), 2);
    assert_eq!(back.neighbors[0].node_id, 2002);
    assert_eq!(back.neighbors[0].cost, 1);
    assert_eq!(back.neighbors[0].addr.as_deref(), Some("10.0.0.2:9000"));
    assert_eq!(back.neighbors[1].node_id, 3003);
    assert_eq!(back.neighbors[1].cost, 5);
    assert_eq!(back.neighbors[1].addr, None);
}

#[test]
fn topology_update_empty_neighbors_round_trip() {
    let update = TopologyUpdate {
        originator_node: 42,
        sequence_number: u64::MAX,
        neighbors: Vec::new(),
        ttl: 0,
        timestamp: 0,
    };
    let bytes = encode_topology_update(&update).expect("encodable");
    assert_eq!(bytes.len(), 29);
    let back = decode_topology_update(&bytes).expect("decodable");
    assert_eq!(back.originator_node, 42);
    assert_eq!(back.sequence_number, u64::MAX);
    assert!(back.neighbors.is_empty());
}

#[test]
fn topology_update_oversized_addr_is_refused() {
    let long_addr = "a".repeat(65536);
    let update = TopologyUpdate {
        originator_node: 1,
        sequence_number: 1,
        neighbors: vec![NeighborInfo::new(2, 1, Some(long_addr))],
        ttl: 1,
        timestamp: 1,
    };
    assert!(encode_topology_update(&update).is_err());
}

#[test]
fn topology_update_garbage_does_not_decode() {
    assert!(decode_topology_update(&[]).is_none());
    assert!(decode_topology_update(&[0u8; 28]).is_none());
    // A header that announces one neighbor but carries none.
    let mut bytes = vec![0u8; 29];
    bytes[28] = 1;
    assert!(decode_topology_update(&bytes).is_none());
}

#[test]
fn topology_update_truncated_encoding_does_not_decode() {
    let update = TopologyUpdate {
        originator_node: 9,
        sequence_number: 3,
        neighbors: vec![NeighborInfo::new(8, 2, Some("x".to_string()))],
        ttl: 2,
        timestamp: 5,
    };
    let bytes = encode_topology_update(&update).expect("encodable");
    assert!(decode_topology_update(&bytes[..bytes.len() - 1]).is_none());
}

#[test]
fn rebuild_from_topology_keeps_local_route() {
    let mut table = RoutingTable::new(1001);
    table.add_route(1001, HopSet::single(NextHop::new(1001, 0)));
    table.add_route(5005, HopSet::single(NextHop::new(5005, 9)));
    let computed = vec![ComputedRoute { dst_node: 2002, next_hop: 2002, total_cost: 1, hop_count: 1 }];
    table.update_routes_from_topology(&computed);
    // The local-keyed route survives, the stale route is gone, the
    // computed one is installed.
    let local = table.get_route(1001).expect("local route kept");
    assert_eq!(local.hops[0].node_id, 1001);
    assert!(table.get_route(5005).is_none());
    let fresh = table.get_route(2002).expect("computed route installed");
    assert_eq!(fresh.cost, 1);
    assert_eq!(fresh.hops[0].node_id, 2002);
}
