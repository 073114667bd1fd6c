//! Multi-node scenarios run in process: each node is the library's own
//! state machines, and the tests carry frames and reports between them
//! the way a transport would.

use mesh_core::data::Ack;
use mesh_core::data::IncomingOutcome;
use mesh_core::data::MeshDataService;
use mesh_core::data::SendRequest;
use mesh_core::delivery::Received;
use mesh_core::delivery::SubscriptionFilter;
use mesh_core::manager::OutboundMessage;
use mesh_core::manager::SessionManager;
use mesh_core::queue::MessageQueue;
use mesh_core::queue::MessageQueueConfig;
use mesh_core::queue::SendMode;
use mesh_core::router::RoutingContext;
use mesh_core::router::RoutingDecision;
use mesh_core::topo_msg::NeighborInfo;
use mesh_core::topo_msg::TopologyUpdate;
use mesh_core::topology::TopologyDatabase;
use mesh_core::tracker::MessageStatus;

fn service_for(node_id: u64) -> MeshDataService {
    MeshDataService::new(node_id, MessageQueue::new(MessageQueueConfig::default()))
}

fn open_filter() -> SubscriptionFilter {
    SubscriptionFilter { partition: None, qos_class: None, src_node: None }
}

fn advertisement(origin: u64, seq: u64, neighbors: Vec<NeighborInfo>) -> TopologyUpdate {
    TopologyUpdate { originator_node: origin, sequence_number: seq, neighbors, ttl: 8, timestamp: 100 }
}

fn as_received(message: &OutboundMessage, msg_id: u64) -> Received {
    Received {
        src_node: message.src_node,
        dst_node: message.dst_node,
        msg_id,
        corr_id: message.corr_id,
        headers: message
            .headers
            .iter()
            .map(|(k, v)| mesh_core::delivery::Header { key: k.clone(), value: v.clone() })
            .collect(),
        payload: message.payload.clone(),
        require_ack: message.require_ack,
    }
}

fn status_report_received(report: OutboundMessage) -> Received {
    Received {
        src_node: report.src_node,
        dst_node: report.dst_node,
        msg_id: 0,
        corr_id: 0,
        headers: vec![mesh_core::delivery::Header {
            key: "message_type".to_string(),
            value: b"delivery_status".to_vec(),
        }],
        payload: report.payload,
        require_ack: false,
    }
}

#[test]
fn three_node_forwarding_with_ack_failure() {
    // A(1001) - B(2002) - C(3003) in a line; A talks to C through B.
    let node_a = 1001u64;
    let node_b = 2002u64;
    let node_c = 3003u64;

    // A's topology view after the flood converged.
    let mut topo_a = TopologyDatabase::new(node_a);
    topo_a.update_local_neighbors_at(vec![NeighborInfo::new(node_b, 1, None)], 100);
    assert!(topo_a.process_topology_update_at(
        advertisement(node_b, 1, vec![NeighborInfo::new(node_a, 1, None), NeighborInfo::new(node_c, 1, None)]),
        100,
    ));
    assert!(topo_a.process_topology_update_at(
        advertisement(node_c, 1, vec![NeighborInfo::new(node_b, 1, None)]),
        100,
    ));

    // A's routing table says C goes through B.
    let mut manager_a = SessionManager::new(node_a);
    manager_a.routing_table.update_routes_from_topology(topo_a.get_routes());
    let ctx = RoutingContext::new(node_a, node_c, 64, 9);
    let next_hop = match manager_a.routing_table.decide(&ctx) {
        RoutingDecision::Forward(choice) => choice.next_hop.node_id,
        other => panic!("expected a forward, got {:?}", other),
    };
    assert_eq!(next_hop, node_b);

    // A sends with an acknowledgment required.
    let mut a = service_for(node_a);
    let req = SendRequest {
        dst_node: node_c,
        headers: Vec::new(),
        payload: b"through the middle".to_vec(),
        corr_id: 9,
        require_ack: true,
        mode: SendMode::WaitForAck,
        timeout_seconds: 2,
    };
    let (response, outbound) = a.send(req, &topo_a, 0).unwrap();
    let outbound = outbound.unwrap();

    // B sees traffic for C, not for itself, and routes it onward once.
    let mut b = service_for(node_b);
    let at_b = as_received(&outbound, response.msg_id);
    assert_eq!(b.handle_incoming_message(at_b), IncomingOutcome::NotForThisNode);
    let mut topo_b = TopologyDatabase::new(node_b);
    topo_b.update_local_neighbors_at(
        vec![NeighborInfo::new(node_a, 1, None), NeighborInfo::new(node_c, 1, None)],
        100,
    );
    let mut manager_b = SessionManager::new(node_b);
    manager_b.routing_table.update_routes_from_topology(topo_b.get_routes());
    let ctx_b = RoutingContext::new(node_b, node_c, 63, 9);
    match manager_b.routing_table.decide(&ctx_b) {
        RoutingDecision::Forward(choice) => assert_eq!(choice.next_hop.node_id, node_c),
        other => panic!("expected a forward at the middle node, got {:?}", other),
    }

    // C delivers to its subscriber and owes A a status report.
    let mut c = service_for(node_c);
    c.delivery_queue.subscribe(open_filter());
    let at_c = as_received(&outbound, response.msg_id);
    let report = match c.handle_incoming_message(at_c) {
        IncomingOutcome::DeliveredLocally(1, Some(report)) => report,
        other => panic!("expected one delivery with a report, got {:?}", other),
    };
    assert_eq!(report.dst_node, node_a);

    // C's application acknowledges failure; A observes it.
    let ack_report = c
        .ack_message(Ack {
            src_node: node_a,
            msg_id: response.msg_id,
            success: false,
            message: "handler refused".to_string(),
        })
        .unwrap();
    assert_eq!(a.handle_incoming_message(status_report_received(ack_report)),
        IncomingOutcome::StatusReportApplied);
    let statuses = a.query_message_status(&vec![response.msg_id]);
    assert_eq!(statuses[0].status, MessageStatus::AckFailure);
}

#[test]
fn broadcast_flood_delivers_once_per_node() {
    // A(1), B(2), C(3) fully meshed. A floods one event; B and C each
    // deliver it exactly once and suppress the copy that comes around.
    let node_a = 1u64;
    let node_b = 2u64;
    let node_c = 3u64;

    let mut manager_a = SessionManager::new(node_a);
    manager_a.register_session(node_b, "b".to_string());
    manager_a.register_session(node_c, "c".to_string());
    let mut manager_b = SessionManager::new(node_b);
    manager_b.register_session(node_a, "a".to_string());
    manager_b.register_session(node_c, "c".to_string());
    let mut manager_c = SessionManager::new(node_c);
    manager_c.register_session(node_a, "a".to_string());
    manager_c.register_session(node_b, "b".to_string());

    let mut b = service_for(node_b);
    let mut c = service_for(node_c);
    b.delivery_queue.subscribe(open_filter());
    c.delivery_queue.subscribe(open_filter());

    let flood = OutboundMessage {
        src_node: node_a,
        dst_node: 0,
        payload: b"state event".to_vec(),
        headers: Vec::new(),
        corr_id: 0,
        msg_id: None,
        require_ack: false,
        broadcast_id: Some(42),
        broadcast_ttl: Some(3),
        is_broadcast: true,
    };

    // A originates: local delivery at A plus copies to B and C.
    let plan_a = manager_a.plan_broadcast_at(&flood, 10);
    assert!(plan_a.deliver_locally && plan_a.forward);

    // B takes the copy from A, delivers once, and forwards to C.
    let plan_b = manager_b.plan_broadcast_at(&flood, 11);
    assert!(!plan_b.duplicate && plan_b.deliver_locally && plan_b.forward);
    let mut at_b = as_received(&flood, 0);
    at_b.dst_node = node_b;
    match b.handle_incoming_message(at_b) {
        IncomingOutcome::DeliveredLocally(count, report) => {
            assert_eq!(count, 1);
            assert!(report.is_none());
        }
        other => panic!("unexpected outcome at the second node: {:?}", other),
    }

    // C takes the copy from A first.
    let plan_c = manager_c.plan_broadcast_at(&flood, 12);
    assert!(!plan_c.duplicate && plan_c.deliver_locally);
    let mut at_c = as_received(&flood, 0);
    at_c.dst_node = node_c;
    match c.handle_incoming_message(at_c) {
        IncomingOutcome::DeliveredLocally(count, _) => assert_eq!(count, 1),
        other => panic!("unexpected outcome at the third node: {:?}", other),
    }

    // The copies that come around the triangle are suppressed.
    let plan_b2 = manager_b.plan_broadcast_at(&flood, 13);
    assert!(plan_b2.duplicate && !plan_b2.deliver_locally && !plan_b2.forward);
    let plan_c2 = manager_c.plan_broadcast_at(&flood, 13);
    assert!(plan_c2.duplicate && !plan_c2.deliver_locally && !plan_c2.forward);
}

#[test]
fn node_online_wakes_pending_messages() {
    let mut queue = MessageQueue::new(MessageQueueConfig::default());
    let message = OutboundMessage {
        src_node: 1,
        dst_node: 7,
        payload: b"later".to_vec(),
        headers: Vec::new(),
        corr_id: 0,
        msg_id: Some(4),
        require_ack: false,
        broadcast_id: None,
        broadcast_ttl: None,
        is_broadcast: false,
    };
    queue.queue_message(message, 4, SendMode::FireAndForget, 0, "queued".to_string(), 0);
    // No route yet: the message waits for its node.
    queue.handle_routing_feedback(4, MessageStatus::PendingNode, "no route".to_string());
    // Far in the future the backoff would still hold it back...
    queue.run_retry_tick(1, "retry".to_string());
    // ...but the node coming online makes it due at once.
    queue.notify_node_online(7, 1_000);
    let resent = queue.run_retry_tick(1_001, "retry".to_string());
    assert_eq!(resent.len(), 1);
    assert_eq!(resent[0].dst_node, 7);
}
