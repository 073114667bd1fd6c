use mesh_core::config::MeshConfig;
use mesh_core::data::Ack;
use mesh_core::data::IncomingOutcome;
use mesh_core::data::MeshDataService;
use mesh_core::data::SendRequest;
use mesh_core::delivery::delivery_status_for;
use mesh_core::delivery::DeliveryQueue;
use mesh_core::delivery::Received;
use mesh_core::delivery::SubscribeRequest;
use mesh_core::delivery::SubscriptionFilter;
use mesh_core::queue::MessageQueue;
use mesh_core::queue::MessageQueueConfig;
use mesh_core::queue::SendMode;
use mesh_core::topo_msg::NeighborInfo;
use mesh_core::topology::TopologyDatabase;
use mesh_core::tracker::MessageRecord;
use mesh_core::tracker::MessageStatus;
use mesh_core::tracker::MessageTracker;

#[test]
fn test_default_config() {
    let config = MeshConfig::default();
    assert_eq!(config.node_id, 1001);
    assert_eq!(config.external_port, 10001);
    assert_eq!(config.grpc_port, 50056);
    assert_eq!(config.supervisor_addr, "localhost:50000");
}

#[test]
fn config_applies_arguments_and_entries() {
    let mut config = MeshConfig::default();
    let args = vec!["--port=50057".to_string(), "--supervisor=localhost:50001".to_string()];
    let entries = vec![
        ("services.mesh.node_id".to_string(), "2001".to_string()),
        ("services.mesh.external_port".to_string(), "20001".to_string()),
        ("services.mesh.mesh_id".to_string(), "test-mesh".to_string()),
        ("services.mesh.tls.enabled".to_string(), "true".to_string()),
    ];
    config.apply_root_config(Some("localhost:50000".to_string()), &args, &entries);
    assert_eq!(config.node_id, 2001);
    assert_eq!(config.external_port, 20001);
    assert_eq!(config.grpc_port, 50057);
    assert_eq!(config.mesh_id, "test-mesh");
    assert_eq!(config.tls.enabled, true);
}

#[test]
fn test_message_tracking() {
    let mut tracker = MessageTracker::new();

    // Track a new message
    tracker.track_message(
        12345,
        MessageStatus::Queued,
        "Message queued for delivery".to_string(),
        false,
    );

    // Verify message is tracked
    let status = tracker.get_status(12345).unwrap();
    assert_eq!(status.msg_id, 12345);
    assert_eq!(status.status, MessageStatus::Queued);
    assert!(!status.require_ack);

    // Update status
    tracker.update_status(
        12345,
        MessageStatus::Delivered,
        "Message delivered successfully".to_string(),
    );

    // Verify status update
    let status = tracker.get_status(12345).unwrap();
    assert_eq!(status.status, MessageStatus::Delivered);
    assert_eq!(status.status_message, "Message delivered successfully");

    // Test batch query
    let statuses = tracker.get_statuses(&vec![12345, 99999]);
    assert_eq!(statuses.len(), 1);
    assert_eq!(statuses[0].msg_id, 12345);
}

#[test]
fn test_message_record() {
    let mut record = MessageRecord::new(
        123,
        MessageStatus::Queued,
        "Initial status".to_string(),
        true,
    );

    assert_eq!(record.msg_id, 123);
    assert_eq!(record.status, MessageStatus::Queued);
    assert!(record.require_ack);
    assert!(!record.is_completed());

    // Update to completed status
    record.update_status(MessageStatus::Delivered, "Delivered".to_string());
    assert!(record.is_completed());

    // Convert to the status answer
    let info = record.to_info();
    assert_eq!(info.msg_id, 123);
    assert_eq!(info.status, MessageStatus::Delivered);
    assert!(info.require_ack);
}

#[test]
fn test_filter_matching() {
    let mut queue = DeliveryQueue::new();

    // Create a subscription with source node filter
    let filter = SubscriptionFilter {
        partition: None,
        qos_class: None,
        src_node: Some(1001),
    };
    queue.subscribe(filter);

    // Message that should match
    let matching_message = Received {
        src_node: 1001,
        dst_node: 2002,
        msg_id: 1,
        corr_id: 1,
        headers: vec![],
        payload: b"match".to_vec(),
        require_ack: false,
    };

    // Message that should not match
    let non_matching_message = Received {
        src_node: 9999,
        dst_node: 2002,
        msg_id: 2,
        corr_id: 2,
        headers: vec![],
        payload: b"no match".to_vec(),
        require_ack: false,
    };

    let matching_delivered = queue.deliver(&matching_message);
    let non_matching_delivered = queue.deliver(&non_matching_message);

    assert_eq!(matching_delivered, 1);
    assert_eq!(non_matching_delivered, 0);
}

#[test]
fn test_subscription_and_delivery() {
    let mut queue = DeliveryQueue::new();

    let filter = SubscriptionFilter {
        partition: None,
        qos_class: None,
        src_node: Some(1001),
    };

    let sub_id = queue.subscribe(filter);

    let message = Received {
        src_node: 1001,
        dst_node: 2002,
        msg_id: 12345,
        corr_id: 67890,
        headers: vec![mesh_core::delivery::Header {
            key: "test".to_string(),
            value: b"value".to_vec(),
        }],
        payload: b"Hello, World!".to_vec(),
        require_ack: false,
    };

    let delivered_count = queue.deliver(&message);
    assert_eq!(delivered_count, 1);

    queue.unsubscribe(sub_id);
    assert_eq!(queue.subscriber_count(), 0);
}

#[test]
fn subscription_filters_from_requests_treat_zero_as_any() {
    let req = SubscribeRequest { partition: 0, qos_class: 0, src_node: 2002 };
    let filter = SubscriptionFilter::from_request(&req);
    assert_eq!(filter.partition, None);
    assert_eq!(filter.qos_class, None);
    assert_eq!(filter.src_node, Some(2002));
}

#[test]
fn delivery_outcome_drives_the_reported_status() {
    assert_eq!(delivery_status_for(0, false), MessageStatus::PendingClient);
    assert_eq!(delivery_status_for(0, true), MessageStatus::PendingClient);
    assert_eq!(delivery_status_for(2, false), MessageStatus::Delivered);
    assert_eq!(delivery_status_for(1, true), MessageStatus::WaitingForClientAck);
}

fn service_for(node_id: u64) -> MeshDataService {
    MeshDataService::new(node_id, MessageQueue::new(MessageQueueConfig::default()))
}

fn request_to(dst: u64, payload: &[u8]) -> SendRequest {
    SendRequest {
        dst_node: dst,
        headers: vec![("test".to_string(), b"value".to_vec())],
        payload: payload.to_vec(),
        corr_id: 12345,
        require_ack: false,
        mode: SendMode::FireAndForget,
        timeout_seconds: 0,
    }
}

#[test]
fn test_send_message() {
    let mut service = service_for(1001);
    let mut topology = TopologyDatabase::new(1001);
    topology.update_local_neighbors_at(vec![NeighborInfo::new(2002, 1, None)], 100);
    let update = mesh_core::topo_msg::TopologyUpdate {
        originator_node: 2002,
        sequence_number: 1,
        neighbors: vec![NeighborInfo::new(1001, 1, None)],
        ttl: 8,
        timestamp: 100,
    };
    assert!(topology.process_topology_update_at(update, 100));

    let (response, outbound) = service.send(request_to(2002, b"Hello, World!"), &topology, 0).unwrap();
    assert!(response.msg_id > 0);
    assert_eq!(response.status, MessageStatus::Queued);

    let outbound_msg = outbound.unwrap();
    assert_eq!(outbound_msg.dst_node, 2002);
    assert_eq!(outbound_msg.corr_id, 12345);
    assert_eq!(outbound_msg.payload, b"Hello, World!");
}

#[test]
fn send_rejects_invalid_requests() {
    let mut service = service_for(1001);
    let topology = TopologyDatabase::new(1001);
    assert!(service.send(request_to(0, b"x"), &topology, 0).is_err());
    assert!(service.send(request_to(2002, b""), &topology, 0).is_err());
}

#[test]
fn unknown_destination_is_undeliverable_with_nothing_on_the_wire() {
    let mut service = service_for(1001);
    let topology = TopologyDatabase::new(1001);
    let (response, outbound) = service.send(request_to(9999, b"hi"), &topology, 0).unwrap();
    assert_eq!(response.status, MessageStatus::Undeliverable);
    assert!(outbound.is_none());
    let statuses = service.query_message_status(&vec![response.msg_id]);
    assert_eq!(statuses.len(), 1);
    assert_eq!(statuses[0].status, MessageStatus::Undeliverable);
}

#[test]
fn test_ack_message() {
    let mut service = service_for(1001);

    let ack_req = Ack {
        src_node: 2002,
        msg_id: 12345,
        success: true,
        message: "Test acknowledgment".to_string(),
    };

    let report = service.ack_message(ack_req);
    assert!(report.is_some());

    // Check that acknowledgment was stored
    assert!(service.acked_messages.contains(&(2002, 12345)));
}

#[test]
fn retries_stop_at_the_attempt_bound() {
    let config = MessageQueueConfig {
        max_retry_attempts: 2,
        base_retry_interval_ms: 0,
        max_retry_interval_ms: 0,
        retry_check_interval_ms: 1,
        completed_message_ttl_secs: 300,
    };
    let mut queue = MessageQueue::new(config);
    let message = mesh_core::manager::OutboundMessage {
        src_node: 1,
        dst_node: 2,
        payload: b"p".to_vec(),
        headers: Vec::new(),
        corr_id: 0,
        msg_id: Some(5),
        require_ack: false,
        broadcast_id: None,
        broadcast_ttl: None,
        is_broadcast: false,
    };
    queue.queue_message(message, 5, SendMode::FireAndForget, 0, "queued".to_string(), 0);

    // Two ticks retry; the third exhausts the budget.
    let first = queue.run_retry_tick(10, "retry".to_string());
    assert_eq!(first.len(), 1);
    let second = queue.run_retry_tick(20, "retry".to_string());
    assert_eq!(second.len(), 1);
    let third = queue.run_retry_tick(30, "retry".to_string());
    assert_eq!(third.len(), 0);
    let record = queue.tracker_record(5).unwrap();
    assert_eq!(record.status, MessageStatus::Undeliverable);
    // A terminal message gets no further retries.
    let fourth = queue.run_retry_tick(40, "retry".to_string());
    assert_eq!(fourth.len(), 0);
}

#[test]
fn terminal_feedback_removes_a_message_from_the_queue() {
    let mut queue = MessageQueue::new(MessageQueueConfig::default());
    let message = mesh_core::manager::OutboundMessage {
        src_node: 1,
        dst_node: 2,
        payload: b"p".to_vec(),
        headers: Vec::new(),
        corr_id: 0,
        msg_id: Some(9),
        require_ack: false,
        broadcast_id: None,
        broadcast_ttl: None,
        is_broadcast: false,
    };
    queue.queue_message(message, 9, SendMode::WaitForDelivery, 0, "queued".to_string(), 0);
    assert_eq!(queue.get_stats().pending_messages, 1);
    queue.handle_routing_feedback(9, MessageStatus::Delivered, "delivered".to_string());
    assert_eq!(queue.get_stats().pending_messages, 0);
    // No retry ever comes back for it.
    let resent = queue.run_retry_tick(1_000_000, "retry".to_string());
    assert!(resent.is_empty());
}

#[test]
fn pending_subscriber_then_delivery() {
    // A message reaches a node with no subscriber: the source hears
    // PendingClient; once somebody subscribes, a retry is delivered.
    let mut receiver = service_for(2002);
    let message = Received {
        src_node: 1001,
        dst_node: 2002,
        msg_id: 7,
        corr_id: 3,
        headers: vec![],
        payload: b"knock".to_vec(),
        require_ack: false,
    };
    match receiver.handle_incoming_message(message.clone()) {
        IncomingOutcome::DeliveredLocally(count, report) => {
            assert_eq!(count, 0);
            let report = report.unwrap();
            assert_eq!(report.dst_node, 1001);
            // The source applies the report: its message becomes pending.
            let mut sender = service_for(1001);
            let mut topology = TopologyDatabase::new(1001);
            topology.update_local_neighbors_at(vec![NeighborInfo::new(2002, 1, None)], 100);
            let update = mesh_core::topo_msg::TopologyUpdate {
                originator_node: 2002,
                sequence_number: 1,
                neighbors: vec![NeighborInfo::new(1001, 1, None)],
                ttl: 8,
                timestamp: 100,
            };
            assert!(topology.process_topology_update_at(update, 100));
            let (response, _) = sender.send(request_to(2002, b"knock"), &topology, 0).unwrap();
            let status_report = Received {
                src_node: 2002,
                dst_node: 1001,
                msg_id: 0,
                corr_id: 0,
                headers: vec![mesh_core::delivery::Header {
                    key: "message_type".to_string(),
                    value: b"delivery_status".to_vec(),
                }],
                payload: {
                    // Re-address the report at the sender's actual message ID.
                    mesh_core::data::encode_delivery_status(
                        response.msg_id,
                        MessageStatus::PendingClient,
                        "no subscriber",
                    )
                },
                require_ack: false,
            };
            let outcome = sender.handle_incoming_message(status_report);
            assert_eq!(outcome, IncomingOutcome::StatusReportApplied);
            let statuses = sender.query_message_status(&vec![response.msg_id]);
            assert_eq!(statuses[0].status, MessageStatus::PendingClient);
        }
        other => panic!("unexpected outcome: {:?}", other),
    }

    // A subscriber joins; the retried message is delivered.
    let filter = SubscriptionFilter { partition: None, qos_class: None, src_node: None };
    receiver.delivery_queue.subscribe(filter);
    match receiver.handle_incoming_message(message) {
        IncomingOutcome::DeliveredLocally(count, report) => {
            assert_eq!(count, 1);
            assert!(report.is_some());
        }
        other => panic!("unexpected outcome: {:?}", other),
    }
}

#[test]
fn two_node_unicast_with_ack() {
    // Node A (1001) sends to node B (2002) requiring an acknowledgment;
    // B's subscriber takes it and acks success; A ends at AckSuccess.
    let mut a = service_for(1001);
    let mut b = service_for(2002);
    let filter = SubscriptionFilter { partition: None, qos_class: None, src_node: None };
    b.delivery_queue.subscribe(filter);

    let mut topology = TopologyDatabase::new(1001);
    topology.update_local_neighbors_at(vec![NeighborInfo::new(2002, 1, None)], 100);
    let update = mesh_core::topo_msg::TopologyUpdate {
        originator_node: 2002,
        sequence_number: 1,
        neighbors: vec![NeighborInfo::new(1001, 1, None)],
        ttl: 8,
        timestamp: 100,
    };
    assert!(topology.process_topology_update_at(update, 100));

    let req = SendRequest {
        dst_node: 2002,
        headers: Vec::new(),
        payload: b"hi".to_vec(),
        corr_id: 1,
        require_ack: true,
        mode: SendMode::WaitForAck,
        timeout_seconds: 5,
    };
    let (response, outbound) = a.send(req, &topology, 0).unwrap();
    let outbound = outbound.unwrap();

    // B takes the data frame's message in.
    let received = Received {
        src_node: outbound.src_node,
        dst_node: outbound.dst_node,
        msg_id: response.msg_id,
        corr_id: outbound.corr_id,
        headers: vec![],
        payload: outbound.payload.clone(),
        require_ack: true,
    };
    match b.handle_incoming_message(received) {
        IncomingOutcome::DeliveredLocally(count, report) => {
            assert_eq!(count, 1);
            let report = report.unwrap();
            assert_eq!(report.dst_node, 1001);
        }
        other => panic!("unexpected outcome: {:?}", other),
    }

    // B's application acknowledges success; B reports it to A.
    let ack_report = b.ack_message(Ack {
        src_node: 1001,
        msg_id: response.msg_id,
        success: true,
        message: String::new(),
    }).unwrap();

    // A applies the report.
    let applied = a.handle_incoming_message(Received {
        src_node: 2002,
        dst_node: 1001,
        msg_id: 0,
        corr_id: 0,
        headers: vec![mesh_core::delivery::Header {
            key: "message_type".to_string(),
            value: b"delivery_status".to_vec(),
        }],
        payload: ack_report.payload,
        require_ack: false,
    });
    assert_eq!(applied, IncomingOutcome::StatusReportApplied);
    let statuses = a.query_message_status(&vec![response.msg_id]);
    assert_eq!(statuses[0].status, MessageStatus::AckSuccess);
}

#[test]
fn delivery_status_codec_round_trips() {
    let payload = mesh_core::data::encode_delivery_status(42, MessageStatus::Delivered, "done");
    assert_eq!(
        mesh_core::data::decode_delivery_status(&payload),
        Some((42, MessageStatus::Delivered))
    );
    assert_eq!(mesh_core::data::decode_delivery_status(b"not a map"), None);
}

#[test]
fn drop_reasons_map_to_tracked_statuses() {
    assert_eq!(
        mesh_core::data::drop_reason_status(mesh_core::router::DropReason::NoRoute),
        MessageStatus::PendingNode
    );
    assert_eq!(
        mesh_core::data::drop_reason_status(mesh_core::router::DropReason::TtlExpired),
        MessageStatus::Undeliverable
    );
    assert_eq!(
        mesh_core::data::drop_reason_status(mesh_core::router::DropReason::RoutingLoop),
        MessageStatus::Undeliverable
    );
}
