use mesh_core::frame::FrameDecoder;
use mesh_core::handshake::build_hello;
use mesh_core::handshake::parse_hello_meta;
use mesh_core::header::FrameType;
use mesh_core::keepalive::build_ping;
use mesh_core::keepalive::build_pong;
use mesh_core::keepalive::KeepaliveState;
use mesh_core::manager::build_data_frame;
use mesh_core::manager::BroadcastCache;
use mesh_core::manager::OutboundMessage;
use mesh_core::manager::SessionManager;
use mesh_core::meta::parse_meta;
use mesh_core::failure_tracker::RoutingFailureTracker;
use mesh_core::node_uri::parse_node_uri;
use mesh_core::reliability::parse_ack_meta;
use mesh_core::reliability::parse_resume_meta;
use mesh_core::reliability::ReliabilityManager;
use mesh_core::session::SessionState;
use mesh_core::storage::Peer;
use mesh_core::WIRE_VERSION;

#[test]
fn test_hello_roundtrip() {
    let node_id = 0x1234567890ABCDEF;

    let buffer = build_hello(node_id).unwrap();

    let decoder = FrameDecoder::new();
    let (frame, _) = decoder.decode(&buffer).unwrap().unwrap();

    assert_eq!(frame.fast.typ, FrameType::Hello);
    assert_eq!(frame.fast.src_node, node_id);

    let meta = parse_meta(&frame.meta_raw).unwrap();
    let hello = parse_hello_meta(&meta);
    assert_eq!(hello.version, WIRE_VERSION);
}

#[test]
fn test_ping_pong_frames() {
    let node_id = 0x1234567890ABCDEF;
    let corr_id = 0x9876543210FEDCBA;

    // Build PING
    let ping_bytes = build_ping(node_id, corr_id).unwrap();
    assert!(!ping_bytes.is_empty());

    // Build PONG
    let pong_bytes = build_pong(node_id, corr_id).unwrap();
    assert!(!pong_bytes.is_empty());

    // Decode and verify
    let decoder = FrameDecoder::new();
    let (ping_frame, _) = decoder.decode(&ping_bytes).unwrap().unwrap();
    assert_eq!(ping_frame.fast.typ, FrameType::Ping);
    assert_eq!(ping_frame.fast.src_node, node_id);
    assert_eq!(ping_frame.fast.corr_id, corr_id);
}

#[test]
fn test_keepalive_state() {
    let mut state = KeepaliveState::new();

    // Record a ping
    let corr_id = 12345;
    state.record_ping(corr_id);

    // Process the corresponding pong
    let rtt = state.process_pong(corr_id);
    assert!(rtt.is_some());

    // Processing the same pong again should return None
    let rtt2 = state.process_pong(corr_id);
    assert!(rtt2.is_none());
}

#[test]
fn reconnect_backoff_doubles_and_caps() {
    assert_eq!(mesh_core::session::next_backoff_ms(1000), 2000);
    assert_eq!(mesh_core::session::next_backoff_ms(15_000), 30_000);
    assert_eq!(mesh_core::session::next_backoff_ms(20_000), 30_000);
}

#[test]
fn node_uri_identity_parsing() {
    assert_eq!(parse_node_uri(b"mesh://node/1001"), Some(1001));
    assert_eq!(parse_node_uri(b"mesh://node/0"), Some(0));
    assert_eq!(parse_node_uri(b"mesh://node/18446744073709551615"), Some(u64::MAX));
    assert_eq!(parse_node_uri(b"mesh://node/18446744073709551616"), None);
    assert_eq!(parse_node_uri(b"mesh://node/"), None);
    assert_eq!(parse_node_uri(b"mesh://node/12x"), None);
    assert_eq!(parse_node_uri(b"spiffe://node/12"), None);
}

#[test]
fn hello_identity_must_match_certificate() {
    let mut state = SessionState::new();
    // A matching certificate identity is accepted.
    assert_eq!(state.accept_hello(1001, Some(1001), true), Ok(1001));
    // A mismatch under verification is fatal.
    let mut state2 = SessionState::new();
    assert!(state2.accept_hello(1001, Some(2002), true).is_err());
    // Without verification the certificate identity still wins.
    let mut state3 = SessionState::new();
    assert_eq!(state3.accept_hello(1001, Some(2002), false), Ok(2002));
    // Without a certificate the HELLO identity counts.
    let mut state4 = SessionState::new();
    assert_eq!(state4.accept_hello(1001, None, true), Ok(1001));
}

#[test]
fn duplicate_data_frame_is_delivered_once_but_still_acked() {
    let mut manager = ReliabilityManager::new(0, 256, 1 << 20);
    let peer = Peer(1001);
    manager.init_recv_state(peer).unwrap();

    let first = manager.process_data_frame(peer, 1, 5).unwrap();
    assert!(first);
    let ack1 = manager.maybe_build_ack(peer, 2002, 100).unwrap();
    assert!(ack1.is_some());

    // The same message again: no second delivery, but an ACK is owed again.
    let second = manager.process_data_frame(peer, 1, 5).unwrap();
    assert!(!second);
    let ack2 = manager.maybe_build_ack(peer, 2002, 200).unwrap();
    assert!(ack2.is_some());
}

#[test]
fn ack_meta_round_trip_and_wal_truncation() {
    let mut receiver = ReliabilityManager::new(0, 256, 1 << 20);
    let peer_sender = Peer(1001);
    receiver.init_recv_state(peer_sender).unwrap();
    receiver.process_data_frame(peer_sender, 1, 3).unwrap();
    receiver.process_data_frame(peer_sender, 2, 3).unwrap();
    let ack_bytes = receiver.maybe_build_ack(peer_sender, 2002, 50).unwrap().unwrap();

    let decoder = FrameDecoder::new();
    let (ack_frame, _) = decoder.decode(&ack_bytes).unwrap().unwrap();
    assert_eq!(ack_frame.fast.typ, FrameType::Ack);
    let meta = parse_meta(&ack_frame.meta_raw).unwrap();
    let ack = parse_ack_meta(&meta);
    assert_eq!(ack.cum_ack, 2);
    assert!(ack.credits > 0);

    // The sender applies it: the log drops everything acknowledged.
    let mut sender = ReliabilityManager::new(0, 256, 1 << 20);
    let peer_receiver = Peer(2002);
    sender.init_send_state(peer_receiver).unwrap();
    sender.send_data(peer_receiver, 1001, b"one".to_vec()).unwrap();
    sender.send_data(peer_receiver, 1001, b"two".to_vec()).unwrap();
    sender.send_data(peer_receiver, 1001, b"three".to_vec()).unwrap();
    sender.process_ack_frame(peer_receiver, ack).unwrap();
    let remaining = sender.wal.range(peer_receiver, 0, None).unwrap();
    assert_eq!(remaining.len(), 1);
    assert_eq!(remaining[0].msg_id, 3);
}

#[test]
fn resume_replays_unacknowledged_messages_in_order() {
    // The sender logs five messages; the receiver has processed two.
    let mut sender = ReliabilityManager::new(0, 256, 1 << 20);
    let peer = Peer(2002);
    sender.init_send_state(peer).unwrap();
    for text in [&b"m1"[..], b"m2", b"m3", b"m4", b"m5"] {
        sender.send_data(peer, 1001, text.to_vec()).unwrap();
    }
    // The receiver's resumption announces watermark two and grants credits.
    let mut receiver = ReliabilityManager::new(0, 256, 1 << 20);
    receiver.init_send_state(Peer(1001)).unwrap();
    receiver.init_recv_state(Peer(1001)).unwrap();
    receiver.dedup.mark_processed(Peer(1001), 1).unwrap();
    receiver.dedup.mark_processed(Peer(1001), 2).unwrap();
    // Refresh the receive state from the deduplication watermark.
    let mut receiver2 = ReliabilityManager::new(0, 256, 1 << 20);
    receiver2.dedup.mark_processed(Peer(1001), 1).unwrap();
    receiver2.dedup.mark_processed(Peer(1001), 2).unwrap();
    receiver2.init_send_state(Peer(1001)).unwrap();
    receiver2.init_recv_state(Peer(1001)).unwrap();
    let resume_bytes = receiver2.build_resume(Peer(1001), 2002).unwrap();

    let decoder = FrameDecoder::new();
    let (resume_frame, _) = decoder.decode(&resume_bytes).unwrap().unwrap();
    assert_eq!(resume_frame.fast.typ, FrameType::Resume);
    let meta = parse_meta(&resume_frame.meta_raw).unwrap();
    let resume = parse_resume_meta(&meta);
    assert!(resume.resume);
    assert_eq!(resume.receiver_cum_proc, 2);

    // The sender replays exactly messages three to five, in order.
    let replayed = sender.handle_resume(peer, resume).unwrap();
    assert_eq!(replayed.len(), 3);
    let ids: Vec<u64> = replayed
        .iter()
        .map(|bytes| decoder.decode(bytes).unwrap().unwrap().0.fast.msg_id)
        .collect();
    assert_eq!(ids, vec![3, 4, 5]);
    // The receiver takes them all as new, in order.
    for (i, bytes) in replayed.iter().enumerate() {
        let (frame, _) = decoder.decode(bytes).unwrap().unwrap();
        let fresh = receiver2
            .process_data_frame(Peer(1001), frame.fast.msg_id, frame.payload_or_cipher.len())
            .unwrap();
        assert!(fresh, "replayed message {} should be new", i + 3);
    }
    assert_eq!(receiver2.dedup.cum_processed(Peer(1001)).unwrap(), 5);
}

#[test]
fn failure_tracker_notifies_once_and_recovers() {
    let mut tracker = RoutingFailureTracker::new(3, 30_000);
    assert_eq!(tracker.record_failure_at(9, 1000), (1, false));
    assert_eq!(tracker.record_failure_at(9, 2000), (2, false));
    assert_eq!(tracker.record_failure_at(9, 3000), (3, true));
    // Already announced: no second notification.
    assert_eq!(tracker.record_failure_at(9, 4000), (4, false));
    assert!(tracker.is_interrupted(9));
    // A success announces recovery exactly once.
    assert!(tracker.record_success(9));
    assert!(!tracker.record_success(9));
    // A failure after the window starts a new run.
    assert_eq!(tracker.record_failure_at(9, 100_000), (1, false));
    assert_eq!(tracker.record_failure_at(9, 140_000), (1, false));
}

#[test]
fn broadcast_plan_suppresses_duplicates_and_spent_ttl() {
    let mut manager = SessionManager::new(1001);
    manager.register_session(2002, "peer-b".to_string());
    manager.register_session(3003, "peer-c".to_string());

    let mut message = OutboundMessage {
        src_node: 4004,
        dst_node: 0,
        payload: b"flood".to_vec(),
        headers: Vec::new(),
        corr_id: 0,
        msg_id: None,
        require_ack: false,
        broadcast_id: Some(42),
        broadcast_ttl: Some(3),
        is_broadcast: true,
    };

    let plan = manager.plan_broadcast_at(&message, 100);
    assert!(!plan.duplicate);
    assert!(plan.deliver_locally);
    assert!(plan.forward);
    assert_eq!(plan.forward_ttl, Some(2));

    // The same broadcast again is a duplicate: nothing happens.
    let plan2 = manager.plan_broadcast_at(&message, 101);
    assert!(plan2.duplicate);
    assert!(!plan2.deliver_locally);
    assert!(!plan2.forward);

    // A spent TTL still delivers locally but is not forwarded.
    message.broadcast_id = Some(43);
    message.broadcast_ttl = Some(0);
    let plan3 = manager.plan_broadcast_at(&message, 102);
    assert!(!plan3.duplicate);
    assert!(plan3.deliver_locally);
    assert!(!plan3.forward);
}

#[test]
fn broadcast_cache_expires_old_entries() {
    let mut cache = BroadcastCache::new();
    cache.insert_at(1, 10, 100);
    cache.insert_at(2, 20, 350);
    assert!(cache.contains(1, 10));
    cache.cleanup_expired_at(500);
    assert!(!cache.contains(1, 10));
    assert!(cache.contains(2, 20));
}

#[test]
fn termination_message_is_recognized() {
    let msg = OutboundMessage::create_termination_message(1001, 2002);
    assert!(msg.is_termination_message());
    assert_eq!(msg.src_node, 1001);
    assert_eq!(msg.dst_node, 2002);

    let mut plain = msg.clone();
    plain.corr_id = 7;
    assert!(!plain.is_termination_message());
}

#[test]
fn data_frame_carries_envelope_fields() {
    let message = OutboundMessage {
        src_node: 1001,
        dst_node: 2002,
        payload: b"hello".to_vec(),
        headers: vec![("trace".to_string(), b"abc".to_vec())],
        corr_id: 5,
        msg_id: Some(77),
        require_ack: true,
        broadcast_id: None,
        broadcast_ttl: None,
        is_broadcast: false,
    };
    let bytes = build_data_frame(1001, &message).unwrap();
    let decoder = FrameDecoder::new();
    let (frame, used) = decoder.decode(&bytes).unwrap().unwrap();
    assert_eq!(used, bytes.len());
    assert_eq!(frame.fast.typ, FrameType::Data);
    assert_eq!(frame.fast.src_node, 1001);
    assert_eq!(frame.fast.dst_node, 2002);
    assert_eq!(frame.fast.msg_id, 77);
    assert_eq!(frame.fast.corr_id, 5);
    assert_eq!(frame.payload_or_cipher, b"hello".to_vec());
    let meta = parse_meta(&frame.meta_raw).unwrap();
    match meta.get(b"require_ack") {
        Some(mesh_core::meta::MetaValue::Text(t)) => assert_eq!(t.as_slice(), b"true"),
        other => panic!("unexpected require_ack value: {:?}", other),
    }
    match meta.get(b"trace") {
        Some(mesh_core::meta::MetaValue::Bytes(b)) => assert_eq!(b.as_slice(), b"abc"),
        other => panic!("unexpected trace value: {:?}", other),
    }
}

#[test]
fn ack_frame_carries_watermark_and_credits() {
    let mut manager = ReliabilityManager::new(0, 1, 1000);
    let peer = Peer(9);
    manager.init_recv_state(peer).unwrap();
    assert!(manager.process_data_frame(peer, 1, 600).unwrap());
    let bytes = manager.maybe_build_ack(peer, 42, 50).unwrap().expect("an ack is due");
    let decoder = FrameDecoder::new();
    let (frame, _) = decoder.decode(&bytes).unwrap().unwrap();
    assert_eq!(frame.fast.typ, FrameType::Ack);
    assert_eq!(frame.fast.src_node, 42);
    assert_eq!(frame.fast.dst_node, 9);
    let meta = mesh_core::meta::parse_meta(&frame.meta_raw).unwrap();
    let ack = mesh_core::reliability::parse_ack_meta(&meta);
    assert_eq!(ack.cum_ack, 1);
    // Credits sank to 400 of 1000, at or below half: refilled whole.
    assert_eq!(ack.credits, 1000);
}

#[test]
fn resume_frame_round_trips_through_its_parser() {
    let mut manager = ReliabilityManager::new(20, 256, 2048);
    let peer = Peer(5);
    manager.init_send_state(peer).unwrap();
    manager.init_recv_state(peer).unwrap();
    manager.process_data_frame(peer, 1, 10).unwrap();
    manager.process_data_frame(peer, 2, 10).unwrap();
    let bytes = manager.build_resume(peer, 77).unwrap();
    let decoder = FrameDecoder::new();
    let (frame, _) = decoder.decode(&bytes).unwrap().unwrap();
    assert_eq!(frame.fast.typ, FrameType::Resume);
    let meta = mesh_core::meta::parse_meta(&frame.meta_raw).unwrap();
    let resume = mesh_core::reliability::parse_resume_meta(&meta);
    assert!(resume.resume);
    assert_eq!(resume.sender_cum_ack, 0);
    assert_eq!(resume.receiver_cum_proc, 2);
    assert_eq!(resume.starting_credits, Some(2048));
}

#[test]
fn send_data_frame_is_logged_and_credit_gated() {
    let mut manager = ReliabilityManager::new(20, 256, 2048);
    let peer = Peer(3);
    manager.init_send_state(peer).unwrap();
    // No credits yet: the frame parks.
    let (id1, sent1) = manager.send_data(peer, 1, vec![1, 2, 3]).unwrap();
    assert_eq!(id1, 1);
    assert!(sent1.is_none());
    // An acknowledgment granting credits releases it.
    let released = manager
        .process_ack_frame(peer, mesh_core::reliability::AckMeta { cum_ack: 0, credits: 10_000 })
        .unwrap();
    assert_eq!(released.len(), 1);
    let decoder = FrameDecoder::new();
    let (frame, _) = decoder.decode(&released[0]).unwrap().unwrap();
    assert_eq!(frame.fast.typ, FrameType::Data);
    assert_eq!(frame.fast.msg_id, 1);
    assert_eq!(frame.payload_or_cipher, vec![1, 2, 3]);
}

#[test]
fn extract_data_meta_reads_ack_flag_and_filters_headers() {
    let meta = mesh_core::meta::MetaBuilder::new()
        .insert_str("require_ack", "true")
        .insert_str("color", "blue")
        .insert_bytes("tag", b"\x01\x02")
        .map;
    let (require_ack, headers) = mesh_core::manager::extract_data_meta(&meta);
    assert!(require_ack);
    assert_eq!(headers.len(), 2);
    assert!(headers.iter().all(|(k, _)| k.as_slice() != b"require_ack"));
    assert!(headers.iter().any(|(k, v)| k.as_slice() == b"color" && v.as_slice() == b"blue"));
    assert!(headers.iter().any(|(k, v)| k.as_slice() == b"tag" && v.as_slice() == b"\x01\x02"));
}
