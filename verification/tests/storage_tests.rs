use mesh_core::reliability::ReliabilityManager;
use mesh_core::segment::decode_record;
use mesh_core::segment::encode_record;
use mesh_core::storage::MemoryDedup;
use mesh_core::storage::MemoryWal;
use mesh_core::storage::Peer;
use mesh_core::storage::WalFrame;

#[test]
fn test_memory_wal_basic() {
    let mut wal = MemoryWal::new();
    let peer = Peer(1001);

    // Test append
    let frame = WalFrame {
        msg_id: 1,
        bytes: b"test frame",
        approx_len: 10,
    };
    wal.append(peer, frame).unwrap();

    // Test last_appended
    assert_eq!(wal.last_appended(peer).unwrap(), 1);

    // Test range
    let results = wal.range(peer, 0, None).unwrap();

    assert_eq!(results.len(), 1);
    assert_eq!(results[0].msg_id, 1);
    assert_eq!(results[0].bytes, b"test frame");
}

#[test]
fn test_memory_dedup_basic() {
    let mut dedup = MemoryDedup::with_default_window();
    let peer = Peer(2002);

    // Test initial state
    assert_eq!(dedup.cum_processed(peer).unwrap(), 0);
    assert!(!dedup.is_processed(peer, 1).unwrap());

    // Test mark processed contiguous
    dedup.mark_processed(peer, 1).unwrap();
    assert_eq!(dedup.cum_processed(peer).unwrap(), 1);
    assert!(dedup.is_processed(peer, 1).unwrap());

    // Test out of order
    dedup.mark_processed(peer, 3).unwrap();
    assert_eq!(dedup.cum_processed(peer).unwrap(), 1);
    assert!(dedup.is_processed(peer, 3).unwrap());

    // Fill gap
    dedup.mark_processed(peer, 2).unwrap();
    assert_eq!(dedup.cum_processed(peer).unwrap(), 3);
}

#[test]
fn wal_truncate_then_range_yields_only_later_entries() {
    let mut wal = MemoryWal::new();
    let peer = Peer(7);
    for id in 1..=5u64 {
        let bytes = vec![id as u8; 3];
        wal.append(peer, WalFrame { msg_id: id, bytes: &bytes, approx_len: 3 }).unwrap();
    }
    wal.truncate_through(peer, 3).unwrap();
    let entries = wal.range(peer, 3, None).unwrap();
    assert_eq!(entries.len(), 2);
    for e in &entries {
        assert!(e.msg_id > 3);
    }
    // Truncation is idempotent.
    wal.truncate_through(peer, 3).unwrap();
    let again = wal.range(peer, 3, None).unwrap();
    assert_eq!(again.len(), 2);
    // A range with a limit cuts the tail off.
    let limited = wal.range(peer, 0, Some(1)).unwrap();
    assert_eq!(limited.len(), 1);
    assert_eq!(limited[0].msg_id, 4);
}

#[test]
fn dedup_never_forgets_marked_ids() {
    let mut dedup = MemoryDedup::new(16);
    let peer = Peer(9);
    for id in [1u64, 2, 5, 9, 3] {
        dedup.mark_processed(peer, id).unwrap();
        assert!(dedup.is_processed(peer, id).unwrap());
    }
    // Everything once marked stays processed.
    for id in [1u64, 2, 3, 5, 9] {
        assert!(dedup.is_processed(peer, id).unwrap());
    }
    // An ID far past the window jumps the watermark: it counts as
    // processed for good, never as new, at the price of covering
    // everything below it.
    dedup.mark_processed(peer, 10_000).unwrap();
    assert!(dedup.is_processed(peer, 10_000).unwrap());
    assert_eq!(dedup.cum_processed(peer).unwrap(), 10_000);
    // Advancing the watermark covers everything below it.
    dedup.advance_cum(peer, 20_000).unwrap();
    assert!(dedup.is_processed(peer, 15_000).unwrap());
}

#[test]
fn segment_record_round_trip_and_corruption() {
    let mut out: Vec<u8> = Vec::new();
    encode_record(77, b"frame payload", &mut out);
    let (msg_id, frame, end) = decode_record(&out, 0).unwrap().unwrap();
    assert_eq!(msg_id, 77);
    assert_eq!(frame, b"frame payload".to_vec());
    assert_eq!(end, out.len());

    // A flipped payload byte fails the checksum.
    let mut corrupt = out.clone();
    let last = corrupt.len() - 1;
    corrupt[last] ^= 0xFF;
    assert!(decode_record(&corrupt, 0).is_err());

    // A truncated record is merely incomplete.
    let partial = &out[..out.len() - 1];
    assert!(matches!(decode_record(partial, 0), Ok(None)));
}

#[test]
fn send_appends_to_wal_before_the_wire() {
    let mut manager = ReliabilityManager::new(20, 256, 1 << 20);
    let peer = Peer(2002);
    manager.init_send_state(peer).unwrap();
    let (msg_id, sent) = manager.send_data(peer, 1001, b"hi".to_vec()).unwrap();
    assert_eq!(msg_id, 1);
    // No credits yet: the frame parks, but the log already holds it.
    assert!(sent.is_none());
    assert_eq!(manager.wal.last_appended(peer).unwrap(), 1);
    let logged = manager.wal.range(peer, 0, None).unwrap();
    assert_eq!(logged.len(), 1);
    assert_eq!(logged[0].msg_id, 1);
}

#[test]
fn oversize_payload_fails_before_wal_append() {
    let mut manager = ReliabilityManager::new(20, 256, 1 << 20);
    let peer = Peer(2002);
    manager.init_send_state(peer).unwrap();
    let oversize = vec![0u8; 16 * 1024 * 1024 + 1];
    assert!(manager.send_data(peer, 1001, oversize).is_err());
    assert_eq!(manager.wal.last_appended(peer).unwrap(), 0);
    assert!(manager.wal.range(peer, 0, None).unwrap().is_empty());
}
