use mesh_core::message::{MeshMessage, MessageType};
use mesh_core::router::{Router, RoutingTable, MAX_SEEN_CACHE};

fn make_msg(sender: [u8; 32], ttl: u8) -> MeshMessage {
    MeshMessage::new(MessageType::Text, sender, ttl, None, b"test".to_vec())
}

#[test]
fn test_should_process_new_message() {
    let our_id = [1u8; 32];
    let mut router = Router::new(our_id);
    let msg = make_msg([2u8; 32], 5);
    assert!(router.should_process(&msg));
}

#[test]
fn test_reject_own_message() {
    let our_id = [1u8; 32];
    let mut router = Router::new(our_id);
    let msg = make_msg(our_id, 5);
    assert!(!router.should_process(&msg));
}

#[test]
fn test_dedup() {
    let our_id = [1u8; 32];
    let mut router = Router::new(our_id);
    let msg = make_msg([2u8; 32], 5);
    assert!(router.should_process(&msg));
    assert!(!router.should_process(&msg));
}

#[test]
fn test_ttl_zero_rejected() {
    let our_id = [1u8; 32];
    let mut router = Router::new(our_id);
    let msg = make_msg([2u8; 32], 0);
    assert!(!router.should_process(&msg));
}

#[test]
fn test_forward_decrements_ttl() {
    let our_id = [1u8; 32];
    let mut router = Router::new(our_id);
    let msg = make_msg([2u8; 32], 3);
    let forwarded = router.prepare_forward(&msg).unwrap();
    assert_eq!(forwarded.ttl, 2);
}

#[test]
fn test_forward_ttl_1_returns_none() {
    let our_id = [1u8; 32];
    let mut router = Router::new(our_id);
    let mut msg = make_msg([2u8; 32], 1);
    msg.ttl = 1;
    let forwarded = router.prepare_forward(&msg);
    assert!(forwarded.is_some());
    assert_eq!(forwarded.unwrap().ttl, 0);
}

#[test]
fn test_broadcast_is_for_us() {
    let our_id = [1u8; 32];
    let router = Router::new(our_id);
    let msg = make_msg([2u8; 32], 5);
    assert!(router.is_for_us(&msg));
}

#[test]
fn test_direct_message_for_us() {
    let our_id = [1u8; 32];
    let router = Router::new(our_id);
    let msg = MeshMessage::new(MessageType::Text, [2u8; 32], 5, Some(our_id), b"hello".to_vec());
    assert!(router.is_for_us(&msg));
    assert!(!router.should_forward(&msg));
}

#[test]
fn test_direct_message_not_for_us() {
    let our_id = [1u8; 32];
    let router = Router::new(our_id);
    let msg = MeshMessage::new(MessageType::Text, [2u8; 32], 5, Some([3u8; 32]), b"hello".to_vec());
    assert!(!router.is_for_us(&msg));
    assert!(router.should_forward(&msg));
}

#[test]
fn test_stats_tracking() {
    let our_id = [1u8; 32];
    let mut router = Router::new(our_id);
    let msg1 = make_msg([2u8; 32], 5);
    router.should_process(&msg1);
    let msg2 = make_msg([3u8; 32], 5);
    router.should_process(&msg2);
    assert_eq!(router.stats.unique_nodes_seen, 3);
    assert_eq!(router.stats.messages_received, 2);
}

#[test]
fn test_sos_priority() {
    let our_id = [1u8; 32];
    let mut router = Router::new(our_id);
    let sos = MeshMessage::new(MessageType::SOS, [2u8; 32], 255, None, b"help".to_vec());
    assert!(router.should_process(&sos));
}

#[test]
fn hop_count_recorded_from_catalog_ttl() {
    let mut router = Router::new([1u8; 32]);
    let msg = make_msg([2u8; 32], 7);
    assert!(router.should_process_at(&msg, 0));
    assert_eq!(router.stats.total_hops_observed, 3);
    assert_eq!(router.stats.hop_count_samples, 1);
    let fresh = make_msg([2u8; 32], 10);
    assert!(router.should_process_at(&fresh, 0));
    assert_eq!(router.stats.hop_count_samples, 1);
}

#[test]
fn direct_message_for_other_not_counted_received() {
    let mut router = Router::new([1u8; 32]);
    let msg = MeshMessage::new(MessageType::Text, [2u8; 32], 5, Some([3u8; 32]), b"x".to_vec());
    assert!(router.should_process_at(&msg, 0));
    assert_eq!(router.stats.messages_received, 0);
    assert!(router.prepare_forward(&msg).is_some());
    assert_eq!(router.stats.messages_relayed, 1);
}

#[test]
fn own_message_never_processed() {
    let our_id = [9u8; 32];
    let mut router = Router::new(our_id);
    for ttl in [1u8, 10, 255] {
        let msg = MeshMessage::new(MessageType::SOS, our_id, ttl, None, Vec::new());
        assert!(!router.should_process_at(&msg, 0));
    }
    assert_eq!(router.seen_count(), 0);
}

#[test]
fn dedup_holds_until_expiry() {
    let mut router = Router::new([1u8; 32]);
    let msg = make_msg([2u8; 32], 5);
    assert!(router.should_process_at(&msg, 1_000));
    assert!(!router.should_process_at(&msg, 2_000));
    router.cleanup_at(301_000);
    assert!(!router.should_process_at(&msg, 301_000));
    router.cleanup_at(301_001);
    assert_eq!(router.seen_count(), 0);
    assert!(router.should_process_at(&msg, 301_001));
}

#[test]
fn ttl_chain_reaches_zero_then_stops() {
    let mut router = Router::new([1u8; 32]);
    let mut msg = make_msg([2u8; 32], 3);
    for k in 1..=3u8 {
        msg = router.prepare_forward(&msg).unwrap();
        assert_eq!(msg.ttl, 3 - k);
    }
    assert!(router.prepare_forward(&msg).is_none());
}

#[test]
fn ttl_one_forwarded_once_then_dropped() {
    let mut relay = Router::new([1u8; 32]);
    let msg = make_msg([2u8; 32], 1);
    assert!(relay.should_process_at(&msg, 0));
    let copy = relay.prepare_forward(&msg).unwrap();
    assert_eq!(copy.ttl, 0);
    let mut next = Router::new([3u8; 32]);
    assert!(!next.should_process_at(&copy, 0));
}

fn fill_cache(router: &mut Router, now: u64) {
    let sender = [2u8; 32];
    while router.seen_count() < MAX_SEEN_CACHE {
        let m = make_msg(sender, 5);
        assert!(router.should_process_at(&m, now));
    }
}

#[test]
fn full_cache_admits_sos_rejects_text() {
    let mut router = Router::new([1u8; 32]);
    fill_cache(&mut router, 0);
    let text = make_msg([4u8; 32], 5);
    assert!(!router.should_process_at(&text, 1_000));
    let sos = MeshMessage::new(MessageType::SOS, [4u8; 32], 255, None, b"help".to_vec());
    assert!(router.should_process_at(&sos, 1_000));
    let later = make_msg([4u8; 32], 5);
    assert!(router.should_process_at(&later, 400_000));
}

#[test]
fn routing_table_prefers_shorter_and_expires() {
    let mut table = RoutingTable::new();
    let origin = [5u8; 32];
    table.update_route_at(origin, [6u8; 32], 3, 0);
    assert_eq!(table.lookup_at(&origin, 1_000), Some([6u8; 32]));
    table.update_route_at(origin, [7u8; 32], 5, 1_000);
    assert_eq!(table.lookup_at(&origin, 1_000), Some([6u8; 32]));
    table.update_route_at(origin, [8u8; 32], 3, 2_000);
    assert_eq!(table.lookup_at(&origin, 2_000), Some([8u8; 32]));
    assert_eq!(table.lookup_at(&origin, 122_000), None);
    table.update_route_at(origin, [7u8; 32], 9, 200_000);
    assert_eq!(table.lookup_at(&origin, 200_000), Some([7u8; 32]));
    table.cleanup_at(400_000);
    assert_eq!(table.lookup_at(&origin, 200_000), None);
    assert_eq!(table.lookup(&[0u8; 32]), None);
}
