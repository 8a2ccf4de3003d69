use mesh_core::crypto::generate_x25519_keypair;
use mesh_core::discovery::DiscoveryService;
use mesh_core::identity::NodeIdentity;
use mesh_core::message::{DiscoveryPayload, FileChunkPayload, MeshMessage, MessageType};
use mesh_core::peer::{PeerManager, PeerState};

#[test]
fn public_keys_are_not_the_secrets() {
    let id = NodeIdentity::from_key_bytes(&[3u8; 32], "n".into()).unwrap();
    assert_ne!(id.node_id, [3u8; 32]);
    assert_eq!(id.secret_bytes(), [3u8; 32]);
    let (secret, public) = generate_x25519_keypair();
    assert_ne!(secret, public);
}

#[test]
fn signing_bytes_cover_digest_of_payload() {
    let msg = MeshMessage::new(MessageType::Text, [1u8; 32], 3, None, b"abc".to_vec());
    let b = msg.signing_bytes();
    assert_eq!(b.len(), 1 + 32 + 32 + 32);
    assert_eq!(b[0], 0x10);
    assert_eq!(&b[1..33], &[1u8; 32]);
    assert_eq!(&b[33..65], &msg.msg_id);
    let sha_abc: [u8; 4] = [0xba, 0x78, 0x16, 0xbf];
    assert_eq!(&b[65..69], &sha_abc);
}

#[test]
fn discovery_ignores_own_announcement() {
    let me = DiscoveryService::new([1u8; 32], "me".into(), 7332);
    let own = DiscoveryPayload::new([1u8; 32], "me".into(), 7332, false).to_message().to_bytes();
    assert!(me.accept_datagram(&own).is_none());
    let other = DiscoveryPayload::new([2u8; 32], "you".into(), 9000, true).to_message().to_bytes();
    let p = me.accept_datagram(&other).unwrap();
    assert_eq!(p.node_id, [2u8; 32]);
    assert_eq!(p.listen_port, 9000);
    assert!(p.has_internet);
    assert_eq!(p.capabilities, vec!["text".to_string(), "voice".to_string(), "file".to_string()]);
    let text = MeshMessage::text([2u8; 32], "not discovery").to_bytes();
    assert!(me.accept_datagram(&text).is_none());
    assert!(me.accept_datagram(&[1, 2, 3]).is_none());
}

#[test]
fn group_and_receipt_constructors() {
    let g = MeshMessage::group_message([1u8; 32], "rescue-team", "hello");
    assert_eq!(g.msg_type, MessageType::GroupMessage);
    assert_eq!(&g.payload[..4], &[0, 0, 0, 11]);
    assert_eq!(&g.payload[4..15], b"rescue-team");
    assert_eq!(&g.payload[15..], b"hello");
    let j = MeshMessage::group_join([1u8; 32], "rescue-team");
    assert_eq!(j.payload, b"rescue-team");
    assert_eq!(MeshMessage::group_leave([1u8; 32], "x").msg_type, MessageType::GroupLeave);
    let r = MeshMessage::read_receipt([1u8; 32], [2u8; 32], [7u8; 32]);
    assert_eq!(r.payload, vec![7u8; 32]);
    assert_eq!(r.destination, Some([2u8; 32]));
    let d = MeshMessage::disappearing([1u8; 32], None, "bye", 60);
    assert_eq!(d.payload, vec![0, 0, 0, 60, b'b', b'y', b'e']);
    assert_eq!(MeshMessage::typing_start([1u8; 32], None).ttl, 1);
    assert_eq!(MeshMessage::typing_stop([1u8; 32], Some([2u8; 32])).msg_type, MessageType::TypingStop);
}

#[test]
fn chunk_payload_round_trip() {
    let c = FileChunkPayload { file_id: [4u8; 16], sequence: 258, data: vec![9, 8] };
    let bytes = c.encode();
    assert_eq!(&bytes[16..20], &[0, 0, 1, 2]);
    let back = FileChunkPayload::decode(&bytes).unwrap();
    assert_eq!(back.sequence, 258);
    assert_eq!(back.data, vec![9, 8]);
    assert!(FileChunkPayload::decode(&bytes[..19]).is_err());
}

#[test]
fn registry_prunes_only_stale_peers() {
    let mut peers = PeerManager::new();
    peers.add(PeerState::new([1u8; 32], "a".into(), "x:1".into(), 1, 0));
    peers.add(PeerState::new([2u8; 32], "b".into(), "x:2".into(), 2, 20_000));
    peers.add(PeerState::new([1u8; 32], "a2".into(), "x:1".into(), 3, 0));
    assert_eq!(peers.count(), 2);
    assert_eq!(peers.get(&[1u8; 32]).unwrap().display_name, "a2");
    assert!(peers.prune_stale(30_000, 30_000).is_empty());
    let gone = peers.prune_stale(30_000, 30_001);
    assert_eq!(gone, vec![[1u8; 32]]);
    assert_eq!(peers.peer_ids(), vec![[2u8; 32]]);
    assert_eq!(peers.broadcast_senders(), vec![([2u8; 32], 2)]);
    assert!(peers.get(&[2u8; 32]).unwrap().is_alive(30_000, 50_000));
    assert!(!peers.get(&[2u8; 32]).unwrap().is_alive(30_000, 50_001));
    assert!(peers.remove(&[2u8; 32]).is_some());
    assert!(!peers.contains(&[2u8; 32]));
}
