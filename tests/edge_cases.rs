use mesh_core::crypto::{decrypt_with_key, CryptoError};
use mesh_core::message::{DiscoveryPayload, MeshMessage, MessageType};
use mesh_core::node::{DiscoveredPeer, Node, NodeCommand, NodeEvent};
use mesh_core::file_transfer::TransferError;

fn peer(b: u8) -> DiscoveredPeer {
    DiscoveredPeer {
        node_id: [b; 32],
        display_name: format!("n{}", b),
        addr: format!("10.0.0.{}:7332", b),
        listen_port: 7332,
        has_internet: false,
    }
}

#[test]
fn envelope_shorter_than_tag_is_refused() {
    let key = [1u8; 32];
    for len in 12..28 {
        assert_eq!(decrypt_with_key(&key, &vec![0u8; len]), Err(CryptoError::AuthFailure));
    }
}

#[test]
fn emergency_constructors_use_wide_ttl() {
    let t = MeshMessage::triage([1u8; 32], vec![1]);
    assert_eq!((t.msg_type, t.ttl), (MessageType::Triage, 50));
    let r = MeshMessage::resource_request([1u8; 32], vec![2]);
    assert_eq!((r.msg_type, r.ttl), (MessageType::ResourceReq, 50));
    let c = MeshMessage::check_in([1u8; 32], vec![3]);
    assert_eq!((c.msg_type, c.ttl, c.payload), (MessageType::CheckIn, 50, vec![3]));
}

#[test]
fn discovery_payload_with_no_capabilities_decodes() {
    let mut p = DiscoveryPayload::new([9u8; 32], "héllo".into(), 1, true);
    p.capabilities.clear();
    let back = DiscoveryPayload::decode(&p.encode()).unwrap();
    assert_eq!(back.display_name, "héllo");
    assert!(back.capabilities.is_empty());
    let mut bad = p.encode();
    bad[34] = 2;
    assert!(DiscoveryPayload::decode(&bad).is_none());
}

#[test]
fn corrupted_transfer_reports_failure_event() {
    let mut a = Node::new([1u8; 32], "a".into());
    let mut b = Node::new([2u8; 32], "b".into());
    a.on_connected(peer(2), 12, 0);
    b.on_connected(peer(1), 21, 0);
    let offer = a.on_command(NodeCommand::SendFile { dest: [2u8; 32], filename: "f".into(), data: vec![5u8; 10] });
    let offered = b.on_message(&offer.sends[0].1, &"a".to_string(), 1);
    let file_id = match &offered.events[0] {
        NodeEvent::FileOffered { file_id, .. } => *file_id,
        other => panic!("unexpected {:?}", other),
    };
    let accept = b.on_command(NodeCommand::AcceptFile { file_id });
    let chunks = a.on_message(&accept.sends[0].1, &"b".to_string(), 2);
    let mut chunk = chunks.sends[0].1.clone();
    let last = chunk.payload.len() - 1;
    chunk.payload[last] ^= 0xFF;
    let out = b.on_message(&chunk, &"a".to_string(), 3);
    assert!(out.events.iter().any(|e| matches!(e, NodeEvent::FileFailed { error: TransferError::HashMismatch, .. })));
    assert!(b.files.get_incoming_metadata(&file_id).is_none());
}

#[test]
fn relay_does_not_deliver_foreign_direct_message() {
    let mut b = Node::new([2u8; 32], "b".into());
    b.on_connected(peer(1), 21, 0);
    b.on_connected(peer(3), 23, 0);
    let m = MeshMessage::text_to([1u8; 32], [3u8; 32], "hi");
    let out = b.on_message(&m, &"a".to_string(), 5);
    assert!(out.events.is_empty());
    assert_eq!(out.sends.len(), 1);
    assert_eq!(out.sends[0].0, 23);
    assert_eq!(out.sends[0].1.msg_id, m.msg_id);
}

#[test]
fn stats_and_profile_commands() {
    let mut a = Node::new([1u8; 32], "a".into());
    a.on_connected(peer(2), 12, 0);
    let up = a.on_command(NodeCommand::UpdateProfile { payload: vec![7, 7] });
    assert_eq!(up.sends.len(), 1);
    assert_eq!(up.sends[0].1.ttl, 3);
    let end = a.on_command(NodeCommand::EndVoiceCall);
    assert!(end.sends.is_empty());
    let frame = a.on_command(NodeCommand::SendAudioFrame { peer: [2u8; 32], data: vec![1] });
    assert!(frame.sends.is_empty());
    a.on_command(NodeCommand::StartVoiceCall { peer: [2u8; 32] });
    let frame = a.on_command(NodeCommand::SendAudioFrame { peer: [2u8; 32], data: vec![1] });
    assert_eq!(frame.sends.len(), 1);
    assert_eq!(frame.sends[0].1.msg_type, MessageType::VoiceStream);
}
