use mesh_core::message::{
    DiscoveryPayload, FileOfferPayload, MeshMessage, MessageType, TriageLevel, VoiceNotePayload,
};
use mesh_core::wire::{frame_body_len, FrameError};

#[test]
fn test_message_roundtrip() {
    let msg = MeshMessage::text([1u8; 32], "Hello world!");
    let bytes = msg.to_bytes();
    let decoded = MeshMessage::from_bytes(&bytes).unwrap();
    assert_eq!(decoded.msg_type, MessageType::Text);
    assert_eq!(decoded.sender_id, [1u8; 32]);
    assert_eq!(decoded.ttl, 10);
    assert_eq!(decoded.payload, b"Hello world!");
    assert!(decoded.destination.is_none());
}

#[test]
fn test_direct_message() {
    let msg = MeshMessage::text_to([1u8; 32], [2u8; 32], "DM");
    let bytes = msg.to_bytes();
    let decoded = MeshMessage::from_bytes(&bytes).unwrap();
    assert_eq!(decoded.destination, Some([2u8; 32]));
}

#[test]
fn test_frame_format() {
    let msg = MeshMessage::text([1u8; 32], "test");
    let frame = msg.to_frame();
    let len = u32::from_be_bytes([frame[0], frame[1], frame[2], frame[3]]) as usize;
    assert_eq!(len + 4, frame.len());
    let decoded = MeshMessage::from_bytes(&frame[4..]).unwrap();
    assert_eq!(decoded.payload, b"test");
}

#[test]
fn test_ttl_decrement() {
    let mut msg = MeshMessage::text([1u8; 32], "hop");
    assert_eq!(msg.ttl, 10);
    for i in (0..10).rev() {
        assert!(msg.decrement_ttl());
        assert_eq!(msg.ttl, i);
    }
    assert!(!msg.decrement_ttl());
}

#[test]
fn test_discovery_payload() {
    let payload = DiscoveryPayload::new([3u8; 32], "Node3".into(), 7332, false);
    let msg = payload.to_message();
    assert_eq!(msg.msg_type, MessageType::Discovery);
    let decoded = DiscoveryPayload::from_message(&msg).unwrap();
    assert_eq!(decoded.node_id, [3u8; 32]);
    assert_eq!(decoded.display_name, "Node3");
    assert_eq!(decoded.listen_port, 7332);
    assert!(!decoded.has_internet);
}

#[test]
fn test_message_id_uniqueness() {
    let m1 = MeshMessage::text([1u8; 32], "a");
    let m2 = MeshMessage::text([1u8; 32], "a");
    assert_ne!(m1.msg_id, m2.msg_id);
}

#[test]
fn test_compact_serialization() {
    let msg = MeshMessage::text([0u8; 32], "hi");
    let bytes = msg.to_bytes();
    assert!(bytes.len() < 200, "Serialized size {} is not compact", bytes.len());
}

#[test]
fn test_public_broadcast() {
    let msg = MeshMessage::public_broadcast([1u8; 32], "emergency info");
    assert_eq!(msg.msg_type, MessageType::PublicBroadcast);
    assert_eq!(msg.ttl, 50);
    assert!(msg.destination.is_none());
}

#[test]
fn test_file_offer_roundtrip() {
    let offer = FileOfferPayload {
        file_id: [42u8; 16],
        filename: "test.txt".into(),
        size_bytes: 1024,
        chunk_count: 1,
        sha256_hash: [0u8; 32],
    };
    let msg = MeshMessage::file_offer([1u8; 32], [2u8; 32], &offer);
    assert_eq!(msg.msg_type, MessageType::FileOffer);
    let decoded = FileOfferPayload::decode(&msg.payload).unwrap();
    assert_eq!(decoded.filename, "test.txt");
    assert_eq!(decoded.size_bytes, 1024);
}

#[test]
fn test_voice_note_roundtrip() {
    let voice = VoiceNotePayload { duration_ms: 5000, audio_data: vec![1, 2, 3, 4, 5] };
    let msg = MeshMessage::voice_note([1u8; 32], Some([2u8; 32]), &voice);
    assert_eq!(msg.msg_type, MessageType::Voice);
    let decoded = VoiceNotePayload::decode(&msg.payload).unwrap();
    assert_eq!(decoded.duration_ms, 5000);
    assert_eq!(decoded.audio_data, vec![1, 2, 3, 4, 5]);
}

#[test]
fn wire_layout_is_field_ordered() {
    let mut msg = MeshMessage::new(MessageType::SOS, [7u8; 32], 255, Some([8u8; 32]), vec![0xAA, 0xBB]);
    msg.signature = Some(vec![0xCC]);
    let bytes = msg.to_bytes();
    assert_eq!(bytes[0], 0x12);
    assert_eq!(&bytes[1..33], &[7u8; 32]);
    assert_eq!(&bytes[33..65], &msg.msg_id);
    assert_eq!(bytes[65], 255);
    assert_eq!(bytes[66], 1);
    assert_eq!(&bytes[67..99], &[8u8; 32]);
    assert_eq!(&bytes[99..103], &[0, 0, 0, 2]);
    assert_eq!(&bytes[103..105], &[0xAA, 0xBB]);
    assert_eq!(&bytes[105..], &[1, 0, 0, 0, 1, 0xCC]);
    let back = MeshMessage::from_bytes(&bytes).unwrap();
    assert_eq!(back.signature, Some(vec![0xCC]));
    assert_eq!(back.msg_id, msg.msg_id);
}

#[test]
fn decode_rejects_trailing_and_unknown_tag() {
    let msg = MeshMessage::text([1u8; 32], "x");
    let mut bytes = msg.to_bytes();
    bytes.push(0);
    assert!(MeshMessage::from_bytes(&bytes).is_err());
    let mut bad = msg.to_bytes();
    bad[0] = 0x7F;
    assert!(MeshMessage::from_bytes(&bad).is_err());
    assert!(MeshMessage::from_bytes(&[]).is_err());
}

#[test]
fn oversized_length_prefix_closes_connection() {
    assert_eq!(frame_body_len([0x00, 0x0F, 0x42, 0x41]), Err(FrameError::TooLarge));
    assert_eq!(frame_body_len([0xFF, 0xFF, 0xFF, 0xFF]), Err(FrameError::TooLarge));
    assert_eq!(frame_body_len([0x00, 0x0F, 0x42, 0x40]), Ok(1_000_000));
    assert_eq!(frame_body_len([0, 0, 0, 5]), Ok(5));
}

#[test]
fn triage_levels_parse_in_any_case() {
    assert_eq!(TriageLevel::from_str("RED"), Some(TriageLevel::Red));
    assert_eq!(TriageLevel::from_str("Yellow"), Some(TriageLevel::Yellow));
    assert_eq!(TriageLevel::from_str("black"), Some(TriageLevel::Black));
    assert_eq!(TriageLevel::from_str("green"), Some(TriageLevel::Green));
    assert_eq!(TriageLevel::from_str("blue"), None);
    assert_eq!(TriageLevel::Red.label(), "RED");
}
