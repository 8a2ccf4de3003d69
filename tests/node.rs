use mesh_core::message::{KeyExchangePayload, MeshMessage, MessageType};
use mesh_core::node::{DiscoveredPeer, Node, NodeCommand, NodeEvent, Outcome};
use mesh_core::router::MAX_SEEN_CACHE;

fn id(b: u8) -> [u8; 32] {
    [b; 32]
}

fn peer(b: u8, internet: bool) -> DiscoveredPeer {
    DiscoveredPeer {
        node_id: id(b),
        display_name: format!("node{}", b),
        addr: format!("10.0.0.{}:7332", b),
        listen_port: 7332,
        has_internet: internet,
    }
}

fn connect(node: &mut Node, b: u8, link: u64, now: u64) -> Outcome {
    node.on_connected(peer(b, false), link, now)
}

fn addr(s: &str) -> String {
    s.to_string()
}

#[test]
fn direct_text_over_two_hops() {
    let mut a = Node::new(id(1), "a".into());
    let mut b = Node::new(id(2), "b".into());
    let mut c = Node::new(id(3), "c".into());
    connect(&mut a, 2, 12, 0);
    connect(&mut b, 1, 21, 0);
    connect(&mut b, 3, 23, 0);
    connect(&mut c, 2, 32, 0);
    let out = a.on_command(NodeCommand::SendDirect { dest: id(3), text: "hi".into() });
    assert_eq!(out.sends.len(), 1);
    let (link, msg) = &out.sends[0];
    assert_eq!(*link, 12);
    assert_eq!(msg.ttl, 10);
    let at_b = b.on_message(msg, &addr("10.0.0.1:7332"), 100);
    assert!(at_b.events.is_empty());
    assert_eq!(at_b.sends.len(), 1);
    assert_eq!(at_b.sends[0].0, 23);
    assert_eq!(at_b.sends[0].1.ttl, 9);
    let at_c = c.on_message(&at_b.sends[0].1, &addr("10.0.0.2:7332"), 200);
    assert_eq!(at_c.events.len(), 1);
    match &at_c.events[0] {
        NodeEvent::MessageReceived { sender_id, content, .. } => {
            assert_eq!(*sender_id, id(1));
            assert_eq!(content, b"hi");
        }
        other => panic!("unexpected event {:?}", other),
    }
    assert!(at_c.sends.is_empty());
    let again = c.on_message(msg, &addr("10.0.0.9:7332"), 300);
    assert!(again.events.is_empty());
    assert!(again.sends.is_empty());
}

#[test]
fn sos_admitted_by_full_cache_and_forwarded() {
    let mut b = Node::new(id(2), "b".into());
    connect(&mut b, 1, 21, 0);
    connect(&mut b, 3, 23, 0);
    while b.router.seen_count() < MAX_SEEN_CACHE {
        let m = MeshMessage::text(id(4), "filler");
        assert!(b.router.should_process_at(&m, 0));
    }
    let text = MeshMessage::text(id(1), "late");
    let dropped = b.on_message(&text, &addr("10.0.0.1:7332"), 1_000);
    assert!(dropped.sends.is_empty() && dropped.events.is_empty());
    let sos = MeshMessage::sos(id(1), b"help".to_vec());
    let out = b.on_message(&sos, &addr("10.0.0.1:7332"), 1_000);
    assert_eq!(out.events.len(), 1);
    assert!(matches!(&out.events[0], NodeEvent::SOSReceived { payload, .. } if payload == b"help"));
    assert_eq!(out.sends.len(), 1);
    assert_eq!(out.sends[0].0, 23);
    assert_eq!(out.sends[0].1.ttl, 254);
    assert_eq!(out.sends[0].1.msg_type, MessageType::SOS);
}

#[test]
fn file_transfer_between_engines() {
    let mut a = Node::new(id(1), "a".into());
    let mut b = Node::new(id(2), "saved".into());
    connect(&mut a, 2, 12, 0);
    connect(&mut b, 1, 21, 0);
    let data: Vec<u8> = (0..70_536u32).map(|i| (i * 7 % 256) as u8).collect();
    let offer = a.on_command(NodeCommand::SendFile { dest: id(2), filename: "blob".into(), data: data.clone() });
    assert_eq!(offer.sends.len(), 1);
    let offered = b.on_message(&offer.sends[0].1, &addr("a"), 10);
    let file_id = match &offered.events[0] {
        NodeEvent::FileOffered { file_id, filename, size, .. } => {
            assert_eq!(filename, "blob");
            assert_eq!(*size, 70_536);
            *file_id
        }
        other => panic!("unexpected event {:?}", other),
    };
    let accept = b.on_command(NodeCommand::AcceptFile { file_id });
    assert_eq!(accept.sends.len(), 1);
    assert_eq!(accept.sends[0].1.msg_type, MessageType::FileAccept);
    let chunks = a.on_message(&accept.sends[0].1, &addr("b"), 20);
    assert_eq!(chunks.sends.len(), 2);
    let mut ready = None;
    for (_, m) in &chunks.sends {
        assert_eq!(m.msg_type, MessageType::FileChunk);
        let out = b.on_message(m, &addr("a"), 30);
        for e in out.events {
            if let NodeEvent::FileReady { file, .. } = e {
                ready = Some(file);
            }
        }
    }
    let file = ready.expect("file completed");
    assert_eq!(file.filename, "blob");
    assert_eq!(file.save_dir, "saved");
    assert_eq!(file.data, data);
}

#[test]
fn heartbeat_prunes_silent_peer_and_ends_call() {
    let mut a = Node::new(id(1), "a".into());
    let mut up = a.on_connected(peer(2, true), 12, 0);
    assert_eq!(up.events.len(), 2);
    assert!(matches!(up.events.remove(1), NodeEvent::GatewayFound { .. }));
    let call = a.on_command(NodeCommand::StartVoiceCall { peer: id(2) });
    assert_eq!(call.sends.len(), 1);
    let tick = a.on_heartbeat(10_000);
    assert_eq!(tick.sends.len(), 1);
    assert_eq!(tick.sends[0].1.msg_type, MessageType::Ping);
    assert!(tick.events.is_empty());
    let tick = a.on_heartbeat(30_000);
    assert_eq!(a.peers.count(), 1);
    assert!(tick.closed.is_empty());
    let tick = a.on_heartbeat(30_001);
    assert_eq!(a.peers.count(), 0);
    assert_eq!(tick.closed, vec![12]);
    assert!(tick.events.iter().any(|e| matches!(e, NodeEvent::PeerDisconnected { node_id } if *node_id == id(2))));
    assert!(tick.events.iter().any(|e| matches!(e, NodeEvent::CallEnded { peer } if *peer == id(2))));
    assert!(tick.events.iter().any(|e| matches!(e, NodeEvent::GatewayLost { node_id } if *node_id == id(2))));
    assert!(a.active_call.is_none());
}

#[test]
fn ping_refreshes_peer_and_is_answered() {
    let mut a = Node::new(id(1), "a".into());
    connect(&mut a, 2, 12, 0);
    let ping = MeshMessage::new(MessageType::Ping, id(2), 1, None, Vec::new());
    let out = a.on_message(&ping, &addr("b"), 25_000);
    assert_eq!(out.sends.len(), 1);
    assert_eq!(out.sends[0].0, 12);
    assert_eq!(out.sends[0].1.msg_type, MessageType::Pong);
    assert_eq!(out.sends[0].1.destination, Some(id(2)));
    let tick = a.on_heartbeat(40_000);
    assert!(tick.events.is_empty());
    assert_eq!(a.peers.count(), 1);
}

#[test]
fn inbound_key_exchange_binds_pending_connection() {
    let mut a = Node::new(id(1), "a".into());
    let mut b = Node::new(id(2), "b".into());
    let opened = a.on_connected(peer(2, false), 12, 0);
    let (_, kx) = &opened.sends[0];
    assert_eq!(kx.msg_type, MessageType::KeyExchange);
    let orphan = b.on_message(kx, &addr("10.0.0.1:5555"), 5);
    assert!(orphan.sends.is_empty() && orphan.events.is_empty());
    assert_eq!(b.peers.count(), 0);
    b.on_inbound_connection(addr("10.0.0.1:5555"), 77);
    let out = b.on_message(kx, &addr("10.0.0.1:5555"), 10);
    assert_eq!(out.sends.len(), 1);
    assert_eq!(out.sends[0].0, 77);
    assert!(matches!(&out.events[0], NodeEvent::PeerConnected { node_id, .. } if *node_id == id(1)));
    let reply = &out.sends[0].1;
    assert_eq!(reply.msg_type, MessageType::KeyExchange);
    assert_eq!(KeyExchangePayload::from_message(reply).unwrap().x25519_public, b.x25519_public);
    let back = a.on_message(reply, &addr("10.0.0.2:7332"), 20);
    assert!(back.sends.is_empty());
    let ka = a.peers.get(&id(2)).unwrap().session_keys.unwrap().shared_key;
    let kb = b.peers.get(&id(1)).unwrap().session_keys.unwrap().shared_key;
    assert_eq!(ka, kb);
    assert!(b.pending.is_empty());
}

#[test]
fn nuke_and_shutdown_stop_the_loop() {
    let mut a = Node::new(id(1), "a".into());
    let out = a.on_command(NodeCommand::Nuke);
    assert!(out.delete_identity && out.stop);
    assert!(matches!(out.events[..], [NodeEvent::Nuked]));
    let out = a.on_command(NodeCommand::Shutdown);
    assert!(!out.delete_identity && out.stop);
    assert!(matches!(out.events[..], [NodeEvent::Stopped]));
}

#[test]
fn discovery_connects_unknown_and_tracks_gateway() {
    let mut a = Node::new(id(1), "a".into());
    let me = a.on_discovered(peer(1, false), 0);
    assert!(me.connect.is_none());
    let new = a.on_discovered(peer(2, false), 0);
    assert_eq!(new.connect.map(|d| d.node_id), Some(id(2)));
    a.on_connected(peer(2, false), 12, 0);
    let found = a.on_discovered(peer(2, true), 5_000);
    assert!(found.connect.is_none());
    assert!(matches!(&found.events[..], [NodeEvent::GatewayFound { .. }]));
    let lost = a.on_discovered(peer(2, false), 10_000);
    assert!(matches!(&lost.events[..], [NodeEvent::GatewayLost { .. }]));
    let stats = a.on_command(NodeCommand::GetStats);
    assert!(matches!(&stats.events[..], [NodeEvent::Stats { stats }] if stats.total_peers == 1));
    let list = a.on_command(NodeCommand::GetPeers);
    assert!(matches!(&list.events[..], [NodeEvent::PeerList { peers }] if peers.len() == 1 && peers[0].node_id == id(2)));
}

#[test]
fn broadcast_reaches_every_peer_once() {
    let mut a = Node::new(id(1), "a".into());
    connect(&mut a, 2, 12, 0);
    connect(&mut a, 3, 13, 0);
    let out = a.on_command(NodeCommand::SendBroadcast { text: "all".into() });
    let links: Vec<u64> = out.sends.iter().map(|(l, _)| *l).collect();
    assert_eq!(links, vec![12, 13]);
    assert_eq!(out.sends[0].1.msg_id, out.sends[1].1.msg_id);
    assert_eq!(out.sends[0].1.payload, b"all");
}
