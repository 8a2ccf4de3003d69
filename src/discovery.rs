use vstd::prelude::*;
use crate::bytes::bytes_eq;
use crate::message::{DiscoveryPayload, MeshMessage, MessageType};
use crate::payload::{discovery_bytes, encodes_announcement};
use crate::wire::parse_message;

verus! {

/// Interval between two discovery announcements, in milliseconds.
pub const DISCOVERY_INTERVAL_MS: u64 = 5_000;

/// What a node announces on the discovery channel.
pub struct DiscoveryService {
    pub our_node_id: [u8; 32],
    pub display_name: String,
    pub listen_port: u16,
}

impl DiscoveryService {
    pub fn new(node_id: [u8; 32], display_name: String, listen_port: u16) -> (r: Self)
        ensures
            r.our_node_id == node_id,
            r.display_name@ == display_name@,
            r.listen_port == listen_port,
    {
        DiscoveryService { our_node_id: node_id, display_name, listen_port }
    }

    /// The announcement carried by a received datagram, exactly when it is
    /// a well-formed discovery message from another node.
    pub fn accept_datagram(&self, datagram: &[u8]) -> (r: Option<DiscoveryPayload>)
        ensures
            r matches Some(p) ==> (parse_message(datagram@) matches Some(m)
                && m.msg_type == MessageType::Discovery
                && m.sender != self.our_node_id@
                && discovery_bytes(p) == m.payload),
            parse_message(datagram@) matches Some(m) && m.sender == self.our_node_id@ ==> r is None,
            parse_message(datagram@) matches Some(m) ==> (m.msg_type == MessageType::Discovery
                && m.sender != self.our_node_id@ && encodes_announcement(m.payload) ==> r is Some),
    {
        let msg = match MeshMessage::from_bytes(datagram) {
            Ok(m) => m,
            Err(_) => return None,
        };
        if msg.msg_type != MessageType::Discovery || bytes_eq(&msg.sender_id, &self.our_node_id) {
            return None;
        }
        DiscoveryPayload::from_message(&msg)
    }
}

} // verus!
