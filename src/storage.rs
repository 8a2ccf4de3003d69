use vstd::prelude::*;

verus! {

/// A stored chat message.
#[derive(Debug, Clone)]
pub struct StoredMessage {
    pub id: i64,
    pub msg_id: [u8; 32],
    pub sender_id: [u8; 32],
    pub sender_name: String,
    pub content: String,
    pub msg_type: String,
    pub group_name: Option<String>,
    pub destination: Option<[u8; 32]>,
    pub timestamp: i64,
    pub is_outgoing: bool,
    pub read: bool,
    pub delivered: bool,
    pub disappear_at: Option<i64>,
    pub extra_json: Option<String>,
}

/// A saved contact.
#[derive(Debug, Clone)]
pub struct Contact {
    pub node_id: [u8; 32],
    pub display_name: String,
    pub nickname: Option<String>,
    pub bio: String,
    pub first_seen: i64,
    pub last_seen: i64,
    pub is_favorite: bool,
    pub safety_number: Option<String>,
}

impl Contact {
    /// The nickname when one is set, else the display name.
    pub fn effective_name(&self) -> (r: &str)
        ensures
            r@ == match self.nickname {
                Some(n) => n@,
                None => self.display_name@,
            },
    {
        match &self.nickname {
            Some(n) => n.as_str(),
            None => self.display_name.as_str(),
        }
    }
}

} // verus!
