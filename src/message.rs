use vstd::prelude::*;
use vstd::slice::slice_to_vec;
use vstd::string::StringSliceAdditionalSpecFns;
use rand::RngCore;
use crate::gateway::{lower_of, lowercase_bytes, same_bytes};

verus! {

/// Message kinds of the mesh protocol; each has a one-byte wire tag.
#[derive(Debug, Clone, Copy, PartialEq, Eq, Structural)]
pub enum MessageType {
    Discovery,
    Ping,
    Pong,
    Text,
    PublicBroadcast,
    SOS,
    FileChunk,
    FileOffer,
    FileAccept,
    Voice,
    VoiceStream,
    CallStart,
    CallEnd,
    PeerExchange,
    KeyExchange,
    ProfileUpdate,
    ReadReceipt,
    TypingStart,
    TypingStop,
    GroupMessage,
    GroupJoin,
    GroupLeave,
    CheckIn,
    Triage,
    ResourceReq,
    Disappearing,
}

/// The wire tag of each message kind.
#[verifier::opaque]
pub open spec fn tag_of(t: MessageType) -> u8 {
    match t {
        MessageType::Discovery => 0x01,
        MessageType::Ping => 0x02,
        MessageType::Pong => 0x03,
        MessageType::Text => 0x10,
        MessageType::PublicBroadcast => 0x11,
        MessageType::SOS => 0x12,
        MessageType::ReadReceipt => 0x13,
        MessageType::TypingStart => 0x14,
        MessageType::TypingStop => 0x15,
        MessageType::GroupMessage => 0x16,
        MessageType::GroupJoin => 0x17,
        MessageType::GroupLeave => 0x18,
        MessageType::CheckIn => 0x19,
        MessageType::Triage => 0x1A,
        MessageType::ResourceReq => 0x1B,
        MessageType::Disappearing => 0x1C,
        MessageType::FileChunk => 0x20,
        MessageType::FileOffer => 0x21,
        MessageType::FileAccept => 0x22,
        MessageType::Voice => 0x30,
        MessageType::VoiceStream => 0x31,
        MessageType::CallStart => 0x32,
        MessageType::CallEnd => 0x33,
        MessageType::PeerExchange => 0x40,
        MessageType::KeyExchange => 0x50,
        MessageType::ProfileUpdate => 0x60,
    }
}

/// The message kind a wire tag stands for, if any.
#[verifier::opaque]
pub open spec fn type_of_tag(b: u8) -> Option<MessageType> {
    if b == 0x01 { Some(MessageType::Discovery) }
    else if b == 0x02 { Some(MessageType::Ping) }
    else if b == 0x03 { Some(MessageType::Pong) }
    else if b == 0x10 { Some(MessageType::Text) }
    else if b == 0x11 { Some(MessageType::PublicBroadcast) }
    else if b == 0x12 { Some(MessageType::SOS) }
    else if b == 0x13 { Some(MessageType::ReadReceipt) }
    else if b == 0x14 { Some(MessageType::TypingStart) }
    else if b == 0x15 { Some(MessageType::TypingStop) }
    else if b == 0x16 { Some(MessageType::GroupMessage) }
    else if b == 0x17 { Some(MessageType::GroupJoin) }
    else if b == 0x18 { Some(MessageType::GroupLeave) }
    else if b == 0x19 { Some(MessageType::CheckIn) }
    else if b == 0x1A { Some(MessageType::Triage) }
    else if b == 0x1B { Some(MessageType::ResourceReq) }
    else if b == 0x1C { Some(MessageType::Disappearing) }
    else if b == 0x20 { Some(MessageType::FileChunk) }
    else if b == 0x21 { Some(MessageType::FileOffer) }
    else if b == 0x22 { Some(MessageType::FileAccept) }
    else if b == 0x30 { Some(MessageType::Voice) }
    else if b == 0x31 { Some(MessageType::VoiceStream) }
    else if b == 0x32 { Some(MessageType::CallStart) }
    else if b == 0x33 { Some(MessageType::CallEnd) }
    else if b == 0x40 { Some(MessageType::PeerExchange) }
    else if b == 0x50 { Some(MessageType::KeyExchange) }
    else if b == 0x60 { Some(MessageType::ProfileUpdate) }
    else { None }
}

/// The TTL with which the catalog says a kind is created; `None` for the
/// kinds whose hop counts are not tracked (discovery, liveness, key exchange,
/// peer exchange).
pub open spec fn initial_ttl_of(t: MessageType) -> Option<u8> {
    match t {
        MessageType::Text | MessageType::Voice | MessageType::FileOffer
        | MessageType::FileChunk | MessageType::FileAccept | MessageType::ReadReceipt
        | MessageType::GroupMessage | MessageType::Disappearing | MessageType::GroupJoin
        | MessageType::GroupLeave => Some(10u8),
        MessageType::PublicBroadcast | MessageType::CheckIn | MessageType::Triage
        | MessageType::ResourceReq => Some(50u8),
        MessageType::SOS => Some(255u8),
        MessageType::ProfileUpdate => Some(3u8),
        MessageType::VoiceStream | MessageType::CallStart | MessageType::CallEnd => Some(2u8),
        MessageType::TypingStart | MessageType::TypingStop => Some(1u8),
        _ => None,
    }
}

pub proof fn lemma_tag_round_trip(t: MessageType)
    ensures
        type_of_tag(tag_of(t)) == Some(t),
{
    reveal(tag_of);
    reveal(type_of_tag);
}

impl MessageType {
    /// The one-byte wire tag.
    pub fn tag(&self) -> (r: u8)
        ensures
            r == tag_of(*self),
    {
        reveal(tag_of);
        match self {
            MessageType::Discovery => 0x01,
            MessageType::Ping => 0x02,
            MessageType::Pong => 0x03,
            MessageType::Text => 0x10,
            MessageType::PublicBroadcast => 0x11,
            MessageType::SOS => 0x12,
            MessageType::ReadReceipt => 0x13,
            MessageType::TypingStart => 0x14,
            MessageType::TypingStop => 0x15,
            MessageType::GroupMessage => 0x16,
            MessageType::GroupJoin => 0x17,
            MessageType::GroupLeave => 0x18,
            MessageType::CheckIn => 0x19,
            MessageType::Triage => 0x1A,
            MessageType::ResourceReq => 0x1B,
            MessageType::Disappearing => 0x1C,
            MessageType::FileChunk => 0x20,
            MessageType::FileOffer => 0x21,
            MessageType::FileAccept => 0x22,
            MessageType::Voice => 0x30,
            MessageType::VoiceStream => 0x31,
            MessageType::CallStart => 0x32,
            MessageType::CallEnd => 0x33,
            MessageType::PeerExchange => 0x40,
            MessageType::KeyExchange => 0x50,
            MessageType::ProfileUpdate => 0x60,
        }
    }

    /// The kind a wire tag stands for, or `None` for an unknown tag.
    pub fn from_tag(b: u8) -> (r: Option<MessageType>)
        ensures
            r == type_of_tag(b),
    {
        reveal(type_of_tag);
        if b == 0x01 { Some(MessageType::Discovery) }
        else if b == 0x02 { Some(MessageType::Ping) }
        else if b == 0x03 { Some(MessageType::Pong) }
        else if b == 0x10 { Some(MessageType::Text) }
        else if b == 0x11 { Some(MessageType::PublicBroadcast) }
        else if b == 0x12 { Some(MessageType::SOS) }
        else if b == 0x13 { Some(MessageType::ReadReceipt) }
        else if b == 0x14 { Some(MessageType::TypingStart) }
        else if b == 0x15 { Some(MessageType::TypingStop) }
        else if b == 0x16 { Some(MessageType::GroupMessage) }
        else if b == 0x17 { Some(MessageType::GroupJoin) }
        else if b == 0x18 { Some(MessageType::GroupLeave) }
        else if b == 0x19 { Some(MessageType::CheckIn) }
        else if b == 0x1A { Some(MessageType::Triage) }
        else if b == 0x1B { Some(MessageType::ResourceReq) }
        else if b == 0x1C { Some(MessageType::Disappearing) }
        else if b == 0x20 { Some(MessageType::FileChunk) }
        else if b == 0x21 { Some(MessageType::FileOffer) }
        else if b == 0x22 { Some(MessageType::FileAccept) }
        else if b == 0x30 { Some(MessageType::Voice) }
        else if b == 0x31 { Some(MessageType::VoiceStream) }
        else if b == 0x32 { Some(MessageType::CallStart) }
        else if b == 0x33 { Some(MessageType::CallEnd) }
        else if b == 0x40 { Some(MessageType::PeerExchange) }
        else if b == 0x50 { Some(MessageType::KeyExchange) }
        else if b == 0x60 { Some(MessageType::ProfileUpdate) }
        else { None }
    }

    /// The TTL the catalog creates this kind with, where hops are tracked.
    pub fn initial_ttl(&self) -> (r: Option<u8>)
        ensures
            r == initial_ttl_of(*self),
    {
        match self {
            MessageType::Text | MessageType::Voice | MessageType::FileOffer
            | MessageType::FileChunk | MessageType::FileAccept | MessageType::ReadReceipt
            | MessageType::GroupMessage | MessageType::Disappearing | MessageType::GroupJoin
            | MessageType::GroupLeave => Some(10u8),
            MessageType::PublicBroadcast | MessageType::CheckIn | MessageType::Triage
            | MessageType::ResourceReq => Some(50u8),
            MessageType::SOS => Some(255u8),
            MessageType::ProfileUpdate => Some(3u8),
            MessageType::VoiceStream | MessageType::CallStart | MessageType::CallEnd => Some(2u8),
            MessageType::TypingStart | MessageType::TypingStop => Some(1u8),
            _ => None,
        }
    }
}

/// Identifier of a single logical message: 32 random bytes.
pub type MessageId = [u8; 32];

/// Relies on rand's `OsRng::fill_bytes`, which fills the array from the
/// operating system's random source; nothing is promised of the bytes.
#[verifier::external_body]
pub(crate) fn random_array<const N: usize>() -> (r: [u8; N]) {
    let mut out = [0u8; N];
    rand::rngs::OsRng.fill_bytes(&mut out);
    out
}

/// A fresh random message identifier.
pub fn new_message_id() -> (r: MessageId) {
    random_array::<32>()
}

/// The mathematical content of a wire message.
pub struct MessageModel {
    pub msg_type: MessageType,
    pub sender: Seq<u8>,
    pub id: Seq<u8>,
    pub ttl: u8,
    pub destination: Option<Seq<u8>>,
    pub payload: Seq<u8>,
    pub signature: Option<Seq<u8>>,
}

/// The wire-format mesh message.
#[derive(Debug, Clone)]
pub struct MeshMessage {
    pub msg_type: MessageType,
    pub sender_id: [u8; 32],
    pub msg_id: MessageId,
    pub ttl: u8,
    /// `None` means broadcast; `Some` is the single destination node.
    pub destination: Option<[u8; 32]>,
    pub payload: Vec<u8>,
    pub signature: Option<Vec<u8>>,
}

pub open spec fn opt_id_view(o: Option<[u8; 32]>) -> Option<Seq<u8>> {
    match o {
        Some(a) => Some(a@),
        None => None,
    }
}

pub open spec fn opt_bytes_view(o: Option<Vec<u8>>) -> Option<Seq<u8>> {
    match o {
        Some(v) => Some(v@),
        None => None,
    }
}

impl View for MeshMessage {
    type V = MessageModel;

    open spec fn view(&self) -> MessageModel {
        MessageModel {
            msg_type: self.msg_type,
            sender: self.sender_id@,
            id: self.msg_id@,
            ttl: self.ttl,
            destination: opt_id_view(self.destination),
            payload: self.payload@,
            signature: opt_bytes_view(self.signature),
        }
    }
}

/// Copies a message field by field; the copy has the same view.
pub fn copy_message(m: &MeshMessage) -> (r: MeshMessage)
    ensures
        r@ == m@,
{
    let signature = match &m.signature {
        Some(s) => Some(slice_to_vec(s.as_slice())),
        None => None,
    };
    MeshMessage {
        msg_type: m.msg_type,
        sender_id: m.sender_id,
        msg_id: m.msg_id,
        ttl: m.ttl,
        destination: m.destination,
        payload: slice_to_vec(m.payload.as_slice()),
        signature,
    }
}

impl MeshMessage {
    /// A message with a fresh random identifier and no signature.
    pub fn new(
        msg_type: MessageType,
        sender_id: [u8; 32],
        ttl: u8,
        destination: Option<[u8; 32]>,
        payload: Vec<u8>,
    ) -> (r: Self)
        ensures
            r.msg_type == msg_type,
            r.sender_id == sender_id,
            r.ttl == ttl,
            r.destination == destination,
            r.payload@ == payload@,
            r.signature is None,
    {
        MeshMessage {
            msg_type,
            sender_id,
            msg_id: new_message_id(),
            ttl,
            destination,
            payload,
            signature: None,
        }
    }

    /// A broadcast text message.
    pub fn text(sender_id: [u8; 32], text: &str) -> (r: Self)
        ensures
            r.msg_type == MessageType::Text,
            r.sender_id == sender_id,
            r.ttl == 10,
            r.destination is None,
            r.payload@ == text.spec_bytes(),
            r.signature is None,
    {
        Self::new(MessageType::Text, sender_id, 10, None, slice_to_vec(text.as_bytes()))
    }

    /// A text message direct to `dest`.
    pub fn text_to(sender_id: [u8; 32], dest: [u8; 32], text: &str) -> (r: Self)
        ensures
            r.msg_type == MessageType::Text,
            r.sender_id == sender_id,
            r.ttl == 10,
            r.destination == Some(dest),
            r.payload@ == text.spec_bytes(),
            r.signature is None,
    {
        Self::new(MessageType::Text, sender_id, 10, Some(dest), slice_to_vec(text.as_bytes()))
    }

    /// A public broadcast, with the wider reach of TTL 50.
    pub fn public_broadcast(sender_id: [u8; 32], text: &str) -> (r: Self)
        ensures
            r.msg_type == MessageType::PublicBroadcast,
            r.sender_id == sender_id,
            r.ttl == 50,
            r.destination is None,
            r.payload@ == text.spec_bytes(),
            r.signature is None,
    {
        Self::new(MessageType::PublicBroadcast, sender_id, 50, None, slice_to_vec(text.as_bytes()))
    }

    /// A typing-started indicator: one hop, empty payload.
    pub fn typing_start(sender_id: [u8; 32], dest: Option<[u8; 32]>) -> (r: Self)
        ensures
            r.msg_type == MessageType::TypingStart,
            r.sender_id == sender_id,
            r.ttl == 1,
            r.destination == dest,
            r.payload@.len() == 0,
            r.signature is None,
    {
        Self::new(MessageType::TypingStart, sender_id, 1, dest, Vec::new())
    }

    /// A typing-stopped indicator: one hop, empty payload.
    pub fn typing_stop(sender_id: [u8; 32], dest: Option<[u8; 32]>) -> (r: Self)
        ensures
            r.msg_type == MessageType::TypingStop,
            r.sender_id == sender_id,
            r.ttl == 1,
            r.destination == dest,
            r.payload@.len() == 0,
            r.signature is None,
    {
        Self::new(MessageType::TypingStop, sender_id, 1, dest, Vec::new())
    }

    /// Decrements the TTL; returns false, leaving the message as it was,
    /// when the TTL is already zero.
    pub fn decrement_ttl(&mut self) -> (r: bool)
        ensures
            r == (old(self).ttl > 0),
            r ==> final(self)@ == (MessageModel { ttl: (old(self).ttl - 1) as u8, ..old(self)@ }),
            !r ==> *final(self) == *old(self),
    {
        if self.ttl == 0 {
            return false;
        }
        self.ttl = self.ttl - 1;
        true
    }
}


/// Profile update payload.
#[derive(Debug, Clone)]
pub struct ProfilePayload {
    pub display_name: String,
    pub bio: String,
    pub capabilities: Vec<String>,
}

/// File offer payload: the metadata of a transfer.
#[derive(Debug, Clone)]
pub struct FileOfferPayload {
    pub file_id: [u8; 16],
    pub filename: String,
    pub size_bytes: u64,
    pub chunk_count: u32,
    pub sha256_hash: [u8; 32],
}

/// Copies offer metadata field by field.
pub fn copy_offer(m: &FileOfferPayload) -> (r: FileOfferPayload)
    ensures
        r.file_id == m.file_id,
        r.filename@ == m.filename@,
        r.size_bytes == m.size_bytes,
        r.chunk_count == m.chunk_count,
        r.sha256_hash == m.sha256_hash,
{
    FileOfferPayload {
        file_id: m.file_id,
        filename: m.filename.clone(),
        size_bytes: m.size_bytes,
        chunk_count: m.chunk_count,
        sha256_hash: m.sha256_hash,
    }
}

/// One chunk of file data.
#[derive(Debug, Clone)]
pub struct FileChunkPayload {
    pub file_id: [u8; 16],
    pub sequence: u32,
    pub data: Vec<u8>,
}

/// Acceptance of a file offer.
#[derive(Debug, Clone, Copy)]
pub struct FileAcceptPayload {
    pub file_id: [u8; 16],
}

/// Voice note payload.
#[derive(Debug, Clone)]
pub struct VoiceNotePayload {
    pub duration_ms: u32,
    pub audio_data: Vec<u8>,
}

/// One frame of a live voice stream.
#[derive(Debug, Clone)]
pub struct VoiceStreamPayload {
    pub stream_id: [u8; 16],
    pub sequence: u32,
    pub audio_frame: Vec<u8>,
}

/// Call start or end signal.
#[derive(Debug, Clone, Copy)]
pub struct CallControlPayload {
    pub stream_id: [u8; 16],
}

/// Confirms delivery or reading of a message.
#[derive(Debug, Clone, Copy)]
pub struct ReadReceiptPayload {
    pub original_msg_id: MessageId,
}

/// Group message payload.
#[derive(Debug, Clone)]
pub struct GroupPayload {
    pub group_name: String,
    pub content: String,
}

/// Group join or leave payload.
#[derive(Debug, Clone)]
pub struct GroupControlPayload {
    pub group_name: String,
}

/// Disappearing message payload; `ttl_seconds` is a lifetime, not a hop count.
#[derive(Debug, Clone)]
pub struct DisappearingPayload {
    pub text: String,
    pub ttl_seconds: u32,
}

/// Discovery announcement payload.
#[derive(Debug, Clone)]
pub struct DiscoveryPayload {
    pub node_id: [u8; 32],
    pub display_name: String,
    pub listen_port: u16,
    pub capabilities: Vec<String>,
    pub has_internet: bool,
}

/// The capabilities every node announces.
pub open spec fn default_capabilities() -> Seq<Seq<char>> {
    seq!["text"@, "voice"@, "file"@]
}

/// The capabilities every node announces, as strings.
pub fn default_capability_list() -> (r: Vec<String>)
    ensures
        r@.len() == 3,
        r@[0]@ == "text"@,
        r@[1]@ == "voice"@,
        r@[2]@ == "file"@,
{
    let mut v: Vec<String> = Vec::new();
    v.push(String::from_str("text"));
    v.push(String::from_str("voice"));
    v.push(String::from_str("file"));
    v
}

impl DiscoveryPayload {
    /// The announcement of a node, with the default capability list.
    pub fn new(node_id: [u8; 32], display_name: String, listen_port: u16, has_internet: bool) -> (r: Self)
        ensures
            r.node_id == node_id,
            r.display_name@ == display_name@,
            r.listen_port == listen_port,
            r.has_internet == has_internet,
            r.capabilities@.len() == 3,
            r.capabilities@[0]@ == "text"@,
            r.capabilities@[1]@ == "voice"@,
            r.capabilities@[2]@ == "file"@,
    {
        DiscoveryPayload {
            node_id,
            display_name,
            listen_port,
            capabilities: default_capability_list(),
            has_internet,
        }
    }
}

/// Ephemeral public key sent to establish a session.
#[derive(Debug, Clone, Copy)]
pub struct KeyExchangePayload {
    pub x25519_public: [u8; 32],
}

/// Known peers shared with neighbours.
#[derive(Debug, Clone)]
pub struct PeerExchangePayload {
    pub peers: Vec<PeerInfo>,
}

/// One entry of a peer exchange.
#[derive(Debug, Clone)]
pub struct PeerInfo {
    pub node_id: [u8; 32],
    pub display_name: String,
    pub addr: String,
}

/// START triage levels.
#[derive(Debug, Clone, Copy, PartialEq, Eq, Structural)]
pub enum TriageLevel {
    Black,
    Red,
    Yellow,
    Green,
}

impl TriageLevel {
    /// The upper-case label of the level.
    pub fn label(&self) -> (r: &'static str)
        ensures
            r@ == match *self {
                TriageLevel::Black => "BLACK"@,
                TriageLevel::Red => "RED"@,
                TriageLevel::Yellow => "YELLOW"@,
                TriageLevel::Green => "GREEN"@,
            },
    {
        match self {
            TriageLevel::Black => "BLACK",
            TriageLevel::Red => "RED",
            TriageLevel::Yellow => "YELLOW",
            TriageLevel::Green => "GREEN",
        }
    }

    /// The level named by `s`, in any case.
    pub fn from_str(s: &str) -> (r: Option<TriageLevel>)
        ensures
            r == triage_of(lower_of(s.spec_bytes())),
    {
        let l = lowercase_bytes(s);
        Self::from_lowered(l.as_slice())
    }

    /// The level named by lower-case bytes.
    pub fn from_lowered(l: &[u8]) -> (r: Option<TriageLevel>)
        ensures
            r == triage_of(l@),
    {
        let black: [u8; 5] = [98, 108, 97, 99, 107];
        let red: [u8; 3] = [114, 101, 100];
        let yellow: [u8; 6] = [121, 101, 108, 108, 111, 119];
        let green: [u8; 5] = [103, 114, 101, 101, 110];
        assert(black@ =~= seq![98u8, 108, 97, 99, 107]);
        assert(red@ =~= seq![114u8, 101, 100]);
        assert(yellow@ =~= seq![121u8, 101, 108, 108, 111, 119]);
        assert(green@ =~= seq![103u8, 114, 101, 101, 110]);
        if same_bytes(l, &black) {
            Some(TriageLevel::Black)
        } else if same_bytes(l, &red) {
            Some(TriageLevel::Red)
        } else if same_bytes(l, &yellow) {
            Some(TriageLevel::Yellow)
        } else if same_bytes(l, &green) {
            Some(TriageLevel::Green)
        } else {
            None
        }
    }
}

/// The level whose name is these lower-case bytes ("black", "red",
/// "yellow", "green", as ASCII codes).
pub open spec fn triage_of(l: Seq<u8>) -> Option<TriageLevel> {
    if l == seq![98u8, 108, 97, 99, 107] {
        Some(TriageLevel::Black)
    } else if l == seq![114u8, 101, 100] {
        Some(TriageLevel::Red)
    } else if l == seq![121u8, 101, 108, 108, 111, 119] {
        Some(TriageLevel::Yellow)
    } else if l == seq![103u8, 114, 101, 101, 110] {
        Some(TriageLevel::Green)
    } else {
        None
    }
}

} // verus!
