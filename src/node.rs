use vstd::prelude::*;
use vstd::slice::{slice_subrange, slice_to_vec};
use crate::bytes::bytes_eq;
use crate::crypto::{SessionKeys, generate_x25519_keypair, session_key_of, x25519_public_of};
use crate::file_transfer::{CompletedFile, FileTransferManager, TransferError, MAX_FILE_SIZE};
use crate::identity::hex_encode;
use crate::message::{
    CallControlPayload, FileAcceptPayload, FileChunkPayload, FileOfferPayload, KeyExchangePayload,
    MeshMessage, MessageModel, MessageType, VoiceNotePayload, VoiceStreamPayload, copy_message,
    random_array,
};
use crate::peer::{PeerManager, PeerState, find_peer, alive_peers, stale_ids, same_links};
use crate::file_transfer::find_in;
use crate::payload::voice_note_bytes;
use vstd::utf8::valid_utf8;
use crate::router::{MeshStats, Router, admits, admitted_state, rejected_state};

verus! {

/// A peer is dropped after this long without traffic, in milliseconds.
pub const PEER_TIMEOUT_MS: u64 = 30_000;

/// Interval of the heartbeat tick, in milliseconds.
pub const HEARTBEAT_INTERVAL_MS: u64 = 10_000;

/// Interval of the gateway probe tick, in milliseconds.
pub const GATEWAY_CHECK_INTERVAL_MS: u64 = 30_000;

/// Default stream port.
pub const TCP_PORT: u16 = 7332;

/// Default discovery port.
pub const DISCOVERY_PORT: u16 = 7331;

/// Upper bound on the chunks of any outgoing transfer.
pub const MAX_CHUNKS: u32 = 1600;

/// Configuration of a node.
pub struct NodeConfig {
    pub display_name: String,
    pub listen_port: u16,
    pub key_path: String,
}

impl NodeConfig {
    /// Name "MeshNode", the default stream port, key file "mesh_identity.key".
    pub fn default_config() -> (r: Self)
        ensures
            r.display_name@ == "MeshNode"@,
            r.listen_port == TCP_PORT,
            r.key_path@ == "mesh_identity.key"@,
    {
        NodeConfig {
            display_name: String::from_str("MeshNode"),
            listen_port: TCP_PORT,
            key_path: String::from_str("mesh_identity.key"),
        }
    }
}

/// A peer as listed for the application.
#[derive(Debug, Clone)]
pub struct PeerListEntry {
    pub node_id: [u8; 32],
    pub display_name: String,
    pub addr: String,
    pub is_gateway: bool,
    pub bio: String,
}

/// A peer heard on the discovery channel; `addr` is its stream address.
#[derive(Debug, Clone)]
pub struct DiscoveredPeer {
    pub node_id: [u8; 32],
    pub display_name: String,
    pub addr: String,
    pub listen_port: u16,
    pub has_internet: bool,
}

/// Events for the application. Payloads that only the application reads
/// (texts, emergency data, profiles) are handed over as received.
#[derive(Debug)]
pub enum NodeEvent {
    PeerConnected { node_id: [u8; 32], display_name: String },
    PeerDisconnected { node_id: [u8; 32] },
    MessageReceived { sender_id: [u8; 32], sender_name: String, content: Vec<u8> },
    PublicBroadcast { sender_id: [u8; 32], sender_name: String, text: Vec<u8> },
    SOSReceived { sender_id: [u8; 32], sender_name: String, payload: Vec<u8> },
    ProfileUpdated { node_id: [u8; 32], payload: Vec<u8> },
    FileOffered { sender_id: [u8; 32], sender_name: String, file_id: [u8; 16], filename: String, size: u64 },
    FileProgress { file_id: [u8; 16], pct: u8 },
    FileReady { file_id: [u8; 16], file: CompletedFile },
    FileFailed { file_id: [u8; 16], error: TransferError },
    VoiceReceived { sender_id: [u8; 32], sender_name: String, audio_data: Vec<u8>, duration_ms: u32 },
    IncomingCall { peer: [u8; 32], peer_name: String },
    AudioFrame { peer: [u8; 32], data: Vec<u8> },
    CallEnded { peer: [u8; 32] },
    GatewayFound { node_id: [u8; 32], display_name: String },
    GatewayLost { node_id: [u8; 32] },
    Stats { stats: MeshStats },
    PeerList { peers: Vec<PeerListEntry> },
    Nuked,
    Stopped,
}

/// Commands from the application. A file is handed over as its name and
/// content; emergency and profile payloads come encoded.
pub enum NodeCommand {
    SendBroadcast { text: String },
    SendDirect { dest: [u8; 32], text: String },
    SendFile { dest: [u8; 32], filename: String, data: Vec<u8> },
    AcceptFile { file_id: [u8; 16] },
    SendVoice { dest: Option<[u8; 32]>, audio_data: Vec<u8>, duration_ms: u32 },
    StartVoiceCall { peer: [u8; 32] },
    EndVoiceCall,
    SendAudioFrame { peer: [u8; 32], data: Vec<u8> },
    UpdateProfile { payload: Vec<u8> },
    SendPublicBroadcast { text: String },
    SendSOS { payload: Vec<u8> },
    Nuke,
    Shutdown,
    GetStats,
    GetPeers,
}

/// What one step of the engine asks of the runtime: frames to enqueue on
/// writer queues (by link), events to emit, a connection to open, and
/// writer queues to close, and whether to delete the identity file and stop.
pub struct Outcome {
    pub sends: Vec<(u64, MeshMessage)>,
    /// Writer queues of evicted peers, to be closed.
    pub closed: Vec<u64>,
    pub events: Vec<NodeEvent>,
    pub connect: Option<DiscoveredPeer>,
    pub delete_identity: bool,
    pub stop: bool,
}

/// Links of the peers no longer alive at `now`, in order.
pub open spec fn stale_links(s: Seq<PeerState>, now: u64) -> Seq<u64>
    decreases s.len(),
{
    if s.len() == 0 {
        Seq::empty()
    } else {
        let k = stale_links(s.drop_last(), now);
        if crate::peer::alive(s.last().last_seen, PEER_TIMEOUT_MS, now) { k } else { k.push(s.last().link) }
    }
}

/// The links a flood goes to: every peer's, but the excluded sender's.
pub open spec fn targets(s: Seq<PeerState>, except: Option<Seq<u8>>) -> Seq<u64>
    decreases s.len(),
{
    if s.len() == 0 {
        Seq::empty()
    } else {
        let k = targets(s.drop_last(), except);
        if except == Some(s.last().node_id@) { k } else { k.push(s.last().link) }
    }
}

/// With distinct records, a flood that excludes a peer never reaches its
/// writer queue.
proof fn lemma_targets_exclude(s: Seq<PeerState>, k: int)
    requires
        crate::peer::peers_wf(s),
        0 <= k < s.len(),
    ensures
        forall|t: int| 0 <= t < targets(s, Some(s[k].node_id@)).len()
            ==> (#[trigger] targets(s, Some(s[k].node_id@))[t]) != s[k].link,
    decreases s.len(),
{
    let id = s[k].node_id@;
    let d = s.drop_last();
    assert(crate::peer::peers_wf(d)) by {
        assert forall|a: int, b: int| 0 <= a < d.len() && 0 <= b < d.len() && a != b
            implies (#[trigger] d[a]).node_id@ != (#[trigger] d[b]).node_id@ && d[a].link != d[b].link by {
            assert(d[a] == s[a] && d[b] == s[b]);
        }
    }
    if k < s.len() - 1 {
        assert(d[k] == s[k]);
        lemma_targets_exclude(d, k);
        let t0 = targets(d, Some(id));
        if Some(id) != Some(s.last().node_id@) {
            let u = t0.push(s.last().link);
            assert(targets(s, Some(id)) == u);
            assert(s[s.len() - 1].link != s[k].link);
            assert forall|t: int| 0 <= t < u.len() implies (#[trigger] u[t]) != s[k].link by {
                if t < t0.len() {
                    assert(u[t] == t0[t]);
                }
            }
        } else {
            assert(targets(s, Some(id)) == t0);
        }
    } else {
        assert forall|i: int| 0 <= i < d.len() implies (#[trigger] d[i]).link != s[k].link by {
            assert(d[i] == s[i]);
        }
        lemma_targets_only(d, id, s[k].link);
        assert(targets(s, Some(id)) == targets(d, Some(id)));
    }
}

/// No target of a flood over records that avoid `link` is `link`.
proof fn lemma_targets_only(s: Seq<PeerState>, id: Seq<u8>, link: u64)
    requires
        forall|i: int| 0 <= i < s.len() ==> (#[trigger] s[i]).link != link,
    ensures
        forall|t: int| 0 <= t < targets(s, Some(id)).len() ==> (#[trigger] targets(s, Some(id))[t]) != link,
    decreases s.len(),
{
    if s.len() > 0 {
        let d = s.drop_last();
        assert forall|i: int| 0 <= i < d.len() implies (#[trigger] d[i]).link != link by {
            assert(d[i] == s[i]);
        }
        lemma_targets_only(d, id, link);
        let t0 = targets(d, Some(id));
        if Some(id) != Some(s.last().node_id@) {
            let u = t0.push(s.last().link);
            assert(targets(s, Some(id)) == u);
            assert(s[s.len() - 1].link != link);
            assert forall|t: int| 0 <= t < u.len() implies (#[trigger] u[t]) != link by {
                if t < t0.len() {
                    assert(u[t] == t0[t]);
                }
            }
        } else {
            assert(targets(s, Some(id)) == t0);
        }
    }
}

/// `sends` carries message `m` once to each target link, in peer order.
pub open spec fn flooded(sends: Seq<(u64, MeshMessage)>, peers: Seq<PeerState>, except: Option<Seq<u8>>, m: MessageModel) -> bool {
    &&& sends.len() == targets(peers, except).len()
    &&& forall|i: int| 0 <= i < sends.len() ==> (#[trigger] sends[i]).0 == targets(peers, except)[i] && sends[i].1@ == m
}

/// Pending connections hold distinct writer queues, none held by a peer record.
pub open spec fn links_separate(peers: Seq<PeerState>, pending: Seq<(String, u64)>) -> bool {
    &&& forall|j: int, i: int| 0 <= j < pending.len() && 0 <= i < peers.len()
        ==> (#[trigger] pending[j]).1 != (#[trigger] peers[i]).link
    &&& forall|j: int, k: int| 0 <= j < pending.len() && 0 <= k < pending.len() && j != k
        ==> (#[trigger] pending[j]).1 != (#[trigger] pending[k]).1
}

/// Some record of `s` holds writer queue `link`.
pub open spec fn holds_link(s: Seq<PeerState>, link: u64) -> bool {
    exists|b: int| 0 <= b < s.len() && (#[trigger] s[b]).link == link
}

/// Keeping only writer queues that were already held keeps them apart from
/// the pending ones.
proof fn lemma_separate_subset(old: Seq<PeerState>, new: Seq<PeerState>, pending: Seq<(String, u64)>)
    requires
        links_separate(old, pending),
        forall|a: int| 0 <= a < new.len() ==> holds_link(old, (#[trigger] new[a]).link),
    ensures
        links_separate(new, pending),
{
    assert forall|j: int, i: int| 0 <= j < pending.len() && 0 <= i < new.len()
        implies (#[trigger] pending[j]).1 != (#[trigger] new[i]).link by {
        assert(holds_link(old, new[i].link));
        let b = choose|b: int| 0 <= b < old.len() && (#[trigger] old[b]).link == new[i].link;
        assert(pending[j].1 != old[b].link);
    }
}

proof fn lemma_separate_same(old: Seq<PeerState>, new: Seq<PeerState>, pending: Seq<(String, u64)>)
    requires
        links_separate(old, pending),
        same_links(old, new),
    ensures
        links_separate(new, pending),
{
    assert forall|a: int| 0 <= a < new.len() implies holds_link(old, (#[trigger] new[a]).link) by {
        assert(old[a].link == new[a].link);
    }
    lemma_separate_subset(old, new, pending);
}

/// The peer of a live call.
pub open spec fn call_peer(c: Option<([u8; 32], [u8; 16])>) -> Option<Seq<u8>> {
    match c {
        Some((p, _)) => Some(p@),
        None => None,
    }
}

/// The events that delivering `msg` to the application emits, given as
/// all of `ev`.
pub open spec fn delivery_events(msg: MeshMessage, ev: Seq<NodeEvent>) -> bool {
    let p = msg.payload@;
    match msg.msg_type {
        MessageType::Text => ev.len() == 1 && (ev[0] matches NodeEvent::MessageReceived { sender_id, content, .. }
            && sender_id == msg.sender_id && content@ == p),
        MessageType::PublicBroadcast => ev.len() == 1 && (ev[0] matches NodeEvent::PublicBroadcast { sender_id, text, .. }
            && sender_id == msg.sender_id && text@ == p),
        MessageType::SOS => ev.len() == 1 && (ev[0] matches NodeEvent::SOSReceived { sender_id, payload, .. }
            && sender_id == msg.sender_id && payload@ == p),
        MessageType::ProfileUpdate => ev.len() == 1 && (ev[0] matches NodeEvent::ProfileUpdated { node_id, payload }
            && node_id == msg.sender_id && payload@ == p),
        MessageType::FileOffer => if p.len() >= 60 && valid_utf8(p.subrange(60, p.len() as int)) {
            ev.len() == 1 && (ev[0] matches NodeEvent::FileOffered { sender_id, .. } && sender_id == msg.sender_id)
        } else {
            ev.len() == 0
        },
        MessageType::FileAccept => ev.len() == 0,
        MessageType::FileChunk => p.len() < 20 ==> ev.len() == 0,
        MessageType::Voice => if p.len() >= 4 {
            ev.len() == 1 && (ev[0] matches NodeEvent::VoiceReceived { sender_id, audio_data, .. }
                && sender_id == msg.sender_id && audio_data@ == p.subrange(4, p.len() as int))
        } else {
            ev.len() == 0
        },
        MessageType::CallStart => if p.len() == 16 {
            ev.len() == 1 && (ev[0] matches NodeEvent::IncomingCall { peer, .. } && peer == msg.sender_id)
        } else {
            ev.len() == 0
        },
        MessageType::CallEnd => ev.len() == 1 && (ev[0] matches NodeEvent::CallEnded { peer } && peer == msg.sender_id),
        MessageType::VoiceStream => if p.len() >= 20 {
            ev.len() == 1 && (ev[0] matches NodeEvent::AudioFrame { peer, data }
                && peer == msg.sender_id && data@ == p.subrange(20, p.len() as int))
        } else {
            ev.len() == 0
        },
        _ => ev.len() == 0,
    }
}

/// Some identifier of `v` has view `id`.
pub open spec fn ids_have(v: Seq<[u8; 32]>, id: Seq<u8>) -> bool {
    exists|j: int| 0 <= j < v.len() && (#[trigger] v[j])@ == id
}

/// Some event of `events` announces that gateway `id` is lost.
pub open spec fn announces_gateway_lost(events: Seq<NodeEvent>, id: Seq<u8>) -> bool {
    exists|e: int| 0 <= e < events.len() && (#[trigger] events[e] matches NodeEvent::GatewayLost { node_id } && node_id@ == id)
}

/// Some event of `events` announces that the call with `id` ended.
pub open spec fn announces_call_ended(events: Seq<NodeEvent>, id: Seq<u8>) -> bool {
    exists|e: int| 0 <= e < events.len() && (#[trigger] events[e] matches NodeEvent::CallEnded { peer } && peer@ == id)
}

/// Every gateway-lost event of `events` names an evicted peer that was a
/// known gateway.
pub open spec fn gateway_lost_only_for(events: Seq<NodeEvent>, stale: Seq<[u8; 32]>, known: Seq<[u8; 32]>) -> bool {
    forall|e: int| 0 <= e < events.len() ==> (#[trigger] events[e] matches NodeEvent::GatewayLost { node_id }
        ==> ids_have(stale, node_id@) && ids_have(known, node_id@))
}

proof fn lemma_events_grow(a: Seq<NodeEvent>, b: Seq<NodeEvent>)
    requires
        a.len() <= b.len(),
        b.subrange(0, a.len() as int) == a,
    ensures
        forall|id: [u8; 32]| announces_disconnect(a, id) ==> #[trigger] announces_disconnect(b, id),
        forall|id: Seq<u8>| announces_gateway_lost(a, id) ==> #[trigger] announces_gateway_lost(b, id),
        forall|id: Seq<u8>| announces_call_ended(a, id) ==> #[trigger] announces_call_ended(b, id),
{
    assert forall|id: [u8; 32]| announces_disconnect(a, id) implies #[trigger] announces_disconnect(b, id) by {
        let e = choose|e: int| 0 <= e < a.len() && (#[trigger] a[e] matches NodeEvent::PeerDisconnected { node_id } && node_id == id);
        assert(b[e] == b.subrange(0, a.len() as int)[e]);
    }
    assert forall|id: Seq<u8>| announces_gateway_lost(a, id) implies #[trigger] announces_gateway_lost(b, id) by {
        let e = choose|e: int| 0 <= e < a.len() && (#[trigger] a[e] matches NodeEvent::GatewayLost { node_id } && node_id@ == id);
        assert(b[e] == b.subrange(0, a.len() as int)[e]);
    }
    assert forall|id: Seq<u8>| announces_call_ended(a, id) implies #[trigger] announces_call_ended(b, id) by {
        let e = choose|e: int| 0 <= e < a.len() && (#[trigger] a[e] matches NodeEvent::CallEnded { peer } && peer@ == id);
        assert(b[e] == b.subrange(0, a.len() as int)[e]);
    }
}

/// Some event of `events` announces that peer `id` is gone.
pub open spec fn announces_disconnect(events: Seq<NodeEvent>, id: [u8; 32]) -> bool {
    exists|e: int| 0 <= e < events.len() && (#[trigger] events[e] matches NodeEvent::PeerDisconnected { node_id } && node_id == id)
}

pub open spec fn opt_id(o: Option<[u8; 32]>) -> Option<Seq<u8>> {
    match o {
        Some(a) => Some(a@),
        None => None,
    }
}

fn empty_outcome() -> (r: Outcome)
    ensures
        r.sends@.len() == 0,
        r.closed@.len() == 0,
        r.events@.len() == 0,
        r.connect is None,
        !r.delete_identity,
        !r.stop,
{
    Outcome { sends: Vec::new(), closed: Vec::new(), events: Vec::new(), connect: None, delete_identity: false, stop: false }
}

/// Appends to `out` one copy of `msg` for each peer but `except`.
fn flood_into(out: &mut Vec<(u64, MeshMessage)>, peers: &PeerManager, msg: &MeshMessage, except: Option<[u8; 32]>)
    ensures
        final(out)@.len() >= old(out)@.len(),
        final(out)@.subrange(0, old(out)@.len() as int) == old(out)@,
        flooded(final(out)@.subrange(old(out)@.len() as int, final(out)@.len() as int), peers@, opt_id(except), msg@),
{
    let all = peers.all();
    let ghost start = out@.len();
    let mut i: usize = 0;
    while i < all.len()
        invariant
            0 <= i <= all@.len(),
            all@ == peers@,
            start == old(out)@.len(),
            out@.len() >= start,
            out@.subrange(0, start as int) == old(out)@,
            flooded(out@.subrange(start as int, out@.len() as int), all@.subrange(0, i as int), opt_id(except), msg@),
        decreases all@.len() - i,
    {
        let ghost before = out@;
        let skip = match &except {
            Some(e) => bytes_eq(&all[i].node_id, e),
            None => false,
        };
        assert(all@.subrange(0, i + 1).drop_last() =~= all@.subrange(0, i as int));
        if !skip {
            out.push((all[i].link, copy_message(msg)));
            assert(out@.subrange(start as int, out@.len() as int) =~= before.subrange(start as int, before.len() as int).push(out@[out@.len() - 1]));
        } else {
            assert(opt_id(except) == Some(all@[i as int].node_id@));
        }
        assert(out@.subrange(0, start as int) =~= old(out)@);
        i = i + 1;
    }
    assert(all@.subrange(0, all@.len() as int) =~= all@);
}

/// Removes the first pending inbound connection from `addr` and returns its link.
fn take_pending(pending: &mut Vec<(String, u64)>, addr: &String) -> (r: Option<u64>)
    ensures
        r is None ==> final(pending)@ == old(pending)@,
        r is None ==> forall|j: int| 0 <= j < old(pending)@.len() ==> (#[trigger] old(pending)@[j]).0@ != addr@,
        r matches Some(l) ==> exists|j: int| 0 <= j < old(pending)@.len()
            && (#[trigger] old(pending)@[j]).0@ == addr@ && old(pending)@[j].1 == l
            && final(pending)@ == old(pending)@.remove(j),
{
    let mut i: usize = 0;
    while i < pending.len()
        invariant
            0 <= i <= pending@.len(),
            pending@ == old(pending)@,
            forall|j: int| 0 <= j < i ==> (#[trigger] pending@[j]).0@ != addr@,
        decreases pending@.len() - i,
    {
        if pending[i].0 == *addr {
            let (_, link) = pending.remove(i);
            return Some(link);
        }
        i = i + 1;
    }
    None
}

/// Removes every occurrence of `id`; true when there was one.
fn remove_id(v: &mut Vec<[u8; 32]>, id: &[u8; 32]) -> (r: bool)
    ensures
        r == ids_have(old(v)@, id@),
        !ids_have(final(v)@, id@),
        forall|x: Seq<u8>| #[trigger] ids_have(old(v)@, x) && x != id@ ==> ids_have(final(v)@, x),
        forall|x: Seq<u8>| #[trigger] ids_have(final(v)@, x) ==> ids_have(old(v)@, x),
{
    let mut out: Vec<[u8; 32]> = Vec::new();
    let mut found = false;
    let mut i: usize = 0;
    while i < v.len()
        invariant
            0 <= i <= v@.len(),
            v@ == old(v)@,
            found == exists|j: int| 0 <= j < i && (#[trigger] v@[j])@ == id@,
            forall|j: int| 0 <= j < out@.len() ==> (#[trigger] out@[j])@ != id@,
            forall|j: int| 0 <= j < i && (#[trigger] v@[j])@ != id@ ==> ids_have(out@, v@[j]@),
            forall|x: Seq<u8>| #[trigger] ids_have(out@, x) ==> ids_have(v@, x),
        decreases v@.len() - i,
    {
        let ghost before = out@;
        if bytes_eq(&v[i], id) {
            found = true;
        } else {
            out.push(v[i]);
            proof {
                assert(out@[out@.len() - 1] == v@[i as int]);
                assert forall|j: int| 0 <= j < i + 1 && (#[trigger] v@[j])@ != id@ implies ids_have(out@, v@[j]@) by {
                    if j < i {
                        let t = choose|t: int| 0 <= t < before.len() && before[t]@ == v@[j]@;
                        assert(out@[t] == before[t]);
                    }
                }
                assert forall|x: Seq<u8>| #[trigger] ids_have(out@, x) implies ids_have(v@, x) by {
                    let t = choose|t: int| 0 <= t < out@.len() && out@[t]@ == x;
                    if t < before.len() {
                        assert(before[t] == out@[t]);
                        assert(ids_have(before, x));
                    } else {
                        assert(v@[i as int]@ == x);
                    }
                }
            }
        }
        i = i + 1;
    }
    proof {
        assert forall|x: Seq<u8>| #[trigger] ids_have(old(v)@, x) && x != id@ implies ids_have(out@, x) by {
            let j = choose|j: int| 0 <= j < old(v)@.len() && old(v)@[j]@ == x;
            assert(v@[j]@ != id@);
        }
        if ids_have(out@, id@) {
            let t = choose|t: int| 0 <= t < out@.len() && out@[t]@ == id@;
            assert(out@[t]@ != id@);
        }
    }
    *v = out;
    found
}

proof fn lemma_find_peer_last(s: Seq<PeerState>, p: PeerState)
    ensures
        find_peer(s.push(p), p.node_id@) == s.len(),
{
    assert(s.push(p).last() == p);
}

proof fn lemma_find_peer_update(s: Seq<PeerState>, i: int, p: PeerState)
    requires
        0 <= i < s.len(),
        find_peer(s, p.node_id@) == i,
    ensures
        find_peer(s.update(i, p), p.node_id@) == i,
    decreases s.len(),
{
    if i < s.len() - 1 {
        assert(s.update(i, p).drop_last() =~= s.drop_last().update(i, p));
        lemma_find_peer_update(s.drop_last(), i, p);
    }
}

/// The mesh node engine: peers, router and transfers, and the decisions the
/// event loop takes on each command, connection, discovery, frame and tick.
pub struct Node {
    pub our_node_id: [u8; 32],
    pub x25519_secret: [u8; 32],
    pub x25519_public: [u8; 32],
    pub peers: PeerManager,
    pub router: Router,
    pub files: FileTransferManager,
    pub known_gateways: Vec<[u8; 32]>,
    pub active_call: Option<([u8; 32], [u8; 16])>,
    pub pending: Vec<(String, u64)>,
}

impl Node {
    /// The router works for our own identifier, the transfer manager and
    /// the registry are well formed, and no writer queue is shared between
    /// peer records and pending connections.
    pub open spec fn wf(&self) -> bool {
        &&& self.router@.self_id == self.our_node_id@
        &&& self.files.wf()
        &&& self.peers.wf()
        &&& links_separate(self.peers@, self.pending@)
    }

    /// Writer queue `link` is held by no peer record and no pending connection.
    pub open spec fn link_unused(&self, link: u64) -> bool {
        &&& forall|i: int| 0 <= i < self.peers@.len() ==> (#[trigger] self.peers@[i]).link != link
        &&& forall|j: int| 0 <= j < self.pending@.len() ==> (#[trigger] self.pending@[j]).1 != link
    }

    /// A node with identifier `our_node_id`, a fresh ephemeral key pair, no
    /// peers, and received files saved under `save_dir`.
    pub fn new(our_node_id: [u8; 32], save_dir: String) -> (r: Self)
        ensures
            r.wf(),
            r.our_node_id == our_node_id,
            r.x25519_public@ == x25519_public_of(r.x25519_secret@),
            r.peers@.len() == 0,
            r.router@.self_id == our_node_id@,
            r.router@.seen.len() == 0,
            r.files@.outgoing.len() == 0,
            r.files@.incoming.len() == 0,
            r.known_gateways@.len() == 0,
            r.active_call is None,
            r.pending@.len() == 0,
    {
        let (secret, public) = generate_x25519_keypair();
        Node {
            our_node_id,
            x25519_secret: secret,
            x25519_public: public,
            peers: PeerManager::new(),
            router: Router::new(our_node_id),
            files: FileTransferManager::new(save_dir),
            known_gateways: Vec::new(),
            active_call: None,
            pending: Vec::new(),
        }
    }

    fn sender_name(&self, id: &[u8; 32]) -> (r: String) {
        match self.peers.get(id) {
            Some(p) => p.display_name.clone(),
            None => hex_encode(slice_subrange(id, 0, 4)),
        }
    }

    /// Remembers the writer queue `link` of an inbound connection from
    /// `addr` until that peer's key exchange arrives.
    pub fn on_inbound_connection(&mut self, addr: String, link: u64)
        requires
            old(self).wf(),
            old(self).link_unused(link),
        ensures
            final(self).wf(),
            final(self).pending@ == old(self).pending@.push((addr, link)),
            final(self).peers@ == old(self).peers@,
            final(self).router@ == old(self).router@,
    {
        self.pending.push((addr, link));
        proof {
            let p = self.pending@;
            let q = old(self).pending@;
            assert forall|j: int, i: int| 0 <= j < p.len() && 0 <= i < self.peers@.len()
                implies (#[trigger] p[j]).1 != (#[trigger] self.peers@[i]).link by {
                if j < q.len() {
                    assert(p[j] == q[j]);
                }
            }
            assert forall|j: int, k: int| 0 <= j < p.len() && 0 <= k < p.len() && j != k
                implies (#[trigger] p[j]).1 != (#[trigger] p[k]).1 by {
                if j < q.len() {
                    assert(p[j] == q[j]);
                }
                if k < q.len() {
                    assert(p[k] == q[k]);
                }
            }
        }
    }

    /// Hands the chunks of an accepted outgoing transfer to every peer and
    /// forgets the transfer.
    fn send_all_chunks(&mut self, file_id: &[u8; 16], fallback_dest: [u8; 32], out: &mut Outcome)
        requires
            old(self).wf(),
        ensures
            final(self).wf(),
            final(self).peers@ == old(self).peers@,
            final(self).router@ == old(self).router@,
            final(self).our_node_id == old(self).our_node_id,
            final(out).events@ == old(out).events@,
            final(out).sends@.len() >= old(out).sends@.len(),
            final(out).sends@.subrange(0, old(out).sends@.len() as int) == old(out).sends@,
    {
        let dest = match self.files.outgoing_dest(file_id) {
            Some(d) => d,
            None => fallback_dest,
        };
        let mut k: u32 = 0;
        while k <= MAX_CHUNKS
            invariant
                self.wf(),
                self.peers@ == old(self).peers@,
                self.router@ == old(self).router@,
                self.our_node_id == old(self).our_node_id,
                out.events@ == old(out).events@,
                out.sends@.len() >= old(out).sends@.len(),
                out.sends@.subrange(0, old(out).sends@.len() as int) == old(out).sends@,
            decreases MAX_CHUNKS + 1 - k,
        {
            match self.files.next_chunk(file_id) {
                None => break,
                Some(chunk) => {
                    let m = MeshMessage::file_chunk(self.our_node_id, dest, &chunk);
                    let ghost before = out.sends@;
                    flood_into(&mut out.sends, &self.peers, &m, None);
                    assert(out.sends@.subrange(0, old(out).sends@.len() as int) =~= before.subrange(0, old(out).sends@.len() as int));
                },
            }
            k = k + 1;
        }
        self.files.remove_outgoing(file_id);
    }

    /// Acts on a message addressed to us that the router accepted.
    fn deliver(&mut self, msg: &MeshMessage, out: &mut Outcome)
        requires
            old(self).wf(),
        ensures
            final(self).wf(),
            msg.msg_type != MessageType::FileAccept ==> final(out).sends@ == old(out).sends@,
            final(out).events@.len() >= old(out).events@.len(),
            final(out).events@.subrange(0, old(out).events@.len() as int) == old(out).events@,
            delivery_events(*msg, final(out).events@.subrange(old(out).events@.len() as int, final(out).events@.len() as int)),
            msg.msg_type == MessageType::CallStart && msg.payload@.len() == 16 ==> call_peer(final(self).active_call) == Some(msg.sender_id@),
            msg.msg_type == MessageType::CallEnd && call_peer(old(self).active_call) == Some(msg.sender_id@) ==> final(self).active_call is None,
            final(self).peers@ == old(self).peers@,
            final(self).router@ == old(self).router@,
            final(self).our_node_id == old(self).our_node_id,
            final(out).sends@.subrange(0, old(out).sends@.len() as int) == old(out).sends@,
            final(out).sends@.len() >= old(out).sends@.len(),
    {
        let ghost start = out.events@;
        let sender_name = self.sender_name(&msg.sender_id);
        match msg.msg_type {
            MessageType::Text => {
                out.events.push(NodeEvent::MessageReceived {
                    sender_id: msg.sender_id,
                    sender_name,
                    content: slice_to_vec(msg.payload.as_slice()),
                });
            },
            MessageType::PublicBroadcast => {
                out.events.push(NodeEvent::PublicBroadcast {
                    sender_id: msg.sender_id,
                    sender_name,
                    text: slice_to_vec(msg.payload.as_slice()),
                });
            },
            MessageType::SOS => {
                out.events.push(NodeEvent::SOSReceived {
                    sender_id: msg.sender_id,
                    sender_name,
                    payload: slice_to_vec(msg.payload.as_slice()),
                });
            },
            MessageType::ProfileUpdate => {
                out.events.push(NodeEvent::ProfileUpdated {
                    node_id: msg.sender_id,
                    payload: slice_to_vec(msg.payload.as_slice()),
                });
            },
            MessageType::FileOffer => {
                if let Ok(offer) = FileOfferPayload::decode(msg.payload.as_slice()) {
                    let file_id = offer.file_id;
                    let filename = offer.filename.clone();
                    let size = offer.size_bytes;
                    self.files.register_incoming(offer, msg.sender_id);
                    out.events.push(NodeEvent::FileOffered { sender_id: msg.sender_id, sender_name, file_id, filename, size });
                }
            },
            MessageType::FileAccept => {
                if let Ok(accept) = FileAcceptPayload::decode(msg.payload.as_slice()) {
                    if self.files.mark_accepted(&accept.file_id) {
                        self.send_all_chunks(&accept.file_id, msg.sender_id, out);
                    }
                }
            },
            MessageType::FileChunk => {
                if let Ok(chunk) = FileChunkPayload::decode(msg.payload.as_slice()) {
                    let file_id = chunk.file_id;
                    if let Some(pct) = self.files.receive_chunk(&file_id, chunk.sequence, chunk.data) {
                        out.events.push(NodeEvent::FileProgress { file_id, pct });
                        if self.files.is_incoming_complete(&file_id) {
                            match self.files.finalize_incoming(&file_id) {
                                Ok(file) => out.events.push(NodeEvent::FileReady { file_id, file }),
                                Err(error) => out.events.push(NodeEvent::FileFailed { file_id, error }),
                            }
                        }
                    }
                }
            },
            MessageType::Voice => {
                if let Ok(voice) = VoiceNotePayload::decode(msg.payload.as_slice()) {
                    assert(msg.payload@.subrange(4, msg.payload@.len() as int) =~= voice.audio_data@);
                    out.events.push(NodeEvent::VoiceReceived {
                        sender_id: msg.sender_id,
                        sender_name,
                        audio_data: voice.audio_data,
                        duration_ms: voice.duration_ms,
                    });
                }
            },
            MessageType::CallStart => {
                if let Ok(ctrl) = CallControlPayload::decode(msg.payload.as_slice()) {
                    self.active_call = Some((msg.sender_id, ctrl.stream_id));
                    out.events.push(NodeEvent::IncomingCall { peer: msg.sender_id, peer_name: sender_name });
                }
            },
            MessageType::CallEnd => {
                let ends = match &self.active_call {
                    Some((p, _)) => bytes_eq(p, &msg.sender_id),
                    None => false,
                };
                if ends {
                    self.active_call = None;
                }
                out.events.push(NodeEvent::CallEnded { peer: msg.sender_id });
            },
            MessageType::VoiceStream => {
                if let Ok(vs) = VoiceStreamPayload::decode(msg.payload.as_slice()) {
                    assert(msg.payload@.subrange(20, msg.payload@.len() as int) =~= vs.audio_frame@);
                    out.events.push(NodeEvent::AudioFrame { peer: msg.sender_id, data: vs.audio_frame });
                }
            },
            _ => {},
        }
        proof {
            let ev = out.events@.subrange(start.len() as int, out.events@.len() as int);
            assert(out.events@.subrange(0, start.len() as int) =~= start);
            if out.events@.len() == start.len() + 1 {
                assert(ev[0] == out.events@[start.len() as int]);
            }
            if out.events@.len() == start.len() {
                assert(ev.len() == 0);
            }
        }
    }

    /// Handles a key exchange arriving from `from_addr`.
    fn on_key_exchange(&mut self, msg: &MeshMessage, from_addr: &String, now: u64, out: &mut Outcome)
        requires
            old(self).wf(),
            old(out).sends@.len() == 0,
            old(out).events@.len() == 0,
        ensures
            final(self).wf(),
            final(self).router@ == old(self).router@,
            final(self).our_node_id == old(self).our_node_id,
            final(self).x25519_secret == old(self).x25519_secret,
            final(self).x25519_public == old(self).x25519_public,
            msg.payload@.len() != 32 ==> final(self).peers@ == old(self).peers@ && final(out).sends@.len() == 0
                && final(out).events@.len() == 0,
            msg.payload@.len() == 32 && find_peer(old(self).peers@, msg.sender_id@) >= 0 ==> {
                let i = find_peer(old(self).peers@, msg.sender_id@);
                &&& final(self).peers@.len() == old(self).peers@.len()
                &&& final(self).peers@[i].session_keys matches Some(k)
                    && k.shared_key@ == session_key_of(old(self).x25519_secret@, msg.payload@)
                &&& final(self).peers@[i].last_seen == now
                &&& final(out).sends@.len() == 0
                &&& final(out).events@.len() == 0
            },
            msg.payload@.len() == 32 && find_peer(old(self).peers@, msg.sender_id@) < 0
                && (exists|j: int| 0 <= j < old(self).pending@.len() && (#[trigger] old(self).pending@[j]).0@ == from_addr@) ==> {
                let n = old(self).peers@.len();
                &&& final(self).peers@.len() == n + 1
                &&& final(self).peers@[n as int].node_id == msg.sender_id
                &&& final(self).peers@[n as int].session_keys matches Some(k)
                    && k.shared_key@ == session_key_of(old(self).x25519_secret@, msg.payload@)
                &&& final(out).sends@.len() == 1
                &&& final(out).sends@[0].0 == final(self).peers@[n as int].link
                &&& final(out).sends@[0].1.msg_type == MessageType::KeyExchange
                &&& final(out).sends@[0].1.destination == Some(msg.sender_id)
                &&& final(out).sends@[0].1.payload@ == old(self).x25519_public@
                &&& final(out).sends@[0].1.sender_id == old(self).our_node_id
                &&& final(out).sends@[0].1.ttl == 1
                &&& final(out).events@.len() == 1
                &&& final(out).events@[0] matches NodeEvent::PeerConnected { node_id, .. } && node_id == msg.sender_id
                &&& exists|j: int| 0 <= j < old(self).pending@.len() && (#[trigger] old(self).pending@[j]).0@ == from_addr@
                    && final(self).pending@ == old(self).pending@.remove(j)
                    && old(self).pending@[j].1 == final(self).peers@[n as int].link
            },
            msg.payload@.len() == 32 && find_peer(old(self).peers@, msg.sender_id@) < 0
                && (forall|j: int| 0 <= j < old(self).pending@.len() ==> (#[trigger] old(self).pending@[j]).0@ != from_addr@) ==>
                final(self).peers@ == old(self).peers@ && final(out).sends@.len() == 0 && final(out).events@.len() == 0,
    {
        let kx = match KeyExchangePayload::from_message(msg) {
            Ok(k) => k,
            Err(_) => return,
        };
        let session = SessionKeys::from_exchange(&self.x25519_secret, &kx.x25519_public);
        proof {
            crate::peer::lemma_find_peer(self.peers@, msg.sender_id@);
        }
        let ghost peers0 = self.peers@;
        let installed = self.peers.install_session(&msg.sender_id, session, now);
        proof {
            lemma_separate_same(peers0, self.peers@, self.pending@);
        }
        if installed {
            return;
        }
        let ghost pending0 = self.pending@;
        match take_pending(&mut self.pending, from_addr) {
            None => {},
            Some(link) => {
                proof {
                    let j = choose|j: int| 0 <= j < pending0.len()
                        && (#[trigger] pending0[j]).0@ == from_addr@ && pending0[j].1 == link
                        && self.pending@ == pending0.remove(j);
                    assert forall|i: int| 0 <= i < self.peers@.len() && (#[trigger] self.peers@[i]).node_id@ != msg.sender_id@
                        implies self.peers@[i].link != link by {
                        assert(pending0[j].1 != self.peers@[i].link);
                    }
                    assert forall|k: int| 0 <= k < self.pending@.len() implies (#[trigger] self.pending@[k]).1 != link by {
                        let k0 = if k < j { k } else { k + 1 };
                        assert(self.pending@[k] == pending0[k0]);
                        assert(k0 != j);
                    }
                    assert forall|a: int, i: int| 0 <= a < self.pending@.len() && 0 <= i < self.peers@.len()
                        implies (#[trigger] self.pending@[a]).1 != (#[trigger] self.peers@[i]).link by {
                        let a0 = if a < j { a } else { a + 1 };
                        assert(self.pending@[a] == pending0[a0]);
                    }
                    assert forall|a: int, b: int| 0 <= a < self.pending@.len() && 0 <= b < self.pending@.len() && a != b
                        implies (#[trigger] self.pending@[a]).1 != (#[trigger] self.pending@[b]).1 by {
                        let a0 = if a < j { a } else { a + 1 };
                        let b0 = if b < j { b } else { b + 1 };
                        assert(self.pending@[a] == pending0[a0]);
                        assert(self.pending@[b] == pending0[b0]);
                    }
                }
                let name_hex = hex_encode(slice_subrange(&msg.sender_id, 0, 4));
                let mut name = String::from_str("node-");
                name.append(name_hex.as_str());
                let mut peer = PeerState::new(msg.sender_id, name.clone(), from_addr.clone(), link, now);
                peer.session_keys = Some(session);
                let ghost before = self.peers@;
                self.peers.add(peer);
                proof {
                    crate::peer::lemma_find_peer(before, msg.sender_id@);
                    assert(self.peers@ == before.push(peer));
                    assert forall|a: int, i: int| 0 <= a < self.pending@.len() && 0 <= i < self.peers@.len()
                        implies (#[trigger] self.pending@[a]).1 != (#[trigger] self.peers@[i]).link by {
                        if i < before.len() {
                            assert(self.peers@[i] == before[i]);
                        }
                    }
                }
                let reply = KeyExchangePayload { x25519_public: self.x25519_public };
                out.sends.push((link, reply.to_message(self.our_node_id, msg.sender_id)));
                out.events.push(NodeEvent::PeerConnected { node_id: msg.sender_id, display_name: name });
            },
        }
    }

    /// Decides what to do with a frame that arrived from `from_addr` at
    /// `now`. Key exchanges and liveness probes are handled before the
    /// router; every other frame is delivered when the router accepts it
    /// and addressed to us, and flooded on, TTL one lower, to every peer but
    /// its sender when it travels further.
    pub fn on_message(&mut self, msg: &MeshMessage, from_addr: &String, now: u64) -> (r: Outcome)
        requires
            old(self).wf(),
        ensures
            final(self).wf(),
            final(self).our_node_id == old(self).our_node_id,
            msg.msg_type == MessageType::KeyExchange || msg.msg_type == MessageType::Ping
                || msg.msg_type == MessageType::Pong ==> final(self).router@ == old(self).router@,
            msg.msg_type == MessageType::KeyExchange && msg.payload@.len() != 32 ==> final(self).peers@ == old(self).peers@ && r.sends@.len() == 0
                && r.events@.len() == 0,
            msg.msg_type == MessageType::KeyExchange && msg.payload@.len() == 32 && find_peer(old(self).peers@, msg.sender_id@) >= 0 ==> {
                let i = find_peer(old(self).peers@, msg.sender_id@);
                &&& final(self).peers@.len() == old(self).peers@.len()
                &&& final(self).peers@[i].session_keys matches Some(k)
                    && k.shared_key@ == session_key_of(old(self).x25519_secret@, msg.payload@)
                &&& final(self).peers@[i].last_seen == now
                &&& r.sends@.len() == 0
                &&& r.events@.len() == 0
            },
            msg.msg_type == MessageType::KeyExchange && msg.payload@.len() == 32 && find_peer(old(self).peers@, msg.sender_id@) < 0
                && (exists|j: int| 0 <= j < old(self).pending@.len() && (#[trigger] old(self).pending@[j]).0@ == from_addr@) ==> {
                let n = old(self).peers@.len();
                &&& final(self).peers@.len() == n + 1
                &&& final(self).peers@[n as int].node_id == msg.sender_id
                &&& final(self).peers@[n as int].session_keys matches Some(k)
                    && k.shared_key@ == session_key_of(old(self).x25519_secret@, msg.payload@)
                &&& r.sends@.len() == 1
                &&& r.sends@[0].0 == final(self).peers@[n as int].link
                &&& r.sends@[0].1.msg_type == MessageType::KeyExchange
                &&& r.sends@[0].1.destination == Some(msg.sender_id)
                &&& r.sends@[0].1.payload@ == old(self).x25519_public@
                &&& r.sends@[0].1.sender_id == old(self).our_node_id
                &&& r.sends@[0].1.ttl == 1
                &&& r.events@.len() == 1
                &&& r.events@[0] matches NodeEvent::PeerConnected { node_id, .. } && node_id == msg.sender_id
                &&& exists|j: int| 0 <= j < old(self).pending@.len() && (#[trigger] old(self).pending@[j]).0@ == from_addr@
                    && final(self).pending@ == old(self).pending@.remove(j)
                    && old(self).pending@[j].1 == final(self).peers@[n as int].link
            },
            msg.msg_type == MessageType::KeyExchange && msg.payload@.len() == 32 && find_peer(old(self).peers@, msg.sender_id@) < 0
                && (forall|j: int| 0 <= j < old(self).pending@.len() ==> (#[trigger] old(self).pending@[j]).0@ != from_addr@) ==>
                final(self).peers@ == old(self).peers@ && r.sends@.len() == 0 && r.events@.len() == 0,
            msg.msg_type == MessageType::Pong ==> r.sends@.len() == 0 && r.events@.len() == 0
                && (find_peer(old(self).peers@, msg.sender_id@) >= 0 ==> final(self).peers@ == old(self).peers@.update(
                    find_peer(old(self).peers@, msg.sender_id@),
                    PeerState { last_seen: now, ..old(self).peers@[find_peer(old(self).peers@, msg.sender_id@)] }))
                && (find_peer(old(self).peers@, msg.sender_id@) < 0 ==> final(self).peers@ == old(self).peers@),
            msg.msg_type == MessageType::Ping && find_peer(old(self).peers@, msg.sender_id@) >= 0 ==> {
                let p = old(self).peers@[find_peer(old(self).peers@, msg.sender_id@)];
                &&& r.sends@.len() == 1
                &&& r.sends@[0].0 == p.link
                &&& r.sends@[0].1.msg_type == MessageType::Pong
                &&& r.sends@[0].1.destination == Some(msg.sender_id)
                &&& r.sends@[0].1.sender_id == old(self).our_node_id
                &&& r.sends@[0].1.ttl == 1
                &&& final(self).peers@ == old(self).peers@.update(find_peer(old(self).peers@, msg.sender_id@),
                    PeerState { last_seen: now, ..p })
            },
            !(msg.msg_type == MessageType::KeyExchange || msg.msg_type == MessageType::Ping
                || msg.msg_type == MessageType::Pong) ==> {
                let adm = admits(old(self).router@, msg@, now);
                let n = targets(old(self).peers@, Some(msg.sender_id@)).len();
                &&& adm ==> final(self).router@.seen == admitted_state(old(self).router@, msg@, now, msg.msg_id, msg.sender_id).seen
                &&& !adm ==> final(self).router@ == rejected_state(old(self).router@, msg@, now)
                &&& !adm ==> r.sends@.len() == 0 && r.events@.len() == 0
                &&& adm && msg.ttl > 0 && opt_id(msg.destination) != Some(old(self).our_node_id@) ==> {
                    &&& r.sends@.len() >= n
                    &&& flooded(r.sends@.subrange(r.sends@.len() - n, r.sends@.len() as int), old(self).peers@,
                        Some(msg.sender_id@), MessageModel { ttl: (msg.ttl - 1) as u8, ..msg@ })
                }
                &&& adm && msg.msg_type != MessageType::FileAccept && msg.ttl > 0
                    && opt_id(msg.destination) != Some(old(self).our_node_id@) ==> flooded(r.sends@, old(self).peers@,
                        Some(msg.sender_id@), MessageModel { ttl: (msg.ttl - 1) as u8, ..msg@ })
                &&& adm && msg.msg_type != MessageType::FileAccept && find_peer(old(self).peers@, msg.sender_id@) >= 0
                    ==> forall|t: int| 0 <= t < r.sends@.len()
                        ==> (#[trigger] r.sends@[t]).0 != old(self).peers@[find_peer(old(self).peers@, msg.sender_id@)].link
                &&& adm && msg.msg_type != MessageType::FileAccept && !(msg.ttl > 0
                    && opt_id(msg.destination) != Some(old(self).our_node_id@)) ==> r.sends@.len() == 0
                &&& adm && !(msg.destination is None || opt_id(msg.destination) == Some(old(self).our_node_id@))
                    ==> r.events@.len() == 0
                &&& adm && (msg.destination is None || opt_id(msg.destination) == Some(old(self).our_node_id@)) ==> {
                    &&& delivery_events(*msg, r.events@)
                    &&& msg.msg_type == MessageType::CallStart && msg.payload@.len() == 16
                        ==> call_peer(final(self).active_call) == Some(msg.sender_id@)
                    &&& msg.msg_type == MessageType::CallEnd && call_peer(old(self).active_call) == Some(msg.sender_id@)
                        ==> final(self).active_call is None
                }
            },
    {
        let mut out = empty_outcome();
        if msg.msg_type == MessageType::KeyExchange {
            self.on_key_exchange(msg, from_addr, now, &mut out);
            return out;
        }
        if msg.msg_type == MessageType::Ping {
            proof {
                crate::peer::lemma_find_peer(self.peers@, msg.sender_id@);
            }
            let link = match self.peers.get(&msg.sender_id) {
                Some(p) => Some(p.link),
                None => None,
            };
            if let Some(link) = link {
                let ghost peers0 = self.peers@;
                self.peers.touch(&msg.sender_id, now);
                proof {
                    lemma_separate_same(peers0, self.peers@, self.pending@);
                }
                let pong = MeshMessage::new(MessageType::Pong, self.our_node_id, 1, Some(msg.sender_id), Vec::new());
                out.sends.push((link, pong));
            }
            return out;
        }
        if msg.msg_type == MessageType::Pong {
            let ghost peers0 = self.peers@;
            self.peers.touch(&msg.sender_id, now);
            proof {
                lemma_separate_same(peers0, self.peers@, self.pending@);
            }
            return out;
        }
        if !self.router.should_process_at(msg, now) {
            return out;
        }
        if self.router.is_for_us(msg) {
            self.deliver(msg, &mut out);
        }
        if self.router.should_forward(msg) {
            if let Some(forwarded) = self.router.prepare_forward(msg) {
                let ghost before = out.sends@;
                flood_into(&mut out.sends, &self.peers, &forwarded, Some(msg.sender_id));
                proof {
                    let n = targets(old(self).peers@, Some(msg.sender_id@)).len();
                    let tail = out.sends@.subrange(before.len() as int, out.sends@.len() as int);
                    assert(tail.len() == n);
                    assert(out.sends@.subrange(out.sends@.len() - n, out.sends@.len() as int) =~= tail);
                    if msg.msg_type != MessageType::FileAccept {
                        assert(before.len() == 0);
                        assert(tail =~= out.sends@);
                        crate::peer::lemma_find_peer(old(self).peers@, msg.sender_id@);
                        let k = find_peer(old(self).peers@, msg.sender_id@);
                        if k >= 0 {
                            lemma_targets_exclude(old(self).peers@, k);
                            assert forall|t: int| 0 <= t < out.sends@.len()
                                implies (#[trigger] out.sends@[t]).0 != old(self).peers@[k].link by {
                                assert(out.sends@[t].0 == targets(old(self).peers@, Some(msg.sender_id@))[t]);
                            }
                        }
                    }
                }
            }
        }
        let ghost peers0 = self.peers@;
        self.peers.touch(&msg.sender_id, now);
        proof {
            lemma_separate_same(peers0, self.peers@, self.pending@);
        }
        out
    }

    /// Heartbeat at `now`: a Ping on every writer queue, then the peers not
    /// heard from within `PEER_TIMEOUT_MS` are dropped, each announced as
    /// disconnected (after `GatewayLost` when it was a gateway, and
    /// `CallEnded` when a call with it was live), and the peer count is
    /// refreshed.
    pub fn on_heartbeat(&mut self, now: u64) -> (r: Outcome)
        requires
            old(self).wf(),
        ensures
            final(self).wf(),
            final(self).peers@ == alive_peers(old(self).peers@, PEER_TIMEOUT_MS, now),
            r.closed@ == stale_links(old(self).peers@, now),
            r.sends@.len() == old(self).peers@.len(),
            forall|i: int| 0 <= i < r.sends@.len() ==> {
                &&& (#[trigger] r.sends@[i]).0 == old(self).peers@[i].link
                &&& r.sends@[i].1.msg_type == MessageType::Ping
                &&& r.sends@[i].1.ttl == 1
                &&& r.sends@[i].1.sender_id == old(self).our_node_id
            },
            forall|k: int| 0 <= k < stale_ids(old(self).peers@, PEER_TIMEOUT_MS, now).len()
                ==> announces_disconnect(r.events@, #[trigger] stale_ids(old(self).peers@, PEER_TIMEOUT_MS, now)[k]),
            forall|k: int| 0 <= k < stale_ids(old(self).peers@, PEER_TIMEOUT_MS, now).len()
                && ids_have(old(self).known_gateways@, (#[trigger] stale_ids(old(self).peers@, PEER_TIMEOUT_MS, now)[k])@)
                ==> announces_gateway_lost(r.events@, stale_ids(old(self).peers@, PEER_TIMEOUT_MS, now)[k]@),
            gateway_lost_only_for(r.events@, stale_ids(old(self).peers@, PEER_TIMEOUT_MS, now), old(self).known_gateways@),
            call_peer(old(self).active_call) matches Some(p) ==> (ids_have(stale_ids(old(self).peers@, PEER_TIMEOUT_MS, now), p)
                ==> final(self).active_call is None && announces_call_ended(r.events@, p)),
            final(self).router@.seen == old(self).router@.seen,
            final(self).router@.stats.total_peers as int == if final(self).peers@.len() <= u32::MAX {
                final(self).peers@.len() as int
            } else {
                u32::MAX as int
            },
    {
        let mut out = empty_outcome();
        let all = self.peers.all();
        let mut j: usize = 0;
        while j < all.len()
            invariant
                0 <= j <= all@.len(),
                all@ == old(self).peers@,
                out.closed@ == stale_links(all@.subrange(0, j as int), now),
                out.sends@.len() == 0,
                out.events@.len() == 0,
                self.peers@ == old(self).peers@,
                self.router@ == old(self).router@,
                self.our_node_id == old(self).our_node_id,
                self.wf(),
            decreases all@.len() - j,
        {
            assert(all@.subrange(0, j + 1).drop_last() =~= all@.subrange(0, j as int));
            if !all[j].is_alive(PEER_TIMEOUT_MS, now) {
                out.closed.push(all[j].link);
            }
            j = j + 1;
        }
        assert(all@.subrange(0, all@.len() as int) =~= all@);
        let links = self.peers.broadcast_senders();
        let mut i: usize = 0;
        while i < links.len()
            invariant
                0 <= i <= links@.len(),
                links@ == crate::peer::links_of(old(self).peers@),
                out.closed@ == stale_links(old(self).peers@, now),
                self.wf(),
                self.router@ == old(self).router@,
                self.peers@ == old(self).peers@,
                self.our_node_id == old(self).our_node_id,
                out.sends@.len() == i,
                out.events@.len() == 0,
                forall|j: int| 0 <= j < i ==> {
                    &&& (#[trigger] out.sends@[j]).0 == old(self).peers@[j].link
                    &&& out.sends@[j].1.msg_type == MessageType::Ping
                    &&& out.sends@[j].1.ttl == 1
                    &&& out.sends@[j].1.sender_id == old(self).our_node_id
                },
            decreases links@.len() - i,
        {
            let ping = MeshMessage::new(MessageType::Ping, self.our_node_id, 1, None, Vec::new());
            out.sends.push((links[i].1, ping));
            i = i + 1;
        }
        let ghost peers0 = self.peers@;
        let stale = self.peers.prune_stale(PEER_TIMEOUT_MS, now);
        proof {
            crate::peer::lemma_prune_wf(peers0, PEER_TIMEOUT_MS, now);
            assert forall|a: int| 0 <= a < self.peers@.len() implies holds_link(peers0, (#[trigger] self.peers@[a]).link) by {
                assert(self.peers@.contains(self.peers@[a]));
                let b = choose|b: int| 0 <= b < peers0.len() && peers0[b] == self.peers@[a];
                assert(peers0[b].link == self.peers@[a].link);
            }
            lemma_separate_subset(peers0, self.peers@, self.pending@);
        }
        let mut k: usize = 0;
        while k < stale.len()
            invariant
                0 <= k <= stale@.len(),
                stale@ == stale_ids(old(self).peers@, PEER_TIMEOUT_MS, now),
                self.peers@ == alive_peers(old(self).peers@, PEER_TIMEOUT_MS, now),
                out.closed@ == stale_links(old(self).peers@, now),
                self.wf(),
                self.router@ == old(self).router@,
                self.our_node_id == old(self).our_node_id,
                out.sends@.len() == old(self).peers@.len(),
                forall|j: int| 0 <= j < out.sends@.len() ==> {
                    &&& (#[trigger] out.sends@[j]).0 == old(self).peers@[j].link
                    &&& out.sends@[j].1.msg_type == MessageType::Ping
                    &&& out.sends@[j].1.ttl == 1
                    &&& out.sends@[j].1.sender_id == old(self).our_node_id
                },
                forall|q: int| 0 <= q < k ==> announces_disconnect(out.events@, #[trigger] stale@[q]),
                forall|q: int| 0 <= q < k && ids_have(old(self).known_gateways@, (#[trigger] stale@[q])@)
                    ==> announces_gateway_lost(out.events@, stale@[q]@),
                forall|x: Seq<u8>| #[trigger] ids_have(old(self).known_gateways@, x)
                    && !ids_have(stale@.subrange(0, k as int), x) ==> ids_have(self.known_gateways@, x),
                forall|x: Seq<u8>| #[trigger] ids_have(self.known_gateways@, x) ==> ids_have(old(self).known_gateways@, x),
                gateway_lost_only_for(out.events@, stale@, old(self).known_gateways@),
                self.active_call == old(self).active_call || (self.active_call is None
                    && (call_peer(old(self).active_call) matches Some(p) ==> ids_have(stale@.subrange(0, k as int), p))),
                call_peer(old(self).active_call) matches Some(p) ==> (ids_have(stale@.subrange(0, k as int), p)
                    ==> self.active_call is None && announces_call_ended(out.events@, p)),
            decreases stale@.len() - k,
        {
            let id = stale[k];
            let ghost start = out.events@;
            let ghost known_before = self.known_gateways@;
            assert(stale@.subrange(0, k + 1) =~= stale@.subrange(0, k as int).push(id));
            assert(ids_have(stale@, id@)) by {
                assert(stale@[k as int] == id);
            }
            if remove_id(&mut self.known_gateways, &id) {
                out.events.push(NodeEvent::GatewayLost { node_id: id });
                assert(out.events@[out.events@.len() - 1] matches NodeEvent::GatewayLost { node_id } && node_id@ == id@);
            }
            let ghost mid = out.events@;
            assert(ids_have(known_before, id@) ==> announces_gateway_lost(mid, id@));
            assert(mid.subrange(0, start.len() as int) =~= start);
            let in_call = match &self.active_call {
                Some((p, _)) => bytes_eq(p, &id),
                None => false,
            };
            if in_call {
                self.active_call = None;
                out.events.push(NodeEvent::CallEnded { peer: id });
                assert(out.events@[out.events@.len() - 1] matches NodeEvent::CallEnded { peer } && peer@ == id@);
            }
            let ghost mid2 = out.events@;
            assert(in_call ==> announces_call_ended(mid2, id@));
            assert(in_call ==> call_peer(old(self).active_call) == Some(id@));
            assert(ids_have(stale@.subrange(0, k + 1), id@)) by {
                assert(stale@.subrange(0, k + 1)[k as int] == id);
            }
            let ghost before = out.events@;
            out.events.push(NodeEvent::PeerDisconnected { node_id: id });
            proof {
                assert(out.events@.subrange(0, start.len() as int) =~= start);
                assert(out.events@.subrange(0, mid.len() as int) =~= mid);
                lemma_events_grow(start, out.events@);
                lemma_events_grow(mid, out.events@);
                assert(out.events@.subrange(0, mid2.len() as int) =~= mid2);
                lemma_events_grow(mid2, out.events@);
                assert forall|x: Seq<u8>| #[trigger] ids_have(old(self).known_gateways@, x)
                    && !ids_have(stale@.subrange(0, k + 1), x) implies ids_have(self.known_gateways@, x) by {
                    if ids_have(stale@.subrange(0, k as int), x) {
                        let j = choose|j: int| 0 <= j < k && (#[trigger] stale@.subrange(0, k as int)[j])@ == x;
                        assert(stale@.subrange(0, k + 1)[j] == stale@.subrange(0, k as int)[j]);
                    }
                    assert(ids_have(known_before, x));
                    if x == id@ {
                        assert(stale@.subrange(0, k + 1)[k as int] == id);
                    }
                }
                assert forall|x: Seq<u8>| #[trigger] ids_have(stale@.subrange(0, k + 1), x)
                    implies ids_have(stale@.subrange(0, k as int), x) || x == id@ by {
                    let j = choose|j: int| 0 <= j < k + 1 && (#[trigger] stale@.subrange(0, k + 1)[j])@ == x;
                    if j < k {
                        assert(stale@.subrange(0, k as int)[j] == stale@.subrange(0, k + 1)[j]);
                    }
                }
                assert forall|x: Seq<u8>| #[trigger] ids_have(stale@.subrange(0, k as int), x)
                    implies ids_have(stale@.subrange(0, k + 1), x) by {
                    let j = choose|j: int| 0 <= j < k && (#[trigger] stale@.subrange(0, k as int)[j])@ == x;
                    assert(stale@.subrange(0, k + 1)[j] == stale@.subrange(0, k as int)[j]);
                }
                assert forall|q: int| 0 <= q < k + 1 && ids_have(old(self).known_gateways@, (#[trigger] stale@[q])@)
                    implies announces_gateway_lost(out.events@, stale@[q]@) by {
                    if q == k {
                        if !ids_have(known_before, id@) {
                            assert(ids_have(stale@.subrange(0, k as int), id@));
                            let j = choose|j: int| 0 <= j < k && (#[trigger] stale@.subrange(0, k as int)[j])@ == id@;
                            assert(stale@[j]@ == id@);
                            assert(announces_gateway_lost(start, stale@[j]@));
                        }
                    } else {
                        assert(announces_gateway_lost(start, stale@[q]@));
                    }
                }
                assert forall|e: int| 0 <= e < out.events@.len() implies (#[trigger] out.events@[e] matches NodeEvent::GatewayLost { node_id }
                    ==> ids_have(stale@, node_id@) && ids_have(old(self).known_gateways@, node_id@)) by {
                    if e < start.len() {
                        assert(out.events@[e] == start[e]);
                    }
                }
                match call_peer(old(self).active_call) {
                    Some(p) => {
                        if ids_have(stale@.subrange(0, k + 1), p) {
                            if !ids_have(stale@.subrange(0, k as int), p) {
                                assert(p == id@);
                            }
                        }
                    },
                    None => {},
                }
                assert forall|q: int| 0 <= q < k + 1 implies announces_disconnect(out.events@, #[trigger] stale@[q]) by {
                    if q == k {
                        assert(out.events@[out.events@.len() - 1] matches NodeEvent::PeerDisconnected { node_id } && node_id == stale@[q]);
                    } else {
                        assert(announces_disconnect(start, stale@[q]));
                        let e = choose|e: int| 0 <= e < start.len() && (#[trigger] start[e] matches NodeEvent::PeerDisconnected { node_id }
                            && node_id == stale@[q]);
                        assert(out.events@[e] == start[e]);
                    }
                }
            }
            k = k + 1;
        }
        assert(stale@.subrange(0, stale@.len() as int) =~= stale@);
        let count = self.peers.count();
        self.router.set_total_peers(if count <= u32::MAX as usize { count as u32 } else { u32::MAX });
        out
    }

    /// A peer heard on the discovery channel at `now`. Our own announcement
    /// is ignored; a known peer is touched and a change of its gateway flag
    /// announced; an unknown one is to be connected to.
    pub fn on_discovered(&mut self, d: DiscoveredPeer, now: u64) -> (r: Outcome)
        requires
            old(self).wf(),
        ensures
            final(self).wf(),
            final(self).router@ == old(self).router@,
            r.sends@.len() == 0,
            d.node_id@ == old(self).our_node_id@ ==> r.connect is None && r.events@.len() == 0,
            d.node_id@ != old(self).our_node_id@ && find_peer(old(self).peers@, d.node_id@) < 0 ==>
                r.connect == Some(d) && r.events@.len() == 0 && final(self).peers@ == old(self).peers@,
            d.node_id@ != old(self).our_node_id@ && find_peer(old(self).peers@, d.node_id@) >= 0 ==> r.connect is None
                && final(self).peers@[find_peer(old(self).peers@, d.node_id@)].last_seen == now
                && final(self).peers@[find_peer(old(self).peers@, d.node_id@)].is_gateway == d.has_internet,
            d.node_id@ != old(self).our_node_id@ && find_peer(old(self).peers@, d.node_id@) >= 0 ==> {
                let was = old(self).peers@[find_peer(old(self).peers@, d.node_id@)].is_gateway;
                &&& d.has_internet && !was ==> r.events@.len() == 1
                    && (r.events@[0] matches NodeEvent::GatewayFound { node_id, .. } && node_id == d.node_id)
                &&& !d.has_internet && was ==> r.events@.len() == 1
                    && (r.events@[0] matches NodeEvent::GatewayLost { node_id } && node_id == d.node_id)
                &&& d.has_internet == was ==> r.events@.len() == 0
            },
    {
        let mut out = empty_outcome();
        if bytes_eq(&d.node_id, &self.our_node_id) {
            return out;
        }
        proof {
            crate::peer::lemma_find_peer(self.peers@, d.node_id@);
        }
        let (was_gateway, name) = match self.peers.get(&d.node_id) {
            None => {
                out.connect = Some(d);
                return out;
            },
            Some(p) => (p.is_gateway, p.display_name.clone()),
        };
        let ghost peers0 = self.peers@;
        self.peers.touch(&d.node_id, now);
        proof {
            let i = find_peer(old(self).peers@, d.node_id@);
            lemma_find_peer_update(old(self).peers@, i, self.peers@[i]);
            assert(self.peers@ == old(self).peers@.update(i, self.peers@[i]));
        }
        let ghost peers1 = self.peers@;
        if d.has_internet && !was_gateway {
            self.peers.set_gateway(&d.node_id, true);
            out.events.push(NodeEvent::GatewayFound { node_id: d.node_id, display_name: name });
            if !remove_id(&mut self.known_gateways, &d.node_id) {}
            self.known_gateways.push(d.node_id);
        } else if !d.has_internet && was_gateway {
            self.peers.set_gateway(&d.node_id, false);
            out.events.push(NodeEvent::GatewayLost { node_id: d.node_id });
            remove_id(&mut self.known_gateways, &d.node_id);
        }
        proof {
            lemma_separate_same(peers0, peers1, self.pending@);
            lemma_separate_same(peers1, self.peers@, self.pending@);
        }
        out
    }

    /// The outbound connection to a discovered peer is up on writer queue
    /// `link`: the peer is recorded, our key exchange goes to it, and it is
    /// announced (and as a gateway when it claims one).
    pub fn on_connected(&mut self, d: DiscoveredPeer, link: u64, now: u64) -> (r: Outcome)
        requires
            old(self).wf(),
            old(self).link_unused(link),
        ensures
            final(self).wf(),
            final(self).router@ == old(self).router@,
            find_peer(final(self).peers@, d.node_id@) >= 0,
            ({
                let p = final(self).peers@[find_peer(final(self).peers@, d.node_id@)];
                &&& p.link == link
                &&& p.last_seen == now
                &&& p.is_gateway == d.has_internet
            }),
            r.sends@.len() == 1,
            r.sends@[0].0 == link,
            r.sends@[0].1.msg_type == MessageType::KeyExchange,
            r.sends@[0].1.destination == Some(d.node_id),
            r.sends@[0].1.payload@ == old(self).x25519_public@,
            r.sends@[0].1.sender_id == old(self).our_node_id,
            r.sends@[0].1.ttl == 1,
            r.events@.len() >= 1,
            r.events@[0] matches NodeEvent::PeerConnected { node_id, .. } && node_id == d.node_id,
    {
        let mut out = empty_outcome();
        let mut peer = PeerState::new(d.node_id, d.display_name.clone(), d.addr.clone(), link, now);
        peer.is_gateway = d.has_internet;
        let ghost before = self.peers@;
        self.peers.add(peer);
        proof {
            crate::peer::lemma_find_peer(before, d.node_id@);
            let after = self.peers@;
            assert forall|j: int, i: int| 0 <= j < self.pending@.len() && 0 <= i < after.len()
                implies (#[trigger] self.pending@[j]).1 != (#[trigger] after[i]).link by {
                if after[i].link != link {
                    if i < before.len() {
                        assert(after[i] == before[i] || after[i] == peer);
                        if after[i] == before[i] {
                            assert(self.pending@[j].1 != before[i].link);
                        }
                    }
                }
            }
        }
        proof {
            crate::peer::lemma_find_peer(self.peers@, d.node_id@);
            let i = find_peer(old(self).peers@, d.node_id@);
            crate::peer::lemma_find_peer(old(self).peers@, d.node_id@);
            if i < 0 {
                lemma_find_peer_last(old(self).peers@, peer);
            } else {
                lemma_find_peer_update(old(self).peers@, i, peer);
            }
        }
        let kx = KeyExchangePayload { x25519_public: self.x25519_public };
        out.sends.push((link, kx.to_message(self.our_node_id, d.node_id)));
        out.events.push(NodeEvent::PeerConnected { node_id: d.node_id, display_name: d.display_name.clone() });
        if d.has_internet {
            out.events.push(NodeEvent::GatewayFound { node_id: d.node_id, display_name: d.display_name });
            remove_id(&mut self.known_gateways, &d.node_id);
            self.known_gateways.push(d.node_id);
        }
        out
    }

    /// Carries out a command of the application.
    pub fn on_command(&mut self, cmd: NodeCommand) -> (r: Outcome)
        requires
            old(self).wf(),
        ensures
            final(self).wf(),
            final(self).peers@ == old(self).peers@,
            cmd matches NodeCommand::SendBroadcast { text } ==> exists|m: MessageModel| {
                &&& m.msg_type == MessageType::Text && m.ttl == 10 && m.destination is None
                &&& m.sender == old(self).our_node_id@ && m.payload == vstd::utf8::encode_utf8(text@)
                &&& #[trigger] flooded(r.sends@, old(self).peers@, None, m)
            },
            cmd matches NodeCommand::SendDirect { dest, text } ==> exists|m: MessageModel| {
                &&& m.msg_type == MessageType::Text && m.ttl == 10 && m.destination == Some(dest@)
                &&& m.sender == old(self).our_node_id@ && m.payload == vstd::utf8::encode_utf8(text@)
                &&& #[trigger] flooded(r.sends@, old(self).peers@, None, m)
            },
            cmd matches NodeCommand::SendPublicBroadcast { text } ==> exists|m: MessageModel| {
                &&& m.msg_type == MessageType::PublicBroadcast && m.ttl == 50 && m.destination is None
                &&& m.sender == old(self).our_node_id@ && m.payload == vstd::utf8::encode_utf8(text@)
                &&& #[trigger] flooded(r.sends@, old(self).peers@, None, m)
            },
            cmd matches NodeCommand::SendSOS { payload } ==> exists|m: MessageModel| {
                &&& m.msg_type == MessageType::SOS && m.ttl == 255 && m.destination is None
                &&& m.sender == old(self).our_node_id@ && m.payload == payload@
                &&& #[trigger] flooded(r.sends@, old(self).peers@, None, m)
            },
            cmd matches NodeCommand::SendFile { data, .. } && data@.len() > MAX_FILE_SIZE ==> r.sends@.len() == 0,
            cmd matches NodeCommand::SendFile { dest, filename, data } ==> (data@.len() <= MAX_FILE_SIZE ==> exists|m: MessageModel| {
                &&& m.msg_type == MessageType::FileOffer && m.ttl == 10 && m.destination == Some(dest@)
                &&& m.sender == old(self).our_node_id@
                &&& #[trigger] flooded(r.sends@, old(self).peers@, None, m)
            }),
            cmd matches NodeCommand::AcceptFile { file_id } ==> (find_in(old(self).files@.incoming, file_id@) < 0 ==> r.sends@.len() == 0),
            cmd matches NodeCommand::AcceptFile { file_id } ==> (find_in(old(self).files@.incoming, file_id@) >= 0 ==> exists|m: MessageModel| {
                &&& m.msg_type == MessageType::FileAccept && m.ttl == 10
                &&& m.destination == Some(old(self).files@.incoming[find_in(old(self).files@.incoming, file_id@)].sender_id@)
                &&& m.sender == old(self).our_node_id@ && m.payload == file_id@
                &&& #[trigger] flooded(r.sends@, old(self).peers@, None, m)
            }),
            cmd matches NodeCommand::SendVoice { dest, audio_data, duration_ms } ==> exists|m: MessageModel| {
                &&& m.msg_type == MessageType::Voice && m.ttl == 10 && m.destination == opt_id(dest)
                &&& m.sender == old(self).our_node_id@ && m.payload == voice_note_bytes(duration_ms, audio_data@)
                &&& #[trigger] flooded(r.sends@, old(self).peers@, None, m)
            },
            cmd matches NodeCommand::StartVoiceCall { peer } ==> call_peer(final(self).active_call) == Some(peer@)
                && exists|m: MessageModel| {
                    &&& m.msg_type == MessageType::CallStart && m.ttl == 2 && m.destination == Some(peer@)
                    &&& m.sender == old(self).our_node_id@
                    &&& #[trigger] flooded(r.sends@, old(self).peers@, None, m)
                },
            cmd is EndVoiceCall ==> final(self).active_call is None,
            cmd is EndVoiceCall && old(self).active_call is None ==> r.sends@.len() == 0,
            cmd is EndVoiceCall ==> (call_peer(old(self).active_call) matches Some(p) ==> exists|m: MessageModel| {
                &&& m.msg_type == MessageType::CallEnd && m.ttl == 2 && m.destination == Some(p)
                &&& m.sender == old(self).our_node_id@
                &&& #[trigger] flooded(r.sends@, old(self).peers@, None, m)
            }),
            cmd is SendAudioFrame && old(self).active_call is None ==> r.sends@.len() == 0,
            cmd matches NodeCommand::SendAudioFrame { peer, data } ==> (old(self).active_call is Some
                && find_peer(old(self).peers@, peer@) >= 0 ==> {
                &&& r.sends@.len() == 1
                &&& r.sends@[0].0 == old(self).peers@[find_peer(old(self).peers@, peer@)].link
                &&& r.sends@[0].1.msg_type == MessageType::VoiceStream
                &&& r.sends@[0].1.destination == Some(peer)
            }),
            cmd matches NodeCommand::UpdateProfile { payload } ==> exists|m: MessageModel| {
                &&& m.msg_type == MessageType::ProfileUpdate && m.ttl == 3 && m.destination is None
                &&& m.sender == old(self).our_node_id@ && m.payload == payload@
                &&& #[trigger] flooded(r.sends@, old(self).peers@, None, m)
            },
            cmd is GetStats ==> r.sends@.len() == 0 && r.events@.len() == 1
                && (r.events@[0] matches NodeEvent::Stats { stats } && stats == (MeshStats {
                    total_peers: if old(self).peers@.len() <= u32::MAX { old(self).peers@.len() as u32 } else { u32::MAX },
                    ..old(self).router@.stats
                })),
            cmd is GetPeers ==> r.sends@.len() == 0 && r.events@.len() == 1
                && (r.events@[0] matches NodeEvent::PeerList { peers } && peers@.len() == old(self).peers@.len()),
            cmd matches NodeCommand::Nuke ==> r.delete_identity && r.stop && r.sends@.len() == 0
                && r.events@ =~= seq![NodeEvent::Nuked],
            cmd matches NodeCommand::Shutdown ==> !r.delete_identity && r.stop && r.sends@.len() == 0
                && r.events@ =~= seq![NodeEvent::Stopped],
            !(cmd is Nuke || cmd is Shutdown) ==> !r.stop && !r.delete_identity,
    {
        let mut out = empty_outcome();
        match cmd {
            NodeCommand::SendBroadcast { text } => {
                let m = MeshMessage::text(self.our_node_id, text.as_str());
                flood_into(&mut out.sends, &self.peers, &m, None);
                assert(out.sends@.subrange(0, out.sends@.len() as int) =~= out.sends@);
            },
            NodeCommand::SendDirect { dest, text } => {
                let m = MeshMessage::text_to(self.our_node_id, dest, text.as_str());
                flood_into(&mut out.sends, &self.peers, &m, None);
                assert(out.sends@.subrange(0, out.sends@.len() as int) =~= out.sends@);
            },
            NodeCommand::SendFile { dest, filename, data } => {
                if let Ok(metadata) = self.files.prepare_send(dest, filename.as_str(), data) {
                    let m = MeshMessage::file_offer(self.our_node_id, dest, &metadata);
                    flood_into(&mut out.sends, &self.peers, &m, None);
                    assert(out.sends@.subrange(0, out.sends@.len() as int) =~= out.sends@);
                }
            },
            NodeCommand::AcceptFile { file_id } => {
                if let Some(sender_id) = self.files.accept_incoming(&file_id) {
                    let m = MeshMessage::file_accept(self.our_node_id, sender_id, file_id);
                    flood_into(&mut out.sends, &self.peers, &m, None);
                    assert(out.sends@.subrange(0, out.sends@.len() as int) =~= out.sends@);
                }
            },
            NodeCommand::SendVoice { dest, audio_data, duration_ms } => {
                let payload = VoiceNotePayload { duration_ms, audio_data };
                let m = MeshMessage::voice_note(self.our_node_id, dest, &payload);
                flood_into(&mut out.sends, &self.peers, &m, None);
                assert(out.sends@.subrange(0, out.sends@.len() as int) =~= out.sends@);
            },
            NodeCommand::StartVoiceCall { peer } => {
                let stream_id: [u8; 16] = random_array::<16>();
                self.active_call = Some((peer, stream_id));
                let m = MeshMessage::call_start(self.our_node_id, peer, &CallControlPayload { stream_id });
                flood_into(&mut out.sends, &self.peers, &m, None);
                assert(out.sends@.subrange(0, out.sends@.len() as int) =~= out.sends@);
            },
            NodeCommand::EndVoiceCall => {
                if let Some((peer, stream_id)) = self.active_call {
                    self.active_call = None;
                    let m = MeshMessage::call_end(self.our_node_id, peer, &CallControlPayload { stream_id });
                    flood_into(&mut out.sends, &self.peers, &m, None);
                    assert(out.sends@.subrange(0, out.sends@.len() as int) =~= out.sends@);
                    assert(out.sends@.subrange(0, out.sends@.len() as int) =~= out.sends@);
                    assert(flooded(out.sends@, old(self).peers@, None, m@));
                    assert(call_peer(old(self).active_call) == Some(peer@));
                }
            },
            NodeCommand::SendAudioFrame { peer, data } => {
                if let Some((_, stream_id)) = self.active_call {
                    let payload = VoiceStreamPayload { stream_id, sequence: 0, audio_frame: data };
                    let m = MeshMessage::voice_stream(self.our_node_id, peer, &payload);
                    if let Some(p) = self.peers.get(&peer) {
                        out.sends.push((p.link, m));
                    }
                }
            },
            NodeCommand::UpdateProfile { payload } => {
                let m = MeshMessage::profile_update(self.our_node_id, payload);
                flood_into(&mut out.sends, &self.peers, &m, None);
                assert(out.sends@.subrange(0, out.sends@.len() as int) =~= out.sends@);
            },
            NodeCommand::SendPublicBroadcast { text } => {
                let m = MeshMessage::public_broadcast(self.our_node_id, text.as_str());
                flood_into(&mut out.sends, &self.peers, &m, None);
                assert(out.sends@.subrange(0, out.sends@.len() as int) =~= out.sends@);
            },
            NodeCommand::SendSOS { payload } => {
                let m = MeshMessage::sos(self.our_node_id, payload);
                flood_into(&mut out.sends, &self.peers, &m, None);
                assert(out.sends@.subrange(0, out.sends@.len() as int) =~= out.sends@);
            },
            NodeCommand::GetStats => {
                let count = self.peers.count();
                let mut stats = self.router.stats();
                stats.total_peers = if count <= u32::MAX as usize { count as u32 } else { u32::MAX };
                out.events.push(NodeEvent::Stats { stats });
            },
            NodeCommand::GetPeers => {
                let all = self.peers.all();
                let mut list: Vec<PeerListEntry> = Vec::new();
                let mut i: usize = 0;
                while i < all.len()
                    invariant
                        0 <= i <= all@.len(),
                        list@.len() == i,
                    decreases all@.len() - i,
                {
                    list.push(PeerListEntry {
                        node_id: all[i].node_id,
                        display_name: all[i].display_name.clone(),
                        addr: all[i].addr.clone(),
                        is_gateway: all[i].is_gateway,
                        bio: all[i].bio.clone(),
                    });
                    i = i + 1;
                }
                out.events.push(NodeEvent::PeerList { peers: list });
            },
            NodeCommand::Nuke => {
                out.delete_identity = true;
                out.stop = true;
                out.events.push(NodeEvent::Nuked);
            },
            NodeCommand::Shutdown => {
                out.stop = true;
                out.events.push(NodeEvent::Stopped);
            },
        }
        out
    }
}

} // verus!
