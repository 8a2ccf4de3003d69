use vstd::prelude::*;
use crate::bytes::bytes_eq;
use crate::message::{MeshMessage, MessageId, MessageModel, MessageType, initial_ttl_of};

verus! {

/// How long a message identifier stays in the seen-cache, in milliseconds.
pub const SEEN_EXPIRY_MS: u64 = 300_000;

/// Soft cap on the number of seen-cache entries.
pub const MAX_SEEN_CACHE: usize = 10_000;

/// How long a next-hop route stays valid, in milliseconds.
pub const ROUTE_EXPIRY_MS: u64 = 120_000;

/// std's monotonic clock reading, carried as an opaque value.
#[verifier::external_type_specification]
#[verifier::external_body]
pub struct ExInstant(std::time::Instant);

/// Relies on std's `Instant::now`: a reading of the monotonic clock;
/// nothing is promised of it.
#[verifier::external_body]
pub(crate) fn monotonic_now() -> (r: std::time::Instant) {
    std::time::Instant::now()
}

/// Relies on std's `Instant::elapsed`: the monotonic time since `epoch`, in
/// milliseconds; nothing is promised of the value.
#[verifier::external_body]
pub(crate) fn clock_ms(epoch: &std::time::Instant) -> (r: u64) {
    epoch.elapsed().as_millis() as u64
}

/// Counters kept by the router.
#[derive(Debug, Clone, Copy, PartialEq, Eq, Structural)]
pub struct MeshStats {
    pub total_peers: u32,
    pub messages_relayed: u64,
    pub messages_received: u64,
    pub unique_nodes_seen: u32,
    pub total_hops_observed: u64,
    pub hop_count_samples: u64,
}

impl MeshStats {
    /// All counters at zero.
    pub fn zero() -> (r: MeshStats)
        ensures
            r == (MeshStats {
                total_peers: 0,
                messages_relayed: 0,
                messages_received: 0,
                unique_nodes_seen: 0,
                total_hops_observed: 0,
                hop_count_samples: 0,
            }),
    {
        MeshStats {
            total_peers: 0,
            messages_relayed: 0,
            messages_received: 0,
            unique_nodes_seen: 0,
            total_hops_observed: 0,
            hop_count_samples: 0,
        }
    }
}

pub open spec fn inc_u64(x: u64) -> u64 {
    if x < u64::MAX { (x + 1) as u64 } else { x }
}

pub open spec fn add_u64(x: u64, y: int) -> u64 {
    if x + y <= u64::MAX { (x + y) as u64 } else { u64::MAX }
}

pub open spec fn count_u32(n: nat) -> u32 {
    if n <= u32::MAX { n as u32 } else { u32::MAX }
}

/// An entry of age over `SEEN_EXPIRY_MS` at time `now` has expired.
pub open spec fn seen_expired(t: u64, now: u64) -> bool {
    now >= t && now - t > SEEN_EXPIRY_MS
}

/// The seen-cache entries that a cleanup at time `now` keeps, in order.
pub open spec fn kept(s: Seq<(MessageId, u64)>, now: u64) -> Seq<(MessageId, u64)>
    decreases s.len(),
{
    if s.len() == 0 {
        Seq::empty()
    } else {
        let k = kept(s.drop_last(), now);
        if seen_expired(s.last().1, now) { k } else { k.push(s.last()) }
    }
}

pub open spec fn seen_contains(s: Seq<(MessageId, u64)>, id: Seq<u8>) -> bool {
    exists|i: int| 0 <= i < s.len() && (#[trigger] s[i]).0@ == id
}

pub open spec fn ids_contain(s: Seq<[u8; 32]>, id: Seq<u8>) -> bool {
    exists|i: int| 0 <= i < s.len() && (#[trigger] s[i])@ == id
}

/// The router's state: the seen-cache in insertion order, our identifier,
/// the nodes seen so far and the counters.
pub struct RouterView {
    pub seen: Seq<(MessageId, u64)>,
    pub self_id: Seq<u8>,
    pub nodes: Seq<[u8; 32]>,
    pub stats: MeshStats,
}

pub open spec fn is_for_us_spec(self_id: Seq<u8>, m: MessageModel) -> bool {
    match m.destination {
        None => true,
        Some(d) => d == self_id,
    }
}

pub open spec fn should_forward_spec(self_id: Seq<u8>, m: MessageModel) -> bool {
    match m.destination {
        None => true,
        Some(d) => d != self_id,
    }
}

/// Whether the cache is at its cap and the message is not an SOS, so that a
/// cleanup runs before admission.
pub open spec fn cache_pressed(v: RouterView, m: MessageModel) -> bool {
    m.msg_type != MessageType::SOS && v.seen.len() >= MAX_SEEN_CACHE
}

/// Whether `should_process` accepts `m` at time `now`.
pub open spec fn admits(v: RouterView, m: MessageModel, now: u64) -> bool {
    &&& m.sender != v.self_id
    &&& m.ttl > 0
    &&& !seen_contains(v.seen, m.id)
    &&& (cache_pressed(v, m) ==> kept(v.seen, now).len() < MAX_SEEN_CACHE)
}

/// Hops a message has travelled: the catalog's initial TTL for its kind
/// minus its TTL, when that is positive and the kind is tracked.
pub open spec fn hops_of(m: MessageModel) -> int {
    match initial_ttl_of(m.msg_type) {
        Some(t) => if t > m.ttl { t - m.ttl } else { 0 },
        None => 0,
    }
}

/// The state after `m` was accepted at time `now`.
pub open spec fn admitted_state(v: RouterView, m: MessageModel, now: u64, id: MessageId, sender: [u8; 32]) -> RouterView {
    let seen1 = if cache_pressed(v, m) { kept(v.seen, now) } else { v.seen };
    let seen2 = seen1.push((id, now));
    let seen3 = if seen2.len() > MAX_SEEN_CACHE { kept(seen2, now) } else { seen2 };
    let nodes = if ids_contain(v.nodes, m.sender) { v.nodes } else { v.nodes.push(sender) };
    let h = hops_of(m);
    RouterView {
        seen: seen3,
        self_id: v.self_id,
        nodes,
        stats: MeshStats {
            unique_nodes_seen: count_u32(nodes.len()),
            total_hops_observed: if h > 0 { add_u64(v.stats.total_hops_observed, h) } else { v.stats.total_hops_observed },
            hop_count_samples: if h > 0 { inc_u64(v.stats.hop_count_samples) } else { v.stats.hop_count_samples },
            messages_received: if is_for_us_spec(v.self_id, m) { inc_u64(v.stats.messages_received) } else { v.stats.messages_received },
            ..v.stats
        },
    }
}

/// The state after `m` was turned away at time `now`: unchanged, but for
/// the cleanup that a full cache triggers.
pub open spec fn rejected_state(v: RouterView, m: MessageModel, now: u64) -> RouterView {
    if m.sender != v.self_id && m.ttl > 0 && !seen_contains(v.seen, m.id) && cache_pressed(v, m) {
        RouterView { seen: kept(v.seen, now), ..v }
    } else {
        v
    }
}


/// The message one forwarding step hands on: TTL one lower, or nothing when
/// the TTL is already zero.
pub open spec fn forward_model(m: MessageModel) -> Option<MessageModel> {
    if m.ttl > 0 {
        Some(MessageModel { ttl: (m.ttl - 1) as u8, ..m })
    } else {
        None
    }
}

/// The message after `k` forwarding steps, if it gets that far.
pub open spec fn forward_chain(m: MessageModel, k: nat) -> Option<MessageModel>
    decreases k,
{
    if k == 0 {
        Some(m)
    } else {
        match forward_chain(m, (k - 1) as nat) {
            Some(x) => forward_model(x),
            None => None,
        }
    }
}

/// A node never processes a message whose sender is the node itself.
pub proof fn lemma_self_exclusion(v: RouterView, m: MessageModel, now: u64)
    requires
        m.sender == v.self_id,
    ensures
        !admits(v, m, now),
{
}

/// A message whose identifier is in the seen-cache is turned away.
pub proof fn lemma_seen_rejected(v: RouterView, m: MessageModel, now: u64)
    requires
        seen_contains(v.seen, m.id),
    ensures
        !admits(v, m, now),
{
}

/// Once a message is accepted, its identifier is in the seen-cache, and any
/// later message with the same identifier is turned away.
pub proof fn lemma_dedup_idempotent(
    v: RouterView,
    m: MessageModel,
    now: u64,
    id: MessageId,
    sender: [u8; 32],
    m2: MessageModel,
    now2: u64,
)
    requires
        admits(v, m, now),
        id@ == m.id,
        m2.id == m.id,
    ensures
        seen_contains(admitted_state(v, m, now, id, sender).seen, m.id),
        !admits(admitted_state(v, m, now, id, sender), m2, now2),
{
    let seen1 = if cache_pressed(v, m) { kept(v.seen, now) } else { v.seen };
    let seen2 = seen1.push((id, now));
    let e = (id, now);
    assert(seen2[seen1.len() as int] == e);
    assert(seen2.contains(e));
    lemma_kept_contains(seen2, now, e);
    let s3 = admitted_state(v, m, now, id, sender).seen;
    assert(s3.contains(e));
    let i = choose|i: int| 0 <= i < s3.len() && s3[i] == e;
    assert(s3[i].0@ == m.id);
}

/// An entry that has not expired at time `now` stays in the seen-cache
/// through every router step taken at `now`: acceptance, rejection or
/// cleanup. So an identifier stays rejected until its entry expires.
pub proof fn lemma_entry_survives(
    v: RouterView,
    m: MessageModel,
    now: u64,
    id: MessageId,
    sender: [u8; 32],
    e: (MessageId, u64),
)
    requires
        v.seen.contains(e),
        !seen_expired(e.1, now),
    ensures
        kept(v.seen, now).contains(e),
        rejected_state(v, m, now).seen.contains(e),
        admitted_state(v, m, now, id, sender).seen.contains(e),
{
    lemma_kept_contains(v.seen, now, e);
    let seen1 = if cache_pressed(v, m) { kept(v.seen, now) } else { v.seen };
    let seen2 = seen1.push((id, now));
    assert(seen1.contains(e));
    let i = choose|i: int| 0 <= i < seen1.len() && seen1[i] == e;
    assert(seen2[i] == e);
    assert(seen2.contains(e));
    lemma_kept_contains(seen2, now, e);
}

/// Along a forwarding chain the TTL at hop `k` is the originator's TTL minus
/// `k`, and a message whose TTL reached zero is not forwarded further.
pub proof fn lemma_ttl_chain(m: MessageModel, k: nat)
    ensures
        k <= m.ttl ==> forward_chain(m, k) == Some(MessageModel { ttl: (m.ttl - k) as u8, ..m }),
        k > m.ttl ==> forward_chain(m, k) is None,
    decreases k,
{
    if k > 0 {
        lemma_ttl_chain(m, (k - 1) as nat);
    }
}

/// A message with TTL one is accepted when new, is forwarded once with TTL
/// zero, and that copy is turned away by every receiver.
pub proof fn lemma_ttl_one(v: RouterView, m: MessageModel, now: u64, w: RouterView, now2: u64)
    requires
        m.ttl == 1,
    ensures
        forward_model(m) == Some(MessageModel { ttl: 0, ..m }),
        !admits(w, MessageModel { ttl: 0, ..m }, now2),
{
}

/// With the seen-cache at its cap, a new SOS is admitted, while any other new
/// message is admitted only if the cleanup makes room.
pub proof fn lemma_full_cache(v: RouterView, m: MessageModel, now: u64)
    requires
        v.seen.len() >= MAX_SEEN_CACHE,
        m.sender != v.self_id,
        m.ttl > 0,
        !seen_contains(v.seen, m.id),
    ensures
        m.msg_type == MessageType::SOS ==> admits(v, m, now),
        m.msg_type != MessageType::SOS ==> (admits(v, m, now) <==> kept(v.seen, now).len() < MAX_SEEN_CACHE),
{
}

/// Flooding router with TTL hop limits and message deduplication.
pub struct Router {
    seen: Vec<(MessageId, u64)>,
    our_node_id: [u8; 32],
    all_nodes_seen: Vec<[u8; 32]>,
    pub stats: MeshStats,
    epoch: std::time::Instant,
}

impl View for Router {
    type V = RouterView;

    closed spec fn view(&self) -> RouterView {
        RouterView {
            seen: self.seen@,
            self_id: self.our_node_id@,
            nodes: self.all_nodes_seen@,
            stats: self.stats,
        }
    }
}

fn seen_has(seen: &Vec<(MessageId, u64)>, id: &[u8; 32]) -> (r: bool)
    ensures
        r == seen_contains(seen@, id@),
{
    let mut i: usize = 0;
    while i < seen.len()
        invariant
            0 <= i <= seen@.len(),
            forall|j: int| 0 <= j < i ==> (#[trigger] seen@[j]).0@ != id@,
        decreases seen@.len() - i,
    {
        if bytes_eq(&seen[i].0, id) {
            return true;
        }
        i = i + 1;
    }
    false
}

fn nodes_have(nodes: &Vec<[u8; 32]>, id: &[u8; 32]) -> (r: bool)
    ensures
        r == ids_contain(nodes@, id@),
{
    let mut i: usize = 0;
    while i < nodes.len()
        invariant
            0 <= i <= nodes@.len(),
            forall|j: int| 0 <= j < i ==> (#[trigger] nodes@[j])@ != id@,
        decreases nodes@.len() - i,
    {
        if bytes_eq(&nodes[i], id) {
            return true;
        }
        i = i + 1;
    }
    false
}

fn kept_entries(seen: &Vec<(MessageId, u64)>, now: u64) -> (r: Vec<(MessageId, u64)>)
    ensures
        r@ == kept(seen@, now),
{
    let mut out: Vec<(MessageId, u64)> = Vec::new();
    let mut i: usize = 0;
    while i < seen.len()
        invariant
            0 <= i <= seen@.len(),
            out@ == kept(seen@.subrange(0, i as int), now),
        decreases seen@.len() - i,
    {
        let e = seen[i];
        assert(seen@.subrange(0, i + 1).drop_last() =~= seen@.subrange(0, i as int));
        if !(now >= e.1 && now - e.1 > SEEN_EXPIRY_MS) {
            out.push(e);
        }
        i = i + 1;
    }
    assert(seen@.subrange(0, seen@.len() as int) =~= seen@);
    out
}

/// A cleanup keeps exactly the entries that have not expired.
pub proof fn lemma_kept_contains(s: Seq<(MessageId, u64)>, now: u64, e: (MessageId, u64))
    ensures
        kept(s, now).contains(e) <==> (s.contains(e) && !seen_expired(e.1, now)),
    decreases s.len(),
{
    if s.len() > 0 {
        lemma_kept_contains(s.drop_last(), now, e);
        assert(s =~= s.drop_last().push(s.last()));
        if s.drop_last().contains(e) {
            let i = choose|i: int| 0 <= i < s.drop_last().len() && s.drop_last()[i] == e;
            assert(s[i] == e);
        }
        if s.contains(e) && e != s.last() {
            let i = choose|i: int| 0 <= i < s.len() && s[i] == e;
            assert(s.drop_last()[i] == e);
        }
        let k = kept(s.drop_last(), now);
        if !seen_expired(s.last().1, now) {
            assert(k.push(s.last())[k.len() as int] == s.last());
            if k.contains(e) {
                let i = choose|i: int| 0 <= i < k.len() && k[i] == e;
                assert(k.push(s.last())[i] == e);
            }
            if k.push(s.last()).contains(e) && e != s.last() {
                let i = choose|i: int| 0 <= i < k.push(s.last()).len() && k.push(s.last())[i] == e;
                assert(k[i] == e);
            }
        }
    }
}

/// A cleanup never grows the cache.
pub proof fn lemma_kept_len(s: Seq<(MessageId, u64)>, now: u64)
    ensures
        kept(s, now).len() <= s.len(),
    decreases s.len(),
{
    if s.len() > 0 {
        lemma_kept_len(s.drop_last(), now);
    }
}

fn saturating_count(n: usize) -> (r: u32)
    ensures
        r == count_u32(n as nat),
{
    if n <= u32::MAX as usize { n as u32 } else { u32::MAX }
}

impl Router {
    /// A router for node `our_node_id`, which counts itself as seen.
    pub fn new(our_node_id: [u8; 32]) -> (r: Self)
        ensures
            r@.seen.len() == 0,
            r@.self_id == our_node_id@,
            r@.nodes == seq![our_node_id],
            r@.stats == (MeshStats { unique_nodes_seen: 1, ..MeshStats::zero_spec() }),
    {
        let mut all_nodes_seen: Vec<[u8; 32]> = Vec::new();
        all_nodes_seen.push(our_node_id);
        let mut stats = MeshStats::zero();
        stats.unique_nodes_seen = 1;
        let r = Router { seen: Vec::new(), our_node_id, all_nodes_seen, stats, epoch: monotonic_now() };
        assert(r@.nodes =~= seq![our_node_id]);
        r
    }

    /// Whether a message is addressed to us: broadcasts are, direct
    /// messages when the destination is our identifier.
    pub fn is_for_us(&self, msg: &MeshMessage) -> (r: bool)
        ensures
            r == is_for_us_spec(self@.self_id, msg@),
    {
        match &msg.destination {
            None => true,
            Some(dest) => bytes_eq(dest, &self.our_node_id),
        }
    }

    /// Whether a message travels on: broadcasts do, direct messages when the
    /// destination is another node.
    pub fn should_forward(&self, msg: &MeshMessage) -> (r: bool)
        ensures
            r == should_forward_spec(self@.self_id, msg@),
    {
        match &msg.destination {
            None => true,
            Some(dest) => !bytes_eq(dest, &self.our_node_id),
        }
    }

    /// Records the current number of connected peers.
    pub fn set_total_peers(&mut self, n: u32)
        ensures
            final(self)@ == (RouterView { stats: MeshStats { total_peers: n, ..old(self)@.stats }, ..old(self)@ }),
    {
        self.stats.total_peers = n;
    }

    /// The counters.
    pub fn stats(&self) -> (r: MeshStats)
        ensures
            r == self@.stats,
    {
        self.stats
    }

    /// Number of message identifiers in the seen-cache.
    pub fn seen_count(&self) -> (r: usize)
        ensures
            r == self@.seen.len(),
    {
        self.seen.len()
    }

    /// Drops the seen-cache entries older than `SEEN_EXPIRY_MS` at `now`.
    pub fn cleanup_at(&mut self, now: u64)
        ensures
            final(self)@ == (RouterView { seen: kept(old(self)@.seen, now), ..old(self)@ }),
    {
        self.seen = kept_entries(&self.seen, now);
    }

    /// Drops the expired seen-cache entries, by the wall clock.
    pub fn cleanup(&mut self)
        ensures
            exists|now: u64| final(self)@ == (RouterView { seen: #[trigger] kept(old(self)@.seen, now), ..old(self)@ }),
    {
        let now = clock_ms(&self.epoch);
        self.cleanup_at(now);
    }

    /// Decides whether a message is new to this node, at time `now`: not our
    /// own, TTL above zero, identifier not in the seen-cache, and room in the
    /// cache (an SOS is admitted even when it is full). On acceptance the
    /// identifier is recorded and the statistics are updated.
    pub fn should_process_at(&mut self, msg: &MeshMessage, now: u64) -> (r: bool)
        ensures
            r == admits(old(self)@, msg@, now),
            r ==> final(self)@ == admitted_state(old(self)@, msg@, now, msg.msg_id, msg.sender_id),
            !r ==> final(self)@ == rejected_state(old(self)@, msg@, now),
    {
        if bytes_eq(&msg.sender_id, &self.our_node_id) {
            return false;
        }
        let is_sos = msg.msg_type == MessageType::SOS;
        if msg.ttl == 0 {
            return false;
        }
        if seen_has(&self.seen, &msg.msg_id) {
            return false;
        }
        if !is_sos && self.seen.len() >= MAX_SEEN_CACHE {
            self.cleanup_at(now);
            if self.seen.len() >= MAX_SEEN_CACHE {
                return false;
            }
        }
        self.seen.push((msg.msg_id, now));
        if self.seen.len() > MAX_SEEN_CACHE {
            self.cleanup_at(now);
        }
        if !nodes_have(&self.all_nodes_seen, &msg.sender_id) {
            self.all_nodes_seen.push(msg.sender_id);
        }
        self.stats.unique_nodes_seen = saturating_count(self.all_nodes_seen.len());
        self.record_hops(msg);
        if self.is_for_us(msg) && self.stats.messages_received < u64::MAX {
            self.stats.messages_received = self.stats.messages_received + 1;
        }
        true
    }

    /// Like `should_process_at`, at the current wall-clock time.
    pub fn should_process(&mut self, msg: &MeshMessage) -> (r: bool)
        ensures
            exists|now: u64| {
                &&& r == admits(old(self)@, msg@, now)
                &&& r ==> final(self)@ == admitted_state(old(self)@, msg@, now, msg.msg_id, msg.sender_id)
                &&& !r ==> final(self)@ == rejected_state(old(self)@, msg@, now)
            },
    {
        let now = clock_ms(&self.epoch);
        self.should_process_at(msg, now)
    }

    fn record_hops(&mut self, msg: &MeshMessage)
        ensures
            final(self)@ == (RouterView {
                stats: MeshStats {
                    total_hops_observed: if hops_of(msg@) > 0 { add_u64(old(self)@.stats.total_hops_observed, hops_of(msg@)) } else { old(self)@.stats.total_hops_observed },
                    hop_count_samples: if hops_of(msg@) > 0 { inc_u64(old(self)@.stats.hop_count_samples) } else { old(self)@.stats.hop_count_samples },
                    ..old(self)@.stats
                },
                ..old(self)@
            }),
    {
        let initial = match msg.msg_type.initial_ttl() {
            Some(t) => t,
            None => return,
        };
        if initial > msg.ttl {
            let hops = (initial - msg.ttl) as u64;
            if self.stats.total_hops_observed <= u64::MAX - hops {
                self.stats.total_hops_observed = self.stats.total_hops_observed + hops;
            } else {
                self.stats.total_hops_observed = u64::MAX;
            }
            if self.stats.hop_count_samples < u64::MAX {
                self.stats.hop_count_samples = self.stats.hop_count_samples + 1;
            }
        }
    }

    /// A copy of `msg` with its TTL one lower, counted as relayed; `None`
    /// when the TTL is already zero.
    pub fn prepare_forward(&mut self, msg: &MeshMessage) -> (r: Option<MeshMessage>)
        ensures
            msg.ttl == 0 <==> r is None,
            r matches Some(f) ==> forward_model(msg@) == Some(f@),
            final(self)@ == (RouterView {
                stats: MeshStats {
                    messages_relayed: if msg.ttl > 0 { inc_u64(old(self)@.stats.messages_relayed) } else { old(self)@.stats.messages_relayed },
                    ..old(self)@.stats
                },
                ..old(self)@
            }),
    {
        let mut forwarded = crate::message::copy_message(msg);
        if forwarded.decrement_ttl() {
            if self.stats.messages_relayed < u64::MAX {
                self.stats.messages_relayed = self.stats.messages_relayed + 1;
            }
            Some(forwarded)
        } else {
            None
        }
    }
}

impl MeshStats {
    pub open spec fn zero_spec() -> MeshStats {
        MeshStats {
            total_peers: 0,
            messages_relayed: 0,
            messages_received: 0,
            unique_nodes_seen: 0,
            total_hops_observed: 0,
            hop_count_samples: 0,
        }
    }
}


/// A next-hop route towards one destination.
#[derive(Debug, Clone, Copy)]
pub struct RouteEntry {
    pub dest: [u8; 32],
    pub next_hop: [u8; 32],
    pub hop_count: u8,
    pub last_updated: u64,
}

/// A route is stale once more than `ROUTE_EXPIRY_MS` have passed.
pub open spec fn route_stale(t: u64, now: u64) -> bool {
    now >= t && now - t > ROUTE_EXPIRY_MS
}

/// A route is usable while less than `ROUTE_EXPIRY_MS` have passed.
pub open spec fn route_fresh(t: u64, now: u64) -> bool {
    now < t || now - t < ROUTE_EXPIRY_MS
}

/// Index of the route towards `dest`, or -1.
pub open spec fn find_route(s: Seq<RouteEntry>, dest: Seq<u8>) -> int
    decreases s.len(),
{
    if s.len() == 0 {
        -1
    } else if s.last().dest@ == dest {
        s.len() - 1
    } else {
        find_route(s.drop_last(), dest)
    }
}

/// The routes a cleanup at `now` keeps, in order.
pub open spec fn fresh_routes(s: Seq<RouteEntry>, now: u64) -> Seq<RouteEntry>
    decreases s.len(),
{
    if s.len() == 0 {
        Seq::empty()
    } else {
        let k = fresh_routes(s.drop_last(), now);
        if route_fresh(s.last().last_updated, now) { k.push(s.last()) } else { k }
    }
}

/// The table after a message from `origin` arrived through `via` having
/// travelled `hop_count` hops: a new route, or the old one replaced when the
/// new path is no longer or the old route is stale.
pub open spec fn updated_routes(s: Seq<RouteEntry>, origin: [u8; 32], via: [u8; 32], hop_count: u8, now: u64) -> Seq<RouteEntry> {
    let i = find_route(s, origin@);
    if i < 0 {
        s.push(RouteEntry { dest: origin, next_hop: via, hop_count, last_updated: now })
    } else if hop_count <= s[i].hop_count || route_stale(s[i].last_updated, now) {
        s.update(i, RouteEntry { dest: s[i].dest, next_hop: via, hop_count, last_updated: now })
    } else {
        s
    }
}

/// The next hop towards `dest` at `now`, if a fresh route is known.
pub open spec fn lookup_route(s: Seq<RouteEntry>, dest: Seq<u8>, now: u64) -> Option<[u8; 32]> {
    let i = find_route(s, dest);
    if i >= 0 && route_fresh(s[i].last_updated, now) {
        Some(s[i].next_hop)
    } else {
        None
    }
}

proof fn lemma_find_route_range(s: Seq<RouteEntry>, dest: Seq<u8>)
    ensures
        -1 <= find_route(s, dest) < s.len(),
        find_route(s, dest) >= 0 ==> s[find_route(s, dest)].dest@ == dest,
    decreases s.len(),
{
    if s.len() > 0 {
        lemma_find_route_range(s.drop_last(), dest);
    }
}

/// Routing table: the best known next hop towards each destination.
pub struct RoutingTable {
    routes: Vec<RouteEntry>,
    epoch: std::time::Instant,
}

impl View for RoutingTable {
    type V = Seq<RouteEntry>;

    closed spec fn view(&self) -> Seq<RouteEntry> {
        self.routes@
    }
}

impl RoutingTable {
    /// An empty table.
    pub fn new() -> (r: Self)
        ensures
            r@ == Seq::<RouteEntry>::empty(),
    {
        RoutingTable { routes: Vec::new(), epoch: monotonic_now() }
    }

    fn find(&self, dest: &[u8; 32]) -> (r: Option<usize>)
        ensures
            match r {
                Some(i) => find_route(self@, dest@) == i,
                None => find_route(self@, dest@) == -1,
            },
    {
        let mut i: usize = self.routes.len();
        assert(self.routes@.subrange(0, i as int) =~= self.routes@);
        while i > 0
            invariant
                0 <= i <= self.routes@.len(),
                find_route(self.routes@, dest@) == find_route(self.routes@.subrange(0, i as int), dest@),
            decreases i,
        {
            let ghost sub = self.routes@.subrange(0, i as int);
            assert(sub.drop_last() =~= self.routes@.subrange(0, i - 1));
            if bytes_eq(&self.routes[i - 1].dest, dest) {
                return Some(i - 1);
            }
            i = i - 1;
        }
        None
    }

    /// Records that a message from `origin` arrived through direct peer
    /// `via` after `hop_count` hops, at time `now`.
    pub fn update_route_at(&mut self, origin: [u8; 32], via: [u8; 32], hop_count: u8, now: u64)
        ensures
            final(self)@ == updated_routes(old(self)@, origin, via, hop_count, now),
    {
        proof {
            lemma_find_route_range(self@, origin@);
        }
        match self.find(&origin) {
            None => {
                self.routes.push(RouteEntry { dest: origin, next_hop: via, hop_count, last_updated: now });
            },
            Some(i) => {
                let e = self.routes[i];
                let stale = now >= e.last_updated && now - e.last_updated > ROUTE_EXPIRY_MS;
                if hop_count <= e.hop_count || stale {
                    self.routes.set(i, RouteEntry { dest: e.dest, next_hop: via, hop_count, last_updated: now });
                }
            },
        }
    }

    /// `update_route_at` at the current wall-clock time.
    pub fn update_route(&mut self, origin: [u8; 32], via: [u8; 32], hop_count: u8)
        ensures
            exists|now: u64| final(self)@ == #[trigger] updated_routes(old(self)@, origin, via, hop_count, now),
    {
        let now = clock_ms(&self.epoch);
        self.update_route_at(origin, via, hop_count, now);
    }

    /// The next hop towards `dest` at time `now`; `None` when unknown or expired.
    pub fn lookup_at(&self, dest: &[u8; 32], now: u64) -> (r: Option<[u8; 32]>)
        ensures
            r == lookup_route(self@, dest@, now),
    {
        proof {
            lemma_find_route_range(self@, dest@);
        }
        match self.find(dest) {
            None => None,
            Some(i) => {
                let e = self.routes[i];
                if now < e.last_updated || now - e.last_updated < ROUTE_EXPIRY_MS {
                    Some(e.next_hop)
                } else {
                    None
                }
            },
        }
    }

    /// `lookup_at` at the current wall-clock time.
    pub fn lookup(&self, dest: &[u8; 32]) -> (r: Option<[u8; 32]>)
        ensures
            exists|now: u64| r == #[trigger] lookup_route(self@, dest@, now),
    {
        let now = clock_ms(&self.epoch);
        self.lookup_at(dest, now)
    }

    /// Drops the routes that are no longer fresh at `now`.
    pub fn cleanup_at(&mut self, now: u64)
        ensures
            final(self)@ == fresh_routes(old(self)@, now),
    {
        let mut out: Vec<RouteEntry> = Vec::new();
        let mut i: usize = 0;
        while i < self.routes.len()
            invariant
                0 <= i <= self.routes@.len(),
                self.routes@ == old(self).routes@,
                out@ == fresh_routes(self.routes@.subrange(0, i as int), now),
            decreases self.routes@.len() - i,
        {
            let e = self.routes[i];
            assert(self.routes@.subrange(0, i + 1).drop_last() =~= self.routes@.subrange(0, i as int));
            if now < e.last_updated || now - e.last_updated < ROUTE_EXPIRY_MS {
                out.push(e);
            }
            i = i + 1;
        }
        assert(self.routes@.subrange(0, self.routes@.len() as int) =~= self.routes@);
        self.routes = out;
    }

    /// `cleanup_at` at the current wall-clock time.
    pub fn cleanup(&mut self)
        ensures
            exists|now: u64| final(self)@ == #[trigger] fresh_routes(old(self)@, now),
    {
        let now = clock_ms(&self.epoch);
        self.cleanup_at(now);
    }
}

} // verus!
