use vstd::prelude::*;
use vstd::slice::slice_subrange;
use crate::bytes::bytes_eq;
use crate::crypto::SessionKeys;
use crate::identity::{hex_encode, hex_of};

verus! {

/// A connected peer. `link` names the writer queue of its connection,
/// which the runtime around the engine owns; times are in milliseconds.
#[derive(Debug)]
pub struct PeerState {
    pub node_id: [u8; 32],
    pub display_name: String,
    pub addr: String,
    pub last_seen: u64,
    pub session_keys: Option<SessionKeys>,
    pub link: u64,
    pub bio: String,
    pub capabilities: Vec<String>,
    pub is_gateway: bool,
}

/// A peer is alive until more than `timeout` has passed since it was seen.
pub open spec fn alive(last_seen: u64, timeout: u64, now: u64) -> bool {
    now < last_seen || now - last_seen <= timeout
}

impl PeerState {
    /// A freshly connected peer, seen at `now`, without session or profile.
    pub fn new(node_id: [u8; 32], display_name: String, addr: String, link: u64, now: u64) -> (r: Self)
        ensures
            r.node_id == node_id,
            r.display_name@ == display_name@,
            r.addr@ == addr@,
            r.last_seen == now,
            r.session_keys is None,
            r.link == link,
            r.bio@.len() == 0,
            r.capabilities@.len() == 0,
            !r.is_gateway,
    {
        PeerState {
            node_id,
            display_name,
            addr,
            last_seen: now,
            session_keys: None,
            link,
            bio: String::new(),
            capabilities: Vec::new(),
            is_gateway: false,
        }
    }

    /// Records that the peer was heard from at `now`.
    pub fn touch(&mut self, now: u64)
        ensures
            *final(self) == (PeerState { last_seen: now, ..*old(self) }),
    {
        self.last_seen = now;
    }

    /// Whether at most `timeout` has passed since the peer was last seen.
    pub fn is_alive(&self, timeout: u64, now: u64) -> (r: bool)
        ensures
            r == alive(self.last_seen, timeout, now),
    {
        now < self.last_seen || now - self.last_seen <= timeout
    }

    /// The first four bytes of the identifier in hexadecimal.
    pub fn node_id_short(&self) -> (r: String)
        ensures
            r@ == hex_of(self.node_id@.subrange(0, 4)),
    {
        hex_encode(slice_subrange(&self.node_id, 0, 4))
    }
}

/// Index of the peer with identifier `id`, or -1.
pub open spec fn find_peer(s: Seq<PeerState>, id: Seq<u8>) -> int
    decreases s.len(),
{
    if s.len() == 0 {
        -1
    } else if s.last().node_id@ == id {
        s.len() - 1
    } else {
        find_peer(s.drop_last(), id)
    }
}

/// The peers still alive at `now`, in order.
pub open spec fn alive_peers(s: Seq<PeerState>, timeout: u64, now: u64) -> Seq<PeerState>
    decreases s.len(),
{
    if s.len() == 0 {
        Seq::empty()
    } else {
        let k = alive_peers(s.drop_last(), timeout, now);
        if alive(s.last().last_seen, timeout, now) { k.push(s.last()) } else { k }
    }
}

/// Identifiers of the peers no longer alive at `now`, in order.
pub open spec fn stale_ids(s: Seq<PeerState>, timeout: u64, now: u64) -> Seq<[u8; 32]>
    decreases s.len(),
{
    if s.len() == 0 {
        Seq::empty()
    } else {
        let k = stale_ids(s.drop_last(), timeout, now);
        if alive(s.last().last_seen, timeout, now) { k } else { k.push(s.last().node_id) }
    }
}

/// The (identifier, link) pairs of the peers, in order.
pub open spec fn links_of(s: Seq<PeerState>) -> Seq<([u8; 32], u64)> {
    s.map_values(|p: PeerState| (p.node_id, p.link))
}

pub proof fn lemma_find_peer(s: Seq<PeerState>, id: Seq<u8>)
    ensures
        -1 <= find_peer(s, id) < s.len(),
        find_peer(s, id) >= 0 ==> s[find_peer(s, id)].node_id@ == id,
        find_peer(s, id) < 0 ==> forall|i: int| 0 <= i < s.len() ==> (#[trigger] s[i]).node_id@ != id,
    decreases s.len(),
{
    if s.len() > 0 {
        lemma_find_peer(s.drop_last(), id);
        if find_peer(s, id) < 0 {
            assert forall|i: int| 0 <= i < s.len() implies (#[trigger] s[i]).node_id@ != id by {
                if i < s.len() - 1 {
                    assert(s.drop_last()[i] == s[i]);
                }
            }
        }
    }
}

/// No two records share a node identifier or a writer queue.
pub open spec fn peers_wf(s: Seq<PeerState>) -> bool {
    forall|i: int, j: int| 0 <= i < s.len() && 0 <= j < s.len() && i != j
        ==> (#[trigger] s[i]).node_id@ != (#[trigger] s[j]).node_id@ && s[i].link != s[j].link
}

/// Records keep their writer queues.
pub open spec fn same_links(old: Seq<PeerState>, new: Seq<PeerState>) -> bool {
    old.len() == new.len() && forall|i: int| 0 <= i < old.len() ==> (#[trigger] new[i]).link == old[i].link
}

/// No record but that of `id` uses writer queue `link`.
pub open spec fn link_free(s: Seq<PeerState>, link: u64, id: Seq<u8>) -> bool {
    forall|i: int| 0 <= i < s.len() && (#[trigger] s[i]).node_id@ != id ==> s[i].link != link
}

/// Replacing a record by one with the same identifier and a link no other
/// record uses keeps the records distinct.
pub proof fn lemma_peers_update(s: Seq<PeerState>, i: int, p: PeerState)
    requires
        peers_wf(s),
        0 <= i < s.len(),
        p.node_id@ == s[i].node_id@,
        link_free(s, p.link, p.node_id@),
    ensures
        peers_wf(s.update(i, p)),
{
    let u = s.update(i, p);
    assert forall|a: int, b: int| 0 <= a < u.len() && 0 <= b < u.len() && a != b
        implies (#[trigger] u[a]).node_id@ != (#[trigger] u[b]).node_id@ && u[a].link != u[b].link by {
        if a == i {
            assert(s[b].node_id@ != s[i].node_id@);
        } else if b == i {
            assert(s[a].node_id@ != s[i].node_id@);
        }
    }
}

/// Changing a record but for its identifier and link keeps records distinct.
pub proof fn lemma_peers_same(s: Seq<PeerState>, i: int, p: PeerState)
    requires
        peers_wf(s),
        0 <= i < s.len(),
        p.node_id@ == s[i].node_id@,
        p.link == s[i].link,
    ensures
        peers_wf(s.update(i, p)),
{
    assert forall|k: int| 0 <= k < s.len() && (#[trigger] s[k]).node_id@ != p.node_id@ implies s[k].link != p.link by {
        assert(k != i);
    }
    lemma_peers_update(s, i, p);
}

proof fn lemma_peers_push(s: Seq<PeerState>, p: PeerState)
    requires
        peers_wf(s),
        find_peer(s, p.node_id@) < 0,
        link_free(s, p.link, p.node_id@),
    ensures
        peers_wf(s.push(p)),
{
    lemma_find_peer(s, p.node_id@);
    let u = s.push(p);
    assert forall|a: int, b: int| 0 <= a < u.len() && 0 <= b < u.len() && a != b
        implies (#[trigger] u[a]).node_id@ != (#[trigger] u[b]).node_id@ && u[a].link != u[b].link by {
        if a < s.len() && b < s.len() {
            assert(u[a] == s[a] && u[b] == s[b]);
        } else if a < s.len() {
            assert(u[a] == s[a]);
        } else {
            assert(u[b] == s[b]);
        }
    }
}

proof fn lemma_peers_remove(s: Seq<PeerState>, i: int)
    requires
        peers_wf(s),
        0 <= i < s.len(),
    ensures
        peers_wf(s.remove(i)),
        forall|a: int| 0 <= a < s.remove(i).len() ==> #[trigger] s.contains(s.remove(i)[a]),
{
    let u = s.remove(i);
    assert forall|a: int, b: int| 0 <= a < u.len() && 0 <= b < u.len() && a != b
        implies (#[trigger] u[a]).node_id@ != (#[trigger] u[b]).node_id@ && u[a].link != u[b].link by {
        assert(u[a] == s[if a < i { a } else { a + 1 }]);
        assert(u[b] == s[if b < i { b } else { b + 1 }]);
    }
    assert forall|a: int| 0 <= a < u.len() implies #[trigger] s.contains(u[a]) by {
        assert(u[a] == s[if a < i { a } else { a + 1 }]);
    }
}

/// Pruning keeps records distinct, keeps only records that were there, and
/// reports each evicted identifier once.
pub proof fn lemma_prune_wf(s: Seq<PeerState>, timeout: u64, now: u64)
    requires
        peers_wf(s),
    ensures
        peers_wf(alive_peers(s, timeout, now)),
        forall|x: PeerState| #[trigger] alive_peers(s, timeout, now).contains(x) ==> s.contains(x),
        stale_ids(s, timeout, now).no_duplicates(),
        forall|x: [u8; 32]| #[trigger] stale_ids(s, timeout, now).contains(x)
            ==> exists|i: int| 0 <= i < s.len() && (#[trigger] s[i]).node_id == x,
    decreases s.len(),
{
    if s.len() > 0 {
        let d = s.drop_last();
        assert forall|a: int, b: int| 0 <= a < d.len() && 0 <= b < d.len() && a != b
            implies (#[trigger] d[a]).node_id@ != (#[trigger] d[b]).node_id@ && d[a].link != d[b].link by {
            assert(d[a] == s[a] && d[b] == s[b]);
        }
        lemma_prune_wf(d, timeout, now);
        let k = alive_peers(d, timeout, now);
        let last = s.last();
        assert forall|x: PeerState| #[trigger] d.contains(x) implies x.node_id@ != last.node_id@ && x.link != last.link by {
            let a = choose|a: int| 0 <= a < d.len() && d[a] == x;
            assert(s[a] == x);
        }
        if alive(last.last_seen, timeout, now) {
            let u = k.push(last);
            assert forall|a: int, b: int| 0 <= a < u.len() && 0 <= b < u.len() && a != b
                implies (#[trigger] u[a]).node_id@ != (#[trigger] u[b]).node_id@ && u[a].link != u[b].link by {
                if a < k.len() && b < k.len() {
                    assert(u[a] == k[a] && u[b] == k[b]);
                } else if a < k.len() {
                    assert(u[a] == k[a]);
                    assert(k.contains(k[a]));
                } else {
                    assert(u[b] == k[b]);
                    assert(k.contains(k[b]));
                }
            }
            assert forall|x: PeerState| #[trigger] u.contains(x) implies s.contains(x) by {
                let a = choose|a: int| 0 <= a < u.len() && u[a] == x;
                if a < k.len() {
                    assert(k[a] == x);
                    assert(k.contains(x));
                    let c = choose|c: int| 0 <= c < d.len() && d[c] == x;
                    assert(s[c] == x);
                } else {
                    assert(s[s.len() - 1] == x);
                }
            }
        } else {
            assert forall|x: PeerState| #[trigger] k.contains(x) implies s.contains(x) by {
                let c = choose|c: int| 0 <= c < d.len() && d[c] == x;
                assert(s[c] == x);
            }
            let t = stale_ids(d, timeout, now);
            let u = t.push(last.node_id);
            assert forall|x: [u8; 32]| #[trigger] t.contains(x) implies x != last.node_id by {
                let i = choose|i: int| 0 <= i < d.len() && (#[trigger] d[i]).node_id == x;
                assert(d.contains(d[i]));
            }
            assert forall|a: int, b: int| 0 <= a < u.len() && 0 <= b < u.len() && a != b implies u[a] != u[b] by {
                if a < t.len() && b < t.len() {
                } else if a < t.len() {
                    assert(t.contains(t[a]));
                } else {
                    assert(t.contains(t[b]));
                }
            }
            assert forall|x: [u8; 32]| #[trigger] u.contains(x)
                implies exists|i: int| 0 <= i < s.len() && (#[trigger] s[i]).node_id == x by {
                let a = choose|a: int| 0 <= a < u.len() && u[a] == x;
                if a < t.len() {
                    assert(t.contains(x));
                    let i = choose|i: int| 0 <= i < d.len() && (#[trigger] d[i]).node_id == x;
                    assert(s[i] == d[i]);
                } else {
                    assert(s[s.len() - 1].node_id == x);
                }
            }
        }
        if alive(last.last_seen, timeout, now) {
            let t = stale_ids(d, timeout, now);
            assert forall|x: [u8; 32]| #[trigger] t.contains(x)
                implies exists|i: int| 0 <= i < s.len() && (#[trigger] s[i]).node_id == x by {
                let i = choose|i: int| 0 <= i < d.len() && (#[trigger] d[i]).node_id == x;
                assert(s[i] == d[i]);
            }
        }
    }
}

/// The set of connected peers, at most one record per identifier.
pub struct PeerManager {
    peers: Vec<PeerState>,
}

impl View for PeerManager {
    type V = Seq<PeerState>;

    closed spec fn view(&self) -> Seq<PeerState> {
        self.peers@
    }
}

impl PeerManager {
    /// One record per identifier, one writer queue per record.
    pub open spec fn wf(&self) -> bool {
        peers_wf(self@)
    }

    /// No peers.
    pub fn new() -> (r: Self)
        ensures
            r.wf(),
            r@.len() == 0,
    {
        PeerManager { peers: Vec::new() }
    }

    fn index_of(&self, node_id: &[u8; 32]) -> (r: Option<usize>)
        ensures
            match r {
                Some(i) => find_peer(self@, node_id@) == i && i < self@.len(),
                None => find_peer(self@, node_id@) == -1,
            },
    {
        proof {
            lemma_find_peer(self@, node_id@);
        }
        let mut i: usize = self.peers.len();
        assert(self.peers@.subrange(0, i as int) =~= self.peers@);
        while i > 0
            invariant
                0 <= i <= self.peers@.len(),
                find_peer(self.peers@, node_id@) == find_peer(self.peers@.subrange(0, i as int), node_id@),
            decreases i,
        {
            assert(self.peers@.subrange(0, i as int).drop_last() =~= self.peers@.subrange(0, i - 1));
            if bytes_eq(&self.peers[i - 1].node_id, node_id) {
                return Some(i - 1);
            }
            i = i - 1;
        }
        None
    }

    /// Adds a peer, replacing the record with the same identifier if any.
    pub fn add(&mut self, peer: PeerState)
        requires
            old(self).wf(),
            link_free(old(self)@, peer.link, peer.node_id@),
        ensures
            final(self).wf(),
            find_peer(old(self)@, peer.node_id@) >= 0 ==> final(self)@ == old(self)@.update(find_peer(old(self)@, peer.node_id@), peer),
            find_peer(old(self)@, peer.node_id@) < 0 ==> final(self)@ == old(self)@.push(peer),
    {
        match self.index_of(&peer.node_id) {
            Some(i) => {
                proof {
                    lemma_find_peer(self.peers@, peer.node_id@);
                    lemma_peers_update(self.peers@, i as int, peer);
                }
                let _ = self.peers.remove(i);
                self.peers.insert(i, peer);
                assert(self.peers@ =~= old(self).peers@.update(i as int, peer));
            },
            None => {
                proof {
                    lemma_peers_push(self.peers@, peer);
                }
                self.peers.push(peer);
            },
        }
    }

    /// Removes and returns the peer with identifier `node_id`.
    pub fn remove(&mut self, node_id: &[u8; 32]) -> (r: Option<PeerState>)
        requires
            old(self).wf(),
        ensures
            final(self).wf(),
            find_peer(old(self)@, node_id@) < 0 ==> r is None && final(self)@ == old(self)@,
            find_peer(old(self)@, node_id@) >= 0 ==> r == Some(old(self)@[find_peer(old(self)@, node_id@)])
                && final(self)@ == old(self)@.remove(find_peer(old(self)@, node_id@)),
    {
        match self.index_of(node_id) {
            Some(i) => {
                proof {
                    lemma_peers_remove(self.peers@, i as int);
                }
                Some(self.peers.remove(i))
            },
            None => None,
        }
    }

    /// The peer with identifier `node_id`.
    pub fn get(&self, node_id: &[u8; 32]) -> (r: Option<&PeerState>)
        ensures
            find_peer(self@, node_id@) < 0 ==> r is None,
            find_peer(self@, node_id@) >= 0 ==> r == Some(&self@[find_peer(self@, node_id@)]),
    {
        match self.index_of(node_id) {
            Some(i) => Some(&self.peers[i]),
            None => None,
        }
    }

    /// Whether a peer with identifier `node_id` is known.
    pub fn contains(&self, node_id: &[u8; 32]) -> (r: bool)
        ensures
            r == (find_peer(self@, node_id@) >= 0),
    {
        self.index_of(node_id).is_some()
    }

    /// All peers.
    pub fn all(&self) -> (r: &[PeerState])
        ensures
            r@ == self@,
    {
        self.peers.as_slice()
    }

    /// Number of peers.
    pub fn count(&self) -> (r: usize)
        ensures
            r == self@.len(),
    {
        self.peers.len()
    }

    /// Removes the peers last seen more than `timeout` before `now` and returns
    /// their identifiers.
    pub fn prune_stale(&mut self, timeout: u64, now: u64) -> (r: Vec<[u8; 32]>)
        requires
            old(self).wf(),
        ensures
            final(self).wf(),
            final(self)@ == alive_peers(old(self)@, timeout, now),
            r@ == stale_ids(old(self)@, timeout, now),
            r@.no_duplicates(),
    {
        let mut kept: Vec<PeerState> = Vec::new();
        let mut stale: Vec<[u8; 32]> = Vec::new();
        let ghost all = self.peers@;
        while self.peers.len() > 0
            invariant
                all == old(self).peers@,
                self.peers@.len() <= all.len(),
                self.peers@ == all.subrange(all.len() - self.peers@.len(), all.len() as int),
                kept@ == alive_peers(all.subrange(0, all.len() - self.peers@.len()), timeout, now),
                stale@ == stale_ids(all.subrange(0, all.len() - self.peers@.len()), timeout, now),
            decreases self.peers@.len(),
        {
            let ghost done = all.len() - self.peers@.len();
            let p = self.peers.remove(0);
            assert(p == all[done]);
            assert(all.subrange(0, done + 1).drop_last() =~= all.subrange(0, done));
            assert(self.peers@ =~= all.subrange(done + 1, all.len() as int));
            if now < p.last_seen || now - p.last_seen <= timeout {
                kept.push(p);
            } else {
                stale.push(p.node_id);
            }
        }
        assert(all.subrange(0, all.len() as int) =~= all);
        proof {
            lemma_prune_wf(all, timeout, now);
        }
        self.peers = kept;
        stale
    }

    /// The (identifier, link) pair of every peer, for flooding.
    pub fn broadcast_senders(&self) -> (r: Vec<([u8; 32], u64)>)
        ensures
            r@ == links_of(self@),
    {
        let mut out: Vec<([u8; 32], u64)> = Vec::new();
        let mut i: usize = 0;
        while i < self.peers.len()
            invariant
                0 <= i <= self.peers@.len(),
                out@ == links_of(self.peers@.subrange(0, i as int)),
            decreases self.peers@.len() - i,
        {
            out.push((self.peers[i].node_id, self.peers[i].link));
            assert(links_of(self.peers@.subrange(0, i + 1)) =~= links_of(self.peers@.subrange(0, i as int)).push((self.peers@[i as int].node_id, self.peers@[i as int].link)));
            i = i + 1;
        }
        assert(self.peers@.subrange(0, self.peers@.len() as int) =~= self.peers@);
        out
    }

    /// The identifiers of all peers.
    pub fn peer_ids(&self) -> (r: Vec<[u8; 32]>)
        ensures
            r@ == self@.map_values(|p: PeerState| p.node_id),
    {
        let mut out: Vec<[u8; 32]> = Vec::new();
        let mut i: usize = 0;
        while i < self.peers.len()
            invariant
                0 <= i <= self.peers@.len(),
                out@ == self.peers@.subrange(0, i as int).map_values(|p: PeerState| p.node_id),
            decreases self.peers@.len() - i,
        {
            out.push(self.peers[i].node_id);
            assert(self.peers@.subrange(0, i + 1).map_values(|p: PeerState| p.node_id) =~= self.peers@.subrange(0, i as int).map_values(|p: PeerState| p.node_id).push(self.peers@[i as int].node_id));
            i = i + 1;
        }
        assert(self.peers@.subrange(0, self.peers@.len() as int) =~= self.peers@);
        out
    }

    /// Records that peer `node_id` was heard from at `now`; false when unknown.
    pub fn touch(&mut self, node_id: &[u8; 32], now: u64) -> (r: bool)
        requires
            old(self).wf(),
        ensures
            final(self).wf(),
            same_links(old(self)@, final(self)@),
            r == (find_peer(old(self)@, node_id@) >= 0),
            r ==> final(self)@ == old(self)@.update(find_peer(old(self)@, node_id@),
                PeerState { last_seen: now, ..old(self)@[find_peer(old(self)@, node_id@)] }),
            !r ==> final(self)@ == old(self)@,
    {
        match self.index_of(node_id) {
            None => false,
            Some(i) => {
                let mut p = self.peers.remove(i);
                p.last_seen = now;
                self.peers.insert(i, p);
                assert(self.peers@ =~= old(self).peers@.update(i as int, p));
                proof {
                    lemma_find_peer(old(self).peers@, node_id@);
                    lemma_peers_same(old(self).peers@, i as int, p);
                }
                true
            },
        }
    }

    /// Installs the session with peer `node_id`, which is heard from at
    /// `now`; false when unknown.
    pub fn install_session(&mut self, node_id: &[u8; 32], keys: SessionKeys, now: u64) -> (r: bool)
        requires
            old(self).wf(),
        ensures
            final(self).wf(),
            same_links(old(self)@, final(self)@),
            r == (find_peer(old(self)@, node_id@) >= 0),
            r ==> final(self)@ == old(self)@.update(find_peer(old(self)@, node_id@),
                PeerState { session_keys: Some(keys), last_seen: now, ..old(self)@[find_peer(old(self)@, node_id@)] }),
            !r ==> final(self)@ == old(self)@,
    {
        match self.index_of(node_id) {
            None => false,
            Some(i) => {
                let mut p = self.peers.remove(i);
                p.session_keys = Some(keys);
                p.last_seen = now;
                self.peers.insert(i, p);
                assert(self.peers@ =~= old(self).peers@.update(i as int, p));
                proof {
                    lemma_find_peer(old(self).peers@, node_id@);
                    lemma_peers_same(old(self).peers@, i as int, p);
                }
                true
            },
        }
    }

    /// Sets the gateway flag of peer `node_id`; false when unknown.
    pub fn set_gateway(&mut self, node_id: &[u8; 32], is_gateway: bool) -> (r: bool)
        requires
            old(self).wf(),
        ensures
            final(self).wf(),
            same_links(old(self)@, final(self)@),
            r == (find_peer(old(self)@, node_id@) >= 0),
            r ==> final(self)@ == old(self)@.update(find_peer(old(self)@, node_id@),
                PeerState { is_gateway, ..old(self)@[find_peer(old(self)@, node_id@)] }),
            !r ==> final(self)@ == old(self)@,
    {
        match self.index_of(node_id) {
            None => false,
            Some(i) => {
                let mut p = self.peers.remove(i);
                p.is_gateway = is_gateway;
                self.peers.insert(i, p);
                assert(self.peers@ =~= old(self).peers@.update(i as int, p));
                proof {
                    lemma_find_peer(old(self).peers@, node_id@);
                    lemma_peers_same(old(self).peers@, i as int, p);
                }
                true
            },
        }
    }

    /// Replaces the profile of peer `node_id`; false when unknown.
    pub fn set_profile(&mut self, node_id: &[u8; 32], display_name: String, bio: String, capabilities: Vec<String>) -> (r: bool)
        requires
            old(self).wf(),
        ensures
            final(self).wf(),
            same_links(old(self)@, final(self)@),
            r == (find_peer(old(self)@, node_id@) >= 0),
            r ==> final(self)@ == old(self)@.update(find_peer(old(self)@, node_id@),
                PeerState { display_name, bio, capabilities, ..old(self)@[find_peer(old(self)@, node_id@)] }),
            !r ==> final(self)@ == old(self)@,
    {
        match self.index_of(node_id) {
            None => false,
            Some(i) => {
                let mut p = self.peers.remove(i);
                p.display_name = display_name;
                p.bio = bio;
                p.capabilities = capabilities;
                self.peers.insert(i, p);
                assert(self.peers@ =~= old(self).peers@.update(i as int, p));
                proof {
                    lemma_find_peer(old(self).peers@, node_id@);
                    lemma_peers_same(old(self).peers@, i as int, p);
                }
                true
            },
        }
    }
}

} // verus!
