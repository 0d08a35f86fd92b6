//! The peer table of the node and the policy by which receipts are fetched
//! from its peers.
//!
//! The table keeps every connected peer once, in the order in which the
//! peers joined. A receipt request names a peer, or goes round-robin: the
//! peers are tried in table order from the remembered position on, each at
//! most once; the first answer wins and moves the position past the peer that
//! gave it, and peers found disconnected on the way are dropped from the table.

use vstd::prelude::*;

use crate::error::AppError;
use crate::network::peer::{PeerError, PeerInfo};
use crate::primitives::{prefixed_hex, prefixed_hex_text, PeerId};
use vstd::arithmetic::div_mod::{lemma_mod_multiples_vanish, lemma_small_mod};

verus! {

/// Why a session with a peer ended, by the devp2p disconnect reasons.
#[derive(Debug, Clone, Copy, PartialEq, Eq, Structural)]
pub enum DisconnectReason {
    DisconnectRequested,
    TcpSubsystemError,
    ProtocolBreach,
    UselessPeer,
    TooManyPeers,
    AlreadyConnected,
    IncompatibleP2PProtocolVersion,
    NullNodeIdentity,
    ClientQuitting,
    UnexpectedHandshakeIdentity,
    ConnectedToSelf,
    PingTimeout,
    SubprotocolSpecific,
}

/// Events broadcast to downstream consumers whenever the set of live peers
/// changes.
#[derive(Debug, Clone)]
pub enum ManagerEvent {
    /// A new peer session has been established and registered.
    PeerConnected(PeerInfo),
    /// A peer has been removed (session closed or connection dropped).
    PeerDisconnected(PeerInfo, Option<DisconnectReason>),
}

/// What the network layer reports about peers.
#[derive(Debug)]
pub enum NetworkEvent {
    /// A session with a peer has been established.
    ActivePeerSession(PeerInfo),
    /// A session has closed.
    SessionClosed { peer_id: PeerId, reason: Option<DisconnectReason> },
    /// A peer has been removed from the network's peer set.
    PeerRemoved(PeerId),
    /// A peer has been added and awaits its handshake.
    PeerAdded(PeerId),
    /// Any other report.
    Other,
}

/// No two entries of `peers` have the same id.
pub open spec fn ids_unique(peers: Seq<PeerInfo>) -> bool {
    forall|i: int, j: int| 0 <= i < j < peers.len() ==> peers[i].id != peers[j].id
}

/// Some entry of `peers` has the id `id`.
pub open spec fn holds_peer(peers: Seq<PeerInfo>, id: PeerId) -> bool {
    exists|i: int| 0 <= i < peers.len() && peers[i].id == id
}

/// The position of the entry with id `id` in `peers`.
pub open spec fn index_of(peers: Seq<PeerInfo>, id: PeerId) -> int {
    choose|i: int| 0 <= i < peers.len() && peers[i].id == id
}

/// The ids of `peers`, in order.
pub open spec fn ids_of(peers: Seq<PeerInfo>) -> Seq<PeerId> {
    peers.map_values(|p: PeerInfo| p.id)
}

/// The table after `info` joins: it replaces the entry with its id, or is
/// added at the end.
pub open spec fn after_connect(peers: Seq<PeerInfo>, info: PeerInfo) -> Seq<PeerInfo> {
    if holds_peer(peers, info.id) {
        peers.update(index_of(peers, info.id), info)
    } else {
        peers.push(info)
    }
}

/// The table after the entry with id `id` leaves.
pub open spec fn after_remove(peers: Seq<PeerInfo>, id: PeerId) -> Seq<PeerInfo> {
    peers.remove(index_of(peers, id))
}

/// The table without the entries whose ids are in `ids`.
pub open spec fn without_peers(peers: Seq<PeerInfo>, ids: Seq<PeerId>) -> Seq<PeerInfo> {
    peers.filter(|p: PeerInfo| !ids.contains(p.id))
}

/// The events that report the peers `ids` of `peers` as gone, in order.
pub open spec fn eviction_events(peers: Seq<PeerInfo>, ids: Seq<PeerId>) -> Seq<ManagerEvent> {
    ids.map_values(|id: PeerId| ManagerEvent::PeerDisconnected(peers[index_of(peers, id)], None))
}

/// In a table without repeated ids, the entry with a given id is the one at
/// its position.
pub proof fn lemma_index_of_unique(peers: Seq<PeerInfo>, i: int)
    requires
        ids_unique(peers),
        0 <= i < peers.len(),
    ensures
        holds_peer(peers, peers[i].id),
        index_of(peers, peers[i].id) == i,
{
    let id = peers[i].id;
    assert(0 <= i < peers.len() && peers[i].id == id);
    let j = index_of(peers, id);
    if j < i {
        assert(peers[j].id != peers[i].id);
    } else if i < j {
        assert(peers[i].id != peers[j].id);
    }
}

proof fn lemma_filter_keeps_unique(peers: Seq<PeerInfo>, ids: Seq<PeerId>)
    requires
        ids_unique(peers),
    ensures
        ids_unique(without_peers(peers, ids)),
    decreases peers.len(),
{
    reveal(Seq::filter);
    let pred = |p: PeerInfo| !ids.contains(p.id);
    if peers.len() > 0 {
        let rest = peers.drop_last();
        assert(ids_unique(rest)) by {
            assert forall|i: int, j: int| 0 <= i < j < rest.len() implies rest[i].id
                != rest[j].id by {
                assert(rest[i] == peers[i] && rest[j] == peers[j]);
            }
        }
        lemma_filter_keeps_unique(rest, ids);
        let sub = rest.filter(pred);
        assert(without_peers(rest, ids) == sub);
        if pred(peers.last()) {
            let out = sub.push(peers.last());
            assert forall|i: int, j: int| 0 <= i < j < out.len() implies out[i].id
                != out[j].id by {
                if j == out.len() - 1 {
                    assert(sub.contains(out[i]));
                    rest.lemma_filter_contains_rev(pred, out[i]);
                    let k = choose|k: int| 0 <= k < rest.len() && rest[k] == out[i];
                    assert(peers[k] == rest[k]);
                    assert(peers[k].id != peers[peers.len() - 1].id);
                } else {
                    assert(out[i] == sub[i] && out[j] == sub[j]);
                }
            }
        }
    }
}

/// After a peer joins, the table holds it with its new metadata, still holds
/// every peer once, and holds every other peer as before.
pub proof fn law_connect_registers(peers: Seq<PeerInfo>, info: PeerInfo)
    requires
        ids_unique(peers),
    ensures
        ids_unique(after_connect(peers, info)),
        holds_peer(after_connect(peers, info), info.id),
        after_connect(peers, info)[index_of(after_connect(peers, info), info.id)] == info,
        forall|id: PeerId|
            id != info.id ==> (#[trigger] holds_peer(after_connect(peers, info), id) == holds_peer(
                peers,
                id,
            )),
        forall|id: PeerId|
            id != info.id && #[trigger] holds_peer(peers, id) ==> after_connect(peers, info)[index_of(
                after_connect(peers, info),
                id,
            )] == peers[index_of(peers, id)],
{
    let after = after_connect(peers, info);
    if holds_peer(peers, info.id) {
        let k = index_of(peers, info.id);
        assert(ids_unique(after)) by {
            assert forall|a: int, b: int| 0 <= a < b < after.len() implies after[a].id
                != after[b].id by {
                assert(peers[a].id != peers[b].id);
            }
        }
        lemma_index_of_unique(after, k);
        assert forall|id: PeerId| id != info.id implies (#[trigger] holds_peer(after, id)
            == holds_peer(peers, id)) by {
            if holds_peer(peers, id) {
                let j = index_of(peers, id);
                assert(after[j] == peers[j]);
            }
            if holds_peer(after, id) {
                let j = index_of(after, id);
                assert(after[j] == peers[j]);
            }
        }
        assert forall|id: PeerId| id != info.id && #[trigger] holds_peer(peers, id) implies after[index_of(
            after,
            id,
        )] == peers[index_of(peers, id)] by {
            let j = index_of(peers, id);
            assert(after[j] == peers[j]);
            lemma_index_of_unique(after, j);
        }
    } else {
        assert(ids_unique(after)) by {
            assert forall|a: int, b: int| 0 <= a < b < after.len() implies after[a].id
                != after[b].id by {
                if b < peers.len() {
                    assert(peers[a].id != peers[b].id);
                } else {
                    assert(after[a] == peers[a]);
                }
            }
        }
        lemma_index_of_unique(after, peers.len() as int);
        assert forall|id: PeerId| id != info.id implies (#[trigger] holds_peer(after, id)
            == holds_peer(peers, id)) by {
            if holds_peer(peers, id) {
                let j = index_of(peers, id);
                assert(after[j] == peers[j]);
            }
            if holds_peer(after, id) {
                let j = index_of(after, id);
                assert(after[j] == peers[j]);
            }
        }
        assert forall|id: PeerId| id != info.id && #[trigger] holds_peer(peers, id) implies after[index_of(
            after,
            id,
        )] == peers[index_of(peers, id)] by {
            let j = index_of(peers, id);
            assert(after[j] == peers[j]);
            lemma_index_of_unique(after, j);
        }
    }
}

/// After a peer leaves, the table no longer holds it, and holds every other
/// peer as before.
pub proof fn law_remove_unregisters(peers: Seq<PeerInfo>, id: PeerId)
    requires
        ids_unique(peers),
        holds_peer(peers, id),
    ensures
        ids_unique(after_remove(peers, id)),
        !holds_peer(after_remove(peers, id), id),
        forall|other: PeerId|
            other != id ==> (#[trigger] holds_peer(after_remove(peers, id), other) == holds_peer(
                peers,
                other,
            )),
{
    let k = index_of(peers, id);
    let after = after_remove(peers, id);
    assert(0 <= k < peers.len() && peers[k].id == id);
    assert forall|a: int| 0 <= a < after.len() implies #[trigger] after[a] == peers[if a < k {
        a
    } else {
        a + 1
    }] by {}
    assert(ids_unique(after)) by {
        assert forall|a: int, b: int| 0 <= a < b < after.len() implies after[a].id != after[b].id by {
            let oa = if a < k { a } else { a + 1 };
            let ob = if b < k { b } else { b + 1 };
            assert(peers[oa].id != peers[ob].id);
        }
    }
    if holds_peer(after, id) {
        let j = index_of(after, id);
        let oj = if j < k { j } else { j + 1 };
        assert(peers[oj].id == id);
        if oj < k {
            assert(peers[oj].id != peers[k].id);
        } else {
            assert(peers[k].id != peers[oj].id);
        }
    }
    assert forall|other: PeerId| other != id implies (#[trigger] holds_peer(after, other)
        == holds_peer(peers, other)) by {
        if holds_peer(peers, other) {
            let j = index_of(peers, other);
            assert(j != k);
            let aj = if j < k { j } else { j - 1 };
            assert(after[aj] == peers[j]);
        }
        if holds_peer(after, other) {
            let j = index_of(after, other);
            assert(after[j] == peers[if j < k { j } else { j + 1 }]);
        }
    }
}

/// A peer that joins and then leaves leaves the table as it was.
pub proof fn law_connect_then_remove_restores(peers: Seq<PeerInfo>, info: PeerInfo)
    requires
        ids_unique(peers),
        !holds_peer(peers, info.id),
    ensures
        after_remove(after_connect(peers, info), info.id) == peers,
{
    let after = after_connect(peers, info);
    law_connect_registers(peers, info);
    lemma_index_of_unique(after, peers.len() as int);
    assert(after.remove(peers.len() as int) =~= peers);
}

/// Dropping the peers `ids` keeps exactly the peers that are not among them.
pub proof fn law_eviction_keeps_the_rest(peers: Seq<PeerInfo>, ids: Seq<PeerId>)
    requires
        ids_unique(peers),
    ensures
        ids_unique(without_peers(peers, ids)),
        forall|id: PeerId|
            #[trigger] holds_peer(without_peers(peers, ids), id) <==> holds_peer(peers, id)
                && !ids.contains(id),
{
    let pred = |p: PeerInfo| !ids.contains(p.id);
    let kept = without_peers(peers, ids);
    lemma_filter_keeps_unique(peers, ids);
    assert forall|id: PeerId| #[trigger] holds_peer(kept, id) <==> holds_peer(peers, id)
        && !ids.contains(id) by {
        if holds_peer(kept, id) {
            let j = index_of(kept, id);
            assert(kept.contains(kept[j]));
            peers.lemma_filter_contains_rev(pred, kept[j]);
            peers.lemma_filter_pred(pred, j);
            let k = choose|k: int| 0 <= k < peers.len() && peers[k] == kept[j];
            assert(peers[k].id == id);
        }
        if holds_peer(peers, id) && !ids.contains(id) {
            let k = index_of(peers, id);
            peers.lemma_filter_contains(pred, k);
            let j = choose|j: int| 0 <= j < kept.len() && kept[j] == peers[k];
            assert(kept[j].id == id);
        }
    }
}

/// Within one round-robin fetch the attempts ask pairwise different peers,
/// so no peer is asked twice.
pub proof fn law_round_robin_asks_each_peer_once(peers: Seq<PeerInfo>, start: nat, a: nat, b: nat)
    requires
        ids_unique(peers),
        start < peers.len(),
        a < b < peers.len(),
    ensures
        ids_of(peers)[((start + a) % peers.len()) as int] != ids_of(peers)[((start + b)
            % peers.len()) as int],
{
    let n = peers.len();
    let i = (start + a) % n;
    let j = (start + b) % n;
    assert(i != j) by {
        if start + a < n {
            lemma_small_mod((start + a) as nat, n);
        } else {
            lemma_mod_multiples_vanish(1, (start + a - n) as int, n as int);
            lemma_small_mod((start + a - n) as nat, n);
        }
        if start + b < n {
            lemma_small_mod((start + b) as nat, n);
        } else {
            lemma_mod_multiples_vanish(1, (start + b - n) as int, n as int);
            lemma_small_mod((start + b - n) as nat, n);
        }
    }
    assert(0 <= i < n && 0 <= j < n) by {
        vstd::arithmetic::div_mod::lemma_mod_bound((start + a) as int, n as int);
        vstd::arithmetic::div_mod::lemma_mod_bound((start + b) as int, n as int);
    }
    if i < j {
        assert(peers[i as int].id != peers[j as int].id);
    } else {
        assert(peers[j as int].id != peers[i as int].id);
    }
}

proof fn lemma_filter_nothing(peers: Seq<PeerInfo>)
    ensures
        without_peers(peers, Seq::<PeerId>::empty()) == peers,
    decreases peers.len(),
{
    reveal(Seq::filter);
    let none = Seq::<PeerId>::empty();
    if peers.len() > 0 {
        lemma_filter_nothing(peers.drop_last());
        assert(!none.contains(peers.last().id));
        assert(peers.drop_last().push(peers.last()) =~= peers);
    }
}

/// When a round-robin fetch ends with the answer of the peer at position
/// `idx` and found no peer disconnected, the table is left as it was and the
/// next round-robin fetch asks the peer after `idx` first (wrapping around).
pub proof fn law_round_robin_resumes_after_answer(peers: Seq<PeerInfo>, idx: nat)
    requires
        idx < peers.len(),
    ensures
        without_peers(peers, Seq::<PeerId>::empty()) == peers,
        ((idx + 1) % peers.len()) % peers.len() == (idx + 1) % peers.len(),
        (idx + 1 < peers.len() ==> (idx + 1) % peers.len() == idx + 1),
        (idx + 1 == peers.len() ==> (idx + 1) % peers.len() == 0),
{
    lemma_filter_nothing(peers);
    let n = peers.len();
    vstd::arithmetic::div_mod::lemma_mod_bound((idx + 1) as int, n as int);
    lemma_small_mod(((idx + 1) % n) as nat, n);
    if idx + 1 < n {
        lemma_small_mod((idx + 1) as nat, n);
    } else {
        vstd::arithmetic::div_mod::lemma_mod_self_0(n as int);
    }
}

/// The peers connected to the node.
pub struct PeerManager {
    peers: Vec<PeerInfo>,
    rr_index: usize,
}

impl PeerManager {
    /// The connected peers, in the order in which they joined.
    pub closed spec fn peers(&self) -> Seq<PeerInfo> {
        self.peers@
    }

    /// Where the next round-robin request starts.
    pub closed spec fn rr_index(&self) -> nat {
        self.rr_index as nat
    }

    /// Every peer is in the table once.
    pub open spec fn wf(&self) -> bool {
        ids_unique(self.peers())
    }

    /// An empty table.
    pub fn new() -> (r: PeerManager)
        ensures
            r.wf(),
            r.peers() == Seq::<PeerInfo>::empty(),
            r.rr_index() == 0,
    {
        PeerManager { peers: Vec::new(), rr_index: 0 }
    }

    /// Number of connected peers.
    pub fn len(&self) -> (r: usize)
        ensures
            r == self.peers().len(),
    {
        self.peers.len()
    }

    /// Position of the peer `id` in the table.
    pub fn position_of(&self, id: &PeerId) -> (r: Option<usize>)
        ensures
            match r {
                Some(i) => {
                    &&& i < self.peers().len()
                    &&& self.peers()[i as int].id == *id
                    &&& forall|j: int| 0 <= j < i ==> self.peers()[j].id != *id
                },
                None => !holds_peer(self.peers(), *id),
            },
    {
        let mut i: usize = 0;
        while i < self.peers.len()
            invariant
                i <= self.peers@.len(),
                forall|j: int| 0 <= j < i ==> self.peers@[j].id != *id,
            decreases self.peers@.len() - i,
        {
            if self.peers[i].id.same_as(id) {
                return Some(i);
            }
            i = i + 1;
        }
        None
    }

    /// Whether the peer `id` is connected.
    pub fn contains(&self, id: &PeerId) -> (r: bool)
        ensures
            r == holds_peer(self.peers(), *id),
    {
        match self.position_of(id) {
            Some(_) => true,
            None => false,
        }
    }

    /// Registers the peer of a new session and reports it as connected.
    pub fn on_peer_connected(&mut self, info: PeerInfo) -> (ev: ManagerEvent)
        requires
            old(self).wf(),
        ensures
            final(self).wf(),
            final(self).peers() == after_connect(old(self).peers(), info),
            final(self).rr_index() == old(self).rr_index(),
            ev == ManagerEvent::PeerConnected(info),
    {
        let reported = info.clone();
        match self.position_of(&info.id) {
            Some(i) => {
                proof {
                    lemma_index_of_unique(self.peers@, i as int);
                }
                self.peers.set(i, info);
                assert(ids_unique(self.peers@)) by {
                    assert forall|a: int, b: int| 0 <= a < b < self.peers@.len() implies self.peers@[a].id
                        != self.peers@[b].id by {
                        assert(old(self).peers@[a].id != old(self).peers@[b].id);
                    }
                }
            },
            None => {
                self.peers.push(info);
                assert(ids_unique(self.peers@)) by {
                    assert forall|a: int, b: int| 0 <= a < b < self.peers@.len() implies self.peers@[a].id
                        != self.peers@[b].id by {
                        if b < old(self).peers@.len() {
                            assert(old(self).peers@[a].id != old(self).peers@[b].id);
                        } else {
                            assert(old(self).peers@[a] == self.peers@[a]);
                        }
                    }
                }
            },
        }
        ManagerEvent::PeerConnected(reported)
    }

    /// Removes the peer `peer_id`, which must be in the table, and reports it
    /// as disconnected for `reason`.
    pub fn on_peer_removed(&mut self, peer_id: PeerId, reason: Option<DisconnectReason>) -> (ev:
        ManagerEvent)
        requires
            old(self).wf(),
            holds_peer(old(self).peers(), peer_id),
        ensures
            final(self).wf(),
            final(self).peers() == after_remove(old(self).peers(), peer_id),
            final(self).rr_index() == old(self).rr_index(),
            ev == ManagerEvent::PeerDisconnected(
                old(self).peers()[index_of(old(self).peers(), peer_id)],
                reason,
            ),
    {
        let i = self.position_of(&peer_id).unwrap();
        proof {
            lemma_index_of_unique(self.peers@, i as int);
        }
        let info = self.peers.remove(i);
        assert(ids_unique(self.peers@)) by {
            assert forall|a: int, b: int| 0 <= a < b < self.peers@.len() implies self.peers@[a].id
                != self.peers@[b].id by {
                let oa = if a < i { a } else { a + 1 };
                let ob = if b < i { b } else { b + 1 };
                assert(self.peers@[a] == old(self).peers@[oa]);
                assert(self.peers@[b] == old(self).peers@[ob]);
                assert(old(self).peers@[oa].id != old(self).peers@[ob].id);
            }
        }
        ManagerEvent::PeerDisconnected(info, reason)
    }

    /// Applies what the network layer reports to the table, and returns the
    /// event to broadcast, if any. A closed session or a removed peer that the
    /// table does not hold changes nothing.
    pub fn handle_network_event(&mut self, event: NetworkEvent) -> (r: Option<ManagerEvent>)
        requires
            old(self).wf(),
        ensures
            final(self).wf(),
            final(self).rr_index() == old(self).rr_index(),
            match event {
                NetworkEvent::ActivePeerSession(info) => {
                    &&& final(self).peers() == after_connect(old(self).peers(), info)
                    &&& r == Some(ManagerEvent::PeerConnected(info))
                },
                NetworkEvent::SessionClosed { peer_id, reason } => if holds_peer(
                    old(self).peers(),
                    peer_id,
                ) {
                    &&& final(self).peers() == after_remove(old(self).peers(), peer_id)
                    &&& r == Some(
                        ManagerEvent::PeerDisconnected(
                            old(self).peers()[index_of(old(self).peers(), peer_id)],
                            reason,
                        ),
                    )
                } else {
                    final(self).peers() == old(self).peers() && r is None
                },
                NetworkEvent::PeerRemoved(peer_id) => if holds_peer(old(self).peers(), peer_id) {
                    &&& final(self).peers() == after_remove(old(self).peers(), peer_id)
                    &&& r == Some(
                        ManagerEvent::PeerDisconnected(
                            old(self).peers()[index_of(old(self).peers(), peer_id)],
                            None,
                        ),
                    )
                } else {
                    final(self).peers() == old(self).peers() && r is None
                },
                _ => final(self).peers() == old(self).peers() && r is None,
            },
    {
        match event {
            NetworkEvent::ActivePeerSession(info) => Some(self.on_peer_connected(info)),
            NetworkEvent::SessionClosed { peer_id, reason } => {
                if self.contains(&peer_id) {
                    Some(self.on_peer_removed(peer_id, reason))
                } else {
                    None
                }
            },
            NetworkEvent::PeerRemoved(peer_id) => {
                if self.contains(&peer_id) {
                    Some(self.on_peer_removed(peer_id, None))
                } else {
                    None
                }
            },
            NetworkEvent::PeerAdded(_) => None,
            NetworkEvent::Other => None,
        }
    }

    /// A snapshot of the metadata of every connected peer, in table order.
    pub fn connected_peers(&self) -> (r: Vec<PeerInfo>)
        ensures
            r@ == self.peers(),
    {
        let mut out: Vec<PeerInfo> = Vec::new();
        let mut i: usize = 0;
        while i < self.peers.len()
            invariant
                i <= self.peers@.len(),
                out@ == self.peers@.take(i as int),
            decreases self.peers@.len() - i,
        {
            out.push(self.peers[i].clone());
            assert(out@ =~= self.peers@.take(i + 1));
            i = i + 1;
        }
        assert(self.peers@.take(self.peers@.len() as int) =~= self.peers@);
        out
    }

    /// The metadata of the peer `peer_id`, or a network error naming it.
    pub fn peer_info(&self, peer_id: &PeerId) -> (r: Result<&PeerInfo, AppError>)
        requires
            self.wf(),
        ensures
            holds_peer(self.peers(), *peer_id) ==> r == Ok::<&PeerInfo, AppError>(
                &self.peers()[index_of(self.peers(), *peer_id)],
            ),
            !holds_peer(self.peers(), *peer_id) ==> (r matches Err(AppError::Network(m)) && m@
                == "peer "@ + prefixed_hex(peer_id.bytes@) + " not found"@),
    {
        match self.position_of(peer_id) {
            Some(i) => {
                proof {
                    lemma_index_of_unique(self.peers@, i as int);
                }
                Ok(&self.peers[i])
            },
            None => {
                let mut m = String::from_str("peer ");
                m.append(prefixed_hex_text(&peer_id.bytes).as_str());
                m.append(" not found");
                Err(AppError::Network(m))
            },
        }
    }

    /// Drops the peers `ids`, all in the table, and returns the events that
    /// report them gone, in the order of `ids`.
    fn evict(&mut self, ids: &Vec<PeerId>) -> (events: Vec<ManagerEvent>)
        requires
            old(self).wf(),
            forall|k: int| 0 <= k < ids@.len() ==> holds_peer(old(self).peers(), #[trigger] ids@[k]),
        ensures
            final(self).wf(),
            final(self).peers() == without_peers(old(self).peers(), ids@),
            final(self).rr_index() == old(self).rr_index(),
            events@ == eviction_events(old(self).peers(), ids@),
    {
        let mut events: Vec<ManagerEvent> = Vec::new();
        let mut k: usize = 0;
        while k < ids.len()
            invariant
                k <= ids@.len(),
                self.wf(),
                forall|j: int| 0 <= j < ids@.len() ==> holds_peer(self.peers(), #[trigger] ids@[j]),
                events@ == eviction_events(self.peers(), ids@.take(k as int)),
            decreases ids@.len() - k,
        {
            proof {
                assert(holds_peer(self.peers(), ids@[k as int]));
            }
            let i = self.position_of(&ids[k]).unwrap();
            proof {
                lemma_index_of_unique(self.peers@, i as int);
            }
            events.push(ManagerEvent::PeerDisconnected(self.peers[i].clone(), None));
            assert(events@ =~= eviction_events(self.peers(), ids@.take(k + 1)));
            k = k + 1;
        }
        assert(ids@.take(ids@.len() as int) =~= ids@);
        let ghost pred = |p: PeerInfo| !ids@.contains(p.id);
        let mut kept: Vec<PeerInfo> = Vec::new();
        let mut i: usize = 0;
        while i < self.peers.len()
            invariant
                i <= self.peers@.len(),
                pred == (|p: PeerInfo| !ids@.contains(p.id)),
                kept@ == self.peers@.take(i as int).filter(pred),
            decreases self.peers@.len() - i,
        {
            let leaving = list_has(ids, &self.peers[i].id);
            proof {
                reveal(Seq::filter);
                assert(self.peers@.take(i + 1).drop_last() =~= self.peers@.take(i as int));
            }
            if !leaving {
                kept.push(self.peers[i].clone());
            }
            proof {
                let t = self.peers@.take(i + 1);
                assert(t.last() == self.peers@[i as int]);
                assert(pred(t.last()) == !leaving);
                assert(t.filter(pred) == (if pred(t.last()) {
                    t.drop_last().filter(pred).push(t.last())
                } else {
                    t.drop_last().filter(pred)
                }));
                assert(kept@ =~= t.filter(pred));
            }
            i = i + 1;
        }
        proof {
            assert(self.peers@.take(self.peers@.len() as int) =~= self.peers@);
            lemma_filter_keeps_unique(self.peers@, ids@);
        }
        self.peers = kept;
        events
    }
}

/// The next move of a receipt fetch.
#[derive(Debug)]
pub enum FetchStep<T> {
    /// Send the request to this peer, then report how it went.
    Ask(PeerId),
    /// The fetch is over: its result, and the events that report the peers
    /// dropped from the table on the way.
    Done(Result<T, PeerError>, Vec<ManagerEvent>),
}

/// A receipt fetch in progress.
pub struct ReceiptFetch {
    order: Vec<PeerId>,
    round_robin: bool,
    start: usize,
    attempt: usize,
    evicted: Vec<PeerId>,
    finished: bool,
    snapshot: Ghost<Seq<PeerInfo>>,
}

impl ReceiptFetch {
    /// The peers that the fetch may ask, in the order of the table.
    pub closed spec fn order(&self) -> Seq<PeerId> {
        self.order@
    }

    /// Whether the fetch goes round-robin rather than to a named peer.
    pub closed spec fn is_round_robin(&self) -> bool {
        self.round_robin
    }

    /// Position in `order` of the first peer asked.
    pub closed spec fn start(&self) -> nat {
        self.start as nat
    }

    /// How many peers have answered with an error so far.
    pub closed spec fn attempt(&self) -> nat {
        self.attempt as nat
    }

    /// The peers found disconnected so far, in the order they were asked.
    pub closed spec fn evicted(&self) -> Seq<PeerId> {
        self.evicted@
    }

    /// Whether the fetch is over.
    pub closed spec fn is_finished(&self) -> bool {
        self.finished
    }

    /// The table as it was when the fetch began.
    pub closed spec fn snapshot(&self) -> Seq<PeerInfo> {
        self.snapshot@
    }

    /// The peer that the current attempt asks.
    pub open spec fn current_peer(&self) -> PeerId {
        self.order()[((self.start() + self.attempt()) % self.order().len()) as int]
    }

    /// What holds of a fetch that is not over.
    pub open spec fn inv(&self) -> bool {
        !self.is_finished() ==> {
            &&& ids_unique(self.snapshot())
            &&& self.start() < self.order().len()
            &&& self.attempt() < self.order().len()
            &&& if self.is_round_robin() {
                &&& self.order() == ids_of(self.snapshot())
                &&& forall|k: int|
                    0 <= k < self.evicted().len() ==> holds_peer(
                        self.snapshot(),
                        #[trigger] self.evicted()[k],
                    )
            } else {
                &&& self.order().len() == 1
                &&& holds_peer(self.snapshot(), self.order()[0])
            }
        }
    }
}

/// `(start + attempt) % n`, computed without overflow.
fn slot(start: usize, attempt: usize, n: usize) -> (r: usize)
    requires
        start < n,
        attempt < n,
    ensures
        r == (start + attempt) % (n as int),
        r < n,
{
    if attempt < n - start {
        proof {
            lemma_small_mod((start + attempt) as nat, n as nat);
        }
        start + attempt
    } else {
        let r = attempt - (n - start);
        proof {
            lemma_mod_multiples_vanish(1, r as int, n as int);
            lemma_small_mod(r as nat, n as nat);
        }
        r
    }
}

impl PeerManager {
    /// Begins a receipt fetch from the peer `target`, or round-robin over all
    /// peers when there is none, and says whom to ask first.
    ///
    /// With no peer connected, or with a `target` that is not connected, the
    /// fetch fails at once as disconnected (naming the zero id, or `target`).
    /// A round-robin fetch first brings the remembered position within the
    /// table.
    pub fn begin_fetch<T>(&mut self, target: Option<PeerId>) -> (r: (ReceiptFetch, FetchStep<T>))
        requires
            old(self).wf(),
        ensures
            final(self).wf(),
            final(self).peers() == old(self).peers(),
            r.0.inv(),
            old(self).peers().len() == 0 ==> {
                &&& r.0.is_finished()
                &&& final(self).rr_index() == old(self).rr_index()
                &&& r.1 matches FetchStep::Done(res, evs) && evs@.len() == 0 && (res matches Err(
                    PeerError::Disconnected(z),
                ) && z.bytes@ == Seq::new(64, |i: int| 0u8))
            },
            old(self).peers().len() > 0 ==> match target {
                Some(id) => {
                    &&& final(self).rr_index() == old(self).rr_index()
                    &&& if holds_peer(old(self).peers(), id) {
                        &&& !r.0.is_finished()
                        &&& !r.0.is_round_robin()
                        &&& r.0.order() == seq![id]
                        &&& r.0.start() == 0
                        &&& r.0.attempt() == 0
                        &&& r.0.snapshot() == old(self).peers()
                        &&& r.1 matches FetchStep::Ask(p) && p == id
                    } else {
                        &&& r.0.is_finished()
                        &&& r.1 matches FetchStep::Done(res, evs) && evs@.len() == 0 && res
                            == Err::<T, PeerError>(PeerError::Disconnected(id))
                    }
                },
                None => {
                    &&& final(self).rr_index() == old(self).rr_index() % old(self).peers().len()
                    &&& !r.0.is_finished()
                    &&& r.0.is_round_robin()
                    &&& r.0.order() == ids_of(old(self).peers())
                    &&& r.0.start() == final(self).rr_index()
                    &&& r.0.attempt() == 0
                    &&& r.0.evicted() == Seq::<PeerId>::empty()
                    &&& r.0.snapshot() == old(self).peers()
                    &&& r.1 matches FetchStep::Ask(p)
                        && p == old(self).peers()[final(self).rr_index() as int].id
                },
            },
    {
        let ghost table = self.peers@;
        if self.peers.len() == 0 {
            let fetch = ReceiptFetch {
                order: Vec::new(),
                round_robin: false,
                start: 0,
                attempt: 0,
                evicted: Vec::new(),
                finished: true,
                snapshot: Ghost(table),
            };
            return (fetch, FetchStep::Done(Err(PeerError::Disconnected(PeerId::zero())), Vec::new()));
        }
        match target {
            Some(id) => {
                if self.contains(&id) {
                    let mut order = Vec::new();
                    order.push(id);
                    let fetch = ReceiptFetch {
                        order,
                        round_robin: false,
                        start: 0,
                        attempt: 0,
                        evicted: Vec::new(),
                        finished: false,
                        snapshot: Ghost(table),
                    };
                    assert(fetch.order@ =~= seq![id]);
                    (fetch, FetchStep::Ask(id))
                } else {
                    let fetch = ReceiptFetch {
                        order: Vec::new(),
                        round_robin: false,
                        start: 0,
                        attempt: 0,
                        evicted: Vec::new(),
                        finished: true,
                        snapshot: Ghost(table),
                    };
                    (fetch, FetchStep::Done(Err(PeerError::Disconnected(id)), Vec::new()))
                }
            },
            None => {
                let n = self.peers.len();
                let mut order: Vec<PeerId> = Vec::new();
                let mut i: usize = 0;
                while i < n
                    invariant
                        i <= n,
                        n == self.peers@.len(),
                        order@ == ids_of(self.peers@.take(i as int)),
                    decreases n - i,
                {
                    order.push(self.peers[i].id);
                    assert(order@ =~= ids_of(self.peers@.take(i + 1)));
                    i = i + 1;
                }
                assert(self.peers@.take(n as int) =~= self.peers@);
                self.rr_index = self.rr_index % n;
                let first = order[self.rr_index];
                let fetch = ReceiptFetch {
                    order,
                    round_robin: true,
                    start: self.rr_index,
                    attempt: 0,
                    evicted: Vec::new(),
                    finished: false,
                    snapshot: Ghost(table),
                };
                assert(fetch.evicted@ =~= Seq::<PeerId>::empty());
                (fetch, FetchStep::Ask(first))
            },
        }
    }

    /// Advances a fetch with how the request to its current peer went.
    ///
    /// A fetch from a named peer ends with that peer's outcome. A round-robin
    /// fetch ends with the first answer, moving the remembered position just
    /// past the peer that gave it; on an error it notes the peer if it was
    /// disconnected and asks the next peer in order, and after the last peer
    /// it ends with the last error. When a round-robin fetch ends, the peers
    /// noted as disconnected leave the table.
    pub fn continue_fetch<T>(&mut self, fetch: &mut ReceiptFetch, outcome: Result<T, PeerError>) -> (step:
        FetchStep<T>)
        requires
            old(self).wf(),
            old(fetch).inv(),
            !old(fetch).is_finished(),
            old(self).peers() == old(fetch).snapshot(),
        ensures
            final(self).wf(),
            final(fetch).inv(),
            final(fetch).snapshot() == old(fetch).snapshot(),
            final(fetch).order() == old(fetch).order(),
            final(fetch).is_round_robin() == old(fetch).is_round_robin(),
            final(fetch).start() == old(fetch).start(),
            !old(fetch).is_round_robin() ==> {
                &&& final(fetch).is_finished()
                &&& final(self).peers() == old(self).peers()
                &&& final(self).rr_index() == old(self).rr_index()
                &&& step matches FetchStep::Done(res, evs) && res == outcome && evs@.len() == 0
            },
            old(fetch).is_round_robin() ==> match outcome {
                Ok(_) => {
                    &&& final(fetch).is_finished()
                    &&& final(self).peers() == without_peers(old(self).peers(), old(fetch).evicted())
                    &&& final(self).rr_index() == ((old(fetch).start() + old(fetch).attempt())
                        % old(fetch).order().len() + 1) % old(fetch).order().len()
                    &&& step matches FetchStep::Done(res, evs) && res == outcome && evs@
                        == eviction_events(old(self).peers(), old(fetch).evicted())
                },
                Err(e) => {
                    let noted = if e is Disconnected {
                        old(fetch).evicted().push(old(fetch).current_peer())
                    } else {
                        old(fetch).evicted()
                    };
                    if old(fetch).attempt() + 1 < old(fetch).order().len() {
                        &&& !final(fetch).is_finished()
                        &&& final(fetch).attempt() == old(fetch).attempt() + 1
                        &&& final(fetch).evicted() == noted
                        &&& final(self).peers() == old(self).peers()
                        &&& final(self).rr_index() == old(self).rr_index()
                        &&& step matches FetchStep::Ask(p) && p == final(fetch).current_peer()
                    } else {
                        &&& final(fetch).is_finished()
                        &&& final(self).peers() == without_peers(old(self).peers(), noted)
                        &&& final(self).rr_index() == old(self).rr_index()
                        &&& step matches FetchStep::Done(res, evs) && res == outcome && evs@
                            == eviction_events(old(self).peers(), noted)
                    }
                },
            },
    {
        if !fetch.round_robin {
            fetch.finished = true;
            return FetchStep::Done(outcome, Vec::new());
        }
        let n = fetch.order.len();
        let idx = slot(fetch.start, fetch.attempt, n);
        match outcome {
            Ok(v) => {
                proof {
                    assert forall|k: int| 0 <= k < fetch.evicted@.len() implies holds_peer(
                        self.peers(),
                        #[trigger] fetch.evicted@[k],
                    ) by {
                        assert(fetch.evicted()[k] == fetch.evicted@[k]);
                    }
                }
                let events = self.evict(&fetch.evicted);
                self.rr_index = (idx + 1) % n;
                fetch.finished = true;
                FetchStep::Done(Ok(v), events)
            },
            Err(e) => {
                let ghost before = fetch.evicted@;
                proof {
                    assert forall|k: int| 0 <= k < before.len() implies holds_peer(
                        self.peers(),
                        #[trigger] before[k],
                    ) by {
                        assert(fetch.evicted()[k] == before[k]);
                    }
                }
                let disconnected = match &e {
                    PeerError::Disconnected(_) => true,
                    _ => false,
                };
                if disconnected {
                    let asked = fetch.order[idx];
                    proof {
                        lemma_index_of_unique(fetch.snapshot@, idx as int);
                        assert(asked == ids_of(fetch.snapshot@)[idx as int]);
                    }
                    fetch.evicted.push(asked);
                }
                assert(forall|k: int| 0 <= k < fetch.evicted@.len() ==> holds_peer(
                    self.peers(),
                    #[trigger] fetch.evicted@[k],
                )) by {
                    assert forall|k: int| 0 <= k < fetch.evicted@.len() implies holds_peer(
                        self.peers(),
                        #[trigger] fetch.evicted@[k],
                    ) by {
                        if k < before.len() {
                            assert(fetch.evicted@[k] == before[k]);
                        }
                    }
                }
                if fetch.attempt + 1 < n {
                    fetch.attempt = fetch.attempt + 1;
                    let next = slot(fetch.start, fetch.attempt, n);
                    FetchStep::Ask(fetch.order[next])
                } else {
                    let events = self.evict(&fetch.evicted);
                    fetch.finished = true;
                    FetchStep::Done(Err(e), events)
                }
            },
        }
    }
}

/// How a reply from the manager task reached a caller of its handle.
#[derive(Debug)]
pub enum Delivery<T> {
    /// The command could not be sent: the manager task is gone.
    ManagerGone,
    /// The manager dropped the reply channel without answering.
    ReplyDropped,
    /// The manager replied.
    Replied(T),
}

/// The result of a receipt fetch from the peer `peer_id` through the manager
/// handle.
pub fn settle_peer_receipts<T>(peer_id: PeerId, delivery: Delivery<Result<T, PeerError>>) -> (r: Result<T, PeerError>)
    ensures
        match delivery {
            Delivery::ManagerGone => r == Err::<T, PeerError>(PeerError::Disconnected(peer_id)),
            Delivery::ReplyDropped => r == Err::<T, PeerError>(
                PeerError::ResponseChannelClosed(peer_id),
            ),
            Delivery::Replied(res) => r == res,
        },
{
    match delivery {
        Delivery::ManagerGone => Err(PeerError::Disconnected(peer_id)),
        Delivery::ReplyDropped => Err(PeerError::ResponseChannelClosed(peer_id)),
        Delivery::Replied(res) => res,
    }
}

/// The result of a receipt fetch from any peer through the manager handle:
/// every failure becomes a network error with its message.
pub fn settle_receipts<T>(delivery: Delivery<Result<T, PeerError>>) -> (r: Result<T, AppError>)
    ensures
        match delivery {
            Delivery::ManagerGone => r matches Err(AppError::Network(m)) && m@
                == "manager task is gone"@,
            Delivery::ReplyDropped => r matches Err(AppError::Network(m)) && m@
                == "receipt reply channel dropped"@,
            Delivery::Replied(Ok(v)) => r == Ok::<T, AppError>(v),
            Delivery::Replied(Err(e)) => r matches Err(AppError::Network(m)) && m@
                == crate::network::peer::peer_error_text(e),
        },
{
    match delivery {
        Delivery::ManagerGone => Err(AppError::Network(String::from_str("manager task is gone"))),
        Delivery::ReplyDropped => Err(
            AppError::Network(String::from_str("receipt reply channel dropped")),
        ),
        Delivery::Replied(Ok(v)) => Ok(v),
        Delivery::Replied(Err(e)) => Err(AppError::Network(e.message())),
    }
}

/// The list of connected peers asked of the manager through its handle.
pub fn settle_peer_list(delivery: Delivery<Vec<PeerInfo>>) -> (r: Result<Vec<PeerInfo>, AppError>)
    ensures
        match delivery {
            Delivery::ManagerGone => r matches Err(AppError::Network(m)) && m@
                == "manager task is gone"@,
            Delivery::ReplyDropped => r matches Err(AppError::Network(m)) && m@
                == "peer list reply channel dropped"@,
            Delivery::Replied(v) => r == Ok::<Vec<PeerInfo>, AppError>(v),
        },
{
    match delivery {
        Delivery::ManagerGone => Err(AppError::Network(String::from_str("manager task is gone"))),
        Delivery::ReplyDropped => Err(
            AppError::Network(String::from_str("peer list reply channel dropped")),
        ),
        Delivery::Replied(v) => Ok(v),
    }
}

/// Whether `id` is one of `ids`.
fn list_has(ids: &Vec<PeerId>, id: &PeerId) -> (r: bool)
    ensures
        r == ids@.contains(*id),
{
    let mut k: usize = 0;
    while k < ids.len()
        invariant
            k <= ids@.len(),
            forall|j: int| 0 <= j < k ==> ids@[j] != *id,
        decreases ids@.len() - k,
    {
        if ids[k].same_as(id) {
            assert(ids@[k as int] == *id);
            return true;
        }
        k = k + 1;
    }
    false
}

} // verus!
