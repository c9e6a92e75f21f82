//! The peer directory: the federation peers that this node knows, whether
//! they can be reached, and what they offer.

use vstd::prelude::*;
use dashmap::DashMap;
use crate::outside::clock_now;

verus! {

/// Whether a peer can be asked.
#[derive(Debug, Clone, Copy, PartialEq, Eq, Structural)]
pub enum PeerStatus {
    /// The peer takes part in synchronisation and search.
    Active,
    /// The peer did not answer.
    Unreachable,
    /// The peer is shut out.
    Banned,
}

/// A federation peer.
#[derive(Debug)]
pub struct Peer {
    /// The node identifier that the peer claims.
    pub id: String,
    /// The base URL under which the peer answers.
    pub endpoint: String,
    /// When the peer was last heard of, in whole seconds since the epoch.
    pub last_seen: i64,
    /// Whether the peer can be asked.
    pub status: PeerStatus,
    /// What the peer offers.
    pub capabilities: Vec<String>,
}

/// A peer as plain values.
pub ghost struct PeerView {
    pub id: Seq<char>,
    pub endpoint: Seq<char>,
    pub last_seen: i64,
    pub status: PeerStatus,
    pub capabilities: Seq<Seq<char>>,
}

/// The texts of a list of strings.
pub open spec fn texts(v: Seq<String>) -> Seq<Seq<char>> {
    Seq::new(v.len(), |i: int| v[i]@)
}

/// The plain values of a list of peers.
pub open spec fn peer_views(v: Seq<Peer>) -> Seq<PeerView> {
    Seq::new(v.len(), |i: int| v[i]@)
}

impl View for Peer {
    type V = PeerView;

    open spec fn view(&self) -> PeerView {
        PeerView {
            id: self.id@,
            endpoint: self.endpoint@,
            last_seen: self.last_seen,
            status: self.status,
            capabilities: texts(self.capabilities@),
        }
    }
}

impl Clone for Peer {
    fn clone(&self) -> (r: Self)
        ensures
            r@ == self@,
    {
        let mut capabilities: Vec<String> = Vec::new();
        let mut i: usize = 0;
        while i < self.capabilities.len()
            invariant
                0 <= i <= self.capabilities@.len(),
                capabilities@.len() == i,
                forall|k: int| 0 <= k < i ==> capabilities@[k]@ == self.capabilities@[k]@,
            decreases self.capabilities.len() - i,
        {
            capabilities.push(self.capabilities[i].clone());
            i += 1;
        }
        proof {
            assert(texts(capabilities@) =~= texts(self.capabilities@));
        }
        Peer {
            id: self.id.clone(),
            endpoint: self.endpoint.clone(),
            last_seen: self.last_seen,
            status: self.status,
            capabilities,
        }
    }
}

/// What every accepted peer is taken to offer.
pub open spec fn default_capabilities() -> Seq<Seq<char>> {
    seq!["search"@, "sync"@]
}

/// The entry of a peer that has just been heard of: active, seen now.
pub open spec fn accepted(id: Seq<char>, endpoint: Seq<char>, now: i64) -> PeerView {
    PeerView {
        id,
        endpoint,
        last_seen: now,
        status: PeerStatus::Active,
        capabilities: default_capabilities(),
    }
}

/// The entry `p` with a new status, seen at `now`.
pub open spec fn with_status(p: PeerView, status: PeerStatus, now: i64) -> PeerView {
    PeerView { last_seen: now, status, ..p }
}

/// `values` are the entries of a directory, each once, `keys[i]` being the
/// key under which `values[i]` is held.
pub open spec fn lists(
    entries: Map<Seq<char>, PeerView>,
    keys: Seq<Seq<char>>,
    values: Seq<PeerView>,
) -> bool {
    &&& keys.len() == values.len()
    &&& keys.no_duplicates()
    &&& forall|k: Seq<char>| entries.dom().contains(k) <==> keys.contains(k)
    &&& forall|i: int| 0 <= i < keys.len() ==> values[i] == entries[#[trigger] keys[i]]
}

/// A directory without entries.
pub open spec fn no_entries() -> Map<Seq<char>, PeerView> {
    Map::empty()
}

/// `dashmap::DashMap`, the concurrent map that holds the directory.
#[verifier::external_type_specification]
#[verifier::external_body]
#[verifier::reject_recursive_types(K)]
#[verifier::reject_recursive_types(V)]
#[verifier::reject_recursive_types(S)]
pub struct ExDashMap<K, V, S>(DashMap<K, V, S>);

/// What a concurrent map of peers holds: for each key the entry under it.
pub uninterp spec fn peer_entries(m: DashMap<String, Peer>) -> Map<Seq<char>, PeerView>;

/// `DashMap::new`. Claimed: the new map holds nothing.
#[verifier::external_body]
fn peer_map_new() -> (r: DashMap<String, Peer>)
    ensures
        peer_entries(r) == no_entries(),
{
    DashMap::new()
}

/// `DashMap::insert`. Claimed: afterwards the key holds the given entry,
/// whether or not it held one before, and every other key holds what it held.
#[verifier::external_body]
fn peer_map_insert(m: &mut DashMap<String, Peer>, key: String, peer: Peer)
    ensures
        peer_entries(*final(m)) == peer_entries(*old(m)).insert(key@, peer@),
{
    m.insert(key, peer);
}

/// `DashMap::get`, the entry handed out as a copy. Claimed: the result is
/// the entry under the key, or `None` if the key holds none.
#[verifier::external_body]
fn peer_map_get(m: &DashMap<String, Peer>, key: &String) -> (r: Option<Peer>)
    ensures
        match r {
            Some(p) => peer_entries(*m).dom().contains(key@) && p@ == peer_entries(*m)[key@],
            None => !peer_entries(*m).dom().contains(key@),
        },
{
    m.get(key).map(|entry| entry.value().clone())
}

/// `DashMap::iter`, the entries handed out as copies. Claimed: every entry
/// of the map comes once; nothing is claimed of the order.
#[verifier::external_body]
fn peer_map_values(m: &DashMap<String, Peer>) -> (r: Vec<Peer>)
    ensures
        exists|keys: Seq<Seq<char>>| lists(peer_entries(*m), keys, peer_views(r@)),
{
    m.iter().map(|entry| entry.value().clone()).collect()
}

/// The peer directory of a node.
pub struct PeerManager {
    peers: DashMap<String, Peer>,
    local_node_id: String,
}

/// What a node answers when it is asked for its peers.
pub struct PeerListing {
    /// The identifier of the answering node.
    pub local_node_id: String,
    /// Its active peers.
    pub peers: Vec<Peer>,
}

/// The node identifiers under which a directory holds an active peer.
pub open spec fn active_ids(entries: Map<Seq<char>, PeerView>) -> Set<Seq<char>> {
    Set::new(|k: Seq<char>| entries.dom().contains(k) && entries[k].status == PeerStatus::Active)
}

/// The node identifiers of a list of peers.
pub open spec fn peer_ids(peers: Seq<Peer>) -> Seq<Seq<char>> {
    Seq::new(peers.len(), |i: int| peers[i]@.id)
}

/// `peers` are exactly the active entries of a directory, each once: as
/// many as the directory holds active peers.
pub open spec fn active_listing(entries: Map<Seq<char>, PeerView>, peers: Seq<Peer>) -> bool {
    &&& peers.len() == active_ids(entries).len()
    &&& forall|i: int|
        0 <= i < peers.len() ==> entries.dom().contains((#[trigger] peers[i])@.id)
            && entries[peers[i]@.id] == peers[i]@ && peers[i]@.status == PeerStatus::Active
    &&& forall|k: Seq<char>|
        entries.dom().contains(k) && (#[trigger] entries[k]).status == PeerStatus::Active
            ==> exists|i: int| 0 <= i < peers.len() && (#[trigger] peers[i])@ == entries[k]
    &&& forall|i: int, j: int|
        0 <= i < j < peers.len() ==> (#[trigger] peers[i])@.id != (#[trigger] peers[j])@.id
}

impl PeerManager {
    /// The entries of the directory, by node identifier.
    pub closed spec fn entries(&self) -> Map<Seq<char>, PeerView> {
        peer_entries(self.peers)
    }

    /// The identifier of this node.
    pub closed spec fn node_id(&self) -> Seq<char> {
        self.local_node_id@
    }

    /// The invariant of the directory: every entry is held under its own
    /// node identifier.
    pub open spec fn wf(&self) -> bool {
        forall|k: Seq<char>| self.entries().dom().contains(k) ==> (#[trigger] self.entries()[k]).id == k
    }

    /// An empty directory for the node with the given identifier.
    pub fn new(local_node_id: String) -> (m: Self)
        ensures
            m.wf(),
            m.node_id() == local_node_id@,
            m.entries() == Map::<Seq<char>, PeerView>::empty(),
    {
        PeerManager { peers: peer_map_new(), local_node_id }
    }

    /// The identifier of this node.
    pub fn local_node_id(&self) -> (id: &String)
        ensures
            id@ == self.node_id(),
    {
        &self.local_node_id
    }

    /// Takes a peer in, or refreshes it, as heard of at `now`: whatever the
    /// directory held under `id`, it now holds an active peer with that
    /// identifier and endpoint, last seen at `now`. No other entry changes.
    pub fn add_peer_at(&mut self, id: String, endpoint: String, now: i64)
        requires
            old(self).wf(),
        ensures
            final(self).wf(),
            final(self).node_id() == old(self).node_id(),
            final(self).entries() == old(self).entries().insert(id@, accepted(id@, endpoint@, now)),
    {
        let mut capabilities: Vec<String> = Vec::new();
        capabilities.push("search".to_owned());
        capabilities.push("sync".to_owned());
        let key: String = id.clone();
        let peer = Peer { id, endpoint, last_seen: now, status: PeerStatus::Active, capabilities };
        proof {
            assert(texts(peer.capabilities@) =~= default_capabilities());
        }
        peer_map_insert(&mut self.peers, key, peer);
    }

    /// Takes a peer in, or refreshes it, as heard of at this moment (see
    /// [`PeerManager::add_peer_at`]). The identifier is taken as claimed.
    pub fn add_peer(&mut self, id: String, endpoint: String)
        requires
            old(self).wf(),
        ensures
            final(self).wf(),
            final(self).node_id() == old(self).node_id(),
            exists|now: i64|
                final(self).entries() == old(self).entries().insert(
                    id@,
                    #[trigger] accepted(id@, endpoint@, now),
                ),
    {
        let now: i64 = clock_now();
        self.add_peer_at(id, endpoint, now);
        proof {
            assert(final(self).entries() == old(self).entries().insert(
                id@,
                accepted(id@, endpoint@, now),
            ));
        }
    }

    /// The active peers: every entry whose status is `Active`, each once, in
    /// no stated order.
    pub fn get_active_peers(&self) -> (r: Vec<Peer>)
        requires
            self.wf(),
        ensures
            active_listing(self.entries(), r@),
    {
        let all: Vec<Peer> = peer_map_values(&self.peers);
        let ghost keys: Seq<Seq<char>> = choose|keys: Seq<Seq<char>>|
            lists(self.entries(), keys, peer_views(all@));
        let ghost entries = self.entries();
        let mut out: Vec<Peer> = Vec::new();
        let ghost mut from: Seq<int> = Seq::empty();
        let mut j: usize = 0;
        while j < all.len()
            invariant
                0 <= j <= all@.len(),
                self.wf(),
                entries == self.entries(),
                lists(entries, keys, peer_views(all@)),
                from.len() == out@.len(),
                forall|i: int|
                    0 <= i < out@.len() ==> 0 <= #[trigger] from[i] < j && out@[i]@ == all@[from[i]]@
                        && out@[i]@.status == PeerStatus::Active,
                forall|a: int, b: int| 0 <= a < b < from.len() ==> from[a] < from[b],
                forall|a: int|
                    0 <= a < j && (#[trigger] all@[a])@.status == PeerStatus::Active ==> exists|
                        i: int,
                    | 0 <= i < out@.len() && from[i] == a,
            decreases all.len() - j,
        {
            if all[j].status == PeerStatus::Active {
                let ghost before = out@;
                let ghost from_before = from;
                out.push(all[j].clone());
                proof {
                    from = from.push(j as int);
                    assert forall|i: int| 0 <= i < out@.len() implies 0 <= #[trigger] from[i] < j
                        + 1 && out@[i]@ == all@[from[i]]@ && out@[i]@.status
                        == PeerStatus::Active by {
                        if i < before.len() {
                            assert(from[i] == from_before[i]);
                            assert(out@[i] == before[i]);
                        } else {
                            assert(from[i] == j);
                        }
                    }
                    assert forall|a: int|
                        0 <= a < j + 1 && (#[trigger] all@[a])@.status
                            == PeerStatus::Active implies exists|i: int|
                        0 <= i < out@.len() && from[i] == a by {
                        if a < j {
                            let i = choose|i: int| 0 <= i < before.len() && from_before[i] == a;
                            assert(from[i] == a);
                        } else {
                            assert(from[out@.len() - 1] == a);
                        }
                    }
                }
            }
            j += 1;
        }
        proof {
            let views = peer_views(all@);
            assert forall|i: int| 0 <= i < out@.len() implies entries.dom().contains(
                (#[trigger] out@[i])@.id,
            ) && entries[out@[i]@.id] == out@[i]@ && out@[i]@.status == PeerStatus::Active by {
                let a = from[i];
                assert(keys.contains(keys[a]));
                assert(views[a] == entries[keys[a]]);
            }
            assert forall|k: Seq<char>|
                entries.dom().contains(k) && (#[trigger] entries[k]).status
                    == PeerStatus::Active implies exists|i: int|
                0 <= i < out@.len() && (#[trigger] out@[i])@ == entries[k] by {
                assert(keys.contains(k));
                let a = choose|a: int| 0 <= a < keys.len() && keys[a] == k;
                assert(views[a] == entries[keys[a]]);
                assert(all@[a]@.status == PeerStatus::Active);
                let i = choose|i: int| 0 <= i < out@.len() && from[i] == a;
                assert(out@[i]@ == entries[k]);
            }
            assert forall|i: int, j: int| 0 <= i < j < out@.len() implies (#[trigger] out@[i])@.id
                != (#[trigger] out@[j])@.id by {
                let a = from[i];
                let b = from[j];
                assert(keys.contains(keys[a]));
                assert(keys.contains(keys[b]));
                assert(views[a] == entries[keys[a]]);
                assert(views[b] == entries[keys[b]]);
                assert(keys[a] != keys[b]);
            }
            let ids = peer_ids(out@);
            assert(ids.no_duplicates());
            ids.unique_seq_to_set();
            assert forall|k: Seq<char>| ids.to_set().contains(k) <==> active_ids(entries).contains(
                k,
            ) by {
                if ids.to_set().contains(k) {
                    let i = choose|i: int| 0 <= i < ids.len() && ids[i] == k;
                    assert(out@[i]@.id == k);
                }
                if active_ids(entries).contains(k) {
                    assert(entries[k].status == PeerStatus::Active);
                    let i = choose|i: int| 0 <= i < out@.len() && (#[trigger] out@[i])@ == entries[k];
                    assert(ids[i] == k);
                }
            }
            assert(ids.to_set() =~= active_ids(entries));
        }
        out
    }

    /// Gives the peer under `id`, if there is one, the given status, as
    /// heard of at `now`. A directory without that peer stays as it is.
    /// Returns whether the peer was there.
    pub fn set_status_at(&mut self, id: &String, status: PeerStatus, now: i64) -> (known: bool)
        requires
            old(self).wf(),
        ensures
            final(self).wf(),
            final(self).node_id() == old(self).node_id(),
            known == old(self).entries().dom().contains(id@),
            known ==> final(self).entries() == old(self).entries().insert(
                id@,
                with_status(old(self).entries()[id@], status, now),
            ),
            !known ==> final(self).entries() == old(self).entries(),
    {
        match peer_map_get(&self.peers, id) {
            Some(p) => {
                let peer = Peer {
                    id: p.id,
                    endpoint: p.endpoint,
                    last_seen: now,
                    status,
                    capabilities: p.capabilities,
                };
                peer_map_insert(&mut self.peers, id.clone(), peer);
                true
            },
            None => false,
        }
    }

    /// Notes that the peer under `id` was heard of at this moment: it is
    /// active again, last seen now. A directory without that peer stays as
    /// it is.
    pub fn update_last_seen(&mut self, id: &String)
        requires
            old(self).wf(),
        ensures
            final(self).wf(),
            final(self).node_id() == old(self).node_id(),
            old(self).entries().dom().contains(id@) ==> exists|now: i64|
                final(self).entries() == old(self).entries().insert(
                    id@,
                    #[trigger] with_status(old(self).entries()[id@], PeerStatus::Active, now),
                ),
            !old(self).entries().dom().contains(id@) ==> final(self).entries() == old(self).entries(),
    {
        let now: i64 = clock_now();
        let known: bool = self.set_status_at(id, PeerStatus::Active, now);
        proof {
            if known {
                assert(final(self).entries() == old(self).entries().insert(
                    id@,
                    with_status(old(self).entries()[id@], PeerStatus::Active, now),
                ));
            }
        }
    }

    /// Notes that the peer under `id` did not answer: its status becomes
    /// `Unreachable`; when it was last seen stays. A directory without that
    /// peer stays as it is.
    pub fn mark_unreachable(&mut self, id: &String)
        requires
            old(self).wf(),
        ensures
            final(self).wf(),
            final(self).node_id() == old(self).node_id(),
            old(self).entries().dom().contains(id@) ==> final(self).entries() == old(self).entries().insert(
                id@,
                with_status(
                    old(self).entries()[id@],
                    PeerStatus::Unreachable,
                    old(self).entries()[id@].last_seen,
                ),
            ),
            !old(self).entries().dom().contains(id@) ==> final(self).entries() == old(self).entries(),
    {
        match peer_map_get(&self.peers, id) {
            Some(p) => {
                let seen: i64 = p.last_seen;
                self.set_status_at(id, PeerStatus::Unreachable, seen);
            },
            None => {},
        }
    }

    /// What this node answers when it is asked for its peers: its own
    /// identifier and its active peers. The answer is sent as JSON.
    pub fn get_peers_json(&self) -> (r: PeerListing)
        requires
            self.wf(),
        ensures
            r.local_node_id@ == self.node_id(),
            active_listing(self.entries(), r.peers@),
    {
        PeerListing { local_node_id: self.local_node_id.clone(), peers: self.get_active_peers() }
    }
}

} // verus!
