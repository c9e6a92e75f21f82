//! What a node says to its peers and what it makes of their answers: the
//! handshake, the peer listing, the addresses of a peer's services, and the
//! gathering of a federated search.

use vstd::prelude::*;
use vstd::string::StringExecFns;
use serde_json::Value;
use crate::outside::{id_string, id_text};
use crate::catalog::{first_with_id, lists_window};
use crate::log::WarcWriter;
use crate::peers::{accepted, active_listing, Peer, PeerListing, PeerManager};
use crate::snapshot::Snapshot;
use crate::sync::{AppState, ManifestResponse};

verus! {

/// `serde_json::Value`, carried through as it came and never looked into.
#[verifier::external_type_specification]
#[verifier::external_body]
pub struct ExValue(Value);

/// `<serde_json::Value as Clone>::clone`. Claimed: the copy is the same
/// value as the one copied.
#[verifier::external_body]
fn copy_value(v: &Value) -> (r: Value)
    ensures
        r == *v,
{
    v.clone()
}

/// What a peer sends to be taken in.
pub struct HandshakeRequest {
    /// The node identifier that the peer claims.
    pub node_id: String,
    /// The base URL under which the peer answers.
    pub endpoint: String,
}

/// What a node answers to a handshake.
pub struct HandshakeReply {
    /// Always `accepted`.
    pub status: String,
    /// The identifier of the answering node.
    pub local_node_id: String,
}

/// The parameters of a combined search.
pub struct FederatedSearchRequest {
    /// The search text.
    pub q: String,
}

/// A search as it is sent to the peers.
pub struct FederatedQuery {
    /// The search text.
    pub query: String,
    /// The number of peers to ask at most, where the caller limits it.
    pub max_instances: Option<usize>,
}

/// The results of one peer. The results are passed on as they came.
pub struct FederatedSearchResult {
    /// The peer that gave the results.
    pub source_node_id: String,
    /// What it gave, in its order.
    pub results: Vec<Value>,
}

/// The window and the limit of a manifest request. What is left out takes
/// its default.
pub struct ManifestRequest {
    /// The start of the window, in seconds since the epoch.
    pub from: Option<i64>,
    /// The end of the window, in seconds since the epoch.
    pub to: Option<i64>,
    /// The number of snapshots to list at most.
    pub limit: Option<usize>,
}

/// A combined search result: what this node found and what its peers found.
pub struct CombinedSearch {
    /// The results of this node.
    pub local: Vec<Value>,
    /// The results of the peers that answered.
    pub federated: Vec<FederatedSearchResult>,
}

/// Whether peer `i` answered the search.
pub open spec fn answered(replies: Seq<Option<Vec<Value>>>, i: int) -> bool {
    0 <= i < replies.len() && replies[i] is Some
}

/// The gathered results of the first `n` peers: for each peer that
/// answered, in the order of the peers, its identifier and its results as
/// they came. A peer that did not answer leaves no entry.
pub open spec fn gathered(peers: Seq<Peer>, replies: Seq<Option<Vec<Value>>>, n: int) -> Seq<
    (Seq<char>, Seq<Value>),
>
    decreases n,
{
    if n <= 0 {
        Seq::empty()
    } else {
        let before = gathered(peers, replies, n - 1);
        if n - 1 < peers.len() && answered(replies, n - 1) {
            before.push((peers[n - 1].id@, replies[n - 1]->Some_0@))
        } else {
            before
        }
    }
}

/// Partial failure is tolerated. Of the first `n` peers, every one that
/// answered has its entry among the gathered results, with its identifier
/// and its results as they came; every entry is that of a peer that
/// answered; and there are no more entries than peers. So a peer that
/// failed takes nothing away from what the others gave.
pub proof fn gathered_keeps_every_answer(
    peers: Seq<Peer>,
    replies: Seq<Option<Vec<Value>>>,
    n: int,
)
    requires
        0 <= n <= peers.len(),
    ensures
        gathered(peers, replies, n).len() <= n,
        forall|i: int|
            0 <= i < n && answered(replies, i) ==> gathered(peers, replies, n).contains(
                (peers[i].id@, (#[trigger] replies[i])->Some_0@),
            ),
        forall|k: int|
            0 <= k < gathered(peers, replies, n).len() ==> exists|i: int|
                0 <= i < n && answered(replies, i) && (#[trigger] gathered(peers, replies, n)[k])
                    == (peers[i].id@, replies[i]->Some_0@),
    decreases n,
{
    if n > 0 {
        gathered_keeps_every_answer(peers, replies, n - 1);
        let before = gathered(peers, replies, n - 1);
        let now = gathered(peers, replies, n);
        assert forall|i: int| 0 <= i < n && answered(replies, i) implies now.contains(
            (peers[i].id@, (#[trigger] replies[i])->Some_0@),
        ) by {
            if i < n - 1 {
                let e = (peers[i].id@, replies[i]->Some_0@);
                assert(before.contains(e));
                let k = choose|k: int| 0 <= k < before.len() && before[k] == e;
                assert(now[k] == e);
            } else {
                assert(now[now.len() - 1] == (peers[i].id@, replies[i]->Some_0@));
            }
        }
        assert forall|k: int| 0 <= k < now.len() implies exists|i: int|
            0 <= i < n && answered(replies, i) && (#[trigger] now[k]) == (
                peers[i].id@,
                replies[i]->Some_0@,
            ) by {
            if k < before.len() {
                assert(now[k] == before[k]);
                let i = choose|i: int|
                    0 <= i < n - 1 && answered(replies, i) && before[k] == (
                        peers[i].id@,
                        replies[i]->Some_0@,
                    );
                assert(0 <= i < n && answered(replies, i) && now[k] == (
                    peers[i].id@,
                    replies[i]->Some_0@,
                ));
            } else {
                assert(answered(replies, n - 1) && now[k] == (
                    peers[n - 1].id@,
                    replies[n - 1]->Some_0@,
                ));
            }
        }
    }
}

/// A list of results as plain values.
pub open spec fn result_views(r: Seq<FederatedSearchResult>) -> Seq<(Seq<char>, Seq<Value>)> {
    Seq::new(r.len(), |i: int| (r[i].source_node_id@, r[i].results@))
}

/// The path of a peer's search service.
pub open spec fn search_path() -> Seq<char> {
    "/api/v1/search"@
}

/// The path and query of a peer's manifest service.
pub open spec fn manifest_path() -> Seq<char> {
    "/api/v1/federation/manifest?limit=50"@
}

/// The address under which a peer answers a search.
pub fn search_url(peer: &Peer) -> (r: String)
    ensures
        r@ == peer.endpoint@ + search_path(),
{
    peer.endpoint.clone().concat("/api/v1/search")
}

/// The address under which a peer hands out its manifest.
pub fn manifest_url(peer: &Peer) -> (r: String)
    ensures
        r@ == peer.endpoint@ + manifest_path(),
{
    peer.endpoint.clone().concat("/api/v1/federation/manifest?limit=50")
}

/// The address under which a peer hands out the block of the snapshot with
/// the given identifier.
pub fn download_url(peer: &Peer, id: u128) -> (r: String)
    ensures
        r@ == peer.endpoint@ + "/api/v1/snapshot/"@ + id_text(id) + "/download"@,
{
    let text: String = id_string(id);
    peer.endpoint.clone().concat("/api/v1/snapshot/").concat(text.as_str()).concat("/download")
}

/// Copies a list of results.
fn copy_values(v: &Vec<Value>) -> (r: Vec<Value>)
    ensures
        r@ == v@,
{
    let mut out: Vec<Value> = Vec::new();
    let mut i: usize = 0;
    while i < v.len()
        invariant
            0 <= i <= v@.len(),
            out@ == v@.take(i as int),
        decreases v.len() - i,
    {
        out.push(copy_value(&v[i]));
        proof {
            assert(out@ =~= v@.take(i + 1));
        }
        i += 1;
    }
    proof {
        assert(v@.take(v@.len() as int) =~= v@);
    }
    out
}

impl PeerManager {
    /// Gathers what the peers answered to a search. `replies[i]` is what
    /// peer `i` gave; `None`, or no entry, stands for a peer that timed out,
    /// could not be reached, or answered with a failure. Such a peer is
    /// left out and the rest is kept: the gathering itself never fails.
    pub fn broadcast_search(peers: &Vec<Peer>, replies: &Vec<Option<Vec<Value>>>) -> (r: Vec<
        FederatedSearchResult,
    >)
        ensures
            result_views(r@) == gathered(peers@, replies@, peers@.len() as int),
    {
        let mut out: Vec<FederatedSearchResult> = Vec::new();
        let mut i: usize = 0;
        while i < peers.len()
            invariant
                0 <= i <= peers@.len(),
                result_views(out@) == gathered(peers@, replies@, i as int),
            decreases peers.len() - i,
        {
            if i < replies.len() {
                match &replies[i] {
                    Some(results) => {
                        let ghost before = out@;
                        out.push(
                            FederatedSearchResult {
                                source_node_id: peers[i].id.clone(),
                                results: copy_values(results),
                            },
                        );
                        proof {
                            assert(result_views(out@) =~= result_views(before).push(
                                (peers@[i as int].id@, replies@[i as int]->Some_0@),
                            ));
                        }
                    },
                    None => {},
                }
            }
            i += 1;
        }
        out
    }
}

/// What a node answers when it is asked for its peers: its identifier and
/// its active peers.
pub fn get_peers(state: &AppState) -> (r: PeerListing)
    requires
        state.peer_manager.wf(),
    ensures
        r.local_node_id@ == state.peer_manager.node_id(),
        active_listing(state.peer_manager.entries(), r.peers@),
{
    state.peer_manager.get_peers_json()
}

/// Accepts a handshake: the peer is taken in as it presents itself, active
/// and seen now, and the node answers `accepted` with its own identifier.
/// No handshake is turned down.
pub fn handle_handshake(state: &mut AppState, payload: HandshakeRequest) -> (r: HandshakeReply)
    requires
        old(state).peer_manager.wf(),
    ensures
        final(state).peer_manager.wf(),
        final(state).catalog == old(state).catalog,
        final(state).payloads == old(state).payloads,
        final(state).sync_log == old(state).sync_log,
        final(state).logs == old(state).logs,
        final(state).peer_manager.node_id() == old(state).peer_manager.node_id(),
        exists|now: i64|
            final(state).peer_manager.entries() == old(state).peer_manager.entries().insert(
                payload.node_id@,
                #[trigger] accepted(payload.node_id@, payload.endpoint@, now),
            ),
        r.status@ == "accepted"@,
        r.local_node_id@ == old(state).peer_manager.node_id(),
{
    state.peer_manager.add_peer(payload.node_id, payload.endpoint);
    HandshakeReply {
        status: "accepted".to_owned(),
        local_node_id: state.peer_manager.local_node_id().clone(),
    }
}

/// Puts the results of this node and those of its peers side by side.
pub fn search_federated(local: Vec<Value>, federated: Vec<FederatedSearchResult>) -> (r:
    CombinedSearch)
    ensures
        r.local == local,
        r.federated == federated,
{
    CombinedSearch { local, federated }
}

/// Why a request could not be served.
#[derive(Debug, Clone, Copy, PartialEq, Eq, Structural)]
pub enum ApiError {
    /// No snapshot matches the request.
    NotFound,
    /// The archive log does not hold what the catalog points at.
    Storage,
}

/// The start of a manifest window: as asked for, else a day before `now`.
pub open spec fn window_start(from: Option<i64>, now: i64) -> i64 {
    match from {
        Some(f) => f,
        None => if now - 86400 < i64::MIN {
            i64::MIN
        } else {
            (now - 86400) as i64
        },
    }
}

/// The end of a manifest window: as asked for, else `now`.
pub open spec fn window_end(to: Option<i64>, now: i64) -> i64 {
    match to {
        Some(t) => t,
        None => now,
    }
}

/// The limit of a manifest: as asked for, else 100.
pub open spec fn manifest_limit(limit: Option<usize>) -> nat {
    match limit {
        Some(n) => n as nat,
        None => 100,
    }
}

/// Lists the node's snapshots for a peer, at time `now`: those captured in
/// the window that was asked for (by default the last 24 hours up to
/// `now`), latest first, and no more than the limit (by default 100).
pub fn get_manifest(state: &AppState, params: &ManifestRequest, now: i64) -> (r: ManifestResponse)
    ensures
        lists_window(
            state.catalog@,
            window_start(params.from, now),
            window_end(params.to, now),
            manifest_limit(params.limit),
            r.snapshots@,
        ),
{
    let from: i64 = match params.from {
        Some(f) => f,
        None => if now < i64::MIN + 86400 {
            i64::MIN
        } else {
            now - 86400
        },
    };
    let to: i64 = match params.to {
        Some(t) => t,
        None => now,
    };
    let limit: usize = match params.limit {
        Some(n) => n,
        None => 100,
    };
    ManifestResponse { snapshots: state.catalog.list_window(from, to, limit) }
}

/// Log `i` is the first of the node's own logs under the name.
pub open spec fn first_named(logs: Seq<WarcWriter>, name: Seq<char>, i: int) -> bool {
    0 <= i < logs.len() && logs[i].path() == name && forall|j: int|
        0 <= j < i ==> (#[trigger] logs[j]).path() != name
}

/// The contents of the log file under a name: of the sync log where it has
/// that name, else of the first of the node's own logs that has it.
pub open spec fn log_contents(state: AppState, name: Seq<char>) -> Option<Seq<u8>> {
    if state.sync_log.path() == name {
        Some(state.sync_log.contents())
    } else if exists|i: int| first_named(state.logs@, name, i) {
        Some(state.logs@[choose|i: int| first_named(state.logs@, name, i)].contents())
    } else {
        None
    }
}

/// The block that a row points at, where the log under the row's file name
/// holds its whole range.
pub open spec fn stored_block(state: AppState, row: Snapshot) -> Option<Seq<u8>> {
    match log_contents(state, row.warc_file@) {
        Some(c) => if row.offset + row.length <= c.len() {
            Some(c.subrange(row.offset as int, row.offset + row.length))
        } else {
            None
        },
        None => None,
    }
}

/// The log file under a name (see [`log_contents`]).
pub fn find_log<'a>(state: &'a AppState, name: &String) -> (r: Option<&'a WarcWriter>)
    ensures
        match r {
            Some(w) => log_contents(*state, name@) == Some(w.contents()),
            None => log_contents(*state, name@) is None,
        },
{
    if *state.sync_log.file_path() == *name {
        return Some(&state.sync_log);
    }
    let mut i: usize = 0;
    while i < state.logs.len()
        invariant
            0 <= i <= state.logs@.len(),
            state.sync_log.path() != name@,
            forall|j: int| 0 <= j < i ==> (#[trigger] state.logs@[j]).path() != name@,
        decreases state.logs.len() - i,
    {
        if *state.logs[i].file_path() == *name {
            proof {
                assert(first_named(state.logs@, name@, i as int));
                let c = choose|c: int| first_named(state.logs@, name@, c);
                assert(c == i);
            }
            return Some(&state.logs[i]);
        }
        i += 1;
    }
    proof {
        assert forall|c: int| !first_named(state.logs@, name@, c) by {}
    }
    None
}

/// Hands out the raw block of the snapshot with the given identifier, as
/// it stands in the archive log. Fails with `NotFound` exactly when no row
/// has the identifier, and with `Storage` exactly when the row's range is
/// not wholly held by the log it names; partial data is never returned.
pub fn download_snapshot(state: &AppState, id: u128) -> (r: Result<Vec<u8>, ApiError>)
    ensures
        (forall|j: int| 0 <= j < state.catalog@.len() ==> (#[trigger] state.catalog@[j]).id != id)
            ==> r == Err::<Vec<u8>, ApiError>(ApiError::NotFound),
        forall|i: int|
            first_with_id(state.catalog@, id, i) ==> match stored_block(
                *state,
                #[trigger] state.catalog@[i],
            ) {
                Some(b) => r is Ok && r->Ok_0@ == b,
                None => r == Err::<Vec<u8>, ApiError>(ApiError::Storage),
            },
{
    let at: usize = match state.catalog.find_by_id(id) {
        Some(i) => i,
        None => return Err(ApiError::NotFound),
    };
    let row: &Snapshot = match state.catalog.row(at) {
        Some(row) => row,
        None => return Err(ApiError::NotFound),
    };
    let log: &WarcWriter = match find_log(state, &row.warc_file) {
        Some(w) => w,
        None => return Err(ApiError::Storage),
    };
    match log.read(row.offset, row.length) {
        Ok(bytes) => Ok(bytes),
        Err(_) => Err(ApiError::Storage),
    }
}

} // verus!
