//! The federation sync engine: what one node takes over from a peer's
//! manifest, decided by content hash alone.

use vstd::prelude::*;
use crate::catalog::{holds_hash, PayloadIndex, SnapshotCatalog};
use crate::log::{LogError, WarcWriter};
use crate::outside::fresh_id;
use crate::peers::PeerManager;
use crate::snapshot::Snapshot;

verus! {

/// A peer's answer to a manifest request: the snapshots it holds in the
/// window that was asked for.
pub struct ManifestResponse {
    /// The snapshot descriptors, in the peer's order.
    pub snapshots: Vec<Snapshot>,
}

/// Why the processing of a manifest stopped early.
#[derive(Debug, Clone, Copy, PartialEq, Eq, Structural)]
pub enum SyncError {
    /// The bytes of a record could not be had from the peer.
    Download,
    /// The bytes of a record could not be appended to the sync log.
    Storage,
}

/// The shared state of a node: its peers, its catalog, its payload index,
/// and the log file that takes what synchronisation brings.
pub struct AppState {
    /// The peer directory.
    pub peer_manager: PeerManager,
    /// The snapshot catalog.
    pub catalog: SnapshotCatalog,
    /// The payload index.
    pub payloads: PayloadIndex,
    /// The log that holds the records taken over from peers.
    pub sync_log: WarcWriter,
    /// The logs that hold the node's own captures.
    pub logs: Vec<WarcWriter>,
}

/// What one peer gave in a sync cycle.
pub struct PeerReply {
    /// The peer's manifest; `None` where the peer could not be reached or
    /// answered with a failure.
    pub manifest: Option<ManifestResponse>,
    /// What the peer hands out for each descriptor of its manifest, by
    /// position; `None`, or no entry, where the download fails.
    pub downloads: Vec<Option<Vec<u8>>>,
}

/// What synchronisation depends on and changes, as plain values: the
/// content hashes that the catalog holds, the number of its rows, and the
/// size of the sync log.
pub ghost struct SyncState {
    pub hashes: Set<Seq<char>>,
    pub rows: nat,
    pub log_size: nat,
}

/// The content hashes that some row of the catalog carries.
pub open spec fn hash_set(rows: Seq<Snapshot>) -> Set<Seq<char>> {
    Set::new(|h: Seq<char>| holds_hash(rows, h))
}

/// The state after a record of `size` bytes with content hash `hash` was
/// taken over.
pub open spec fn taken(st: SyncState, hash: Seq<char>, size: nat) -> SyncState {
    SyncState { hashes: st.hashes.insert(hash), rows: st.rows + 1, log_size: st.log_size + size }
}

/// The processing of a manifest from descriptor `i` on, in manifest order.
/// A descriptor whose content hash is held is skipped. For any other the
/// record is downloaded (`downloads[i]` is what the download gives; `None`,
/// or no entry, is a failed download), appended to the sync log and
/// entered in the catalog. The first failure ends the processing. Gives the
/// state at the end and the failure, if there was one.
pub open spec fn after_sync(
    st: SyncState,
    manifest: Seq<Snapshot>,
    downloads: Seq<Option<Vec<u8>>>,
    i: int,
) -> (SyncState, Option<SyncError>)
    decreases manifest.len() - i,
{
    if i < 0 || i >= manifest.len() {
        (st, None)
    } else if st.hashes.contains(manifest[i].sha256@) {
        after_sync(st, manifest, downloads, i + 1)
    } else if i >= downloads.len() || downloads[i] is None {
        (st, Some(SyncError::Download))
    } else if st.log_size + downloads[i]->Some_0@.len() > usize::MAX {
        (st, Some(SyncError::Storage))
    } else {
        after_sync(
            taken(st, manifest[i].sha256@, downloads[i]->Some_0@.len()),
            manifest,
            downloads,
            i + 1,
        )
    }
}

/// `row` is the local row for a peer's descriptor: a row of its own
/// identifier and place that carries the peer's URL, time, content hash,
/// status code, content type and payload hash.
pub open spec fn mirrors(row: Snapshot, descriptor: Snapshot) -> bool {
    &&& row.url == descriptor.url
    &&& row.timestamp == descriptor.timestamp
    &&& row.sha256 == descriptor.sha256
    &&& row.status_code == descriptor.status_code
    &&& row.content_type == descriptor.content_type
    &&& row.payload_hash == descriptor.payload_hash
}

/// Row `row` stands for descriptor `p` of the manifest: it mirrors the
/// descriptor, lies in the log file `path`, and its range of `log` holds
/// the bytes that were downloaded for that descriptor.
pub open spec fn stored_for(
    row: Snapshot,
    manifest: Seq<Snapshot>,
    downloads: Seq<Option<Vec<u8>>>,
    p: int,
    path: Seq<char>,
    log: Seq<u8>,
) -> bool {
    &&& 0 <= p < manifest.len()
    &&& p < downloads.len()
    &&& mirrors(row, manifest[p])
    &&& downloads[p] is Some
    &&& row.warc_file@ == path
    &&& row.offset + row.length <= log.len()
    &&& log.subrange(row.offset as int, row.offset + row.length) == downloads[p]->Some_0@
}

/// Row `row` was taken over from the manifest: it stands for one of its
/// descriptors.
pub open spec fn taken_from(
    row: Snapshot,
    manifest: Seq<Snapshot>,
    downloads: Seq<Option<Vec<u8>>>,
    path: Seq<char>,
    log: Seq<u8>,
) -> bool {
    exists|p: int| #[trigger] stored_for(row, manifest, downloads, p, path, log)
}

/// The positions of the descriptors that the processing of a manifest from
/// descriptor `i` on takes over, in the order in which it takes them.
pub open spec fn taken_positions(
    st: SyncState,
    manifest: Seq<Snapshot>,
    downloads: Seq<Option<Vec<u8>>>,
    i: int,
) -> Seq<int>
    decreases manifest.len() - i,
{
    if i < 0 || i >= manifest.len() {
        Seq::empty()
    } else if st.hashes.contains(manifest[i].sha256@) {
        taken_positions(st, manifest, downloads, i + 1)
    } else if i >= downloads.len() || downloads[i] is None {
        Seq::empty()
    } else if st.log_size + downloads[i]->Some_0@.len() > usize::MAX {
        Seq::empty()
    } else {
        seq![i] + taken_positions(
            taken(st, manifest[i].sha256@, downloads[i]->Some_0@.len()),
            manifest,
            downloads,
            i + 1,
        )
    }
}

/// A row that stands for a descriptor stays so when the log grows.
proof fn lemma_stored_for_stable(
    row: Snapshot,
    manifest: Seq<Snapshot>,
    downloads: Seq<Option<Vec<u8>>>,
    p: int,
    path: Seq<char>,
    log: Seq<u8>,
    longer: Seq<u8>,
)
    requires
        stored_for(row, manifest, downloads, p, path, log),
        log.is_prefix_of(longer),
    ensures
        stored_for(row, manifest, downloads, p, path, longer),
{
    assert(longer.subrange(row.offset as int, row.offset + row.length) =~= log.subrange(
        row.offset as int,
        row.offset + row.length,
    ));
}

/// Row `row` was taken over in a cycle: from the manifest of one of the
/// peers that gave one.
pub open spec fn taken_in_cycle(
    row: Snapshot,
    replies: Seq<PeerReply>,
    path: Seq<char>,
    log: Seq<u8>,
) -> bool {
    exists|q: int|
        0 <= q < replies.len() && (#[trigger] replies[q]).manifest is Some && taken_from(
            row,
            replies[q].manifest->Some_0.snapshots@,
            replies[q].downloads@,
            path,
            log,
        )
}

/// A row that was taken over stays so when the log grows.
proof fn lemma_taken_from_stable(
    row: Snapshot,
    manifest: Seq<Snapshot>,
    downloads: Seq<Option<Vec<u8>>>,
    path: Seq<char>,
    log: Seq<u8>,
    longer: Seq<u8>,
)
    requires
        taken_from(row, manifest, downloads, path, log),
        log.is_prefix_of(longer),
    ensures
        taken_from(row, manifest, downloads, path, longer),
{
    let p = choose|p: int| #[trigger] stored_for(row, manifest, downloads, p, path, log);
    lemma_stored_for_stable(row, manifest, downloads, p, path, log, longer);
}

/// Processing stops at descriptor `p`, or `p` is the end of the manifest.
pub open spec fn stops_at(
    st: SyncState,
    manifest: Seq<Snapshot>,
    downloads: Seq<Option<Vec<u8>>>,
    p: int,
) -> bool {
    p == manifest.len() || (0 <= p < manifest.len() && !st.hashes.contains(manifest[p].sha256@) && (
    p >= downloads.len() || downloads[p] is None || st.log_size + downloads[p]->Some_0@.len()
        > usize::MAX))
}

/// What a run leaves behind: every descriptor before the place where it
/// ended is held, and that place is one where processing stops.
proof fn lemma_first_run(
    st: SyncState,
    manifest: Seq<Snapshot>,
    downloads: Seq<Option<Vec<u8>>>,
    i: int,
) -> (p: int)
    requires
        0 <= i <= manifest.len(),
        forall|j: int| 0 <= j < i ==> st.hashes.contains(#[trigger] manifest[j].sha256@),
    ensures
        i <= p <= manifest.len(),
        st.hashes.subset_of(after_sync(st, manifest, downloads, i).0.hashes),
        forall|j: int|
            0 <= j < p ==> after_sync(st, manifest, downloads, i).0.hashes.contains(
                #[trigger] manifest[j].sha256@,
            ),
        stops_at(after_sync(st, manifest, downloads, i).0, manifest, downloads, p),
        after_sync(st, manifest, downloads, i).1 is None <==> p == manifest.len(),
    decreases manifest.len() - i,
{
    if i >= manifest.len() {
        i
    } else if st.hashes.contains(manifest[i].sha256@) {
        lemma_first_run(st, manifest, downloads, i + 1)
    } else if i >= downloads.len() || downloads[i] is None {
        i
    } else if st.log_size + downloads[i]->Some_0@.len() > usize::MAX {
        i
    } else {
        let next = taken(st, manifest[i].sha256@, downloads[i]->Some_0@.len());
        lemma_first_run(next, manifest, downloads, i + 1)
    }
}

/// A run from a state in which every descriptor before `p` is held and
/// processing stops at `p` changes nothing.
proof fn lemma_second_run(
    st: SyncState,
    manifest: Seq<Snapshot>,
    downloads: Seq<Option<Vec<u8>>>,
    j: int,
    p: int,
)
    requires
        0 <= j <= p <= manifest.len(),
        forall|k: int| 0 <= k < p ==> st.hashes.contains(#[trigger] manifest[k].sha256@),
        stops_at(st, manifest, downloads, p),
    ensures
        after_sync(st, manifest, downloads, j).0 == st,
        after_sync(st, manifest, downloads, j).1 is None <==> p == manifest.len(),
    decreases p - j,
{
    if j < p {
        lemma_second_run(st, manifest, downloads, j + 1, p);
    }
}

/// Idempotence of synchronisation. Processing the same manifest a second
/// time, with the same downloads on offer, changes nothing: the catalog has
/// as many rows after the second run as after the first, the same hashes,
/// and the sync log has the same size. This holds wherever the first run
/// ended, also where it was cut short by a failure.
pub proof fn sync_twice_adds_nothing(
    st: SyncState,
    manifest: Seq<Snapshot>,
    downloads: Seq<Option<Vec<u8>>>,
)
    ensures
        after_sync(after_sync(st, manifest, downloads, 0).0, manifest, downloads, 0).0
            == after_sync(st, manifest, downloads, 0).0,
        after_sync(after_sync(st, manifest, downloads, 0).0, manifest, downloads, 0).0.rows
            == after_sync(st, manifest, downloads, 0).0.rows,
{
    let p = lemma_first_run(st, manifest, downloads, 0);
    lemma_second_run(after_sync(st, manifest, downloads, 0).0, manifest, downloads, 0, p);
}

/// A whole sync cycle from peer `k` on, in the order of the peers. A peer
/// without a manifest is skipped. The first failure on a record ends the
/// cycle. Gives the state at the end and the failure, if there was one.
pub open spec fn after_cycle(st: SyncState, replies: Seq<PeerReply>, k: int) -> (
    SyncState,
    Option<SyncError>,
)
    decreases replies.len() - k,
{
    if k < 0 || k >= replies.len() {
        (st, None)
    } else if replies[k].manifest is None {
        after_cycle(st, replies, k + 1)
    } else {
        let done = after_sync(
            st,
            replies[k].manifest->Some_0.snapshots@,
            replies[k].downloads@,
            0,
        );
        if done.1 is Some {
            done
        } else {
            after_cycle(done.0, replies, k + 1)
        }
    }
}

/// Every record of the peer's manifest is held.
pub open spec fn covered(st: SyncState, reply: PeerReply) -> bool {
    reply.manifest is Some ==> forall|i: int|
        0 <= i < reply.manifest->Some_0.snapshots@.len() ==> st.hashes.contains(
            #[trigger] reply.manifest->Some_0.snapshots@[i].sha256@,
        )
}

/// The cycle ended at peer `q`: at the end of the peers, or inside the
/// manifest of peer `q`, at a descriptor where processing stops.
pub open spec fn cycle_stops_at(st: SyncState, replies: Seq<PeerReply>, q: int, p: int) -> bool {
    q == replies.len() || (0 <= q < replies.len() && replies[q].manifest is Some && 0 <= p
        < replies[q].manifest->Some_0.snapshots@.len() && stops_at(
        st,
        replies[q].manifest->Some_0.snapshots@,
        replies[q].downloads@,
        p,
    ) && forall|i: int|
        0 <= i < p ==> st.hashes.contains(
            #[trigger] replies[q].manifest->Some_0.snapshots@[i].sha256@,
        ))
}

/// What a cycle leaves behind: the peers before the one where it ended are
/// covered, and it ended where processing stops.
proof fn lemma_first_cycle(st: SyncState, replies: Seq<PeerReply>, k: int) -> (at: (int, int))
    requires
        0 <= k <= replies.len(),
        forall|j: int| 0 <= j < k ==> covered(st, #[trigger] replies[j]),
    ensures
        k <= at.0 <= replies.len(),
        st.hashes.subset_of(after_cycle(st, replies, k).0.hashes),
        forall|j: int| 0 <= j < at.0 ==> covered(after_cycle(st, replies, k).0, #[trigger] replies[j]),
        cycle_stops_at(after_cycle(st, replies, k).0, replies, at.0, at.1),
    decreases replies.len() - k,
{
    if k >= replies.len() {
        (k, 0)
    } else if replies[k].manifest is None {
        lemma_first_cycle(st, replies, k + 1)
    } else {
        let m = replies[k].manifest->Some_0.snapshots@;
        let d = replies[k].downloads@;
        let done = after_sync(st, m, d, 0);
        let p = lemma_first_run(st, m, d, 0);
        assert forall|j: int| 0 <= j < k implies covered(done.0, #[trigger] replies[j]) by {
            assert(covered(st, replies[j]));
        }
        if done.1 is Some {
            (k, p)
        } else {
            let at = lemma_first_cycle(done.0, replies, k + 1);
            at
        }
    }
}

/// A cycle from a state in which the peers before `q` are covered and the
/// cycle stops at peer `q` changes nothing.
proof fn lemma_second_cycle(st: SyncState, replies: Seq<PeerReply>, k: int, q: int, p: int)
    requires
        0 <= k <= q <= replies.len(),
        forall|j: int| 0 <= j < q ==> covered(st, #[trigger] replies[j]),
        cycle_stops_at(st, replies, q, p),
    ensures
        after_cycle(st, replies, k).0 == st,
    decreases q - k,
{
    if k < q {
        if replies[k].manifest is Some {
            let m = replies[k].manifest->Some_0.snapshots@;
            assert(covered(st, replies[k]));
            lemma_second_run(st, m, replies[k].downloads@, 0, m.len() as int);
        }
        lemma_second_cycle(st, replies, k + 1, q, p);
    } else if q < replies.len() {
        lemma_second_run(
            st,
            replies[q].manifest->Some_0.snapshots@,
            replies[q].downloads@,
            0,
            p,
        );
    }
}

/// Idempotence of a sync cycle. Running a cycle a second time against the
/// same manifests, with the same downloads on offer, changes nothing: the
/// catalog has as many rows after the second run as after the first, and
/// the same hashes. This holds wherever the first run ended, also where a
/// failure cut it short.
pub proof fn cycle_twice_adds_nothing(st: SyncState, replies: Seq<PeerReply>)
    ensures
        after_cycle(after_cycle(st, replies, 0).0, replies, 0).0 == after_cycle(st, replies, 0).0,
        after_cycle(after_cycle(st, replies, 0).0, replies, 0).0.rows == after_cycle(
            st,
            replies,
            0,
        ).0.rows,
{
    let at = lemma_first_cycle(st, replies, 0);
    lemma_second_cycle(after_cycle(st, replies, 0).0, replies, 0, at.0, at.1);
}

/// What storing the bytes downloaded for a descriptor gives. Where the sync
/// log can take them, they stand at its end, and the catalog has one row
/// more, which mirrors the descriptor and points at them. Where it cannot,
/// the storage error is returned and log and catalog are as before.
pub open spec fn save_outcome(
    before: AppState,
    after: AppState,
    descriptor: Snapshot,
    bytes: Seq<u8>,
    r: Result<(), SyncError>,
) -> bool {
    if before.sync_log.contents().len() + bytes.len() > usize::MAX {
        &&& r == Err::<(), SyncError>(SyncError::Storage)
        &&& after.catalog@ == before.catalog@
        &&& after.sync_log.contents() == before.sync_log.contents()
    } else {
        &&& r is Ok
        &&& after.sync_log.contents() == before.sync_log.contents() + bytes
        &&& after.catalog@.len() == before.catalog@.len() + 1
        &&& after.catalog@ == before.catalog@.push(after.catalog@.last())
        &&& mirrors(after.catalog@.last(), descriptor)
        &&& after.catalog@.last().warc_file@ == before.sync_log.path()
        &&& after.catalog@.last().offset == before.sync_log.contents().len()
        &&& after.catalog@.last().length == bytes.len()
    }
}

/// Rows that stand for descriptors were taken over from the manifest.
proof fn lemma_rows_taken(
    rows: Seq<Snapshot>,
    first: int,
    done: Seq<int>,
    manifest: Seq<Snapshot>,
    downloads: Seq<Option<Vec<u8>>>,
    path: Seq<char>,
    log: Seq<u8>,
)
    requires
        0 <= first,
        rows.len() == first + done.len(),
        forall|k: int|
            0 <= k < done.len() ==> stored_for(
                rows[first + k],
                manifest,
                downloads,
                #[trigger] done[k],
                path,
                log,
            ),
    ensures
        forall|n: int|
            first <= n < rows.len() ==> taken_from(
                #[trigger] rows[n],
                manifest,
                downloads,
                path,
                log,
            ),
{
    assert forall|n: int| first <= n < rows.len() implies taken_from(
        #[trigger] rows[n],
        manifest,
        downloads,
        path,
        log,
    ) by {
        let k = n - first;
        assert(stored_for(rows[first + k], manifest, downloads, done[k], path, log));
    }
}

/// A row more adds its content hash to those held.
pub proof fn lemma_hash_set_push(rows: Seq<Snapshot>, row: Snapshot)
    ensures
        hash_set(rows.push(row)) == hash_set(rows).insert(row.sha256@),
{
    let more = rows.push(row);
    assert forall|h: Seq<char>| hash_set(more).contains(h) <==> hash_set(rows).insert(
        row.sha256@,
    ).contains(h) by {
        if holds_hash(more, h) {
            let i = choose|i: int| 0 <= i < more.len() && (#[trigger] more[i]).sha256@ == h;
            if i < rows.len() {
                assert(rows[i] == more[i]);
            }
        }
        if holds_hash(rows, h) {
            let i = choose|i: int| 0 <= i < rows.len() && (#[trigger] rows[i]).sha256@ == h;
            assert(more[i] == rows[i]);
        }
        if h == row.sha256@ {
            assert(more[rows.len() as int].sha256@ == h);
        }
    }
    assert(hash_set(more) =~= hash_set(rows).insert(row.sha256@));
}

/// The recurring worker that pulls manifests from the peers.
pub struct SyncWorker {
    /// The state that the worker reads and changes.
    pub state: AppState,
}

impl SyncWorker {
    /// What synchronisation depends on, as plain values.
    pub open spec fn sync_state(&self) -> SyncState {
        SyncState {
            hashes: hash_set(self.state.catalog@),
            rows: self.state.catalog@.len(),
            log_size: self.state.sync_log.contents().len(),
        }
    }

    /// A worker on the given state.
    pub fn new(state: AppState) -> (w: Self)
        ensures
            w.state == state,
    {
        SyncWorker { state }
    }

    /// The first descriptor at or behind `from` whose content hash the
    /// catalog does not hold: the next record to download. `None` when every
    /// descriptor from there on is held.
    pub fn next_missing(&self, manifest: &ManifestResponse, from: usize) -> (r: Option<usize>)
        ensures
            match r {
                Some(i) => from <= i < manifest.snapshots@.len() && !holds_hash(
                    self.state.catalog@,
                    manifest.snapshots@[i as int].sha256@,
                ) && forall|j: int|
                    from <= j < i ==> holds_hash(
                        self.state.catalog@,
                        #[trigger] manifest.snapshots@[j].sha256@,
                    ),
                None => forall|j: int|
                    from <= j < manifest.snapshots@.len() ==> holds_hash(
                        self.state.catalog@,
                        #[trigger] manifest.snapshots@[j].sha256@,
                    ),
            },
    {
        let mut i: usize = from;
        while i < manifest.snapshots.len()
            invariant
                from <= i,
                forall|j: int|
                    from <= j < i && j < manifest.snapshots@.len() ==> holds_hash(
                        self.state.catalog@,
                        #[trigger] manifest.snapshots@[j].sha256@,
                    ),
            decreases manifest.snapshots.len() - i,
        {
            if !self.state.catalog.exists_by_hash(&manifest.snapshots[i].sha256) {
                return Some(i);
            }
            i += 1;
        }
        None
    }

    /// Stores the bytes that were downloaded for a peer's descriptor: they
    /// are appended as they are to the sync log, and a row with the given
    /// identifier that mirrors the descriptor and points at them is entered
    /// in the catalog. Where the log cannot take the bytes, nothing changes
    /// and the storage error is returned.
    pub fn save_with_id(&mut self, snap: &Snapshot, bytes: &[u8], id: u128) -> (r: Result<
        (),
        SyncError,
    >)
        ensures
            final(self).state.peer_manager == old(self).state.peer_manager,
            final(self).state.payloads == old(self).state.payloads,
            final(self).state.logs == old(self).state.logs,
            final(self).state.sync_log.path() == old(self).state.sync_log.path(),
            save_outcome(old(self).state, final(self).state, *snap, bytes@, r),
            r is Ok ==> final(self).state.catalog@.last().id == id,
    {
        match self.state.sync_log.append(bytes) {
            Err(_) => Err(SyncError::Storage),
            Ok((offset, length)) => {
                let row = Snapshot {
                    id,
                    url: snap.url.clone(),
                    timestamp: snap.timestamp,
                    warc_file: self.state.sync_log.file_path().clone(),
                    offset,
                    length,
                    sha256: snap.sha256.clone(),
                    status_code: snap.status_code,
                    content_type: snap.content_type.clone(),
                    payload_hash: match &snap.payload_hash {
                        Some(h) => Some(h.clone()),
                        None => None,
                    },
                };
                self.state.catalog.insert(row);
                Ok(())
            },
        }
    }

    /// Stores the bytes that were downloaded for a peer's descriptor under
    /// a freshly made local identifier (see [`SyncWorker::save_with_id`]).
    pub fn download_and_save(&mut self, snap: &Snapshot, bytes: &[u8]) -> (r: Result<
        (),
        SyncError,
    >)
        ensures
            final(self).state.peer_manager == old(self).state.peer_manager,
            final(self).state.payloads == old(self).state.payloads,
            final(self).state.logs == old(self).state.logs,
            final(self).state.sync_log.path() == old(self).state.sync_log.path(),
            save_outcome(old(self).state, final(self).state, *snap, bytes@, r),
    {
        let id: u128 = fresh_id();
        self.save_with_id(snap, bytes, id)
    }

    /// The part of a sync cycle that deals with one peer's manifest, with
    /// what the downloads give: `downloads[i]` holds the bytes that the peer
    /// hands out for descriptor `i`; `None`, or no entry, stands for a
    /// download that fails. Descriptors whose content hash the catalog
    /// holds are skipped; for every other one the record is stored and a
    /// row entered, in manifest order, until the manifest ends or a download
    /// or an append fails. Rows and log only grow; the new rows stand, in
    /// this order, for the descriptors that were taken over.
    pub fn sync_peer(&mut self, manifest: &ManifestResponse, downloads: &Vec<Option<Vec<u8>>>) -> (r:
        Result<(), SyncError>)
        ensures
            final(self).state.peer_manager == old(self).state.peer_manager,
            final(self).state.payloads == old(self).state.payloads,
            final(self).state.logs == old(self).state.logs,
            final(self).state.sync_log.path() == old(self).state.sync_log.path(),
            final(self).sync_state() == after_sync(
                old(self).sync_state(),
                manifest.snapshots@,
                downloads@,
                0,
            ).0,
            r == match after_sync(old(self).sync_state(), manifest.snapshots@, downloads@, 0).1 {
                None => Ok::<(), SyncError>(()),
                Some(e) => Err::<(), SyncError>(e),
            },
            final(self).state.catalog@.len() == old(self).state.catalog@.len() + taken_positions(
                old(self).sync_state(),
                manifest.snapshots@,
                downloads@,
                0,
            ).len(),
            final(self).state.catalog@.take(old(self).state.catalog@.len() as int)
                == old(self).state.catalog@,
            old(self).state.sync_log.contents().is_prefix_of(final(self).state.sync_log.contents()),
            forall|k: int|
                0 <= k < taken_positions(
                    old(self).sync_state(),
                    manifest.snapshots@,
                    downloads@,
                    0,
                ).len() ==> stored_for(
                    final(self).state.catalog@[old(self).state.catalog@.len() + k],
                    manifest.snapshots@,
                    downloads@,
                    #[trigger] taken_positions(
                        old(self).sync_state(),
                        manifest.snapshots@,
                        downloads@,
                        0,
                    )[k],
                    final(self).state.sync_log.path(),
                    final(self).state.sync_log.contents(),
                ),
            forall|k: int|
                old(self).state.catalog@.len() <= k < final(self).state.catalog@.len()
                    ==> taken_from(
                    #[trigger] final(self).state.catalog@[k],
                    manifest.snapshots@,
                    downloads@,
                    final(self).state.sync_log.path(),
                    final(self).state.sync_log.contents(),
                ),
    {
        let ghost start = old(self).sync_state();
        let ghost rows0 = old(self).state.catalog@;
        let ghost log0 = old(self).state.sync_log.contents();
        let ghost path = old(self).state.sync_log.path();
        let ghost mut done: Seq<int> = Seq::empty();
        let mut i: usize = 0;
        proof {
            assert(self.state.catalog@.take(rows0.len() as int) =~= rows0);
            assert(done + taken_positions(start, manifest.snapshots@, downloads@, 0)
                =~= taken_positions(start, manifest.snapshots@, downloads@, 0));
        }
        while i < manifest.snapshots.len()
            invariant
                0 <= i <= manifest.snapshots@.len(),
                start == old(self).sync_state(),
                rows0 == old(self).state.catalog@,
                log0 == old(self).state.sync_log.contents(),
                path == old(self).state.sync_log.path(),
                self.state.peer_manager == old(self).state.peer_manager,
                self.state.payloads == old(self).state.payloads,
                self.state.logs == old(self).state.logs,
                self.state.sync_log.path() == path,
                self.state.catalog@.len() == rows0.len() + done.len(),
                self.state.catalog@.take(rows0.len() as int) == rows0,
                log0.is_prefix_of(self.state.sync_log.contents()),
                after_sync(self.sync_state(), manifest.snapshots@, downloads@, i as int)
                    == after_sync(start, manifest.snapshots@, downloads@, 0),
                done + taken_positions(self.sync_state(), manifest.snapshots@, downloads@, i as int)
                    == taken_positions(start, manifest.snapshots@, downloads@, 0),
                forall|k: int|
                    0 <= k < done.len() ==> stored_for(
                        self.state.catalog@[rows0.len() + k],
                        manifest.snapshots@,
                        downloads@,
                        #[trigger] done[k],
                        path,
                        self.state.sync_log.contents(),
                    ),
            decreases manifest.snapshots.len() - i,
        {
            let snap = &manifest.snapshots[i];
            if !self.state.catalog.exists_by_hash(&snap.sha256) {
                let ghost rows_before = self.state.catalog@;
                let ghost log_before = self.state.sync_log.contents();
                let ghost state_before = self.sync_state();
                let bytes: &Vec<u8> = if i < downloads.len() {
                    match &downloads[i] {
                        Some(bytes) => bytes,
                        None => {
                            proof {
                                lemma_rows_taken(
                                    rows_before,
                                    rows0.len() as int,
                                    done,
                                    manifest.snapshots@,
                                    downloads@,
                                    path,
                                    log_before,
                                );
                                assert(done + Seq::<int>::empty() =~= done);
                            }
                            return Err(SyncError::Download);
                        },
                    }
                } else {
                    proof {
                        lemma_rows_taken(
                            rows_before,
                            rows0.len() as int,
                            done,
                            manifest.snapshots@,
                            downloads@,
                            path,
                            log_before,
                        );
                        assert(done + Seq::<int>::empty() =~= done);
                    }
                    return Err(SyncError::Download);
                };
                match self.download_and_save(snap, bytes.as_slice()) {
                    Err(e) => {
                        proof {
                            lemma_rows_taken(
                                rows_before,
                                rows0.len() as int,
                                done,
                                manifest.snapshots@,
                                downloads@,
                                path,
                                log_before,
                            );
                            assert(done + Seq::<int>::empty() =~= done);
                        }
                        return Err(e);
                    },
                    Ok(()) => {
                        proof {
                            let rows = self.state.catalog@;
                            let log = self.state.sync_log.contents();
                            let before = done;
                            lemma_hash_set_push(rows_before, rows.last());
                            assert(rows.take(rows0.len() as int) =~= rows0);
                            assert(log.subrange(
                                log_before.len() as int,
                                (log_before.len() + bytes@.len()) as int,
                            ) =~= bytes@);
                            done = done.push(i as int);
                            assert(done + taken_positions(
                                self.sync_state(),
                                manifest.snapshots@,
                                downloads@,
                                i + 1,
                            ) =~= before + taken_positions(
                                state_before,
                                manifest.snapshots@,
                                downloads@,
                                i as int,
                            ));
                            assert forall|k: int| 0 <= k < done.len() implies stored_for(
                                rows[rows0.len() + k],
                                manifest.snapshots@,
                                downloads@,
                                #[trigger] done[k],
                                path,
                                log,
                            ) by {
                                if k < before.len() {
                                    assert(rows[rows0.len() + k] == rows_before[rows0.len() + k]);
                                    assert(done[k] == before[k]);
                                    lemma_stored_for_stable(
                                        rows_before[rows0.len() + k],
                                        manifest.snapshots@,
                                        downloads@,
                                        before[k],
                                        path,
                                        log_before,
                                        log,
                                    );
                                } else {
                                    assert(rows[rows0.len() + k] == rows.last());
                                    assert(mirrors(rows.last(), manifest.snapshots@[i as int]));
                                }
                            }
                        }
                    },
                }
            }
            i += 1;
        }
        proof {
            assert(done + Seq::<int>::empty() =~= done);
            lemma_rows_taken(
                self.state.catalog@,
                rows0.len() as int,
                done,
                manifest.snapshots@,
                downloads@,
                path,
                self.state.sync_log.contents(),
            );
        }
        Ok(())
    }

    /// One sync cycle, with what the peers gave. The peers are taken in
    /// their order. A peer whose manifest could not be had is skipped; for
    /// every other one its manifest is processed (see
    /// [`SyncWorker::sync_peer`]). The first record that cannot be had or
    /// stored ends the cycle with that failure; what was stored before
    /// stays. A cycle without peers changes nothing.
    pub fn sync_cycle(&mut self, replies: &Vec<PeerReply>) -> (r: Result<(), SyncError>)
        ensures
            final(self).state.peer_manager == old(self).state.peer_manager,
            final(self).state.payloads == old(self).state.payloads,
            final(self).state.logs == old(self).state.logs,
            final(self).state.sync_log.path() == old(self).state.sync_log.path(),
            final(self).sync_state() == after_cycle(old(self).sync_state(), replies@, 0).0,
            r == match after_cycle(old(self).sync_state(), replies@, 0).1 {
                None => Ok::<(), SyncError>(()),
                Some(e) => Err::<(), SyncError>(e),
            },
            old(self).state.catalog@.len() <= final(self).state.catalog@.len(),
            final(self).state.catalog@.take(old(self).state.catalog@.len() as int)
                == old(self).state.catalog@,
            old(self).state.sync_log.contents().is_prefix_of(final(self).state.sync_log.contents()),
            forall|k: int|
                old(self).state.catalog@.len() <= k < final(self).state.catalog@.len()
                    ==> taken_in_cycle(
                    #[trigger] final(self).state.catalog@[k],
                    replies@,
                    final(self).state.sync_log.path(),
                    final(self).state.sync_log.contents(),
                ),
    {
        let ghost start = old(self).sync_state();
        let ghost rows0 = old(self).state.catalog@;
        let ghost log0 = old(self).state.sync_log.contents();
        let ghost path = old(self).state.sync_log.path();
        let mut k: usize = 0;
        proof {
            assert(self.state.catalog@.take(rows0.len() as int) =~= rows0);
        }
        while k < replies.len()
            invariant
                0 <= k <= replies@.len(),
                start == old(self).sync_state(),
                rows0 == old(self).state.catalog@,
                log0 == old(self).state.sync_log.contents(),
                self.state.peer_manager == old(self).state.peer_manager,
                self.state.payloads == old(self).state.payloads,
                self.state.logs == old(self).state.logs,
                self.state.sync_log.path() == old(self).state.sync_log.path(),
                rows0.len() <= self.state.catalog@.len(),
                self.state.catalog@.take(rows0.len() as int) == rows0,
                log0.is_prefix_of(self.state.sync_log.contents()),
                after_cycle(self.sync_state(), replies@, k as int) == after_cycle(start, replies@, 0),
                path == old(self).state.sync_log.path(),
                forall|n: int|
                    rows0.len() <= n < self.state.catalog@.len() ==> taken_in_cycle(
                        #[trigger] self.state.catalog@[n],
                        replies@,
                        path,
                        self.state.sync_log.contents(),
                    ),
            decreases replies.len() - k,
        {
            match &replies[k].manifest {
                None => {},
                Some(manifest) => {
                    let ghost rows_before = self.state.catalog@;
                    let ghost log_before = self.state.sync_log.contents();
                    let done = self.sync_peer(manifest, &replies[k].downloads);
                    proof {
                        let rows = self.state.catalog@;
                        let log = self.state.sync_log.contents();
                        assert(rows.take(rows0.len() as int) =~= rows.take(
                            rows_before.len() as int,
                        ).take(rows0.len() as int));
                        assert forall|n: int| rows0.len() <= n < rows.len() implies taken_in_cycle(
                            #[trigger] rows[n],
                            replies@,
                            path,
                            log,
                        ) by {
                            if n < rows_before.len() {
                                assert(rows[n] == rows.take(rows_before.len() as int)[n]);
                                assert(taken_in_cycle(rows_before[n], replies@, path, log_before));
                                let q = choose|q: int|
                                    0 <= q < replies@.len() && (#[trigger] replies@[q]).manifest
                                        is Some && taken_from(
                                        rows_before[n],
                                        replies@[q].manifest->Some_0.snapshots@,
                                        replies@[q].downloads@,
                                        path,
                                        log_before,
                                    );
                                lemma_taken_from_stable(
                                    rows_before[n],
                                    replies@[q].manifest->Some_0.snapshots@,
                                    replies@[q].downloads@,
                                    path,
                                    log_before,
                                    log,
                                );
                            } else {
                                assert(replies@[k as int].manifest is Some);
                                assert(taken_from(
                                    rows[n],
                                    replies@[k as int].manifest->Some_0.snapshots@,
                                    replies@[k as int].downloads@,
                                    path,
                                    log,
                                ));
                            }
                        }
                    }
                    match done {
                        Ok(()) => {},
                        Err(e) => {
                            return Err(e);
                        },
                    }
                },
            }
            k += 1;
        }
        Ok(())
    }
}

} // verus!
