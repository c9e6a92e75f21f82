use archive_stream::catalog::{PayloadIndex, SnapshotCatalog};
use archive_stream::federation::{
    download_snapshot, download_url, get_manifest, get_peers, handle_handshake, manifest_url,
    search_federated, search_url, ApiError, HandshakeRequest, ManifestRequest,
};
use archive_stream::record::WarcRecord;
use archive_stream::log::WarcWriter;
use archive_stream::peers::{Peer, PeerManager, PeerStatus};
use archive_stream::snapshot::Snapshot;
use archive_stream::sync::{AppState, ManifestResponse, PeerReply, SyncError, SyncWorker};

fn state() -> AppState {
    AppState {
        peer_manager: PeerManager::new("node-a".to_string()),
        catalog: SnapshotCatalog::new(),
        payloads: PayloadIndex::new(),
        sync_log: WarcWriter::new("sync.warc".to_string()),
        logs: Vec::new(),
    }
}

fn remote(id: u128, sha: &str) -> Snapshot {
    Snapshot {
        id,
        url: format!("http://remote/{}", id),
        timestamp: 1_700_000_000 + id as i64,
        warc_file: "peer.warc".to_string(),
        offset: 1000,
        length: 50,
        sha256: sha.to_string(),
        status_code: 404,
        content_type: "text/plain".to_string(),
        payload_hash: Some(format!("p-{}", sha)),
    }
}

fn peer(id: &str, endpoint: &str) -> Peer {
    Peer {
        id: id.to_string(),
        endpoint: endpoint.to_string(),
        last_seen: 5,
        status: PeerStatus::Active,
        capabilities: vec!["search".to_string()],
    }
}

#[test]
fn handshake_registers_one_active_peer() {
    let mut s = state();
    let reply = handle_handshake(
        &mut s,
        HandshakeRequest { node_id: "node-b".to_string(), endpoint: "http://10.0.0.2:3000".to_string() },
    );
    assert_eq!(reply.status, "accepted");
    assert_eq!(reply.local_node_id, "node-a");
    let listing = get_peers(&s);
    assert_eq!(listing.local_node_id, "node-a");
    assert_eq!(listing.peers.len(), 1);
    assert_eq!(listing.peers[0].id, "node-b");
    assert_eq!(listing.peers[0].endpoint, "http://10.0.0.2:3000");
    assert_eq!(listing.peers[0].status, PeerStatus::Active);
    assert_eq!(listing.peers[0].capabilities, vec!["search".to_string(), "sync".to_string()]);
    assert!(listing.peers[0].last_seen > 1_600_000_000);
}

#[test]
fn one_missing_snapshot_gives_one_row_and_a_repeat_gives_none() {
    let mut s = state();
    handle_handshake(
        &mut s,
        HandshakeRequest { node_id: "node-b".to_string(), endpoint: "http://10.0.0.2:3000".to_string() },
    );
    let mut w = SyncWorker::new(s);
    let manifest = ManifestResponse { snapshots: vec![remote(1, "abc123")] };
    let downloads = vec![Some(b"raw block bytes".to_vec())];
    assert_eq!(w.next_missing(&manifest, 0), Some(0));
    assert_eq!(w.sync_peer(&manifest, &downloads), Ok(()));
    assert_eq!(w.state.catalog.len(), 1);
    let row = w.state.catalog.row(0).unwrap();
    assert_eq!(row.sha256, "abc123");
    assert_eq!(row.url, "http://remote/1");
    assert_eq!(row.timestamp, 1_700_000_001);
    assert_eq!(row.status_code, 404);
    assert_eq!(row.content_type, "text/plain");
    assert_eq!(row.payload_hash, Some("p-abc123".to_string()));
    assert_eq!(row.warc_file, "sync.warc");
    assert_eq!((row.offset, row.length), (0, 15));
    assert_eq!(w.state.sync_log.read(0, 15).unwrap(), b"raw block bytes".to_vec());
    assert_eq!(w.next_missing(&manifest, 0), None);
    assert_eq!(w.sync_peer(&manifest, &downloads), Ok(()));
    assert_eq!(w.state.catalog.len(), 1);
    assert_eq!(w.state.sync_log.size(), 15);
}

#[test]
fn a_hash_that_occurs_twice_is_taken_once() {
    let mut w = SyncWorker::new(state());
    let manifest = ManifestResponse { snapshots: vec![remote(1, "h1"), remote(2, "h1"), remote(3, "h3")] };
    let downloads = vec![Some(b"one".to_vec()), Some(b"two".to_vec()), Some(b"three".to_vec())];
    assert_eq!(w.sync_peer(&manifest, &downloads), Ok(()));
    assert_eq!(w.state.catalog.len(), 2);
    assert_eq!(w.state.catalog.row(0).unwrap().url, "http://remote/1");
    assert_eq!(w.state.catalog.row(1).unwrap().url, "http://remote/3");
    assert_eq!((w.state.catalog.row(1).unwrap().offset, w.state.catalog.row(1).unwrap().length), (3, 5));
    assert_ne!(w.state.catalog.row(0).unwrap().id, w.state.catalog.row(1).unwrap().id);
    assert_eq!(w.state.sync_log.read(3, 5).unwrap(), b"three".to_vec());
}

#[test]
fn a_failed_download_ends_the_cycle_and_a_retry_does_not_duplicate() {
    let mut w = SyncWorker::new(state());
    let manifest = ManifestResponse { snapshots: vec![remote(1, "h1"), remote(2, "h2"), remote(3, "h3")] };
    let failing = vec![Some(b"one".to_vec()), None, Some(b"three".to_vec())];
    assert_eq!(w.sync_peer(&manifest, &failing), Err(SyncError::Download));
    assert_eq!(w.state.catalog.len(), 1);
    assert_eq!(w.next_missing(&manifest, 0), Some(1));
    assert_eq!(w.sync_peer(&manifest, &failing), Err(SyncError::Download));
    assert_eq!(w.state.catalog.len(), 1);
    let short = vec![Some(b"one".to_vec())];
    assert_eq!(w.sync_peer(&manifest, &short), Err(SyncError::Download));
    let working = vec![None, Some(b"two".to_vec()), Some(b"three".to_vec())];
    assert_eq!(w.sync_peer(&manifest, &working), Ok(()));
    assert_eq!(w.state.catalog.len(), 3);
    assert_eq!(w.sync_peer(&manifest, &working), Ok(()));
    assert_eq!(w.state.catalog.len(), 3);
    assert_eq!(w.state.sync_log.size(), 11);
}

#[test]
fn an_empty_manifest_is_a_no_op() {
    let mut w = SyncWorker::new(state());
    assert_eq!(w.sync_peer(&ManifestResponse { snapshots: Vec::new() }, &Vec::new()), Ok(()));
    assert_eq!(w.state.catalog.len(), 0);
    assert_eq!(w.state.sync_log.size(), 0);
}

#[test]
fn saved_rows_carry_the_given_identifier() {
    let mut w = SyncWorker::new(state());
    assert_eq!(w.save_with_id(&remote(5, "h5"), b"xyz", 77), Ok(()));
    assert_eq!(w.download_and_save(&remote(6, "h6"), b"ab"), Ok(()));
    assert_eq!(w.state.catalog.row(0).unwrap().id, 77);
    assert_eq!(w.state.catalog.row(1).unwrap().offset, 3);
    assert_eq!(w.state.catalog.row(1).unwrap().length, 2);
}

#[test]
fn search_keeps_the_peers_that_answered() {
    let peers = vec![peer("n1", "http://1"), peer("n2", "http://2"), peer("n3", "http://3")];
    let one = vec![serde_json::Value::from("x"), serde_json::Value::from(3)];
    let three = vec![serde_json::Value::Null];
    let replies = vec![Some(one.clone()), None, Some(three.clone())];
    let got = PeerManager::broadcast_search(&peers, &replies);
    assert_eq!(got.len(), 2);
    assert_eq!(got[0].source_node_id, "n1");
    assert_eq!(got[0].results, one);
    assert_eq!(got[1].source_node_id, "n3");
    assert_eq!(got[1].results, three);
    assert_eq!(PeerManager::broadcast_search(&peers, &vec![None, None, None]).len(), 0);
    assert_eq!(PeerManager::broadcast_search(&peers, &Vec::new()).len(), 0);
    assert_eq!(PeerManager::broadcast_search(&Vec::new(), &replies).len(), 0);
    let combined = search_federated(one.clone(), got);
    assert_eq!(combined.local, one);
    assert_eq!(combined.federated.len(), 2);
}

#[test]
fn service_addresses() {
    let p = peer("n1", "http://10.0.0.1:3000");
    assert_eq!(search_url(&p), "http://10.0.0.1:3000/api/v1/search");
    assert_eq!(manifest_url(&p), "http://10.0.0.1:3000/api/v1/federation/manifest?limit=50");
    assert_eq!(
        download_url(&p, 0x0123456789abcdef0123456789abcdefu128),
        "http://10.0.0.1:3000/api/v1/snapshot/01234567-89ab-cdef-0123-456789abcdef/download"
    );
}

#[test]
fn directory_upserts_and_marks() {
    let mut m = PeerManager::new("me".to_string());
    assert!(m.get_active_peers().is_empty());
    m.add_peer_at("b".to_string(), "http://b".to_string(), 10);
    m.add_peer_at("c".to_string(), "http://c".to_string(), 11);
    m.add_peer_at("b".to_string(), "http://b2".to_string(), 12);
    let mut active = m.get_active_peers();
    active.sort_by(|x, y| x.id.cmp(&y.id));
    assert_eq!(active.len(), 2);
    assert_eq!((active[0].id.as_str(), active[0].endpoint.as_str(), active[0].last_seen), ("b", "http://b2", 12));
    assert_eq!((active[1].id.as_str(), active[1].endpoint.as_str(), active[1].last_seen), ("c", "http://c", 11));
    m.mark_unreachable(&"b".to_string());
    m.mark_unreachable(&"nobody".to_string());
    let active = m.get_active_peers();
    assert_eq!(active.len(), 1);
    assert_eq!(active[0].id, "c");
    assert!(!m.set_status_at(&"nobody".to_string(), PeerStatus::Banned, 1));
    assert!(m.set_status_at(&"c".to_string(), PeerStatus::Banned, 20));
    assert!(m.get_active_peers().is_empty());
    m.update_last_seen(&"b".to_string());
    let active = m.get_active_peers();
    assert_eq!(active.len(), 1);
    assert_eq!(active[0].id, "b");
    assert_eq!(active[0].endpoint, "http://b2");
    assert!(active[0].last_seen > 1_600_000_000);
    m.add_peer("c".to_string(), "http://c3".to_string());
    assert_eq!(m.get_peers_json().peers.len(), 2);
    assert_eq!(m.local_node_id(), "me");
}

fn reply(snapshots: Vec<Snapshot>, downloads: Vec<Option<Vec<u8>>>) -> PeerReply {
    PeerReply { manifest: Some(ManifestResponse { snapshots }), downloads }
}

#[test]
fn a_cycle_without_peers_changes_nothing() {
    let mut w = SyncWorker::new(state());
    assert_eq!(w.sync_cycle(&Vec::new()), Ok(()));
    assert_eq!(w.state.catalog.len(), 0);
}

#[test]
fn a_cycle_skips_unreachable_peers_and_repeats_without_new_rows() {
    let mut w = SyncWorker::new(state());
    let replies = vec![
        reply(vec![remote(1, "h1"), remote(2, "h2")], vec![Some(b"a".to_vec()), Some(b"bb".to_vec())]),
        PeerReply { manifest: None, downloads: Vec::new() },
        reply(vec![remote(3, "h2"), remote(4, "h4")], vec![Some(b"x".to_vec()), Some(b"dddd".to_vec())]),
    ];
    assert_eq!(w.sync_cycle(&replies), Ok(()));
    assert_eq!(w.state.catalog.len(), 3);
    assert_eq!(w.state.catalog.row(2).unwrap().sha256, "h4");
    assert_eq!((w.state.catalog.row(2).unwrap().offset, w.state.catalog.row(2).unwrap().length), (3, 4));
    assert_eq!(w.sync_cycle(&replies), Ok(()));
    assert_eq!(w.state.catalog.len(), 3);
    assert_eq!(w.state.sync_log.size(), 7);
}

#[test]
fn a_cycle_ends_at_the_first_record_that_fails() {
    let mut w = SyncWorker::new(state());
    let replies = vec![
        reply(vec![remote(1, "h1"), remote(2, "h2")], vec![Some(b"a".to_vec()), None]),
        reply(vec![remote(4, "h4")], vec![Some(b"dddd".to_vec())]),
    ];
    assert_eq!(w.sync_cycle(&replies), Err(SyncError::Download));
    assert_eq!(w.state.catalog.len(), 1);
    assert_eq!(w.sync_cycle(&replies), Err(SyncError::Download));
    assert_eq!(w.state.catalog.len(), 1);
}

fn local(id: u128, timestamp: i64, file: &str, offset: u64, length: u64) -> Snapshot {
    Snapshot {
        id,
        url: "http://u/".to_string(),
        timestamp,
        warc_file: file.to_string(),
        offset,
        length,
        sha256: format!("h{}", id),
        status_code: 200,
        content_type: "text/html".to_string(),
        payload_hash: None,
    }
}

#[test]
fn manifest_lists_the_window_latest_first() {
    let mut s = state();
    let now: i64 = 1_700_000_000;
    s.catalog.insert(local(1, now - 86_401, "a.warc", 0, 1));
    s.catalog.insert(local(2, now - 86_400, "a.warc", 0, 1));
    s.catalog.insert(local(3, now - 10, "a.warc", 0, 1));
    s.catalog.insert(local(4, now, "a.warc", 0, 1));
    s.catalog.insert(local(5, now + 1, "a.warc", 0, 1));
    s.catalog.insert(local(6, now - 10, "a.warc", 0, 1));
    let ids = |m: &ManifestResponse| m.snapshots.iter().map(|x| x.id).collect::<Vec<u128>>();
    let all = get_manifest(&s, &ManifestRequest { from: None, to: None, limit: None }, now);
    assert_eq!(ids(&all), vec![4, 6, 3, 2]);
    let two = get_manifest(&s, &ManifestRequest { from: None, to: None, limit: Some(2) }, now);
    assert_eq!(ids(&two), vec![4, 6]);
    let none = get_manifest(&s, &ManifestRequest { from: None, to: None, limit: Some(0) }, now);
    assert!(none.snapshots.is_empty());
    let wide = get_manifest(&s, &ManifestRequest { from: Some(i64::MIN), to: Some(i64::MAX), limit: None }, now);
    assert_eq!(ids(&wide), vec![5, 4, 6, 3, 2, 1]);
    let narrow = get_manifest(&s, &ManifestRequest { from: Some(now - 10), to: Some(now - 10), limit: Some(5) }, now);
    assert_eq!(ids(&narrow), vec![6, 3]);
    let empty = get_manifest(&s, &ManifestRequest { from: Some(5), to: Some(4), limit: None }, now);
    assert!(empty.snapshots.is_empty());
    let early = get_manifest(&s, &ManifestRequest { from: None, to: None, limit: None }, i64::MIN + 5);
    assert!(early.snapshots.is_empty());
    assert_eq!(s.catalog.find_by_id(6), Some(5));
    assert_eq!(s.catalog.find_by_id(7), None);
}

#[test]
fn download_hands_out_the_block_or_says_why_not() {
    let mut s = state();
    let mut own = WarcWriter::new("a.warc".to_string());
    let rec = WarcRecord::new(
        "http://u/".to_string(),
        1_700_000_000,
        b"payload".to_vec(),
        "text/plain".to_string(),
        "00".to_string(),
    )
    .unwrap();
    own.append(b"junk").unwrap();
    let (offset, length) = own.write_record(&rec).unwrap();
    assert_eq!(offset, 4);
    s.logs.push(own);
    s.sync_log.append(b"0123456789").unwrap();
    s.catalog.insert(local(1, 5, "a.warc", offset, length));
    s.catalog.insert(local(2, 5, "sync.warc", 2, 3));
    s.catalog.insert(local(3, 5, "sync.warc", 8, 3));
    s.catalog.insert(local(4, 5, "missing.warc", 0, 0));
    let block = download_snapshot(&s, 1).unwrap();
    assert_eq!(WarcRecord::decode(&block).unwrap().content, b"payload".to_vec());
    assert_eq!(download_snapshot(&s, 2), Ok(b"234".to_vec()));
    assert_eq!(download_snapshot(&s, 3), Err(ApiError::Storage));
    assert_eq!(download_snapshot(&s, 4), Err(ApiError::Storage));
    assert_eq!(download_snapshot(&s, 5), Err(ApiError::NotFound));
}
