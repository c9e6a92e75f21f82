use archive_stream::catalog::{PayloadIndex, SnapshotCatalog};
use archive_stream::resolver::{substitute_location, Resolver};
use archive_stream::snapshot::{PayloadLocation, Snapshot};

fn snap(id: u128, url: &str, timestamp: i64, sha: &str) -> Snapshot {
    Snapshot {
        id,
        url: url.to_string(),
        timestamp,
        warc_file: "a.warc".to_string(),
        offset: 10 * id as u64,
        length: 10,
        sha256: sha.to_string(),
        status_code: 200,
        content_type: "text/html".to_string(),
        payload_hash: None,
    }
}

fn three() -> SnapshotCatalog {
    let mut c = SnapshotCatalog::new();
    c.insert(snap(2, "http://u/", 200, "h2"));
    c.insert(snap(1, "http://u/", 100, "h1"));
    c.insert(snap(9, "http://other/", 250, "h9"));
    c.insert(snap(3, "http://u/", 300, "h3"));
    c
}

#[test]
fn time_travel_returns_the_latest_capture_at_or_before() {
    let c = three();
    let p = PayloadIndex::new();
    let r = Resolver::new(&c, &p);
    let u = "http://u/".to_string();
    assert!(r.resolve(&u, 99).is_none());
    assert!(r.resolve(&u, i64::MIN).is_none());
    assert_eq!(r.resolve(&u, 100).unwrap().id, 1);
    assert_eq!(r.resolve(&u, 199).unwrap().id, 1);
    assert_eq!(r.resolve(&u, 200).unwrap().id, 2);
    assert_eq!(r.resolve(&u, 299).unwrap().id, 2);
    assert_eq!(r.resolve(&u, 300).unwrap().id, 3);
    assert_eq!(r.resolve(&u, i64::MAX).unwrap().id, 3);
    assert!(r.resolve(&"http://none/".to_string(), 1000).is_none());
    assert_eq!(r.resolve(&"http://other/".to_string(), 1000).unwrap().id, 9);
}

#[test]
fn equal_times_resolve_to_the_row_inserted_last() {
    let mut c = three();
    c.insert(snap(4, "http://u/", 200, "h4"));
    let u = "http://u/".to_string();
    assert_eq!(c.find_latest_at_or_before(&u, 250).unwrap().id, 4);
    assert_eq!(c.position_latest_at_or_before(&u, 250), Some(4));
    assert_eq!(c.position_latest_at_or_before(&u, 50), None);
    assert_eq!(c.len(), 5);
    assert_eq!(c.row(4).unwrap().id, 4);
    assert!(c.row(5).is_none());
}

#[test]
fn exists_by_hash_tells_what_is_held() {
    let c = three();
    assert!(c.exists_by_hash(&"h1".to_string()));
    assert!(c.exists_by_hash(&"h9".to_string()));
    assert!(!c.exists_by_hash(&"h".to_string()));
    assert!(!SnapshotCatalog::new().exists_by_hash(&"h1".to_string()));
}

#[test]
fn payload_index_first_writer_wins() {
    let mut p = PayloadIndex::new();
    let loc = |h: &str, path: &str, off: u64| PayloadLocation {
        hash: h.to_string(),
        warc_path: path.to_string(),
        warc_offset: off,
    };
    assert!(p.lookup(&"pay-a".to_string()).is_none());
    assert!(p.register(loc("pay-a", "first.warc", 7)));
    assert!(!p.register(loc("pay-a", "second.warc", 99)));
    assert!(p.register(loc("pay-b", "second.warc", 5)));
    assert_eq!(p.len(), 2);
    let got = p.lookup(&"pay-a".to_string()).unwrap();
    assert_eq!(got.warc_path, "first.warc");
    assert_eq!(got.warc_offset, 7);
}

#[test]
fn resolve_serves_from_the_canonical_place() {
    let mut c = SnapshotCatalog::new();
    let mut a = snap(1, "http://u/", 100, "h1");
    a.payload_hash = Some("pay-a".to_string());
    let mut b = snap(2, "http://u/", 200, "h2");
    b.payload_hash = Some("unknown".to_string());
    c.insert(a);
    c.insert(b);
    let mut p = PayloadIndex::new();
    p.register(PayloadLocation { hash: "pay-a".to_string(), warc_path: "canon.warc".to_string(), warc_offset: 4096 });
    let r = Resolver::new(&c, &p);
    let u = "http://u/".to_string();
    let first = r.resolve(&u, 150).unwrap();
    assert_eq!(first.id, 1);
    assert_eq!(first.warc_file, "canon.warc");
    assert_eq!(first.offset, 4096);
    assert_eq!(first.length, 10);
    assert_eq!(first.sha256, "h1");
    let second = r.resolve(&u, 250).unwrap();
    assert_eq!(second.warc_file, "a.warc");
    assert_eq!(second.offset, 20);
    let plain = substitute_location(snap(3, "http://u/", 1, "h"), &p);
    assert_eq!(plain.warc_file, "a.warc");
    assert_eq!(plain.offset, 30);
}
