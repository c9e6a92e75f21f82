use archive_stream::capture::store_capture;
use archive_stream::catalog::{PayloadIndex, SnapshotCatalog};
use archive_stream::log::{LogError, WarcWriter};
use archive_stream::record::WarcRecord;
use archive_stream::resolver::Resolver;

fn record(url: &str, timestamp: i64) -> WarcRecord {
    WarcRecord {
        url: url.to_string(),
        timestamp,
        content: b"same payload".to_vec(),
        content_type: "text/plain".to_string(),
        payload_digest: "d1".to_string(),
    }
}

#[test]
fn a_capture_is_written_indexed_and_deduplicated() {
    let mut log = WarcWriter::new("a.warc".to_string());
    let mut catalog = SnapshotCatalog::new();
    let mut payloads = PayloadIndex::new();
    let first = record("http://one/", 100);
    let second = record("http://two/", 200);
    let (o1, l1) =
        store_capture(&mut log, &mut catalog, &mut payloads, &first, "sha-1".to_string(), 200).unwrap();
    let (o2, l2) =
        store_capture(&mut log, &mut catalog, &mut payloads, &second, "sha-2".to_string(), 301).unwrap();
    assert_eq!(o1, 0);
    assert_eq!(o2, l1);
    assert_eq!(log.size() as u64, l1 + l2);
    assert_eq!(catalog.len(), 2);
    assert_eq!(payloads.len(), 1);
    let place = payloads.lookup(&"d1".to_string()).unwrap();
    assert_eq!((place.warc_path.as_str(), place.warc_offset), ("a.warc", 0));
    let row = catalog.row(1).unwrap();
    assert_eq!(row.url, "http://two/");
    assert_eq!(row.timestamp, 200);
    assert_eq!(row.sha256, "sha-2");
    assert_eq!(row.status_code, 301);
    assert_eq!(row.content_type, "text/plain");
    assert_eq!(row.payload_hash, Some("d1".to_string()));
    assert_eq!((row.warc_file.as_str(), row.offset, row.length), ("a.warc", o2, l2));
    assert_ne!(catalog.row(0).unwrap().id, row.id);
    let back = WarcRecord::decode(&log.read(row.offset, row.length).unwrap()).unwrap();
    assert_eq!(back.url, "http://two/");
    assert_eq!(back.content, b"same payload".to_vec());
    let resolver = Resolver::new(&catalog, &payloads);
    let served = resolver.resolve(&"http://two/".to_string(), 250).unwrap();
    assert_eq!((served.warc_file.as_str(), served.offset, served.length), ("a.warc", 0, l2));
    assert!(resolver.resolve(&"http://two/".to_string(), 199).is_none());
}

#[test]
fn a_rejected_capture_changes_nothing() {
    let mut log = WarcWriter::new("a.warc".to_string());
    let mut catalog = SnapshotCatalog::new();
    let mut payloads = PayloadIndex::new();
    let bad = record("http://one/\r\n", 100);
    let r = store_capture(&mut log, &mut catalog, &mut payloads, &bad, "sha".to_string(), 200);
    assert_eq!(r, Err(LogError::Rejected));
    assert_eq!(log.size(), 0);
    assert_eq!(catalog.len(), 0);
    assert_eq!(payloads.len(), 0);
}

#[test]
fn many_appends_at_once_give_the_same_ranges_as_one_by_one() {
    let chunks = vec![b"ab".to_vec(), Vec::new(), b"cde".to_vec()];
    let mut all = WarcWriter::new("a.warc".to_string());
    all.append(b"x").unwrap();
    let ranges = all.append_all(&chunks).unwrap();
    assert_eq!(ranges, vec![(1, 2), (3, 0), (3, 3)]);
    assert_eq!(all.read(0, 6).unwrap(), b"xabcde".to_vec());
    for (c, (o, l)) in chunks.iter().zip(ranges.iter()) {
        assert_eq!(&all.read(*o, *l).unwrap(), c);
    }
}
