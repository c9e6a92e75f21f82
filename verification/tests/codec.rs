use archive_stream::log::{LogError, WarcWriter};
use archive_stream::record::{MalformedRecord, WarcRecord};

fn sample() -> WarcRecord {
    WarcRecord {
        url: "https://example.com/a?b=c".to_string(),
        timestamp: 1_700_000_000,
        content: b"<html>hi\r\n\r\nthere</html>".to_vec(),
        content_type: "text/html; charset=utf-8".to_string(),
        payload_digest: "9f86d081884c7d659a2feaa0c55ad015a3bf4f1b2b0b822cd15d6c15b0f00a08".to_string(),
    }
}

#[test]
fn block_has_the_exact_layout() {
    let r = WarcRecord {
        url: "http://a.test/".to_string(),
        timestamp: 0,
        content: b"hello".to_vec(),
        content_type: "text/plain".to_string(),
        payload_digest: "abc123".to_string(),
    };
    let bytes = r.to_warc_bytes_with_id(0xa1a2a3a4b1b2c1c2d1d2d3d4d5d6d7d8u128);
    let expected = "WARC/1.0\r\n\
WARC-Type: response\r\n\
WARC-Record-ID: <urn:uuid:a1a2a3a4-b1b2-c1c2-d1d2-d3d4d5d6d7d8>\r\n\
WARC-Date: 1970-01-01T00:00:00Z\r\n\
WARC-Target-URI: http://a.test/\r\n\
WARC-Payload-Digest: sha256:abc123\r\n\
Content-Type: text/plain\r\n\
Content-Length: 5\r\n\
\r\n\
hello\r\n\r\n";
    assert_eq!(String::from_utf8(bytes).unwrap(), expected);
}

#[test]
fn date_line_is_written_in_utc() {
    let mut r = sample();
    r.timestamp = 1_700_000_000;
    let text = String::from_utf8_lossy(&r.to_warc_bytes_with_id(1)).to_string();
    assert!(text.contains("WARC-Date: 2023-11-14T22:13:20Z\r\n"));
    assert!(text.contains("<urn:uuid:00000000-0000-0000-0000-000000000001>"));
}

#[test]
fn round_trip_reproduces_the_record() {
    let r = sample();
    assert!(r.is_well_formed());
    let back = WarcRecord::from_warc_bytes(&r.to_warc_bytes()).unwrap();
    assert_eq!(back.url, r.url);
    assert_eq!(back.timestamp, r.timestamp);
    assert_eq!(back.content_type, r.content_type);
    assert_eq!(back.content, r.content);
    assert_eq!(back.payload_digest, r.payload_digest);
}

#[test]
fn round_trip_keeps_text_that_is_not_ascii() {
    let mut r = sample();
    r.url = "https://example.com/caf\u{e9}/\u{65e5}\u{672c}".to_string();
    r.content = vec![0, 255, 13, 10, 13, 10, 7];
    let back = WarcRecord::from_warc_bytes(&r.to_warc_bytes()).unwrap();
    assert_eq!(back.url, r.url);
    assert_eq!(back.content, r.content);
}

#[test]
fn round_trip_of_an_empty_payload_and_of_the_calendar_bounds() {
    for t in [-62167219200i64, 0, 253402300799] {
        let mut r = sample();
        r.timestamp = t;
        r.content = Vec::new();
        assert!(r.is_well_formed());
        let bytes = r.to_warc_bytes();
        let back = WarcRecord::from_warc_bytes(&bytes).unwrap();
        assert_eq!(back.timestamp, t);
        assert!(back.content.is_empty());
    }
}

#[test]
fn fresh_identifiers_differ_but_not_the_record() {
    let r = sample();
    let a = r.to_warc_bytes();
    let b = r.to_warc_bytes();
    assert_ne!(a, b);
    assert_eq!(a.len(), b.len());
}

#[test]
fn a_record_with_a_line_break_in_its_url_is_not_well_formed() {
    let mut r = sample();
    r.url = "http://a.test/\r\nX: y".to_string();
    assert!(!r.is_well_formed());
    let mut r = sample();
    r.timestamp = i64::MAX;
    assert!(!r.is_well_formed());
    r.timestamp = i64::MIN;
    assert!(!r.is_well_formed());
}

#[test]
fn whatever_time_is_accepted_comes_back() {
    let times = [
        -62167219201i64,
        -62167219200,
        -1,
        0,
        1,
        951782400,
        253402300799,
        253402300800,
        8210266876799,
        -8334601228800,
        i64::MAX / 2,
    ];
    for t in times {
        let mut r = sample();
        r.timestamp = t;
        match r.encode() {
            Ok(bytes) => {
                assert!(r.is_well_formed());
                assert_eq!(WarcRecord::decode(&bytes).unwrap().timestamp, t);
            }
            Err(_) => assert!(!r.is_well_formed()),
        }
    }
}

#[test]
fn decode_rejects_a_wrong_declared_length() {
    let r = sample();
    let bytes = r.to_warc_bytes_with_id(7);
    let text = String::from_utf8_lossy(&bytes).to_string();
    let longer = text.replace("Content-Length: 24", "Content-Length: 25");
    assert_ne!(longer, text);
    assert_eq!(WarcRecord::from_warc_bytes(longer.as_bytes()).err(), Some(MalformedRecord));
    let shorter = text.replace("Content-Length: 24", "Content-Length: 23");
    assert_eq!(WarcRecord::from_warc_bytes(shorter.as_bytes()).err(), Some(MalformedRecord));
    let none = text.replace("Content-Length: 24", "Content-Length: x");
    assert_eq!(WarcRecord::from_warc_bytes(none.as_bytes()).err(), Some(MalformedRecord));
}

#[test]
fn decode_rejects_truncated_and_extended_blocks() {
    let bytes = sample().to_warc_bytes_with_id(7);
    for cut in [0usize, 1, 10, bytes.len() / 2, bytes.len() - 1] {
        assert!(WarcRecord::from_warc_bytes(&bytes[..cut]).is_err());
    }
    let mut more = bytes.clone();
    more.push(b'x');
    assert!(WarcRecord::from_warc_bytes(&more).is_err());
    assert!(WarcRecord::from_warc_bytes(&bytes).is_ok());
}

#[test]
fn decode_rejects_a_bad_date_and_bad_text() {
    let bytes = sample().to_warc_bytes_with_id(7);
    let text = String::from_utf8_lossy(&bytes).to_string();
    let bad_date = text.replace("2023-11-14T22:13:20Z", "2023-13-14T22:13:20Z");
    assert!(WarcRecord::from_warc_bytes(bad_date.as_bytes()).is_err());
    let not_a_date = text.replace("2023-11-14T22:13:20Z", "yesterday");
    assert!(WarcRecord::from_warc_bytes(not_a_date.as_bytes()).is_err());
    let mut bad_text = bytes.clone();
    let at = text.find("example.com").unwrap();
    bad_text[at] = 0xff;
    assert!(WarcRecord::from_warc_bytes(&bad_text).is_err());
    let swapped = text.replace("WARC-Date: ", "WARC-Data: ");
    assert!(WarcRecord::from_warc_bytes(swapped.as_bytes()).is_err());
}

#[test]
fn decode_reads_a_block_written_by_hand() {
    let block = "WARC/1.0\r\nWARC-Type: response\r\nWARC-Record-ID: <urn:x>\r\n\
WARC-Date: 2001-09-09T01:46:40Z\r\nWARC-Target-URI: http://h/\r\n\
WARC-Payload-Digest: sha256:00ff\r\nContent-Type: image/png\r\nContent-Length: 003\r\n\r\nabc\r\n\r\n";
    let r = WarcRecord::from_warc_bytes(block.as_bytes()).unwrap();
    assert_eq!(r.timestamp, 1_000_000_000);
    assert_eq!(r.url, "http://h/");
    assert_eq!(r.payload_digest, "00ff");
    assert_eq!(r.content_type, "image/png");
    assert_eq!(r.content, b"abc".to_vec());
}

#[test]
fn appends_return_ranges_that_do_not_overlap_and_read_back() {
    let mut log = WarcWriter::new("data/archive/a.warc".to_string());
    assert_eq!(log.file_path(), "data/archive/a.warc");
    let chunks: Vec<Vec<u8>> = vec![b"first".to_vec(), Vec::new(), b"second chunk".to_vec(), vec![0, 1, 2]];
    let mut ranges = Vec::new();
    for c in &chunks {
        ranges.push(log.append(c).unwrap());
    }
    assert_eq!(ranges, vec![(0, 5), (5, 0), (5, 12), (17, 3)]);
    assert_eq!(log.size(), 20);
    for (c, (offset, length)) in chunks.iter().zip(ranges.iter()) {
        assert_eq!(&log.read(*offset, *length).unwrap(), c);
    }
    for i in 0..ranges.len() {
        for j in (i + 1)..ranges.len() {
            assert!(ranges[i].0 + ranges[i].1 <= ranges[j].0);
        }
    }
}

#[test]
fn read_past_the_end_is_a_truncated_read() {
    let mut log = WarcWriter::new("a.warc".to_string());
    log.append(b"0123456789").unwrap();
    assert_eq!(log.read(0, 10).unwrap(), b"0123456789".to_vec());
    assert_eq!(log.read(4, 3).unwrap(), b"456".to_vec());
    assert_eq!(log.read(10, 0).unwrap(), Vec::<u8>::new());
    assert_eq!(log.read(5, 6), Err(LogError::TruncatedRead));
    assert_eq!(log.read(11, 0), Err(LogError::TruncatedRead));
    assert_eq!(log.read(u64::MAX, u64::MAX), Err(LogError::TruncatedRead));
}

#[test]
fn written_records_read_back_from_their_ranges() {
    let mut log = WarcWriter::new("a.warc".to_string());
    let a = sample();
    let mut b = sample();
    b.url = "https://example.org/other".to_string();
    b.content = b"other".to_vec();
    let (o1, l1) = log.write_record(&a).unwrap();
    let (o2, l2) = log.write_record(&b).unwrap();
    assert_eq!(o1, 0);
    assert_eq!(o2, l1);
    assert_eq!(log.size() as u64, l1 + l2);
    let ra = WarcRecord::from_warc_bytes(&log.read(o1, l1).unwrap()).unwrap();
    let rb = WarcRecord::from_warc_bytes(&log.read(o2, l2).unwrap()).unwrap();
    assert_eq!(ra.url, a.url);
    assert_eq!(ra.content, a.content);
    assert_eq!(rb.url, b.url);
    assert_eq!(rb.content, b.content);
}

#[test]
fn records_that_are_not_well_formed_are_rejected() {
    let bad = WarcRecord::new("http://a/\nb".to_string(), 0, Vec::new(), "t".to_string(), "d".to_string());
    assert_eq!(bad.err(), Some(MalformedRecord));
    let bad = WarcRecord::new("http://a/".to_string(), 0, Vec::new(), "t\r".to_string(), "d".to_string());
    assert!(bad.is_err());
    let bad = WarcRecord::new("http://a/".to_string(), 0, Vec::new(), "t".to_string(), "d\n".to_string());
    assert!(bad.is_err());
    let bad = WarcRecord::new("http://a/".to_string(), i64::MIN, Vec::new(), "t".to_string(), "d".to_string());
    assert!(bad.is_err());
    let good = WarcRecord::new("http://a/".to_string(), 0, vec![13, 10], "t".to_string(), "d".to_string()).unwrap();
    assert_eq!(WarcRecord::decode(&good.encode().unwrap()).unwrap().content, vec![13, 10]);
    let mut broken = sample();
    broken.url.push('\r');
    assert_eq!(broken.encode().err(), Some(MalformedRecord));
    let mut log = WarcWriter::new("a.warc".to_string());
    assert_eq!(log.write_record(&broken), Err(LogError::Rejected));
    assert_eq!(log.size(), 0);
}
