//! The catalog's row: where one archived block lies and what it holds.

use vstd::prelude::*;

verus! {

/// One catalog entry. It points at one block of an archive log by file,
/// offset and length, and carries the URL, the time and the hashes of what
/// was captured. A row is never changed once it is inserted.
#[derive(Debug)]
pub struct Snapshot {
    /// The unique identifier of the row.
    pub id: u128,
    /// The URL that was captured.
    pub url: String,
    /// The instant of the capture, in whole seconds since the epoch (UTC).
    pub timestamp: i64,
    /// The name of the log file that holds the block.
    pub warc_file: String,
    /// The offset of the block's first byte in that file.
    pub offset: u64,
    /// The number of bytes of the block.
    pub length: u64,
    /// The content hash of the capture.
    pub sha256: String,
    /// The HTTP status code of the response.
    pub status_code: u16,
    /// The content type of the response.
    pub content_type: String,
    /// The hash of the payload, where one is known.
    pub payload_hash: Option<String>,
}

impl Clone for Snapshot {
    fn clone(&self) -> (r: Self)
        ensures
            r == *self,
    {
        Snapshot {
            id: self.id,
            url: self.url.clone(),
            timestamp: self.timestamp,
            warc_file: self.warc_file.clone(),
            offset: self.offset,
            length: self.length,
            sha256: self.sha256.clone(),
            status_code: self.status_code,
            content_type: self.content_type.clone(),
            payload_hash: match &self.payload_hash {
                Some(h) => Some(h.clone()),
                None => None,
            },
        }
    }
}

/// The canonical place of a payload: the log file and the offset where the
/// bytes with this payload hash were first stored.
#[derive(Debug)]
pub struct PayloadLocation {
    /// The payload hash.
    pub hash: String,
    /// The name of the log file that holds the payload.
    pub warc_path: String,
    /// The offset in that file.
    pub warc_offset: u64,
}

impl Clone for PayloadLocation {
    fn clone(&self) -> (r: Self)
        ensures
            r == *self,
    {
        PayloadLocation {
            hash: self.hash.clone(),
            warc_path: self.warc_path.clone(),
            warc_offset: self.warc_offset,
        }
    }
}

} // verus!
