//! The write path of a local capture: the record goes into the archive
//! log, its place into the catalog, and its payload into the payload index.

use vstd::prelude::*;
use crate::catalog::{knows, PayloadIndex, SnapshotCatalog};
use crate::log::{LogError, WarcWriter};
use crate::outside::fresh_id;
use crate::record::{record_of, well_formed, WarcRecord};
use crate::snapshot::{PayloadLocation, Snapshot};

verus! {

/// `row` is the catalog row of a capture of `record` that was written to
/// the log file `path`, which then held `log`: it carries the record's URL,
/// time and content type, the given content hash and status code, and the
/// record's digest as payload hash; and its range of the log holds one
/// block, which reads back as the record.
pub open spec fn indexes(
    row: Snapshot,
    record: WarcRecord,
    sha256: Seq<char>,
    status_code: u16,
    path: Seq<char>,
    log: Seq<u8>,
) -> bool {
    &&& row.url@ == record.url@
    &&& row.timestamp == record.timestamp
    &&& row.content_type@ == record.content_type@
    &&& row.sha256@ == sha256
    &&& row.status_code == status_code
    &&& row.payload_hash is Some
    &&& row.payload_hash->Some_0@ == record.payload_digest@
    &&& row.warc_file@ == path
    &&& row.offset + row.length <= log.len()
    &&& record_of(log.subrange(row.offset as int, row.offset + row.length)) == Some(record@)
}

/// What storing a capture gives where it succeeds: the block stands at
/// the end of the log, in the range that is returned; the catalog has one
/// row more, which indexes the block; and the payload index knows the
/// block's place for the record's digest unless it knew a place before.
pub open spec fn captured(
    log_before: Seq<u8>,
    log_after: Seq<u8>,
    path: Seq<char>,
    rows_before: Seq<Snapshot>,
    rows_after: Seq<Snapshot>,
    places_before: Seq<PayloadLocation>,
    places_after: Seq<PayloadLocation>,
    record: WarcRecord,
    sha256: Seq<char>,
    status_code: u16,
    range: (u64, u64),
) -> bool {
    &&& well_formed(record@)
    &&& range.0 == log_before.len()
    &&& log_after.len() == range.0 + range.1
    &&& rows_after.len() == rows_before.len() + 1
    &&& rows_after == rows_before.push(rows_after.last())
    &&& rows_after.last().offset == range.0
    &&& rows_after.last().length == range.1
    &&& indexes(rows_after.last(), record, sha256, status_code, path, log_after)
    &&& if knows(places_before, record.payload_digest@) {
        places_after == places_before
    } else {
        &&& places_after.len() == places_before.len() + 1
        &&& places_after == places_before.push(places_after.last())
        &&& places_after.last().hash@ == record.payload_digest@
        &&& places_after.last().warc_path@ == path
        &&& places_after.last().warc_offset == range.0
    }
}

/// Stores a capture. The record is laid out as a block and appended to
/// the log; a row that points at the block is entered in the catalog under
/// a fresh identifier; and the block's place becomes the canonical place of
/// the payload unless the index knows one already. A record that is not
/// well formed, or a block that the log cannot take, changes nothing and is
/// returned as the error.
pub fn store_capture(
    log: &mut WarcWriter,
    catalog: &mut SnapshotCatalog,
    payloads: &mut PayloadIndex,
    record: &WarcRecord,
    sha256: String,
    status_code: u16,
) -> (r: Result<(u64, u64), LogError>)
    requires
        old(payloads).wf(),
    ensures
        final(payloads).wf(),
        final(log).path() == old(log).path(),
        old(log).contents().is_prefix_of(final(log).contents()),
        !well_formed(record@) ==> r == Err::<(u64, u64), LogError>(LogError::Rejected),
        match r {
            Ok(range) => captured(
                old(log).contents(),
                final(log).contents(),
                final(log).path(),
                old(catalog)@,
                final(catalog)@,
                old(payloads)@,
                final(payloads)@,
                *record,
                sha256@,
                status_code,
                range,
            ),
            Err(e) => {
                &&& e != LogError::TruncatedRead
                &&& final(log).contents() == old(log).contents()
                &&& final(catalog)@ == old(catalog)@
                &&& final(payloads)@ == old(payloads)@
            },
        },
{
    match log.write_record(record) {
        Err(e) => Err(e),
        Ok((offset, length)) => {
            let row = Snapshot {
                id: fresh_id(),
                url: record.url.clone(),
                timestamp: record.timestamp,
                warc_file: log.file_path().clone(),
                offset,
                length,
                sha256,
                status_code,
                content_type: record.content_type.clone(),
                payload_hash: Some(record.payload_digest.clone()),
            };
            catalog.insert(row);
            let place = PayloadLocation {
                hash: record.payload_digest.clone(),
                warc_path: log.file_path().clone(),
                warc_offset: offset,
            };
            payloads.register(place);
            Ok((offset, length))
        },
    }
}

} // verus!
