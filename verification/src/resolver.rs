//! The replay resolver: what a URL looked like at a given time.

use vstd::prelude::*;
use crate::catalog::{answers, is_latest, knows, PayloadIndex, SnapshotCatalog};
use crate::snapshot::{PayloadLocation, Snapshot};

verus! {

/// `served` is the catalog row `row` as a reader gets it: every field is the
/// row's, but where the payload index knows a place for the row's payload
/// hash, file and offset are those of that place.
pub open spec fn serves(served: Snapshot, row: Snapshot, entries: Seq<PayloadLocation>) -> bool {
    &&& served.id == row.id
    &&& served.url == row.url
    &&& served.timestamp == row.timestamp
    &&& served.length == row.length
    &&& served.sha256 == row.sha256
    &&& served.status_code == row.status_code
    &&& served.content_type == row.content_type
    &&& served.payload_hash == row.payload_hash
    &&& if row.payload_hash is Some && knows(entries, row.payload_hash->Some_0@) {
        exists|k: int|
            0 <= k < entries.len() && (#[trigger] entries[k]).hash@ == row.payload_hash->Some_0@
                && served.warc_file == entries[k].warc_path && served.offset
                == entries[k].warc_offset
    } else {
        served.warc_file == row.warc_file && served.offset == row.offset
    }
}

/// Resolves queries against a catalog and a payload index.
pub struct Resolver<'a> {
    catalog: &'a SnapshotCatalog,
    payloads: &'a PayloadIndex,
}

impl<'a> Resolver<'a> {
    /// The catalog that is asked.
    pub closed spec fn rows(&self) -> Seq<Snapshot> {
        self.catalog@
    }

    /// The payload index that is asked.
    pub closed spec fn places(&self) -> Seq<PayloadLocation> {
        self.payloads@
    }

    /// A resolver over the given catalog and payload index.
    pub fn new(catalog: &'a SnapshotCatalog, payloads: &'a PayloadIndex) -> (r: Self)
        ensures
            r.rows() == catalog@,
            r.places() == payloads@,
    {
        Resolver { catalog, payloads }
    }

    /// The snapshot that best shows `url` as it was at `timestamp`: the
    /// latest capture at or before that time, served from the canonical
    /// place of its payload where the index knows one. `None` exactly when
    /// the URL has no capture at or before that time; that is no error.
    pub fn resolve(&self, url: &String, timestamp: i64) -> (r: Option<Snapshot>)
        ensures
            match r {
                Some(s) => exists|i: int|
                    is_latest(self.rows(), url@, timestamp, i) && serves(
                        s,
                        self.rows()[i],
                        self.places(),
                    ),
                None => forall|j: int|
                    0 <= j < self.rows().len() ==> !answers(
                        #[trigger] self.rows()[j],
                        url@,
                        timestamp,
                    ),
            },
    {
        match self.catalog.find_latest_at_or_before(url, timestamp) {
            None => None,
            Some(row) => {
                let ghost i = choose|i: int|
                    is_latest(self.rows(), url@, timestamp, i) && row == self.rows()[i];
                let served = substitute_location(row, self.payloads);
                assert(is_latest(self.rows(), url@, timestamp, i) && serves(
                    served,
                    self.rows()[i],
                    self.places(),
                ));
                Some(served)
            },
        }
    }
}

/// Puts the canonical place of the row's payload, where the index knows
/// one, in place of the row's own file and offset.
pub fn substitute_location(row: Snapshot, payloads: &PayloadIndex) -> (served: Snapshot)
    ensures
        serves(served, row, payloads@),
{
    let place: Option<&PayloadLocation> = match &row.payload_hash {
        Some(h) => payloads.lookup(h),
        None => None,
    };
    match place {
        Some(p) => Snapshot {
            id: row.id,
            url: row.url,
            timestamp: row.timestamp,
            warc_file: p.warc_path.clone(),
            offset: p.warc_offset,
            length: row.length,
            sha256: row.sha256,
            status_code: row.status_code,
            content_type: row.content_type,
            payload_hash: row.payload_hash,
        },
        None => row,
    }
}

/// Time travel. Where row `i` is a capture of `url` at or before `t`, and
/// every other capture of that URL is earlier than row `i` or later than
/// `t`, a query for `url` at `t` selects row `i` and no other.
pub proof fn time_travel_selects(rows: Seq<Snapshot>, url: Seq<char>, t: i64, i: int)
    requires
        0 <= i < rows.len(),
        answers(rows[i], url, t),
        forall|j: int|
            0 <= j < rows.len() && j != i && (#[trigger] rows[j]).url@ == url ==> rows[j].timestamp
                < rows[i].timestamp || rows[j].timestamp > t,
    ensures
        is_latest(rows, url, t, i),
        forall|k: int| is_latest(rows, url, t, k) ==> k == i,
{
    assert forall|k: int| is_latest(rows, url, t, k) implies k == i by {
        if k != i {
            assert(answers(rows[k], url, t));
            assert(answers(rows[i], url, t));
        }
    }
}

/// Time travel before the first capture. Where every capture of `url` is
/// later than `t`, no row answers a query for `url` at `t`, so the query
/// selects nothing.
pub proof fn time_travel_before_first(rows: Seq<Snapshot>, url: Seq<char>, t: i64)
    requires
        forall|j: int|
            0 <= j < rows.len() && (#[trigger] rows[j]).url@ == url ==> rows[j].timestamp > t,
    ensures
        forall|j: int| 0 <= j < rows.len() ==> !answers(#[trigger] rows[j], url, t),
        forall|k: int| !is_latest(rows, url, t, k),
{
}

} // verus!
