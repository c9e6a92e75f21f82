//! The snapshot catalog and the payload index.

use vstd::prelude::*;
use crate::snapshot::{PayloadLocation, Snapshot};

verus! {

/// A row answers a query for `url` at time `t` when it is of that URL and
/// was captured at or before `t`.
pub open spec fn answers(row: Snapshot, url: Seq<char>, t: i64) -> bool {
    row.url@ == url && row.timestamp <= t
}

/// Row `i` is the one that a query for `url` at time `t` selects: it answers
/// the query, no row that answers it is later in time, and of the rows with
/// the same time it is the one inserted last.
pub open spec fn is_latest(rows: Seq<Snapshot>, url: Seq<char>, t: i64, i: int) -> bool {
    &&& 0 <= i < rows.len()
    &&& answers(rows[i], url, t)
    &&& forall|j: int|
        0 <= j < rows.len() && answers(#[trigger] rows[j], url, t) ==> rows[j].timestamp
            < rows[i].timestamp || (rows[j].timestamp == rows[i].timestamp && j <= i)
}

/// Whether some row carries the content hash.
pub open spec fn holds_hash(rows: Seq<Snapshot>, hash: Seq<char>) -> bool {
    exists|i: int| 0 <= i < rows.len() && (#[trigger] rows[i]).sha256@ == hash
}

/// Whether a row was captured in the window from `from` to `to`, both included.
pub open spec fn in_window(row: Snapshot, from: i64, to: i64) -> bool {
    from <= row.timestamp <= to
}

/// Row `a` stands before row `b` in a listing: it is later in time, or of
/// the same time and inserted later.
pub open spec fn precedes(rows: Seq<Snapshot>, a: int, b: int) -> bool {
    rows[a].timestamp > rows[b].timestamp || (rows[a].timestamp == rows[b].timestamp && a > b)
}

/// `picked` are the positions of the rows that a listing of the window
/// gives, in its order: rows of the window, latest first, no more than
/// `limit`, and none of the window left out unless the limit is reached and
/// the row stands behind all that were listed.
pub open spec fn is_listing(
    rows: Seq<Snapshot>,
    from: i64,
    to: i64,
    limit: nat,
    picked: Seq<int>,
) -> bool {
    &&& picked.len() <= limit
    &&& forall|k: int|
        0 <= k < picked.len() ==> 0 <= #[trigger] picked[k] < rows.len() && in_window(
            rows[picked[k]],
            from,
            to,
        )
    &&& forall|k: int, l: int|
        0 <= k < l < picked.len() ==> precedes(rows, #[trigger] picked[k], #[trigger] picked[l])
    &&& forall|j: int|
        0 <= j < rows.len() && in_window(#[trigger] rows[j], from, to) ==> picked.contains(j) || (
        picked.len() == limit && (limit == 0 || precedes(rows, picked[limit - 1], j)))
}

/// `out` is a listing of the window: the rows at the positions of some
/// `picked` of [`is_listing`], in that order.
pub open spec fn lists_window(
    rows: Seq<Snapshot>,
    from: i64,
    to: i64,
    limit: nat,
    out: Seq<Snapshot>,
) -> bool {
    exists|picked: Seq<int>|
        #![trigger is_listing(rows, from, to, limit, picked)]
        is_listing(rows, from, to, limit, picked) && out.len() == picked.len() && forall|k: int|
            0 <= k < out.len() ==> #[trigger] out[k] == rows[picked[k]]
}

/// The first row with the identifier is row `i`.
pub open spec fn first_with_id(rows: Seq<Snapshot>, id: u128, i: int) -> bool {
    0 <= i < rows.len() && rows[i].id == id && forall|j: int|
        0 <= j < i ==> (#[trigger] rows[j]).id != id
}

/// The index of snapshots, in the order of insertion.
pub struct SnapshotCatalog {
    rows: Vec<Snapshot>,
}

impl View for SnapshotCatalog {
    type V = Seq<Snapshot>;

    closed spec fn view(&self) -> Seq<Snapshot> {
        self.rows@
    }
}

impl SnapshotCatalog {
    /// A catalog without rows.
    pub fn new() -> (c: Self)
        ensures
            c@ == Seq::<Snapshot>::empty(),
    {
        SnapshotCatalog { rows: Vec::new() }
    }

    /// The number of rows.
    pub fn len(&self) -> (n: usize)
        ensures
            n == self@.len(),
    {
        self.rows.len()
    }

    /// The row at `index` in the order of insertion.
    pub fn row(&self, index: usize) -> (r: Option<&Snapshot>)
        ensures
            index < self@.len() ==> r == Some(&self@[index as int]),
            index >= self@.len() ==> r is None,
    {
        if index < self.rows.len() {
            Some(&self.rows[index])
        } else {
            None
        }
    }

    /// Adds a row behind all others. No row that was there changes.
    pub fn insert(&mut self, snapshot: Snapshot)
        ensures
            final(self)@ == old(self)@.push(snapshot),
    {
        self.rows.push(snapshot);
    }

    /// The position of the row that a query for `url` at time `timestamp`
    /// selects: the latest capture of that URL at or before that time, the
    /// last inserted among equals. `None` exactly when no row answers.
    pub fn position_latest_at_or_before(&self, url: &String, timestamp: i64) -> (r: Option<usize>)
        ensures
            match r {
                Some(i) => is_latest(self@, url@, timestamp, i as int),
                None => forall|j: int|
                    0 <= j < self@.len() ==> !answers(#[trigger] self@[j], url@, timestamp),
            },
    {
        let mut best: Option<usize> = None;
        let mut j: usize = 0;
        while j < self.rows.len()
            invariant
                0 <= j <= self.rows@.len(),
                match best {
                    Some(i) => is_latest(self.rows@.take(j as int), url@, timestamp, i as int),
                    None => forall|k: int|
                        0 <= k < j ==> !answers(#[trigger] self.rows@[k], url@, timestamp),
                },
            decreases self.rows.len() - j,
        {
            let row = &self.rows[j];
            let ghost before = self.rows@.take(j as int);
            let ghost after = self.rows@.take(j + 1);
            proof {
                assert forall|k: int| 0 <= k < j implies after[k] == before[k] by {}
                assert(after[j as int] == self.rows@[j as int]);
            }
            if row.url == *url && row.timestamp <= timestamp {
                let take: bool = match best {
                    Some(i) => self.rows[i].timestamp <= row.timestamp,
                    None => true,
                };
                if take {
                    best = Some(j);
                }
            }
            proof {
                match best {
                    Some(i) => {
                        assert forall|k: int|
                            0 <= k < after.len() && answers(
                                #[trigger] after[k],
                                url@,
                                timestamp,
                            ) implies after[k].timestamp < after[i as int].timestamp || (
                        after[k].timestamp == after[i as int].timestamp && k <= i) by {
                            if k < j {
                                assert(answers(before[k], url@, timestamp));
                            }
                        }
                    },
                    None => {},
                }
            }
            j += 1;
        }
        proof {
            assert(self.rows@.take(j as int) =~= self.rows@);
        }
        best
    }

    /// The row that a query for `url` at time `timestamp` selects (see
    /// [`is_latest`]); `None` exactly when no row answers the query.
    pub fn find_latest_at_or_before(&self, url: &String, timestamp: i64) -> (r: Option<Snapshot>)
        ensures
            match r {
                Some(s) => exists|i: int| is_latest(self@, url@, timestamp, i) && s == self@[i],
                None => forall|j: int|
                    0 <= j < self@.len() ==> !answers(#[trigger] self@[j], url@, timestamp),
            },
    {
        match self.position_latest_at_or_before(url, timestamp) {
            Some(i) => {
                let s = self.rows[i].clone();
                assert(is_latest(self@, url@, timestamp, i as int) && s == self@[i as int]);
                Some(s)
            },
            None => None,
        }
    }

    /// The position of the first row with the identifier; `None` exactly
    /// when no row has it.
    pub fn find_by_id(&self, id: u128) -> (r: Option<usize>)
        ensures
            match r {
                Some(i) => first_with_id(self@, id, i as int),
                None => forall|j: int| 0 <= j < self@.len() ==> (#[trigger] self@[j]).id != id,
            },
    {
        let mut j: usize = 0;
        while j < self.rows.len()
            invariant
                0 <= j <= self.rows@.len(),
                forall|k: int| 0 <= k < j ==> (#[trigger] self.rows@[k]).id != id,
            decreases self.rows.len() - j,
        {
            if self.rows[j].id == id {
                return Some(j);
            }
            j += 1;
        }
        None
    }

    /// The position of the row of the window that stands first in a
    /// listing among those behind row `last` (among all, where `last` is
    /// `None`); `None` exactly when the window has no such row.
    fn next_in_window(&self, from: i64, to: i64, last: Option<usize>) -> (r: Option<usize>)
        requires
            last is Some ==> last->Some_0 < self@.len(),
        ensures
            match r {
                Some(b) => b < self@.len() && in_window(self@[b as int], from, to) && (last is Some
                    ==> precedes(self@, last->Some_0 as int, b as int)) && forall|c: int|
                    0 <= c < self@.len() && in_window(#[trigger] self@[c], from, to) && (last
                        is Some ==> precedes(self@, last->Some_0 as int, c)) ==> c == b
                        || precedes(self@, b as int, c),
                None => forall|c: int|
                    0 <= c < self@.len() && in_window(#[trigger] self@[c], from, to) ==> last
                        is Some && !precedes(self@, last->Some_0 as int, c),
            },
    {
        let mut best: Option<usize> = None;
        let mut j: usize = 0;
        while j < self.rows.len()
            invariant
                0 <= j <= self.rows@.len(),
                last is Some ==> last->Some_0 < self.rows@.len(),
                match best {
                    Some(b) => b < j && in_window(self.rows@[b as int], from, to) && (last is Some
                        ==> precedes(self.rows@, last->Some_0 as int, b as int)) && forall|c: int|
                        0 <= c < j && in_window(#[trigger] self.rows@[c], from, to) && (last
                            is Some ==> precedes(self.rows@, last->Some_0 as int, c)) ==> c == b
                            || precedes(self.rows@, b as int, c),
                    None => forall|c: int|
                        0 <= c < j && in_window(#[trigger] self.rows@[c], from, to) ==> last
                            is Some && !precedes(self.rows@, last->Some_0 as int, c),
                },
            decreases self.rows.len() - j,
        {
            let t: i64 = self.rows[j].timestamp;
            if from <= t && t <= to {
                let behind_last: bool = match last {
                    Some(l) => self.rows[l].timestamp > t || (self.rows[l].timestamp == t && l > j),
                    None => true,
                };
                if behind_last {
                    let better: bool = match best {
                        Some(b) => t >= self.rows[b].timestamp,
                        None => true,
                    };
                    if better {
                        best = Some(j);
                    }
                }
            }
            j += 1;
        }
        best
    }

    /// Lists the rows of the window from `from` to `to`, both included:
    /// latest first, of equal times the one inserted last first, and no
    /// more than `limit` rows.
    pub fn list_window(&self, from: i64, to: i64, limit: usize) -> (r: Vec<Snapshot>)
        ensures
            lists_window(self@, from, to, limit as nat, r@),
    {
        let mut out: Vec<Snapshot> = Vec::new();
        let ghost mut picked: Seq<int> = Seq::empty();
        let mut last: Option<usize> = None;
        let mut full: bool = false;
        while out.len() < limit && !full
            invariant
                out@.len() == picked.len() <= limit,
                forall|k: int| 0 <= k < out@.len() ==> #[trigger] out@[k] == self.rows@[picked[k]],
                forall|k: int|
                    0 <= k < picked.len() ==> 0 <= #[trigger] picked[k] < self.rows@.len()
                        && in_window(self.rows@[picked[k]], from, to),
                forall|k: int, l: int|
                    0 <= k < l < picked.len() ==> precedes(
                        self.rows@,
                        #[trigger] picked[k],
                        #[trigger] picked[l],
                    ),
                picked.len() == 0 ==> last is None,
                picked.len() > 0 ==> last is Some && last->Some_0 as int == picked.last(),
                forall|j: int|
                    0 <= j < self.rows@.len() && in_window(#[trigger] self.rows@[j], from, to)
                        ==> picked.contains(j) || (!full && (picked.len() == 0 || precedes(
                        self.rows@,
                        picked.last(),
                        j,
                    ))),
            decreases limit - out.len(), if full { 0int } else { 1int },
        {
            match self.next_in_window(from, to, last) {
                None => {
                    proof {
                        assert(self@ == self.rows@);
                        if picked.len() > 0 {
                            assert(0 <= picked[picked.len() - 1] < self.rows@.len());
                        }
                    }
                    full = true;
                },
                Some(b) => {
                    let ghost before = picked;
                    let ghost out_before = out@;
                    out.push(self.rows[b].clone());
                    proof {
                        assert(self@ == self.rows@);
                        if before.len() > 0 {
                            assert(0 <= before[before.len() - 1] < self.rows@.len());
                            assert(precedes(self.rows@, before.last(), b as int));
                        }
                        picked = picked.push(b as int);
                        assert forall|k: int| 0 <= k < out@.len() implies #[trigger] out@[k]
                            == self.rows@[picked[k]] by {
                            if k < before.len() {
                                assert(out@[k] == out_before[k]);
                                assert(picked[k] == before[k]);
                            }
                        }
                        assert forall|k: int, l: int| 0 <= k < l < picked.len() implies precedes(
                            self.rows@,
                            #[trigger] picked[k],
                            #[trigger] picked[l],
                        ) by {
                            if l < before.len() {
                                assert(picked[k] == before[k] && picked[l] == before[l]);
                            } else {
                                assert(picked[l] == b);
                                assert(picked[k] == before[k]);
                                if k < before.len() - 1 {
                                    assert(precedes(
                                        self.rows@,
                                        before[k],
                                        before[before.len() - 1],
                                    ));
                                }
                            }
                        }
                        assert forall|j: int|
                            0 <= j < self.rows@.len() && in_window(
                                #[trigger] self.rows@[j],
                                from,
                                to,
                            ) implies picked.contains(j) || precedes(self.rows@, picked.last(), j) by {
                            assert(picked.last() == b);
                            if before.contains(j) {
                                let k = choose|k: int| 0 <= k < before.len() && before[k] == j;
                                assert(picked[k] == j);
                            } else if j == b {
                                assert(picked[picked.len() - 1] == j);
                            } else {
                                assert(before.len() == 0 || precedes(self.rows@, before.last(), j));
                                assert(precedes(self.rows@, b as int, j));
                            }
                        }
                    }
                    last = Some(b);
                },
            }
        }
        proof {
            assert(self@ == self.rows@);
            if picked.len() > 0 {
                assert(picked.last() == picked[picked.len() - 1]);
            }
            assert(is_listing(self@, from, to, limit as nat, picked));
        }
        out
    }

    /// Tells whether some row carries the content hash.
    pub fn exists_by_hash(&self, hash: &String) -> (r: bool)
        ensures
            r == holds_hash(self@, hash@),
    {
        let mut j: usize = 0;
        while j < self.rows.len()
            invariant
                0 <= j <= self.rows@.len(),
                forall|k: int| 0 <= k < j ==> (#[trigger] self.rows@[k]).sha256@ != hash@,
            decreases self.rows.len() - j,
        {
            if self.rows[j].sha256 == *hash {
                return true;
            }
            j += 1;
        }
        false
    }
}

/// At most one row of a query's answers is the one it selects.
pub proof fn latest_is_unique(rows: Seq<Snapshot>, url: Seq<char>, t: i64, i: int, k: int)
    requires
        is_latest(rows, url, t, i),
        is_latest(rows, url, t, k),
    ensures
        i == k,
{
}

/// No two entries of the index carry the same payload hash.
pub open spec fn distinct_hashes(entries: Seq<PayloadLocation>) -> bool {
    forall|i: int, j: int|
        0 <= i < j < entries.len() ==> (#[trigger] entries[i]).hash@ != (#[trigger] entries[j]).hash@
}

/// Whether the index knows a place for the payload hash.
pub open spec fn knows(entries: Seq<PayloadLocation>, hash: Seq<char>) -> bool {
    exists|i: int| 0 <= i < entries.len() && (#[trigger] entries[i]).hash@ == hash
}

/// The payload index: for each payload hash at most one canonical place.
pub struct PayloadIndex {
    entries: Vec<PayloadLocation>,
}

impl View for PayloadIndex {
    type V = Seq<PayloadLocation>;

    closed spec fn view(&self) -> Seq<PayloadLocation> {
        self.entries@
    }
}

impl PayloadIndex {
    /// The invariant of the index: no payload hash occurs twice.
    pub open spec fn wf(&self) -> bool {
        distinct_hashes(self@)
    }

    /// An index without entries.
    pub fn new() -> (p: Self)
        ensures
            p@ == Seq::<PayloadLocation>::empty(),
            p.wf(),
    {
        PayloadIndex { entries: Vec::new() }
    }

    /// The number of entries.
    pub fn len(&self) -> (n: usize)
        ensures
            n == self@.len(),
    {
        self.entries.len()
    }

    /// The canonical place of a payload hash: the entry with that hash, or
    /// `None` exactly when the index knows none.
    pub fn lookup(&self, hash: &String) -> (r: Option<&PayloadLocation>)
        ensures
            match r {
                Some(p) => exists|i: int|
                    0 <= i < self@.len() && self@[i] == *p && self@[i].hash@ == hash@,
                None => !knows(self@, hash@),
            },
    {
        let mut j: usize = 0;
        while j < self.entries.len()
            invariant
                0 <= j <= self.entries@.len(),
                forall|k: int| 0 <= k < j ==> (#[trigger] self.entries@[k]).hash@ != hash@,
            decreases self.entries.len() - j,
        {
            if self.entries[j].hash == *hash {
                assert(self@[j as int] == self.entries[j as int]);
                return Some(&self.entries[j]);
            }
            j += 1;
        }
        None
    }

    /// Records the place of a payload unless the index knows one for its
    /// hash already: the first writer wins. Returns whether the place was
    /// recorded.
    pub fn register(&mut self, location: PayloadLocation) -> (added: bool)
        requires
            old(self).wf(),
        ensures
            final(self).wf(),
            added == !knows(old(self)@, location.hash@),
            added ==> final(self)@ == old(self)@.push(location),
            !added ==> final(self)@ == old(self)@,
    {
        if self.lookup(&location.hash).is_some() {
            return false;
        }
        self.entries.push(location);
        true
    }
}

} // verus!
