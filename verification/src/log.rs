//! The append-only archive log: one log file as a growing run of bytes,
//! addressed by byte offset and length.

use vstd::prelude::*;
use crate::record::{record_block, record_of, well_formed, WarcRecord};

verus! {

/// Why an operation on a log failed.
#[derive(Debug, Clone, Copy, PartialEq, Eq, Structural)]
pub enum LogError {
    /// The log cannot take the bytes: its size would pass what can be addressed.
    Storage,
    /// Fewer bytes are stored behind the offset than were asked for.
    TruncatedRead,
    /// The record is not well formed and was not written.
    Rejected,
}

/// What a log holds after the chunks have been appended to it one after another.
pub open spec fn appended(initial: Seq<u8>, chunks: Seq<Seq<u8>>) -> Seq<u8>
    decreases chunks.len(),
{
    if chunks.len() == 0 {
        initial
    } else {
        appended(initial, chunks.drop_last()) + chunks.last()
    }
}

/// The offset that the append of chunk `k` returns: the size of the log before it.
pub open spec fn append_offset(initial: Seq<u8>, chunks: Seq<Seq<u8>>, k: int) -> int {
    appended(initial, chunks.take(k)).len() as int
}

/// What an append of `bytes` to a log that held `before` gives: the place of
/// the bytes and the log `after` it; or, where the new size could not be
/// addressed, the storage error and the log unchanged.
pub open spec fn append_outcome(
    before: Seq<u8>,
    after: Seq<u8>,
    r: Result<(u64, u64), LogError>,
    bytes: Seq<u8>,
) -> bool {
    if before.len() + bytes.len() <= usize::MAX {
        r == Ok::<(u64, u64), LogError>((before.len() as u64, bytes.len() as u64)) && after
            == before + bytes
    } else {
        r == Err::<(u64, u64), LogError>(LogError::Storage) && after == before
    }
}

/// The bytes of each chunk of a list.
pub open spec fn chunk_views(chunks: Seq<Vec<u8>>) -> Seq<Seq<u8>> {
    Seq::new(chunks.len(), |i: int| chunks[i]@)
}

/// The single writer of one log file. It owns the file's contents, so that
/// finding the end of the file and writing behind it are one step.
pub struct WarcWriter {
    file_path: String,
    data: Vec<u8>,
}

impl WarcWriter {
    /// The name of the log file.
    pub closed spec fn path(&self) -> Seq<char> {
        self.file_path@
    }

    /// The bytes of the log file, from its start.
    pub closed spec fn contents(&self) -> Seq<u8> {
        self.data@
    }

    /// An empty log under the given name.
    pub fn new(file_path: String) -> (w: Self)
        ensures
            w.path() == file_path@,
            w.contents() == Seq::<u8>::empty(),
    {
        WarcWriter { file_path, data: Vec::new() }
    }

    /// The name of the log file.
    pub fn file_path(&self) -> (p: &String)
        ensures
            p@ == self.path(),
    {
        &self.file_path
    }

    /// The size of the log file in bytes.
    pub fn size(&self) -> (n: usize)
        ensures
            n == self.contents().len(),
    {
        self.data.len()
    }

    /// Writes the bytes behind the end of the log and returns where they
    /// stand: the offset of the first byte and the number of bytes. Nothing
    /// that was stored before changes. Fails, and leaves the log as it was,
    /// only if the new size could not be addressed.
    pub fn append(&mut self, bytes: &[u8]) -> (r: Result<(u64, u64), LogError>)
        ensures
            final(self).path() == old(self).path(),
            append_outcome(old(self).contents(), final(self).contents(), r, bytes@),
    {
        let pos: usize = self.data.len();
        if bytes.len() > usize::MAX - pos {
            return Err(LogError::Storage);
        }
        self.data.extend_from_slice(bytes);
        proof {
            assert(self.data@ == old(self).data@ + bytes@);
        }
        Ok((pos as u64, bytes.len() as u64))
    }

    /// Appends the chunks one after another and returns where each stands.
    /// Stops at the first chunk that the log cannot take: the chunks before
    /// it stay appended and the storage error is returned.
    pub fn append_all(&mut self, chunks: &Vec<Vec<u8>>) -> (r: Result<Vec<(u64, u64)>, LogError>)
        ensures
            final(self).path() == old(self).path(),
            match r {
                Ok(ranges) => final(self).contents() == appended(
                    old(self).contents(),
                    chunk_views(chunks@),
                ) && ranges@.len() == chunks@.len() && forall|k: int|
                    0 <= k < chunks@.len() ==> (#[trigger] ranges@[k]).0 == append_offset(
                        old(self).contents(),
                        chunk_views(chunks@),
                        k,
                    ) && ranges@[k].1 == chunks@[k]@.len(),
                Err(e) => e == LogError::Storage && appended(
                    old(self).contents(),
                    chunk_views(chunks@),
                ).len() > usize::MAX && exists|j: int|
                    0 <= j < chunks@.len() && final(self).contents() == appended(
                        old(self).contents(),
                        #[trigger] chunk_views(chunks@).take(j),
                    ),
            },
    {
        let ghost start = old(self).contents();
        let ghost views = chunk_views(chunks@);
        let mut ranges: Vec<(u64, u64)> = Vec::new();
        let mut i: usize = 0;
        proof {
            assert(views.take(0) =~= Seq::<Seq<u8>>::empty());
        }
        while i < chunks.len()
            invariant
                0 <= i <= chunks@.len(),
                start == old(self).contents(),
                views == chunk_views(chunks@),
                self.path() == old(self).path(),
                self.contents() == appended(start, views.take(i as int)),
                ranges@.len() == i,
                forall|k: int|
                    0 <= k < i ==> (#[trigger] ranges@[k]).0 == append_offset(start, views, k)
                        && ranges@[k].1 == chunks@[k]@.len(),
            decreases chunks.len() - i,
        {
            proof {
                assert(views.take(i + 1).drop_last() =~= views.take(i as int));
                assert(views.take(i + 1).last() == chunks@[i as int]@);
                lemma_appended_prefix(start, views, i + 1);
            }
            match self.append(chunks[i].as_slice()) {
                Ok(range) => {
                    ranges.push(range);
                },
                Err(_) => {
                    return Err(LogError::Storage);
                },
            }
            i += 1;
        }
        proof {
            assert(views.take(chunks@.len() as int) =~= views);
        }
        Ok(ranges)
    }

    /// Lays the record out as a block under a fresh record identifier and
    /// appends the block. Returns where the block stands; the bytes in that
    /// range read back as the record. A record that is not well formed is
    /// rejected, and a block that the log cannot take is a storage error; in
    /// both cases the log stays as it was.
    pub fn write_record(&mut self, record: &WarcRecord) -> (r: Result<(u64, u64), LogError>)
        ensures
            final(self).path() == old(self).path(),
            !well_formed(record@) ==> r == Err::<(u64, u64), LogError>(LogError::Rejected)
                && final(self).contents() == old(self).contents(),
            well_formed(record@) ==> exists|id: u128|
                append_outcome(
                    old(self).contents(),
                    final(self).contents(),
                    r,
                    #[trigger] record_block(record@, id),
                ),
            r is Ok ==> r->Ok_0.0 + r->Ok_0.1 <= final(self).contents().len() && record_of(
                final(self).contents().subrange(r->Ok_0.0 as int, r->Ok_0.0 + r->Ok_0.1),
            ) == Some(record@),
    {
        if !record.is_well_formed() {
            return Err(LogError::Rejected);
        }
        let bytes: Vec<u8> = record.to_warc_bytes();
        let ghost id = choose|id: u128| bytes@ == #[trigger] record_block(record@, id);
        let r = self.append(bytes.as_slice());
        proof {
            if r is Ok {
                assert(final(self).contents().subrange(
                    r->Ok_0.0 as int,
                    r->Ok_0.0 + r->Ok_0.1,
                ) =~= bytes@);
            }
            assert(append_outcome(
                old(self).contents(),
                final(self).contents(),
                r,
                record_block(record@, id),
            ));
        }
        r
    }

    /// Reads exactly `length` bytes from `offset`. Fails with
    /// `TruncatedRead` if and only if the log ends before `offset + length`.
    pub fn read(&self, offset: u64, length: u64) -> (r: Result<Vec<u8>, LogError>)
        ensures
            offset + length <= self.contents().len() ==> r is Ok && r->Ok_0@
                == self.contents().subrange(offset as int, offset + length),
            offset + length > self.contents().len() ==> r == Err::<Vec<u8>, LogError>(
                LogError::TruncatedRead,
            ),
    {
        let size: usize = self.data.len();
        if offset > size as u64 || length > size as u64 - offset {
            return Err(LogError::TruncatedRead);
        }
        let start: usize = offset as usize;
        let end: usize = (offset + length) as usize;
        let mut out: Vec<u8> = Vec::new();
        let mut i: usize = start;
        while i < end
            invariant
                start <= i <= end <= self.data@.len(),
                out@ == self.data@.subrange(start as int, i as int),
            decreases end - i,
        {
            out.push(self.data[i]);
            i += 1;
        }
        Ok(out)
    }
}

/// The log before the append of chunk `k` is the start of the log after all appends.
proof fn lemma_appended_prefix(initial: Seq<u8>, chunks: Seq<Seq<u8>>, k: int)
    requires
        0 <= k <= chunks.len(),
    ensures
        appended(initial, chunks.take(k)).len() <= appended(initial, chunks).len(),
        appended(initial, chunks.take(k)) == appended(initial, chunks).subrange(
            0,
            appended(initial, chunks.take(k)).len() as int,
        ),
    decreases chunks.len(),
{
    if k == chunks.len() {
        assert(chunks.take(k) =~= chunks);
        assert(appended(initial, chunks) =~= appended(initial, chunks).subrange(
            0,
            appended(initial, chunks).len() as int,
        ));
    } else {
        lemma_appended_prefix(initial, chunks.drop_last(), k);
        assert(chunks.drop_last().take(k) =~= chunks.take(k));
        assert(appended(initial, chunks.take(k)) =~= appended(initial, chunks).subrange(
            0,
            appended(initial, chunks.take(k)).len() as int,
        ));
    }
}

/// Offset integrity. Whatever is appended to a log, in whatever number of
/// steps: the range that an append returned holds exactly the bytes that
/// were handed to that append, so a read of that range gives them back; and
/// it ends before the range of any later append begins, so no two returned
/// ranges overlap.
pub proof fn offset_integrity(initial: Seq<u8>, chunks: Seq<Seq<u8>>, j: int, k: int)
    requires
        0 <= j <= k < chunks.len(),
    ensures
        append_offset(initial, chunks, k) + chunks[k].len() <= appended(initial, chunks).len(),
        appended(initial, chunks).subrange(
            append_offset(initial, chunks, k),
            append_offset(initial, chunks, k) + chunks[k].len(),
        ) == chunks[k],
        j < k ==> append_offset(initial, chunks, j) + chunks[j].len() <= append_offset(
            initial,
            chunks,
            k,
        ),
{
    lemma_appended_prefix(initial, chunks, k + 1);
    assert(chunks.take(k + 1).drop_last() =~= chunks.take(k));
    assert(chunks.take(k + 1).last() == chunks[k]);
    assert(appended(initial, chunks.take(k + 1)) == appended(initial, chunks.take(k)) + chunks[k]);
    let whole = appended(initial, chunks);
    let upto = appended(initial, chunks.take(k + 1));
    let off = append_offset(initial, chunks, k);
    assert forall|i: int| 0 <= i < chunks[k].len() implies whole[off + i] == chunks[k][i] by {
        assert(upto[off + i] == chunks[k][i]);
        assert(whole.subrange(0, upto.len() as int)[off + i] == whole[off + i]);
    }
    assert(whole.subrange(off, off + chunks[k].len()) =~= chunks[k]);
    if j < k {
        lemma_appended_prefix(initial, chunks.take(k), j + 1);
        assert(chunks.take(k).take(j + 1) =~= chunks.take(j + 1));
        assert(chunks.take(j + 1).drop_last() =~= chunks.take(j));
        assert(chunks.take(j + 1).last() == chunks[j]);
        assert(appended(initial, chunks.take(j + 1)) == appended(initial, chunks.take(j))
            + chunks[j]);
    }
}

} // verus!
