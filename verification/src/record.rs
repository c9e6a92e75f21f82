//! The record codec: a captured response as one self-delimiting block of
//! bytes, and back.

use vstd::prelude::*;
use vstd::utf8::{decode_utf8, encode_utf8, valid_utf8};
use crate::layout::{
    crlf, date_label, date_label_bytes, digest_label, digest_label_bytes, length_label,
    length_label_bytes, preamble, preamble_bytes, trailer, trailer_bytes, type_label,
    type_label_bytes, uri_label, uri_label_bytes, urn_close, urn_close_bytes, urn_open,
    urn_open_bytes,
};
use crate::outside::{
    date_round_trips, date_text, date_value, format_date, fresh_id, id_string, id_text,
    parse_date, text_of,
};
use crate::text::{
    copy_range, decimal_text, decimal_value, field_at, has_label, lemma_decimal_round_trip,
    lemma_field_at, line_safe, parse_decimal, push_decimal, read_field,
    starts_with_at,
};

verus! {

/// A captured response: what was fetched, from where, and when.
pub struct WarcRecord {
    /// The URL that was captured.
    pub url: String,
    /// The instant of the capture, in whole seconds since the epoch (UTC).
    pub timestamp: i64,
    /// The raw payload.
    pub content: Vec<u8>,
    /// The content type that came with the payload.
    pub content_type: String,
    /// The content hash of the payload, in lower-case hexadecimal. The codec
    /// carries it and does not compute it.
    pub payload_digest: String,
}

/// A record as plain values.
pub ghost struct RecordView {
    pub url: Seq<char>,
    pub timestamp: i64,
    pub content: Seq<u8>,
    pub content_type: Seq<char>,
    pub payload_digest: Seq<char>,
}

/// The values of a block's header lines and its payload, as bytes.
pub ghost struct BlockFields {
    pub id_line: Seq<u8>,
    pub date: Seq<u8>,
    pub url: Seq<u8>,
    pub digest: Seq<u8>,
    pub content_type: Seq<u8>,
    pub payload: Seq<u8>,
}

/// A block is rejected as a whole: a header line is missing or out of place,
/// the declared length is not the number of payload bytes present, the
/// trailer is missing, a text is not UTF-8, or the date cannot be read.
#[derive(Debug, Clone, Copy, PartialEq, Eq, Structural)]
pub struct MalformedRecord;

impl View for WarcRecord {
    type V = RecordView;

    open spec fn view(&self) -> RecordView {
        RecordView {
            url: self.url@,
            timestamp: self.timestamp,
            content: self.content@,
            content_type: self.content_type@,
            payload_digest: self.payload_digest@,
        }
    }
}

/// One header line: label, value, line end.
pub open spec fn line(label: Seq<u8>, value: Seq<u8>) -> Seq<u8> {
    label + value + crlf()
}

/// The value of the record identifier line for an identifier.
pub open spec fn id_line(id: u128) -> Seq<u8> {
    urn_open() + encode_utf8(id_text(id)) + urn_close()
}

/// The block layout: the header lines in their fixed order, an empty line,
/// exactly the payload, and the trailer.
pub open spec fn block(f: BlockFields) -> Seq<u8> {
    line(preamble(), f.id_line) + line(date_label(), f.date) + line(uri_label(), f.url) + line(
        digest_label(),
        f.digest,
    ) + line(type_label(), f.content_type) + line(
        length_label(),
        decimal_text(f.payload.len()),
    ) + crlf() + f.payload + trailer()
}

/// The fields of a record in a block with the given identifier line value.
pub open spec fn fields_of(r: RecordView, id_line: Seq<u8>) -> BlockFields {
    BlockFields {
        id_line,
        date: encode_utf8(date_text(r.timestamp)->Some_0),
        url: encode_utf8(r.url),
        digest: encode_utf8(r.payload_digest),
        content_type: encode_utf8(r.content_type),
        payload: r.content,
    }
}

/// The block that holds a record under a record identifier.
pub open spec fn record_block(r: RecordView, id: u128) -> Seq<u8> {
    block(fields_of(r, id_line(id)))
}

/// Reads a block's structure. `None` where a header line is missing or out
/// of order, the declared length is no number or differs from the number of
/// bytes between the empty line and the trailer, or the block does not end
/// with the trailer.
pub open spec fn block_fields(s: Seq<u8>) -> Option<BlockFields> {
    match field_at(s, 0, preamble()) {
        None => None,
        Some((id_line, at_date)) => match field_at(s, at_date, date_label()) {
            None => None,
            Some((date, at_uri)) => match field_at(s, at_uri, uri_label()) {
                None => None,
                Some((url, at_digest)) => match field_at(s, at_digest, digest_label()) {
                    None => None,
                    Some((digest, at_type)) => match field_at(s, at_type, type_label()) {
                        None => None,
                        Some((content_type, at_length)) => match field_at(s, at_length, length_label()) {
                            None => None,
                            Some((declared, at_body)) => match decimal_value(declared) {
                                None => None,
                                Some(n) => if has_label(s, at_body, crlf()) && at_body + 2 + n + 4
                                    == s.len() && has_label(s, at_body + 2 + n, trailer()) {
                                    Some(
                                        BlockFields {
                                            id_line,
                                            date,
                                            url,
                                            digest,
                                            content_type,
                                            payload: s.subrange(at_body + 2, at_body + 2 + n),
                                        },
                                    )
                                } else {
                                    None
                                },
                            },
                        },
                    },
                },
            },
        },
    }
}

/// The record that a block holds, if it holds one: its structure must read,
/// the URL, digest, content type and date must be UTF-8, and the date must
/// be one.
pub open spec fn record_of(s: Seq<u8>) -> Option<RecordView> {
    match block_fields(s) {
        None => None,
        Some(f) => if valid_utf8(f.url) && valid_utf8(f.digest) && valid_utf8(f.content_type)
            && valid_utf8(f.date) && date_value(decode_utf8(f.date)) is Some {
            Some(
                RecordView {
                    url: decode_utf8(f.url),
                    timestamp: date_value(decode_utf8(f.date))->Some_0,
                    content: f.payload,
                    content_type: decode_utf8(f.content_type),
                    payload_digest: decode_utf8(f.digest),
                },
            )
        } else {
            None
        },
    }
}

/// A record is well formed when its URL, content type and digest hold no
/// line break, and its capture time has a date text that holds no line
/// break and reads back as that time.
pub open spec fn well_formed(r: RecordView) -> bool {
    line_safe(encode_utf8(r.url)) && line_safe(encode_utf8(r.content_type)) && line_safe(
        encode_utf8(r.payload_digest),
    ) && date_round_trips(r.timestamp)
}

/// The identifier line of any identifier holds no line break.
pub proof fn lemma_id_line_safe(id: u128)
    ensures
        line_safe(id_line(id)),
{
    reveal(urn_open);
    reveal(urn_close);
    let v = id_line(id);
    let t = id_text(id);
    assert(vstd::utf8::is_ascii_chars(t));
    vstd::utf8::is_ascii_chars_encode_utf8(t);
    let e = encode_utf8(t);
    assert forall|i: int| 0 <= i < v.len() implies v[i] != 13 && v[i] != 10 by {
        if i < 10 {
            assert(v[i] == urn_open()[i]);
        } else if i < 46 {
            assert(v[i] == e[i - 10]);
            assert(e[i - 10] == t[i - 10] as u8);
        } else {
            assert(v[i] == urn_close()[i - 46]);
        }
    }
}

/// A line that stands between two runs of bytes is read back at its place.
proof fn lemma_line_in(s: Seq<u8>, pre: Seq<u8>, label: Seq<u8>, value: Seq<u8>, rest: Seq<u8>)
    requires
        s == pre + line(label, value) + rest,
        line_safe(value),
    ensures
        field_at(s, pre.len() as int, label) == Some(
            (value, (pre.len() + label.len() + value.len() + 2) as int),
        ),
{
    let p = pre.len() as int;
    assert(s.subrange(p, p + label.len() + value.len() + 2) =~= label + value + crlf());
    lemma_field_at(s, p, label, value);
}

/// Joining runs of bytes does not depend on how the joins are grouped.
proof fn lemma_regroup(a: Seq<u8>, b: Seq<u8>, c: Seq<u8>)
    ensures
        (a + b) + c == a + (b + c),
{
    assert((a + b) + c =~= a + (b + c));
}

/// What stands behind the header lines: the empty line, the payload, the trailer.
proof fn lemma_block_tail(s: Seq<u8>, pre: Seq<u8>, payload: Seq<u8>)
    requires
        s == pre + (crlf() + payload + trailer()),
    ensures
        s.len() == pre.len() + 2 + payload.len() + 4,
        has_label(s, pre.len() as int, crlf()),
        has_label(s, (pre.len() + 2 + payload.len()) as int, trailer()),
        s.subrange((pre.len() + 2) as int, (pre.len() + 2 + payload.len()) as int) == payload,
{
    reveal(trailer);
    reveal(has_label);
    let p = pre.len() as int;
    let n = payload.len() as int;
    assert(s.subrange(p, p + 2) =~= crlf());
    assert(s.subrange(p + 2 + n, p + 2 + n + 4) =~= trailer());
    assert(s.subrange(p + 2, p + 2 + n) =~= payload);
}

/// Structural round trip: a block laid out from line-safe header values
/// reads back as exactly those values and that payload.
pub proof fn block_round_trip(f: BlockFields)
    requires
        line_safe(f.id_line),
        line_safe(f.date),
        line_safe(f.url),
        line_safe(f.digest),
        line_safe(f.content_type),
    ensures
        block_fields(block(f)) == Some(f),
{
    let s = block(f);
    let declared = decimal_text(f.payload.len());
    lemma_decimal_round_trip(f.payload.len());
    let l0 = line(preamble(), f.id_line);
    let l1 = line(date_label(), f.date);
    let l2 = line(uri_label(), f.url);
    let l3 = line(digest_label(), f.digest);
    let l4 = line(type_label(), f.content_type);
    let l5 = line(length_label(), declared);
    let a1 = l0 + l1;
    let a2 = a1 + l2;
    let a3 = a2 + l3;
    let a4 = a3 + l4;
    let a5 = a4 + l5;
    let tail = crlf() + f.payload + trailer();
    let r5 = l5 + tail;
    let r4 = l4 + r5;
    let r3 = l3 + r4;
    let r2 = l2 + r3;
    let r1 = l1 + r2;
    let none = Seq::<u8>::empty();
    assert(s == a5 + crlf() + f.payload + trailer());
    lemma_regroup(a5 + crlf(), f.payload, trailer());
    lemma_regroup(a5, crlf(), f.payload + trailer());
    lemma_regroup(crlf(), f.payload, trailer());
    assert(s == a5 + tail);
    lemma_block_tail(s, a5, f.payload);
    lemma_line_in(s, a4, length_label(), declared, tail);
    lemma_regroup(a4, l5, tail);
    lemma_line_in(s, a3, type_label(), f.content_type, r5);
    lemma_regroup(a3, l4, r5);
    lemma_line_in(s, a2, digest_label(), f.digest, r4);
    lemma_regroup(a2, l3, r4);
    lemma_line_in(s, a1, uri_label(), f.url, r3);
    lemma_regroup(a1, l2, r3);
    lemma_line_in(s, l0, date_label(), f.date, r2);
    lemma_regroup(l0, l1, r2);
    assert(none + l0 =~= l0);
    lemma_line_in(s, none, preamble(), f.id_line, r1);
}

/// Writes one header line behind what `out` holds.
fn push_line(out: &mut Vec<u8>, label: &[u8], value: &[u8])
    ensures
        final(out)@ == old(out)@ + line(label@, value@),
{
    out.extend_from_slice(label);
    out.extend_from_slice(value);
    out.push(13u8);
    out.push(10u8);
    proof {
        assert(final(out)@ =~= old(out)@ + line(label@, value@));
    }
}

/// The value of the record identifier line for an identifier.
fn id_line_bytes(id: u128) -> (r: Vec<u8>)
    ensures
        r@ == id_line(id),
{
    let mut out: Vec<u8> = urn_open_bytes();
    out.extend_from_slice(id_string(id).as_str().as_bytes());
    out.extend_from_slice(urn_close_bytes().as_slice());
    out
}

/// Tells whether the bytes hold neither a carriage return nor a line feed.
pub fn is_line_safe(s: &[u8]) -> (r: bool)
    ensures
        r == line_safe(s@),
{
    let mut i: usize = 0;
    while i < s.len()
        invariant
            0 <= i <= s.len(),
            forall|j: int| 0 <= j < i ==> s@[j] != 13 && s@[j] != 10,
        decreases s.len() - i,
    {
        if s[i] == 13 || s[i] == 10 {
            return false;
        }
        i += 1;
    }
    true
}

impl WarcRecord {
    /// Makes a record of the given values. Succeeds exactly when the record
    /// is well formed: the URL, the content type and the digest hold no
    /// line break, and the capture time has a date text that reads back as
    /// that time.
    pub fn new(
        url: String,
        timestamp: i64,
        content: Vec<u8>,
        content_type: String,
        payload_digest: String,
    ) -> (r: Result<WarcRecord, MalformedRecord>)
        ensures
            match r {
                Ok(rec) => rec.url == url && rec.timestamp == timestamp && rec.content == content
                    && rec.content_type == content_type && rec.payload_digest == payload_digest
                    && well_formed(rec@),
                Err(_) => !well_formed(
                    (WarcRecord { url, timestamp, content, content_type, payload_digest })@,
                ),
            },
    {
        let rec = WarcRecord { url, timestamp, content, content_type, payload_digest };
        if rec.is_well_formed() {
            Ok(rec)
        } else {
            Err(MalformedRecord)
        }
    }

    /// Lays the record out as a block under a fresh record identifier, if
    /// the record is well formed; a record that is not is rejected. The
    /// block reads back as this record.
    pub fn encode(&self) -> (r: Result<Vec<u8>, MalformedRecord>)
        ensures
            match r {
                Ok(bytes) => well_formed(self@) && record_of(bytes@) == Some(self@) && exists|
                    id: u128,
                | bytes@ == #[trigger] record_block(self@, id),
                Err(_) => !well_formed(self@),
            },
    {
        if self.is_well_formed() {
            Ok(self.to_warc_bytes())
        } else {
            Err(MalformedRecord)
        }
    }

    /// Reads a block back into a record (see [`WarcRecord::from_warc_bytes`]).
    pub fn decode(bytes: &[u8]) -> (r: Result<WarcRecord, MalformedRecord>)
        ensures
            match record_of(bytes@) {
                Some(v) => r is Ok && r->Ok_0@ == v,
                None => r is Err,
            },
    {
        WarcRecord::from_warc_bytes(bytes)
    }

    /// Tells whether the record is well formed.
    pub fn is_well_formed(&self) -> (r: bool)
        ensures
            r == well_formed(self@),
    {
        if !(is_line_safe(self.url.as_str().as_bytes()) && is_line_safe(
            self.content_type.as_str().as_bytes(),
        ) && is_line_safe(self.payload_digest.as_str().as_bytes())) {
            return false;
        }
        match format_date(self.timestamp) {
            None => false,
            Some(date) => {
                if !is_line_safe(date.as_str().as_bytes()) {
                    return false;
                }
                match parse_date(date.as_str()) {
                    Some(t) => t == self.timestamp,
                    None => false,
                }
            },
        }
    }

    /// Lays the record out as a block under a freshly made record
    /// identifier. Whatever identifier was made, the block reads back as
    /// this record: the same URL, capture time, content type, digest and
    /// payload bytes.
    pub fn to_warc_bytes(&self) -> (r: Vec<u8>)
        requires
            well_formed(self@),
        ensures
            exists|id: u128| r@ == #[trigger] record_block(self@, id),
            record_of(r@) == Some(self@),
    {
        let id: u128 = fresh_id();
        self.to_warc_bytes_with_id(id)
    }

    /// Lays the record out as a block under the given record identifier.
    /// The block reads back as this record.
    pub fn to_warc_bytes_with_id(&self, id: u128) -> (r: Vec<u8>)
        requires
            well_formed(self@),
        ensures
            r@ == record_block(self@, id),
            record_of(r@) == Some(self@),
    {
        let date: String = match format_date(self.timestamp) {
            Some(date) => date,
            None => {
                proof {
                    assert(false);
                }
                String::new()
            },
        };
        let mut declared: Vec<u8> = Vec::new();
        push_decimal(&mut declared, self.content.len());
        let mut out: Vec<u8> = Vec::new();
        push_line(&mut out, preamble_bytes().as_slice(), id_line_bytes(id).as_slice());
        push_line(&mut out, date_label_bytes().as_slice(), date.as_str().as_bytes());
        push_line(&mut out, uri_label_bytes().as_slice(), self.url.as_str().as_bytes());
        push_line(
            &mut out,
            digest_label_bytes().as_slice(),
            self.payload_digest.as_str().as_bytes(),
        );
        push_line(&mut out, type_label_bytes().as_slice(), self.content_type.as_str().as_bytes());
        push_line(&mut out, length_label_bytes().as_slice(), declared.as_slice());
        out.push(13u8);
        out.push(10u8);
        out.extend_from_slice(self.content.as_slice());
        out.extend_from_slice(trailer_bytes().as_slice());
        proof {
            broadcast use vstd::utf8::encode_utf8_valid_utf8, vstd::utf8::encode_utf8_decode_utf8;

            let f = fields_of(self@, id_line(id));
            assert(declared@ =~= decimal_text(self.content@.len()));
            assert(out@ =~= block(f));
            lemma_id_line_safe(id);
            block_round_trip(f);
        }
        out
    }

    /// Reads a block back into a record. Succeeds exactly on the blocks
    /// that hold a record, and then gives that record; every other input is
    /// rejected as malformed, a block whose declared length is not the
    /// number of payload bytes present among them.
    pub fn from_warc_bytes(bytes: &[u8]) -> (r: Result<WarcRecord, MalformedRecord>)
        ensures
            match record_of(bytes@) {
                Some(v) => r is Ok && r->Ok_0@ == v,
                None => r is Err,
            },
    {
        let total: usize = bytes.len();
        let (_id_line, at_date) = match read_field(bytes, 0, preamble_bytes().as_slice()) {
            Some(x) => x,
            None => return Err(MalformedRecord),
        };
        let (date, at_uri) = match read_field(bytes, at_date, date_label_bytes().as_slice()) {
            Some(x) => x,
            None => return Err(MalformedRecord),
        };
        let (url, at_digest) = match read_field(bytes, at_uri, uri_label_bytes().as_slice()) {
            Some(x) => x,
            None => return Err(MalformedRecord),
        };
        let (digest, at_type) = match read_field(bytes, at_digest, digest_label_bytes().as_slice()) {
            Some(x) => x,
            None => return Err(MalformedRecord),
        };
        let (content_type, at_length) = match read_field(bytes, at_type, type_label_bytes().as_slice()) {
            Some(x) => x,
            None => return Err(MalformedRecord),
        };
        let (declared, at_body) = match read_field(bytes, at_length, length_label_bytes().as_slice()) {
            Some(x) => x,
            None => return Err(MalformedRecord),
        };
        let n: usize = match parse_decimal(declared.as_slice()) {
            Some(n) => n,
            None => {
                return Err(MalformedRecord);
            },
        };
        let crlf_bytes: Vec<u8> = vec![13u8, 10u8];
        assert(crlf_bytes@ =~= crlf());
        if !starts_with_at(bytes, at_body, crlf_bytes.as_slice()) {
            return Err(MalformedRecord);
        }
        let rest: usize = total - at_body;
        if rest < 6 || rest - 6 != n {
            return Err(MalformedRecord);
        }
        if !starts_with_at(bytes, at_body + 2 + n, trailer_bytes().as_slice()) {
            return Err(MalformedRecord);
        }
        let content: Vec<u8> = copy_range(bytes, at_body + 2, at_body + 2 + n);
        let url_text: String = match text_of(url.as_slice()) {
            Some(t) => t,
            None => return Err(MalformedRecord),
        };
        let digest_text: String = match text_of(digest.as_slice()) {
            Some(t) => t,
            None => return Err(MalformedRecord),
        };
        let type_text: String = match text_of(content_type.as_slice()) {
            Some(t) => t,
            None => return Err(MalformedRecord),
        };
        let date_string: String = match text_of(date.as_slice()) {
            Some(t) => t,
            None => return Err(MalformedRecord),
        };
        let timestamp: i64 = match parse_date(date_string.as_str()) {
            Some(t) => t,
            None => return Err(MalformedRecord),
        };
        Ok(
            WarcRecord {
                url: url_text,
                timestamp,
                content,
                content_type: type_text,
                payload_digest: digest_text,
            },
        )
    }
}

} // verus!
