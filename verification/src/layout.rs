//! The fixed byte strings of the block layout.

use vstd::prelude::*;

verus! {

/// The fixed opening of a block, up to the value of the record identifier
/// line.
/// In ASCII: `WARC/1.0\r\nWARC-Type: response\r\nWARC-Record-ID: `.
#[verifier::opaque]
pub open spec fn preamble() -> Seq<u8> {
    seq![
        87u8, 65u8, 82u8, 67u8, 47u8, 49u8, 46u8, 48u8, 13u8, 10u8, 87u8, 65u8,
        82u8, 67u8, 45u8, 84u8, 121u8, 112u8, 101u8, 58u8, 32u8, 114u8, 101u8, 115u8,
        112u8, 111u8, 110u8, 115u8, 101u8, 13u8, 10u8, 87u8, 65u8, 82u8, 67u8, 45u8,
        82u8, 101u8, 99u8, 111u8, 114u8, 100u8, 45u8, 73u8, 68u8, 58u8, 32u8,
    ]
}

/// The bytes of [`preamble`].
pub fn preamble_bytes() -> (r: Vec<u8>)
    ensures
        r@ == preamble(),
{
    let r: Vec<u8> = vec![
        87u8, 65u8, 82u8, 67u8, 47u8, 49u8, 46u8, 48u8, 13u8, 10u8, 87u8, 65u8,
        82u8, 67u8, 45u8, 84u8, 121u8, 112u8, 101u8, 58u8, 32u8, 114u8, 101u8, 115u8,
        112u8, 111u8, 110u8, 115u8, 101u8, 13u8, 10u8, 87u8, 65u8, 82u8, 67u8, 45u8,
        82u8, 101u8, 99u8, 111u8, 114u8, 100u8, 45u8, 73u8, 68u8, 58u8, 32u8,
    ];
    proof {
        reveal(preamble);
        assert(r@ =~= preamble());
    }
    r
}

/// What stands before the identifier in the record identifier line.
/// In ASCII: `<urn:uuid:`.
#[verifier::opaque]
pub open spec fn urn_open() -> Seq<u8> {
    seq![
        60u8, 117u8, 114u8, 110u8, 58u8, 117u8, 117u8, 105u8, 100u8, 58u8,
    ]
}

/// The bytes of [`urn_open`].
pub fn urn_open_bytes() -> (r: Vec<u8>)
    ensures
        r@ == urn_open(),
{
    let r: Vec<u8> = vec![
        60u8, 117u8, 114u8, 110u8, 58u8, 117u8, 117u8, 105u8, 100u8, 58u8,
    ];
    proof {
        reveal(urn_open);
        assert(r@ =~= urn_open());
    }
    r
}

/// What stands behind the identifier in the record identifier line.
/// In ASCII: `>`.
#[verifier::opaque]
pub open spec fn urn_close() -> Seq<u8> {
    seq![
        62u8,
    ]
}

/// The bytes of [`urn_close`].
pub fn urn_close_bytes() -> (r: Vec<u8>)
    ensures
        r@ == urn_close(),
{
    let r: Vec<u8> = vec![
        62u8,
    ];
    proof {
        reveal(urn_close);
        assert(r@ =~= urn_close());
    }
    r
}

/// The name of the line that holds the capture time.
/// In ASCII: `WARC-Date: `.
#[verifier::opaque]
pub open spec fn date_label() -> Seq<u8> {
    seq![
        87u8, 65u8, 82u8, 67u8, 45u8, 68u8, 97u8, 116u8, 101u8, 58u8, 32u8,
    ]
}

/// The bytes of [`date_label`].
pub fn date_label_bytes() -> (r: Vec<u8>)
    ensures
        r@ == date_label(),
{
    let r: Vec<u8> = vec![
        87u8, 65u8, 82u8, 67u8, 45u8, 68u8, 97u8, 116u8, 101u8, 58u8, 32u8,
    ];
    proof {
        reveal(date_label);
        assert(r@ =~= date_label());
    }
    r
}

/// The name of the line that holds the captured URL.
/// In ASCII: `WARC-Target-URI: `.
#[verifier::opaque]
pub open spec fn uri_label() -> Seq<u8> {
    seq![
        87u8, 65u8, 82u8, 67u8, 45u8, 84u8, 97u8, 114u8, 103u8, 101u8, 116u8, 45u8,
        85u8, 82u8, 73u8, 58u8, 32u8,
    ]
}

/// The bytes of [`uri_label`].
pub fn uri_label_bytes() -> (r: Vec<u8>)
    ensures
        r@ == uri_label(),
{
    let r: Vec<u8> = vec![
        87u8, 65u8, 82u8, 67u8, 45u8, 84u8, 97u8, 114u8, 103u8, 101u8, 116u8, 45u8,
        85u8, 82u8, 73u8, 58u8, 32u8,
    ];
    proof {
        reveal(uri_label);
        assert(r@ =~= uri_label());
    }
    r
}

/// The name of the line that holds the payload digest.
/// In ASCII: `WARC-Payload-Digest: sha256:`.
#[verifier::opaque]
pub open spec fn digest_label() -> Seq<u8> {
    seq![
        87u8, 65u8, 82u8, 67u8, 45u8, 80u8, 97u8, 121u8, 108u8, 111u8, 97u8, 100u8,
        45u8, 68u8, 105u8, 103u8, 101u8, 115u8, 116u8, 58u8, 32u8, 115u8, 104u8, 97u8,
        50u8, 53u8, 54u8, 58u8,
    ]
}

/// The bytes of [`digest_label`].
pub fn digest_label_bytes() -> (r: Vec<u8>)
    ensures
        r@ == digest_label(),
{
    let r: Vec<u8> = vec![
        87u8, 65u8, 82u8, 67u8, 45u8, 80u8, 97u8, 121u8, 108u8, 111u8, 97u8, 100u8,
        45u8, 68u8, 105u8, 103u8, 101u8, 115u8, 116u8, 58u8, 32u8, 115u8, 104u8, 97u8,
        50u8, 53u8, 54u8, 58u8,
    ];
    proof {
        reveal(digest_label);
        assert(r@ =~= digest_label());
    }
    r
}

/// The name of the line that holds the content type.
/// In ASCII: `Content-Type: `.
#[verifier::opaque]
pub open spec fn type_label() -> Seq<u8> {
    seq![
        67u8, 111u8, 110u8, 116u8, 101u8, 110u8, 116u8, 45u8, 84u8, 121u8, 112u8, 101u8,
        58u8, 32u8,
    ]
}

/// The bytes of [`type_label`].
pub fn type_label_bytes() -> (r: Vec<u8>)
    ensures
        r@ == type_label(),
{
    let r: Vec<u8> = vec![
        67u8, 111u8, 110u8, 116u8, 101u8, 110u8, 116u8, 45u8, 84u8, 121u8, 112u8, 101u8,
        58u8, 32u8,
    ];
    proof {
        reveal(type_label);
        assert(r@ =~= type_label());
    }
    r
}

/// The name of the line that holds the payload length.
/// In ASCII: `Content-Length: `.
#[verifier::opaque]
pub open spec fn length_label() -> Seq<u8> {
    seq![
        67u8, 111u8, 110u8, 116u8, 101u8, 110u8, 116u8, 45u8, 76u8, 101u8, 110u8, 103u8,
        116u8, 104u8, 58u8, 32u8,
    ]
}

/// The bytes of [`length_label`].
pub fn length_label_bytes() -> (r: Vec<u8>)
    ensures
        r@ == length_label(),
{
    let r: Vec<u8> = vec![
        67u8, 111u8, 110u8, 116u8, 101u8, 110u8, 116u8, 45u8, 76u8, 101u8, 110u8, 103u8,
        116u8, 104u8, 58u8, 32u8,
    ];
    proof {
        reveal(length_label);
        assert(r@ =~= length_label());
    }
    r
}

/// The marker that closes a block behind its payload.
/// In ASCII: `\r\n\r\n`.
#[verifier::opaque]
pub open spec fn trailer() -> Seq<u8> {
    seq![
        13u8, 10u8, 13u8, 10u8,
    ]
}

/// The bytes of [`trailer`].
pub fn trailer_bytes() -> (r: Vec<u8>)
    ensures
        r@ == trailer(),
{
    let r: Vec<u8> = vec![
        13u8, 10u8, 13u8, 10u8,
    ];
    proof {
        reveal(trailer);
        assert(r@ =~= trailer());
    }
    r
}

/// The two bytes that end a line: carriage return, line feed.
pub open spec fn crlf() -> Seq<u8> {
    seq![13u8, 10u8]
}

} // verus!
