//! The calls into other crates and into parts of std that carry no
//! specification. Each function here is believed, not proved: its doc comment
//! says what is claimed of the outside function.

use vstd::prelude::*;
use vstd::utf8::{decode_utf8, encode_utf8, valid_utf8};
use crate::text::line_safe;

verus! {

/// Sixteen to the power `e`.
pub open spec fn sixteen_to(e: nat) -> int
    decreases e,
{
    if e == 0 {
        1
    } else {
        16 * sixteen_to((e - 1) as nat)
    }
}

/// The hexadecimal digit `d` of a 128-bit number, counted from the most
/// significant one, as a value from 0 to 15.
pub open spec fn nibble(id: u128, d: int) -> int {
    (id as int / sixteen_to((31 - d) as nat)) % 16
}

/// The lower-case hexadecimal digit for a value from 0 to 15.
pub open spec fn hex_digit(n: int) -> char {
    if n == 0 {
        '0'
    } else if n == 1 {
        '1'
    } else if n == 2 {
        '2'
    } else if n == 3 {
        '3'
    } else if n == 4 {
        '4'
    } else if n == 5 {
        '5'
    } else if n == 6 {
        '6'
    } else if n == 7 {
        '7'
    } else if n == 8 {
        '8'
    } else if n == 9 {
        '9'
    } else if n == 10 {
        'a'
    } else if n == 11 {
        'b'
    } else if n == 12 {
        'c'
    } else if n == 13 {
        'd'
    } else if n == 14 {
        'e'
    } else {
        'f'
    }
}

/// The hyphenated text of an identifier: 32 lower-case hexadecimal digits,
/// most significant first, in groups of 8, 4, 4, 4 and 12 with a hyphen
/// between the groups.
pub open spec fn id_text(id: u128) -> Seq<char> {
    Seq::new(
        36,
        |i: int|
            if i == 8 || i == 13 || i == 18 || i == 23 {
                '-'
            } else if i < 8 {
                hex_digit(nibble(id, i))
            } else if i < 13 {
                hex_digit(nibble(id, i - 1))
            } else if i < 18 {
                hex_digit(nibble(id, i - 2))
            } else if i < 23 {
                hex_digit(nibble(id, i - 3))
            } else {
                hex_digit(nibble(id, i - 4))
            },
    )
}

/// The text that stands for an instant, given in seconds since the epoch, in
/// a block's date line: year, month, day, `T`, hour, minute, second, `Z`.
/// `None` for an instant that lies outside the calendar.
pub uninterp spec fn date_text(secs: i64) -> Option<Seq<char>>;

/// The instant that a date line's text stands for, in seconds since the
/// epoch; `None` where the text is no date of that form.
pub uninterp spec fn date_value(text: Seq<char>) -> Option<i64>;

/// The instant has a date text, which holds no line break and reads back
/// as the instant.
pub open spec fn date_round_trips(secs: i64) -> bool {
    date_text(secs) is Some && line_safe(encode_utf8(date_text(secs)->Some_0)) && date_value(
        date_text(secs)->Some_0,
    ) == Some(secs)
}

/// `uuid::Uuid::new_v4`, as a 128-bit number. The identifier is random:
/// nothing is claimed of it.
#[verifier::external_body]
pub(crate) fn fresh_id() -> (id: u128) {
    uuid::Uuid::new_v4().as_u128()
}

/// The `Display` text of `uuid::Uuid`, for the identifier made by
/// `uuid::Uuid::from_u128`. Claimed: it is the hyphenated lower-case form,
/// the number's hexadecimal digits from the most significant down.
#[verifier::external_body]
pub(crate) fn id_string(id: u128) -> (r: String)
    ensures
        r@ == id_text(id),
{
    uuid::Uuid::from_u128(id).to_string()
}

/// `chrono::Utc::now`, in whole seconds since the epoch. The result is the
/// machine's clock: nothing is claimed of it.
#[verifier::external_body]
pub(crate) fn clock_now() -> (secs: i64) {
    chrono::Utc::now().timestamp()
}

/// `chrono::DateTime::format` with `%Y-%m-%dT%H:%M:%SZ`, on the instant that
/// `chrono::DateTime::from_timestamp` makes of the seconds, where it makes
/// one. Claimed: the result depends on the seconds alone.
#[verifier::external_body]
pub(crate) fn format_date(secs: i64) -> (r: Option<String>)
    ensures
        match r {
            Some(text) => date_text(secs) == Some(text@),
            None => date_text(secs) is None,
        },
{
    chrono::DateTime::<chrono::Utc>::from_timestamp(secs, 0).map(
        |t| t.format("%Y-%m-%dT%H:%M:%SZ").to_string(),
    )
}

/// `chrono::NaiveDateTime::parse_from_str` with `%Y-%m-%dT%H:%M:%SZ`, the
/// result read as UTC in whole seconds since the epoch. Claimed: the result
/// depends on the text alone.
#[verifier::external_body]
pub(crate) fn parse_date(text: &str) -> (r: Option<i64>)
    ensures
        r == date_value(text@),
{
    chrono::NaiveDateTime::parse_from_str(text, "%Y-%m-%dT%H:%M:%SZ").ok().map(
        |t| t.and_utc().timestamp(),
    )
}

/// `String::from_utf8`. Claimed: it succeeds exactly on well-formed UTF-8,
/// and the string then holds the characters that the bytes encode.
#[verifier::external_body]
pub(crate) fn text_of(bytes: &[u8]) -> (r: Option<String>)
    ensures
        r is Some <==> valid_utf8(bytes@),
        r is Some ==> r->Some_0@ == decode_utf8(bytes@),
{
    String::from_utf8(bytes.to_vec()).ok()
}

} // verus!
