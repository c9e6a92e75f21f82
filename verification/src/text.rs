//! Lines and decimal numbers in a block's header.

use vstd::prelude::*;
use crate::layout::crlf;

verus! {

/// A header value is line safe when it holds neither a carriage return nor a
/// line feed, so that it cannot end its own line early.
pub open spec fn line_safe(v: Seq<u8>) -> bool {
    forall|i: int| 0 <= i < v.len() ==> v[i] != 13 && v[i] != 10
}

/// The index of the first carriage return at or behind `from` that a line
/// feed follows, or -1 if there is none.
pub open spec fn first_crlf(s: Seq<u8>, from: int) -> int
    decreases s.len() - from,
{
    if from < 0 || from + 1 >= s.len() {
        -1
    } else if s[from] == 13 && s[from + 1] == 10 {
        from
    } else {
        first_crlf(s, from + 1)
    }
}

/// Whether `label` stands in `s` at `pos`.
#[verifier::opaque]
pub open spec fn has_label(s: Seq<u8>, pos: int, label: Seq<u8>) -> bool {
    0 <= pos && pos + label.len() <= s.len() && s.subrange(pos, pos + label.len()) == label
}

/// The header line that starts at `pos`: it must open with `label`; its value
/// runs from behind the label to the first line end. Gives the value and the
/// position behind the line end.
#[verifier::opaque]
pub open spec fn field_at(s: Seq<u8>, pos: int, label: Seq<u8>) -> Option<(Seq<u8>, int)> {
    if has_label(s, pos, label) {
        let e = first_crlf(s, pos + label.len());
        if e >= 0 {
            Some((s.subrange(pos + label.len(), e), e + 2))
        } else {
            None
        }
    } else {
        None
    }
}

/// The decimal digits of `n`, without leading zeros.
pub open spec fn decimal_text(n: nat) -> Seq<u8>
    decreases n,
{
    if n < 10 {
        seq![(48 + n) as u8]
    } else {
        decimal_text(n / 10).push((48 + n % 10) as u8)
    }
}

/// The number that a run of decimal digits writes; `None` if the run is
/// empty or holds anything but digits.
pub open spec fn decimal_value(s: Seq<u8>) -> Option<nat>
    decreases s.len(),
{
    if s.len() == 0 || s.last() < 48 || s.last() > 57 {
        None
    } else if s.len() == 1 {
        Some((s.last() - 48) as nat)
    } else {
        match decimal_value(s.drop_last()) {
            Some(v) => Some((v * 10 + (s.last() - 48)) as nat),
            None => None,
        }
    }
}

/// A proper start of a run of digits writes no more than the whole run.
pub proof fn lemma_decimal_value_grows(s: Seq<u8>, k: int)
    requires
        1 <= k <= s.len(),
        decimal_value(s) is Some,
    ensures
        decimal_value(s.take(k)) is Some,
        decimal_value(s.take(k))->Some_0 <= decimal_value(s)->Some_0,
    decreases s.len(),
{
    if k == s.len() {
        assert(s.take(k) =~= s);
    } else {
        assert(s.drop_last().take(k) =~= s.take(k));
        lemma_decimal_value_grows(s.drop_last(), k);
    }
}

/// The digits of a number are line safe and write that number.
pub proof fn lemma_decimal_round_trip(n: nat)
    ensures
        decimal_text(n).len() >= 1,
        line_safe(decimal_text(n)),
        decimal_value(decimal_text(n)) == Some(n),
    decreases n,
{
    if n >= 10 {
        lemma_decimal_round_trip(n / 10);
        let t = decimal_text(n);
        assert(t.drop_last() =~= decimal_text(n / 10));
        assert(t.last() == (48 + n % 10) as u8);
    }
}

/// Where a line-safe value is followed by a line end, the first line end
/// behind the value's start is that one.
pub proof fn lemma_first_crlf(s: Seq<u8>, from: int, e: int)
    requires
        0 <= from <= e,
        e + 1 < s.len(),
        s[e] == 13,
        s[e + 1] == 10,
        forall|j: int| from <= j < e ==> s[j] != 13,
    ensures
        first_crlf(s, from) == e,
    decreases e - from,
{
    if from < e {
        lemma_first_crlf(s, from + 1, e);
    }
}

/// A line made of a label, a line-safe value and a line end is read back as
/// that value.
pub proof fn lemma_field_at(s: Seq<u8>, pos: int, label: Seq<u8>, value: Seq<u8>)
    requires
        0 <= pos,
        pos + label.len() + value.len() + 2 <= s.len(),
        s.subrange(pos, pos + label.len() + value.len() + 2) == label + value + crlf(),
        line_safe(value),
    ensures
        field_at(s, pos, label) == Some((value, pos + label.len() + value.len() + 2)),
{
    reveal(field_at);
    reveal(has_label);
    let line = label + value + crlf();
    let end = pos + label.len() + value.len() + 2;
    assert forall|j: int| pos <= j < end implies s[j] == line[j - pos] by {
        assert(s.subrange(pos, end)[j - pos] == s[j]);
    }
    assert(s.subrange(pos, pos + label.len()) =~= label) by {
        assert forall|j: int| 0 <= j < label.len() implies s[pos + j] == label[j] by {
            assert(line[j] == label[j]);
        }
    }
    let start = pos + label.len();
    let e = start + value.len();
    assert forall|j: int| start <= j < e implies s[j] != 13 by {
        assert(line[j - pos] == value[j - start]);
    }
    assert(line[e - pos] == 13);
    assert(line[e + 1 - pos] == 10);
    lemma_first_crlf(s, start, e);
    assert(s.subrange(start, e) =~= value) by {
        assert forall|j: int| 0 <= j < value.len() implies s[start + j] == value[j] by {
            assert(line[start + j - pos] == value[j]);
        }
    }
}

/// Finds the first line end at or behind `from`.
pub fn find_line_end(s: &[u8], from: usize) -> (r: Option<usize>)
    ensures
        match r {
            Some(e) => first_crlf(s@, from as int) == e,
            None => first_crlf(s@, from as int) == -1,
        },
{
    let mut i: usize = from;
    while i < s.len() && i + 1 < s.len()
        invariant
            from <= i,
            first_crlf(s@, from as int) == first_crlf(s@, i as int),
        decreases s.len() - i,
    {
        if s[i] == 13 && s[i + 1] == 10 {
            return Some(i);
        }
        i += 1;
    }
    None
}

/// Tells whether `label` stands in `s` at `pos`.
pub fn starts_with_at(s: &[u8], pos: usize, label: &[u8]) -> (r: bool)
    ensures
        r == has_label(s@, pos as int, label@),
{
    proof {
        reveal(has_label);
    }
    if pos > s.len() || label.len() > s.len() - pos {
        return false;
    }
    let mut i: usize = 0;
    while i < label.len()
        invariant
            pos + label.len() <= s.len(),
            0 <= i <= label.len(),
            s@.subrange(pos as int, pos + i) == label@.take(i as int),
        decreases label.len() - i,
    {
        if s[pos + i] != label[i] {
            proof {
                reveal(has_label);
                assert(s@.subrange(pos as int, pos + label@.len())[i as int] != label@[i as int]);
            }
            return false;
        }
        proof {
            assert(s@.subrange(pos as int, pos + i + 1) =~= s@.subrange(pos as int, pos + i).push(
                s@[pos + i],
            ));
            assert(label@.take(i + 1) =~= label@.take(i as int).push(label@[i as int]));
        }
        i += 1;
    }
    proof {
        reveal(has_label);
        assert(label@.take(label@.len() as int) =~= label@);
    }
    true
}

/// Copies the bytes of `s` from `start` up to `end`.
pub(crate) fn copy_range(s: &[u8], start: usize, end: usize) -> (r: Vec<u8>)
    requires
        start <= end <= s@.len(),
    ensures
        r@ == s@.subrange(start as int, end as int),
{
    let mut out: Vec<u8> = Vec::new();
    let mut i: usize = start;
    while i < end
        invariant
            start <= i <= end <= s@.len(),
            out@ == s@.subrange(start as int, i as int),
        decreases end - i,
    {
        out.push(s[i]);
        i += 1;
    }
    out
}

/// Reads the header line that starts at `pos` and opens with `label`.
pub fn read_field(s: &[u8], pos: usize, label: &[u8]) -> (r: Option<(Vec<u8>, usize)>)
    ensures
        match field_at(s@, pos as int, label@) {
            Some((value, next)) => r is Some && r->Some_0.0@ == value && r->Some_0.1 == next
                && next <= s@.len(),
            None => r is None,
        },
{
    proof {
        reveal(field_at);
        reveal(has_label);
    }
    if !starts_with_at(s, pos, label) {
        return None;
    }
    assert(pos + label@.len() <= s@.len());
    assert(s@.len() == s.len());
    let start: usize = pos + label.len();
    match find_line_end(s, start) {
        Some(e) => {
            proof {
                lemma_first_crlf_bounds(s@, start as int);
                assert(e + 1 < s.len());
            }
            Some((copy_range(s, start, e), e + 2))
        },
        None => None,
    }
}

/// A line end that was found lies behind where the search began and inside the bytes.
pub proof fn lemma_first_crlf_bounds(s: Seq<u8>, from: int)
    requires
        first_crlf(s, from) >= 0,
    ensures
        from <= first_crlf(s, from),
        first_crlf(s, from) + 1 < s.len(),
    decreases s.len() - from,
{
    if from < 0 || from + 1 >= s.len() {
    } else if s[from] == 13 && s[from + 1] == 10 {
    } else {
        lemma_first_crlf_bounds(s, from + 1);
    }
}

/// Writes the decimal digits of `n` behind what `out` holds.
pub fn push_decimal(out: &mut Vec<u8>, n: usize)
    ensures
        final(out)@ == old(out)@ + decimal_text(n as nat),
    decreases n,
{
    if n >= 10 {
        push_decimal(out, n / 10);
    }
    let d: u8 = (n % 10) as u8;
    out.push(48 + d);
    proof {
        assert(final(out)@ =~= old(out)@ + decimal_text(n as nat));
    }
}

/// Reads a run of decimal digits as a number. Gives `None` where the run is
/// empty, holds anything but digits, or writes a number that `usize` cannot hold.
pub fn parse_decimal(s: &[u8]) -> (r: Option<usize>)
    ensures
        match decimal_value(s@) {
            Some(v) => if v <= usize::MAX {
                r == Some(v as usize)
            } else {
                r is None
            },
            None => r is None,
        },
{
    if s.len() == 0 {
        return None;
    }
    let mut v: usize = 0;
    let mut i: usize = 0;
    while i < s.len()
        invariant
            0 <= i <= s@.len(),
            s@.len() > 0,
            i > 0 ==> decimal_value(s@.take(i as int)) == Some(v as nat),
            i == 0 ==> v == 0,
        decreases s.len() - i,
    {
        let b: u8 = s[i];
        proof {
            assert(s@.take(i + 1).drop_last() =~= s@.take(i as int));
            assert(s@.take(i + 1).last() == b);
        }
        if b < 48 || b > 57 {
            proof {
                lemma_decimal_value_none(s@, i + 1);
            }
            return None;
        }
        let d: usize = (b - 48) as usize;
        if v > (usize::MAX - d) / 10 {
            proof {
                assert(v * 10 + d > usize::MAX);
                if decimal_value(s@) is Some {
                    lemma_decimal_value_grows(s@, i + 1);
                }
            }
            return None;
        }
        v = v * 10 + d;
        i += 1;
    }
    proof {
        assert(s@.take(s@.len() as int) =~= s@);
    }
    Some(v)
}

/// A run of digits with a start that writes no number writes none itself.
pub proof fn lemma_decimal_value_none(s: Seq<u8>, k: int)
    requires
        1 <= k <= s.len(),
        decimal_value(s.take(k)) is None,
    ensures
        decimal_value(s) is None,
    decreases s.len(),
{
    if k == s.len() {
        assert(s.take(k) =~= s);
    } else {
        assert(s.drop_last().take(k) =~= s.take(k));
        lemma_decimal_value_none(s.drop_last(), k);
    }
}

} // verus!
