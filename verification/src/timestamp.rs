//! The timestamp codec: one canonical form for date-times, and the two wire
//! encodings of it.
//!
//! The canonical form is `YYYY-MM-DDTHH:MM:SS.mmm`. On the wire it is followed
//! either by `Z` or by `+0000`.

use crate::classify::{date_at, is_date_at};
use crate::text::{chars_of, digit, is_digit, push_all, push_str, slice, string_of};
use vstd::prelude::*;

verus! {

/// Whether `s` holds a time of day, `HH:MM:SS`, at index `i`.
pub open spec fn is_time_at(s: Seq<char>, i: int) -> bool {
    &&& 0 <= i
    &&& i + 8 <= s.len()
    &&& is_digit(s[i])
    &&& is_digit(s[i + 1])
    &&& s[i + 2] == ':'
    &&& is_digit(s[i + 3])
    &&& is_digit(s[i + 4])
    &&& s[i + 5] == ':'
    &&& is_digit(s[i + 6])
    &&& is_digit(s[i + 7])
}

/// Whether `s` holds at index `i` a date and a time of day with `sep`
/// between them.
pub open spec fn is_datetime_at(s: Seq<char>, i: int, sep: char) -> bool {
    is_date_at(s, i) && i + 19 <= s.len() && s[i + 10] == sep && is_time_at(s, i + 11)
}

/// Whether `s` begins with a date and a time of day, with `T` or a space
/// between them; anything may follow.
pub open spec fn has_datetime(s: Seq<char>) -> bool {
    is_datetime_at(s, 0, 'T') || is_datetime_at(s, 0, ' ')
}

/// Whether the seconds of `s` are followed by a point and at least `k + 1`
/// digits.
pub open spec fn has_fraction_digit(s: Seq<char>, k: int) -> bool
    decreases k + 1,
{
    if k < 0 {
        s.len() > 19 && s[19] == '.'
    } else {
        has_fraction_digit(s, k - 1) && s.len() > 20 + k && is_digit(s[20 + k])
    }
}

/// The `k`-th digit of the milliseconds: the `k`-th digit after the point
/// that follows the seconds, and `0` where `s` has none.
pub open spec fn milli_digit(s: Seq<char>, k: int) -> char {
    if has_fraction_digit(s, k) {
        s[20 + k]
    } else {
        '0'
    }
}

/// The milliseconds of `s`, cut or padded to three digits.
pub open spec fn millis(s: Seq<char>) -> Seq<char> {
    seq![milli_digit(s, 0), milli_digit(s, 1), milli_digit(s, 2)]
}

/// The canonical form of the date-time with which `s` begins, and the empty
/// sequence where `s` begins with none.
pub open spec fn canonical(s: Seq<char>) -> Seq<char> {
    if has_datetime(s) {
        s.subrange(0, 10) + seq!['T'] + s.subrange(11, 19) + seq!['.'] + millis(s)
    } else {
        Seq::empty()
    }
}

/// Whether `t` is in canonical form: `YYYY-MM-DDTHH:MM:SS.mmm` and nothing
/// else.
pub open spec fn is_canonical(t: Seq<char>) -> bool {
    &&& t.len() == 23
    &&& is_datetime_at(t, 0, 'T')
    &&& t[19] == '.'
    &&& is_digit(t[20])
    &&& is_digit(t[21])
    &&& is_digit(t[22])
}

/// The zone suffix of the wire encoding: `Z` where `tz` is set, `+0000`
/// where it is not.
pub open spec fn zone_suffix(tz: bool) -> Seq<char> {
    if tz {
        "Z"@
    } else {
        "+0000"@
    }
}

/// The wire encoding of `t`.
pub open spec fn wire(t: Seq<char>, tz: bool) -> Seq<char> {
    t + zone_suffix(tz)
}

/// The date-time with which `s` begins as a dump script writes it: date,
/// space, time of day, without milliseconds or zone. Empty where `s` begins
/// with no date-time.
pub open spec fn sql_literal(s: Seq<char>) -> Seq<char> {
    if has_datetime(s) {
        s.subrange(0, 10) + seq![' '] + s.subrange(11, 19)
    } else {
        Seq::empty()
    }
}

/// Whether `s` holds a time of day at index `i`.
pub fn time_at(s: &Vec<char>, i: usize) -> (b: bool)
    ensures
        b == is_time_at(s@, i as int),
{
    if i > s.len() || s.len() - i < 8 {
        return false;
    }
    digit(s[i]) && digit(s[i + 1]) && s[i + 2] == ':' && digit(s[i + 3]) && digit(s[i + 4]) && s[i
        + 5] == ':' && digit(s[i + 6]) && digit(s[i + 7])
}

/// Whether `s` holds at index `i` a date and a time of day with `sep`
/// between them.
pub fn datetime_at(s: &Vec<char>, i: usize, sep: char) -> (b: bool)
    ensures
        b == is_datetime_at(s@, i as int, sep),
{
    if i > s.len() || s.len() - i < 19 {
        return false;
    }
    date_at(s, i) && s[i + 10] == sep && time_at(s, i + 11)
}

/// The three millisecond digits of `s`.
pub fn millis_of(s: &Vec<char>) -> (out: Vec<char>)
    ensures
        out@ == millis(s@),
{
    let mut out: Vec<char> = Vec::new();
    let mut more: bool = s.len() > 19 && s[19] == '.';
    let mut k: usize = 0;
    while k < 3
        invariant
            k <= 3,
            more == has_fraction_digit(s@, k - 1),
            out@.len() == k,
            forall|j: int| 0 <= j < k ==> out@[j] == milli_digit(s@, j),
        decreases 3 - k,
    {
        more = more && s.len() > 20 + k && digit(s[20 + k]);
        if more {
            out.push(s[20 + k]);
        } else {
            out.push('0');
        }
        k += 1;
    }
    assert(out@ =~= millis(s@));
    out
}

/// The canonical form of the date-time with which `s` begins.
pub fn canonical_chars(s: &Vec<char>) -> (out: Vec<char>)
    ensures
        out@ == canonical(s@),
        out@.len() == 0 || is_canonical(out@),
{
    let mut out: Vec<char> = Vec::new();
    if datetime_at(s, 0, 'T') || datetime_at(s, 0, ' ') {
        let date = slice(s, 0, 10);
        let time = slice(s, 11, 19);
        let ms = millis_of(s);
        push_all(&mut out, &date);
        out.push('T');
        push_all(&mut out, &time);
        out.push('.');
        push_all(&mut out, &ms);
        assert(out@ =~= canonical(s@));
        proof {
            lemma_canonical_shape(s@);
        }
    }
    out
}

/// The date-time with which `s` begins as a dump script writes it.
pub fn sql_literal_chars(s: &Vec<char>) -> (out: Vec<char>)
    ensures
        out@ == sql_literal(s@),
{
    let mut out: Vec<char> = Vec::new();
    if datetime_at(s, 0, 'T') || datetime_at(s, 0, ' ') {
        let date = slice(s, 0, 10);
        let time = slice(s, 11, 19);
        push_all(&mut out, &date);
        out.push(' ');
        push_all(&mut out, &time);
        assert(out@ =~= sql_literal(s@));
    }
    out
}

/// Appends the zone suffix to `out`.
pub fn push_zone(out: &mut Vec<char>, tz: bool)
    ensures
        final(out)@ == wire(old(out)@, tz),
{
    if tz {
        push_str(out, "Z");
    } else {
        push_str(out, "+0000");
    }
}

/// Brings the date-time with which `raw` begins into canonical form. The
/// date and the time of day may be separated by `T` or by a space; a
/// fraction of a second is cut or padded to three digits, and `.000` stands
/// where there is none; whatever follows is left out. The result is empty
/// where `raw` does not begin with a date-time: an empty result means that
/// the value could not be read, not that it is a date-time of no length.
pub fn decode(raw: &str) -> (out: String)
    ensures
        out@ == canonical(raw@),
        out@.len() == 0 || is_canonical(out@),
        out@.len() == 0 <==> !has_datetime(raw@),
{
    let s = chars_of(raw);
    let c = canonical_chars(&s);
    string_of(&c)
}

/// Writes `t` in one of the two wire encodings: followed by `Z` where `tz`
/// is set, by `+0000` where it is not.
pub fn encode(t: &str, tz: bool) -> (out: String)
    ensures
        out@ == wire(t@, tz),
{
    let mut s = chars_of(t);
    push_zone(&mut s, tz);
    string_of(&s)
}

/// The wire encoding of the date-time with which `raw` begins. Where `raw`
/// begins with none, only the zone suffix is left.
pub fn parse_timestamp(raw: &str, tz: bool) -> (out: String)
    ensures
        out@ == wire(canonical(raw@), tz),
{
    let s = chars_of(raw);
    let mut c = canonical_chars(&s);
    push_zone(&mut c, tz);
    string_of(&c)
}

/// The date-time with which `raw` begins as a dump script writes it: with a
/// space between date and time of day, and without milliseconds or zone.
/// Empty where `raw` begins with no date-time.
pub fn parse_date(raw: &str) -> (out: String)
    ensures
        out@ == sql_literal(raw@),
{
    let s = chars_of(raw);
    let c = sql_literal_chars(&s);
    string_of(&c)
}

/// What `canonical` gives is in canonical form wherever `s` begins with a
/// date-time.
pub proof fn lemma_canonical_shape(s: Seq<char>)
    ensures
        has_datetime(s) ==> is_canonical(canonical(s)),
        !has_datetime(s) ==> canonical(s).len() == 0,
{
    if has_datetime(s) {
        let c = canonical(s);
        assert(c.len() == 23);
        assert forall|j: int| 0 <= j < 10 implies c[j] == s[j] by {}
        assert forall|j: int| 11 <= j < 19 implies c[j] == s[j] by {}
        assert(c[10] == 'T');
        assert(c[19] == '.');
        assert(c[20] == milli_digit(s, 0));
        assert(c[21] == milli_digit(s, 1));
        assert(c[22] == milli_digit(s, 2));
    }
}

/// Decoding inverts encoding: a canonical timestamp, written in either wire
/// encoding and read back, is the timestamp itself.
pub proof fn lemma_decode_encode(t: Seq<char>, tz: bool)
    requires
        is_canonical(t),
    ensures
        canonical(wire(t, tz)) == t,
{
    reveal_strlit("Z");
    reveal_strlit("+0000");
    let w = wire(t, tz);
    assert forall|j: int| 0 <= j < 23 implies w[j] == t[j] by {}
    assert(w.len() > 23);
    assert(!is_digit(w[23]));
    assert(is_datetime_at(w, 0, 'T'));
    reveal_with_fuel(has_fraction_digit, 4);
    assert(has_fraction_digit(w, 2));
    assert(canonical(w) =~= t);
}

/// A canonical timestamp is its own canonical form.
pub proof fn lemma_canonical_fixed(t: Seq<char>)
    requires
        is_canonical(t),
    ensures
        canonical(t) == t,
{
    reveal_with_fuel(has_fraction_digit, 4);
    assert(is_datetime_at(t, 0, 'T'));
    assert(has_fraction_digit(t, 2));
    assert(canonical(t) =~= t);
}

} // verus!
