//! A scan of one line before it goes to the JSON parser.
//!
//! The parser is not safe on every input. It descends once for every
//! nesting level. It keeps the keys of the objects that are open, one for
//! every level at most, in a buffer that it indexes with 16 bits. It adds up the digits of an exponent in a
//! machine integer. It counts the elements of an array in 32 bits. And after
//! a comma that is followed by a closing brace it loses track of where it
//! is. The scan measures a line for each of these, so that the reader can
//! refuse the lines that could take the parser there.
//!
//! The scan knows just enough of JSON to tell what is inside a string from
//! what is outside: a string opens and closes with a double quote, and
//! inside it a backslash takes the next character with it.

use crate::text::{digit, is_digit, slice, texts};
use vstd::prelude::*;

verus! {

/// The deepest nesting that the reader takes.
pub const MAX_DEPTH: usize = 256;

/// The most bytes that the keys of the objects that are open may have
/// together: what 16 bits can index.
pub const MAX_KEY_SPAN: usize = 0xffff;

/// The most digits that an exponent may have.
pub const MAX_EXPONENT_DIGITS: usize = 9;

/// The most characters that a line may have.
pub const MAX_LINE_CHARS: usize = 0xffff_ffff;

/// Where the counters of the scan stop counting; it is beyond every limit.
pub const COUNT_CAP: usize = 0x1_0000;

/// What the scan knows after some characters of a line.
#[derive(Clone, Copy, Debug, PartialEq, Eq, Structural)]
pub struct Scan {
    /// A string is open.
    pub in_string: bool,
    /// A string is open and its last character was a backslash that takes
    /// the next character with it.
    pub escaped: bool,
    /// How many brackets and braces are open.
    pub depth: usize,
    /// The most that were open at once.
    pub deepest: usize,
    /// A string was closed and only white space has followed.
    pub after_string: bool,
    /// The bytes between the quotes of the string that is open, or was
    /// closed last, as they are written.
    pub bytes: usize,
    /// The most bytes of a string that a colon followed: of a key.
    pub longest_key: usize,
    /// An exponent mark stood outside a string, and only a sign and digits
    /// have followed.
    pub in_exponent: bool,
    /// The next character may be the sign of the exponent.
    pub sign_allowed: bool,
    /// The digits of the exponent so far.
    pub digits: usize,
    /// The most digits of an exponent.
    pub most_digits: usize,
    /// A comma stood outside a string and only white space has followed.
    pub after_comma: bool,
    /// A closing brace followed a comma.
    pub trailing_comma: bool,
}

/// What the scan knows before the first character.
pub open spec fn scan_start() -> Scan {
    Scan {
        in_string: false,
        escaped: false,
        depth: 0,
        deepest: 0,
        after_string: false,
        bytes: 0,
        longest_key: 0,
        in_exponent: false,
        sign_allowed: false,
        digits: 0,
        most_digits: 0,
        after_comma: false,
        trailing_comma: false,
    }
}

/// The number of bytes that `c` takes in UTF-8.
pub open spec fn utf8_len(c: char) -> usize {
    if (c as u32) < 0x80 {
        1
    } else if (c as u32) < 0x800 {
        2
    } else if (c as u32) < 0x1_0000 {
        3
    } else {
        4
    }
}

/// `n + k`, as far as the counters count.
pub open spec fn counted(n: usize, k: usize) -> usize {
    if n + k < COUNT_CAP {
        (n + k) as usize
    } else {
        COUNT_CAP
    }
}

/// The greater of the two.
pub open spec fn greater(a: usize, b: usize) -> usize {
    if a < b {
        b
    } else {
        a
    }
}

/// White space as JSON has it: space, line feed, tab or carriage return.
pub open spec fn is_json_space(c: char) -> bool {
    c == ' ' || c == '\n' || c == '\t' || c == '\r'
}

/// What the scan knows after `c`, which stands inside a string.
pub open spec fn scan_inside(s: Scan, c: char) -> Scan {
    if s.escaped {
        Scan { escaped: false, bytes: counted(s.bytes, utf8_len(c)), ..s }
    } else if c == '\\' {
        Scan { escaped: true, bytes: counted(s.bytes, 1), ..s }
    } else if c == '"' {
        Scan { in_string: false, after_string: true, ..s }
    } else {
        Scan { bytes: counted(s.bytes, utf8_len(c)), ..s }
    }
}

/// How many brackets and braces are open after `c`.
pub open spec fn depth_after(s: Scan, c: char) -> usize {
    if c == '{' || c == '[' {
        counted(s.depth, 1)
    } else if (c == '}' || c == ']') && s.depth > 0 {
        (s.depth - 1) as usize
    } else {
        s.depth
    }
}

/// What the scan knows after `c`, which stands outside a string and opens
/// none.
pub open spec fn scan_outside(s: Scan, c: char) -> Scan {
    let mark = c == 'e' || c == 'E';
    let sign = s.in_exponent && s.sign_allowed && (c == '+' || c == '-');
    let figure = s.in_exponent && is_digit(c);
    let digits = if figure {
        counted(s.digits, 1)
    } else if mark {
        0
    } else {
        s.digits
    };
    Scan {
        in_string: false,
        escaped: false,
        depth: depth_after(s, c),
        deepest: greater(s.deepest, depth_after(s, c)),
        after_string: s.after_string && is_json_space(c),
        bytes: s.bytes,
        longest_key: if s.after_string && c == ':' {
            greater(s.longest_key, s.bytes)
        } else {
            s.longest_key
        },
        in_exponent: mark || sign || figure,
        sign_allowed: mark,
        digits,
        most_digits: greater(s.most_digits, digits),
        after_comma: c == ',' || (s.after_comma && is_json_space(c)),
        trailing_comma: s.trailing_comma || (s.after_comma && c == '}'),
    }
}

/// What the scan knows after one more character.
pub open spec fn scan_step(s: Scan, c: char) -> Scan {
    if s.in_string {
        scan_inside(s, c)
    } else if c == '"' {
        Scan {
            in_string: true,
            escaped: false,
            after_string: false,
            bytes: 0,
            in_exponent: false,
            sign_allowed: false,
            after_comma: false,
            ..s
        }
    } else {
        scan_outside(s, c)
    }
}

/// What the scan knows after `line`.
pub open spec fn scan(line: Seq<char>) -> Scan
    decreases line.len(),
{
    if line.len() == 0 {
        scan_start()
    } else {
        scan_step(scan(line.drop_last()), line.last())
    }
}

/// Whether a line of `chars` characters, of which the scan knows `s`, is
/// within the limits.
pub open spec fn fits(s: Scan, chars: nat) -> bool {
    &&& s.deepest <= MAX_DEPTH
    &&& s.longest_key <= MAX_KEY_SPAN
    &&& s.longest_key * s.deepest <= MAX_KEY_SPAN
    &&& s.most_digits <= MAX_EXPONENT_DIGITS
    &&& chars <= MAX_LINE_CHARS
}

/// Whether `line` is within the limits of the reader: it nests no deeper
/// than `MAX_DEPTH`; its longest key, taken once for every level to which
/// the line nests, has no more than `MAX_KEY_SPAN` bytes, so that the keys
/// of the objects that are open never have more together; none of its
/// exponents has more than `MAX_EXPONENT_DIGITS` digits; and it has no more
/// than `MAX_LINE_CHARS` characters.
pub open spec fn within_limits(line: Seq<char>) -> bool {
    fits(scan(line), line.len())
}

/// Whether in `line`, outside its strings, a comma is followed by a closing
/// brace with at most white space between them. Such a line is not JSON.
pub open spec fn has_trailing_comma(line: Seq<char>) -> bool {
    scan(line).trailing_comma
}

/// The number of bytes that `c` takes in UTF-8.
pub fn utf8_len_of(c: char) -> (n: usize)
    ensures
        n == utf8_len(c),
{
    let code = c as u32;
    if code < 0x80 {
        1
    } else if code < 0x800 {
        2
    } else if code < 0x1_0000 {
        3
    } else {
        4
    }
}

/// `n + k`, as far as the counters count.
pub fn count(n: usize, k: usize) -> (out: usize)
    ensures
        out == counted(n, k),
{
    if n >= COUNT_CAP || k >= COUNT_CAP - n {
        COUNT_CAP
    } else {
        n + k
    }
}

/// What the scan knows after one more character.
pub fn step(s: Scan, c: char) -> (out: Scan)
    ensures
        out == scan_step(s, c),
{
    if s.in_string {
        if s.escaped {
            Scan { escaped: false, bytes: count(s.bytes, utf8_len_of(c)), ..s }
        } else if c == '\\' {
            Scan { escaped: true, bytes: count(s.bytes, 1), ..s }
        } else if c == '"' {
            Scan { in_string: false, after_string: true, ..s }
        } else {
            Scan { bytes: count(s.bytes, utf8_len_of(c)), ..s }
        }
    } else if c == '"' {
        Scan {
            in_string: true,
            escaped: false,
            after_string: false,
            bytes: 0,
            in_exponent: false,
            sign_allowed: false,
            after_comma: false,
            ..s
        }
    } else {
        let space = c == ' ' || c == '\n' || c == '\t' || c == '\r';
        let depth = if c == '{' || c == '[' {
            count(s.depth, 1)
        } else if (c == '}' || c == ']') && s.depth > 0 {
            s.depth - 1
        } else {
            s.depth
        };
        let mark = c == 'e' || c == 'E';
        let sign = s.in_exponent && s.sign_allowed && (c == '+' || c == '-');
        let figure = s.in_exponent && digit(c);
        let digits = if figure {
            count(s.digits, 1)
        } else if mark {
            0
        } else {
            s.digits
        };
        Scan {
            in_string: false,
            escaped: false,
            depth,
            deepest: if s.deepest < depth {
                depth
            } else {
                s.deepest
            },
            after_string: s.after_string && space,
            bytes: s.bytes,
            longest_key: if s.after_string && c == ':' && s.longest_key < s.bytes {
                s.bytes
            } else {
                s.longest_key
            },
            in_exponent: mark || sign || figure,
            sign_allowed: mark,
            digits,
            most_digits: if s.most_digits < digits {
                digits
            } else {
                s.most_digits
            },
            after_comma: c == ',' || (s.after_comma && space),
            trailing_comma: s.trailing_comma || (s.after_comma && c == '}'),
        }
    }
}

/// Whether a line of `chars` characters, of which the scan knows `s`, is
/// within the limits.
pub fn check_fit(s: Scan, chars: usize) -> (b: bool)
    ensures
        b == fits(s, chars as nat),
{
    if s.deepest > MAX_DEPTH || s.longest_key > MAX_KEY_SPAN {
        return false;
    }
    assert(s.longest_key * s.deepest <= 0xffff * 256) by (nonlinear_arith)
        requires
            s.longest_key <= 0xffff,
            s.deepest <= 256,
    ;
    s.longest_key * s.deepest <= MAX_KEY_SPAN && s.most_digits <= MAX_EXPONENT_DIGITS && chars
        <= MAX_LINE_CHARS
}

/// Scans `line`.
pub fn scan_line(line: &Vec<char>) -> (out: Scan)
    ensures
        out == scan(line@),
{
    let mut s = Scan {
        in_string: false,
        escaped: false,
        depth: 0,
        deepest: 0,
        after_string: false,
        bytes: 0,
        longest_key: 0,
        in_exponent: false,
        sign_allowed: false,
        digits: 0,
        most_digits: 0,
        after_comma: false,
        trailing_comma: false,
    };
    let mut i: usize = 0;
    assert(line@.take(0) =~= Seq::<char>::empty());
    while i < line.len()
        invariant
            i <= line.len(),
            s == scan(line@.take(i as int)),
        decreases line.len() - i,
    {
        proof {
            assert(line@.take(i + 1).drop_last() =~= line@.take(i as int));
            assert(line@.take(i + 1).last() == line@[i as int]);
        }
        s = step(s, line[i]);
        i += 1;
    }
    assert(line@.take(line.len() as int) =~= line@);
    s
}

/// The index after the opening quote of the string that was opened last
/// among the first `n` characters of `line`, and 0 where none was.
pub open spec fn opened_at(line: Seq<char>, n: int) -> int
    decreases n,
{
    if n <= 0 {
        0
    } else if !scan(line.take(n - 1)).in_string && line[n - 1] == '"' {
        n
    } else {
        opened_at(line, n - 1)
    }
}

/// The index of the closing quote of the string that was closed last among
/// the first `n` characters of `line`, and 0 where none was.
pub open spec fn closed_at(line: Seq<char>, n: int) -> int
    decreases n,
{
    if n <= 0 {
        0
    } else if scan(line.take(n - 1)).in_string && !scan(line.take(n - 1)).escaped && line[n - 1]
        == '"' {
        n - 1
    } else {
        closed_at(line, n - 1)
    }
}

/// Whether the character at `i` is the colon after a key of the outermost
/// object: a colon outside the strings, with one brace open, that follows a
/// string with at most white space between them.
pub open spec fn ends_top_key(line: Seq<char>, i: int) -> bool {
    &&& 0 <= i < line.len()
    &&& line[i] == ':'
    &&& !scan(line.take(i)).in_string
    &&& scan(line.take(i)).after_string
    &&& scan(line.take(i)).depth == 1
}

/// The keys of the outermost object among the first `n` characters of
/// `line`, in the order in which the line writes them.
pub open spec fn top_keys_upto(line: Seq<char>, n: int) -> Seq<Seq<char>>
    decreases n,
{
    if n <= 0 {
        Seq::empty()
    } else if ends_top_key(line, n - 1) {
        top_keys_upto(line, n - 1).push(
            line.subrange(opened_at(line, n - 1), closed_at(line, n - 1)),
        )
    } else {
        top_keys_upto(line, n - 1)
    }
}

/// The keys of the outermost object of `line`, in the order in which the
/// line writes them, from left to right. A key is what stands between its
/// quotes, escapes as they are written; a key that the line writes twice is
/// there twice.
pub open spec fn top_keys(line: Seq<char>) -> Seq<Seq<char>> {
    top_keys_upto(line, line.len() as int)
}

/// The keys of the outermost object of `line`, in the order in which the
/// line writes them.
pub fn top_keys_of(line: &Vec<char>) -> (out: Vec<Vec<char>>)
    ensures
        texts(out@) == top_keys(line@),
{
    let mut s = Scan {
        in_string: false,
        escaped: false,
        depth: 0,
        deepest: 0,
        after_string: false,
        bytes: 0,
        longest_key: 0,
        in_exponent: false,
        sign_allowed: false,
        digits: 0,
        most_digits: 0,
        after_comma: false,
        trailing_comma: false,
    };
    let mut opened: usize = 0;
    let mut closed: usize = 0;
    let mut out: Vec<Vec<char>> = Vec::new();
    let mut i: usize = 0;
    assert(line@.take(0) =~= Seq::<char>::empty());
    assert(texts(out@) =~= top_keys_upto(line@, 0));
    while i < line.len()
        invariant
            i <= line.len(),
            s == scan(line@.take(i as int)),
            opened == opened_at(line@, i as int),
            closed == closed_at(line@, i as int),
            s.in_string ==> opened <= i,
            !s.in_string && s.after_string ==> opened <= closed < i,
            texts(out@) == top_keys_upto(line@, i as int),
        decreases line.len() - i,
    {
        let ghost before = out@;
        let c = line[i];
        proof {
            assert(line@.take(i + 1).drop_last() =~= line@.take(i as int));
            assert(line@.take(i + 1).last() == c);
        }
        if !s.in_string && c == ':' && s.after_string && s.depth == 1 {
            let key = slice(line, opened, closed);
            out.push(key);
            assert(texts(out@) =~= texts(before).push(key@));
        }
        if !s.in_string && c == '"' {
            opened = i + 1;
        }
        if s.in_string && !s.escaped && c == '"' {
            closed = i;
        }
        s = step(s, c);
        i += 1;
    }
    out
}

} // verus!
