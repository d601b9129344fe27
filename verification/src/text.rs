//! Character classes and sequence operations on which the rest of the crate
//! is built. Text is handled as a sequence of Unicode scalar values.
//!
//! A digit is one of the ten ASCII digits, white space is one of six ASCII
//! characters, and letter case is that of the ASCII letters: a digit, a
//! space or a capital of another script is none here. A word character is
//! what the word class `\w` of regular expressions holds: within ASCII a
//! letter, a digit or the underscore, and beyond ASCII what the `regex`
//! crate says, which is asked character by character.

use regex::Regex;
use vstd::prelude::*;

verus! {

/// `String::push` appends one character to the end of the string.
pub assume_specification[ String::push ](s: &mut String, c: char)
    ensures
        final(s)@ == old(s)@.push(c),
;

/// A decimal digit, `0` to `9`. The digits of other scripts are none.
pub open spec fn is_digit(c: char) -> bool {
    '0' <= c && c <= '9'
}

/// Whether the regular expression `pattern` matches somewhere in `text`, as
/// the `regex` crate has it, and `None` where the crate does not take
/// `pattern` for a regular expression. It is named here, not defined.
pub uninterp spec fn regex_match(pattern: Seq<char>, text: Seq<char>) -> Option<bool>;

/// Calls `regex::Regex::new` on the pattern and, where that gives a regular
/// expression, `Regex::is_match` on the text. The contract claims that the
/// result is a function of the pattern and the text alone, and nothing about
/// what it is.
#[verifier::external_body]
fn regex_matches(pattern: &str, text: &str) -> (out: Option<bool>)
    ensures
        out == regex_match(pattern@, text@),
{
    match Regex::new(pattern) {
        Ok(re) => Some(re.is_match(text)),
        Err(_) => None,
    }
}

/// Whether `c` belongs to the word class `\w` of regular expressions:
/// whether the pattern `^\w$` matches the text that holds `c` alone.
pub open spec fn is_in_word_class(c: char) -> bool {
    regex_match("^\\w$"@, seq![c]) == Some(true)
}

/// An ASCII word character: an ASCII letter, a decimal digit or the
/// underscore.
pub open spec fn is_ascii_word(c: char) -> bool {
    ('a' <= c && c <= 'z') || ('A' <= c && c <= 'Z') || is_digit(c) || c == '_'
}

/// A word character: an ASCII word character, or a character beyond ASCII
/// that belongs to the word class of regular expressions. Within ASCII the
/// word class is the ASCII word characters, so that this is the word class
/// throughout; it is written out for ASCII so that it can be reasoned about.
pub open spec fn is_word(c: char) -> bool {
    is_ascii_word(c) || (c > '\x7f' && is_in_word_class(c))
}

/// A white-space character: space, tab, line feed, vertical tab, form feed
/// or carriage return. White space beyond ASCII is none.
pub open spec fn is_space(c: char) -> bool {
    c == ' ' || c == '\t' || c == '\n' || c == '\x0b' || c == '\x0c' || c == '\r'
}

/// Whether `p` occurs in `s` at index `i`.
pub open spec fn matches_at(s: Seq<char>, i: int, p: Seq<char>) -> bool {
    0 <= i && i + p.len() <= s.len() && s.subrange(i, i + p.len()) == p
}

/// Whether `s` begins with `p`.
pub open spec fn has_prefix(s: Seq<char>, p: Seq<char>) -> bool {
    matches_at(s, 0, p)
}

/// Whether `s` ends with `p`.
pub open spec fn has_suffix(s: Seq<char>, p: Seq<char>) -> bool {
    matches_at(s, s.len() - p.len(), p)
}

/// Whether `p` occurs somewhere in `s`.
pub open spec fn contains_text(s: Seq<char>, p: Seq<char>) -> bool {
    exists|i: int| matches_at(s, i, p)
}

/// Whether some character of `s` is a word character, as `is_word` has it.
pub open spec fn has_word_char(s: Seq<char>) -> bool {
    exists|i: int| 0 <= i < s.len() && is_word(#[trigger] s[i])
}

/// What is left of `s[i..]` when every occurrence of the non-empty `pat`,
/// taken leftmost first and without overlap, is replaced by `rep`.
pub open spec fn replace_from(s: Seq<char>, i: int, pat: Seq<char>, rep: Seq<char>) -> Seq<char>
    decreases s.len() - i,
{
    if i < 0 || i >= s.len() {
        Seq::empty()
    } else if pat.len() > 0 && matches_at(s, i, pat) {
        rep + replace_from(s, i + pat.len(), pat, rep)
    } else {
        seq![s[i]] + replace_from(s, i + 1, pat, rep)
    }
}

/// `s` with every occurrence of `pat` replaced by `rep`; an empty `pat`
/// occurs nowhere.
pub open spec fn replace_all(s: Seq<char>, pat: Seq<char>, rep: Seq<char>) -> Seq<char> {
    replace_from(s, 0, pat, rep)
}

/// The pieces of `s[start..]` between occurrences of `sep`, where the scan
/// for the next occurrence has reached index `i`.
pub open spec fn split_from(s: Seq<char>, start: int, i: int, sep: Seq<char>) -> Seq<Seq<char>>
    decreases s.len() - i,
{
    if i < 0 || i >= s.len() {
        seq![s.subrange(start, s.len() as int)]
    } else if sep.len() > 0 && matches_at(s, i, sep) {
        seq![s.subrange(start, i)] + split_from(s, i + sep.len(), i + sep.len(), sep)
    } else {
        split_from(s, start, i + 1, sep)
    }
}

/// The pieces of `s` between occurrences of `sep`, taken leftmost first and
/// without overlap. There is always at least one piece; an empty `sep` occurs
/// nowhere, so that `s` is then the only piece.
pub open spec fn split(s: Seq<char>, sep: Seq<char>) -> Seq<Seq<char>> {
    split_from(s, 0, 0, sep)
}

/// The pieces `parts[k..]`, each followed by `end`, in one sequence.
pub open spec fn concat_from(parts: Seq<Seq<char>>, k: int, end: Seq<char>) -> Seq<char>
    decreases parts.len() - k,
{
    if k < 0 || k >= parts.len() {
        Seq::empty()
    } else {
        parts[k] + end + concat_from(parts, k + 1, end)
    }
}

/// Every piece followed by `end`, in one sequence.
pub open spec fn terminated(parts: Seq<Seq<char>>, end: Seq<char>) -> Seq<char> {
    concat_from(parts, 0, end)
}

/// The pieces `parts[k..]` with `sep` before each of them.
pub open spec fn join_rest(parts: Seq<Seq<char>>, k: int, sep: Seq<char>) -> Seq<char>
    decreases parts.len() - k,
{
    if k < 0 || k >= parts.len() {
        Seq::empty()
    } else {
        sep + parts[k] + join_rest(parts, k + 1, sep)
    }
}

/// The pieces with `sep` between each two neighbours.
pub open spec fn join(parts: Seq<Seq<char>>, sep: Seq<char>) -> Seq<char> {
    if parts.len() == 0 {
        Seq::empty()
    } else {
        parts[0] + join_rest(parts, 1, sep)
    }
}

/// `s` without one carriage return at its end, if it has one.
pub open spec fn strip_cr(s: Seq<char>) -> Seq<char> {
    if s.len() > 0 && s[s.len() - 1] == '\r' {
        s.subrange(0, s.len() - 1)
    } else {
        s
    }
}

/// The lines of `s`: its pieces between line feeds, each without a carriage
/// return at its end, and without the last piece where that is empty (so that
/// a final line feed ends the last line and starts no new one).
pub open spec fn lines(s: Seq<char>) -> Seq<Seq<char>> {
    let pieces = split(s, seq!['\n']);
    let kept = if pieces.len() > 0 && pieces[pieces.len() - 1].len() == 0 {
        pieces.subrange(0, pieces.len() - 1)
    } else {
        pieces
    };
    kept.map_values(|p: Seq<char>| strip_cr(p))
}

/// The views of the elements of `v`.
pub open spec fn texts(v: Seq<Vec<char>>) -> Seq<Seq<char>> {
    v.map_values(|x: Vec<char>| x@)
}

/// The views of the elements of `v`.
pub open spec fn strings(v: Seq<String>) -> Seq<Seq<char>> {
    v.map_values(|x: String| x@)
}

/// Whether `c` is a decimal digit.
pub fn digit(c: char) -> (b: bool)
    ensures
        b == is_digit(c),
{
    '0' <= c && c <= '9'
}

/// Whether `c` is an ASCII word character.
pub fn ascii_word_char(c: char) -> (b: bool)
    ensures
        b == is_ascii_word(c),
{
    ('a' <= c && c <= 'z') || ('A' <= c && c <= 'Z') || ('0' <= c && c <= '9') || c == '_'
}

/// Whether `c` belongs to the word class of regular expressions.
pub fn in_word_class(c: char) -> (b: bool)
    ensures
        b == is_in_word_class(c),
{
    let mut text = String::new();
    text.push(c);
    assert(text@ =~= seq![c]);
    match regex_matches("^\\w$", text.as_str()) {
        Some(b) => b,
        None => false,
    }
}

/// Whether `c` is a word character.
pub fn word_char(c: char) -> (b: bool)
    ensures
        b == is_word(c),
{
    ascii_word_char(c) || (c > '\x7f' && in_word_class(c))
}

/// Whether `c` is a white-space character.
pub fn space_char(c: char) -> (b: bool)
    ensures
        b == is_space(c),
{
    c == ' ' || c == '\t' || c == '\n' || c == '\x0b' || c == '\x0c' || c == '\r'
}

/// The characters of a string slice.
pub fn chars_of(s: &str) -> (v: Vec<char>)
    ensures
        v@ == s@,
{
    let mut v: Vec<char> = Vec::new();
    for c in it: s.chars()
        invariant
            v@ == it.seq().take(it.index() as int),
            it.seq() == s@,
    {
        v.push(c);
    }
    v
}

/// The string made of the characters of `v`.
pub fn string_of(v: &Vec<char>) -> (s: String)
    ensures
        s@ == v@,
{
    let mut s = String::new();
    let mut i: usize = 0;
    while i < v.len()
        invariant
            i <= v.len(),
            s@ == v@.take(i as int),
        decreases v.len() - i,
    {
        s.push(v[i]);
        i += 1;
    }
    s
}

/// Appends the characters of `src` to `out`.
pub fn push_all(out: &mut Vec<char>, src: &Vec<char>)
    ensures
        final(out)@ == old(out)@ + src@,
{
    let mut i: usize = 0;
    while i < src.len()
        invariant
            i <= src.len(),
            out@ == old(out)@ + src@.take(i as int),
        decreases src.len() - i,
    {
        out.push(src[i]);
        i += 1;
    }
}

/// Appends the characters of `lit` to `out`.
pub fn push_str(out: &mut Vec<char>, lit: &str)
    ensures
        final(out)@ == old(out)@ + lit@,
{
    let v = chars_of(lit);
    push_all(out, &v);
}

/// A copy of `s[from..to]`.
pub(crate) fn slice(s: &Vec<char>, from: usize, to: usize) -> (out: Vec<char>)
    requires
        from <= to <= s.len(),
    ensures
        out@ == s@.subrange(from as int, to as int),
{
    let mut out: Vec<char> = Vec::new();
    let mut i: usize = from;
    while i < to
        invariant
            from <= i <= to <= s.len(),
            out@ == s@.subrange(from as int, i as int),
        decreases to - i,
    {
        out.push(s[i]);
        i += 1;
    }
    out
}

/// Whether `p` occurs in `s` at index `i`.
pub fn occurs_at(s: &Vec<char>, i: usize, p: &Vec<char>) -> (b: bool)
    ensures
        b == matches_at(s@, i as int, p@),
{
    if i > s.len() || p.len() > s.len() - i {
        return false;
    }
    let mut k: usize = 0;
    while k < p.len()
        invariant
            k <= p.len(),
            i + p.len() <= s.len(),
            s@.subrange(i as int, i + k) == p@.take(k as int),
        decreases p.len() - k,
    {
        if s[i + k] != p[k] {
            assert(s@.subrange(i as int, i + p.len())[k as int] != p@[k as int]);
            return false;
        }
        assert(s@.subrange(i as int, i + k + 1) =~= s@.subrange(i as int, i + k).push(s@[i + k]));
        assert(p@.take(k + 1) =~= p@.take(k as int).push(p@[k as int]));
        k += 1;
    }
    assert(p@.take(p.len() as int) =~= p@);
    true
}

/// Whether `s` and `p` hold the same characters.
pub fn same_text(s: &Vec<char>, p: &Vec<char>) -> (b: bool)
    ensures
        b == (s@ == p@),
{
    if s.len() != p.len() {
        return false;
    }
    let b = occurs_at(s, 0, p);
    assert(s@.subrange(0, s.len() as int) =~= s@);
    b
}

/// Whether some character of `s` is a word character. The ASCII characters
/// are looked at first, so that the pattern is asked only where they do not
/// decide.
pub fn any_word_char(s: &Vec<char>) -> (b: bool)
    ensures
        b == has_word_char(s@),
{
    let mut i: usize = 0;
    while i < s.len()
        invariant
            i <= s.len(),
            forall|k: int| 0 <= k < i ==> !is_ascii_word(#[trigger] s@[k]),
        decreases s.len() - i,
    {
        if ascii_word_char(s[i]) {
            assert(is_word(s@[i as int]));
            return true;
        }
        i += 1;
    }
    let mut j: usize = 0;
    while j < s.len()
        invariant
            j <= s.len(),
            forall|k: int| 0 <= k < s.len() ==> !is_ascii_word(#[trigger] s@[k]),
            forall|k: int| 0 <= k < j ==> !is_word(#[trigger] s@[k]),
        decreases s.len() - j,
    {
        if s[j] > '\x7f' && in_word_class(s[j]) {
            assert(is_word(s@[j as int]));
            return true;
        }
        j += 1;
    }
    false
}

/// `s` with every occurrence of `pat` replaced by `rep`.
pub fn replace(s: &Vec<char>, pat: &Vec<char>, rep: &Vec<char>) -> (out: Vec<char>)
    ensures
        out@ == replace_all(s@, pat@, rep@),
{
    let mut out: Vec<char> = Vec::new();
    let mut i: usize = 0;
    while i < s.len()
        invariant
            i <= s.len(),
            out@ + replace_from(s@, i as int, pat@, rep@) == replace_all(s@, pat@, rep@),
        decreases s.len() - i,
    {
        let ghost before = out@;
        let ghost rest = replace_from(s@, i as int, pat@, rep@);
        if pat.len() > 0 && occurs_at(s, i, pat) {
            push_all(&mut out, rep);
            i += pat.len();
            assert((before + rep@) + replace_from(s@, i as int, pat@, rep@) =~= before + rest);
        } else {
            out.push(s[i]);
            i += 1;
            assert(before.push(s@[i - 1]) + replace_from(s@, i as int, pat@, rep@) =~= before
                + rest);
        }
    }
    assert(out@ + Seq::<char>::empty() =~= out@);
    out
}

/// The pieces of `s` between occurrences of `sep`.
pub fn split_text(s: &Vec<char>, sep: &Vec<char>) -> (out: Vec<Vec<char>>)
    ensures
        texts(out@) == split(s@, sep@),
        out@.len() >= 1,
{
    let mut out: Vec<Vec<char>> = Vec::new();
    let mut start: usize = 0;
    let mut i: usize = 0;
    while i < s.len()
        invariant
            start <= i <= s.len(),
            texts(out@) + split_from(s@, start as int, i as int, sep@) == split(s@, sep@),
        decreases s.len() - i,
    {
        let ghost before = out@;
        let ghost rest = split_from(s@, start as int, i as int, sep@);
        if sep.len() > 0 && occurs_at(s, i, sep) {
            let piece = slice(s, start, i);
            out.push(piece);
            i += sep.len();
            start = i;
            assert(texts(out@) =~= texts(before).push(piece@));
            assert(texts(out@) + split_from(s@, start as int, i as int, sep@) =~= texts(before)
                + rest);
        } else {
            i += 1;
        }
    }
    let ghost before = out@;
    let piece = slice(s, start, s.len());
    out.push(piece);
    assert(texts(out@) =~= texts(before).push(piece@));
    assert(texts(before).push(piece@) =~= texts(before) + seq![piece@]);
    out
}

/// Whether `c` is an upper-case ASCII letter.
pub open spec fn is_upper(c: char) -> bool {
    'A' <= c && c <= 'Z'
}

/// The lower-case form of an upper-case ASCII letter; any other character
/// unchanged.
pub open spec fn to_lower(c: char) -> char {
    if is_upper(c) {
        ((c as u8 + 32) as u8) as char
    } else {
        c
    }
}

/// `s` with each upper-case ASCII letter in lower case.
pub open spec fn lower(s: Seq<char>) -> Seq<char> {
    s.map_values(|c: char| to_lower(c))
}

/// The lower-case form of `c`.
pub fn lower_char(c: char) -> (l: char)
    ensures
        l == to_lower(c),
{
    if 'A' <= c && c <= 'Z' {
        ((c as u8) + 32) as char
    } else {
        c
    }
}

/// `s` with each upper-case ASCII letter in lower case.
pub fn lowercase(s: &Vec<char>) -> (out: Vec<char>)
    ensures
        out@ == lower(s@),
{
    let mut out: Vec<char> = Vec::new();
    let mut i: usize = 0;
    while i < s.len()
        invariant
            i <= s.len(),
            out@ == lower(s@.take(i as int)),
        decreases s.len() - i,
    {
        out.push(lower_char(s[i]));
        i += 1;
        assert(lower(s@.take(i as int)) =~= lower(s@.take(i - 1)).push(to_lower(s@[i - 1])));
    }
    assert(s@.take(s.len() as int) =~= s@);
    out
}

/// The lines of `s`.
pub fn lines_of(s: &Vec<char>) -> (out: Vec<Vec<char>>)
    ensures
        texts(out@) == lines(s@),
{
    let mut nl: Vec<char> = Vec::new();
    nl.push('\n');
    assert(nl@ =~= seq!['\n']);
    let pieces = split_text(s, &nl);
    let last = pieces.len() - 1;
    let n: usize = if pieces[last].len() == 0 {
        last
    } else {
        pieces.len()
    };
    assert(texts(pieces@)[last as int] == pieces@[last as int]@);
    let ghost kept = texts(pieces@).subrange(0, n as int);
    let mut out: Vec<Vec<char>> = Vec::new();
    let mut k: usize = 0;
    while k < n
        invariant
            k <= n <= pieces.len(),
            kept == texts(pieces@).subrange(0, n as int),
            texts(out@) == kept.take(k as int).map_values(|p: Seq<char>| strip_cr(p)),
        decreases n - k,
    {
        let ghost before = out@;
        let p = &pieces[k];
        let len = p.len();
        let line = if len > 0 && p[len - 1] == '\r' {
            slice(p, 0, len - 1)
        } else {
            slice(p, 0, len)
        };
        assert(p@.subrange(0, len as int) =~= p@);
        assert(line@ == strip_cr(p@));
        out.push(line);
        k += 1;
        assert(kept[k - 1] == p@);
        assert(texts(out@) =~= texts(before).push(line@));
        assert(kept.take(k as int).map_values(|p: Seq<char>| strip_cr(p)) =~= kept.take(
            k - 1,
        ).map_values(|p: Seq<char>| strip_cr(p)).push(strip_cr(kept[k - 1])));
    }
    assert(kept.take(n as int) =~= kept);
    out
}

/// Appends every piece of `parts`, each followed by `end`, to `out`.
pub fn push_terminated(out: &mut Vec<char>, parts: &Vec<Vec<char>>, end: &Vec<char>)
    ensures
        final(out)@ == old(out)@ + terminated(texts(parts@), end@),
{
    let mut k: usize = 0;
    while k < parts.len()
        invariant
            k <= parts.len(),
            out@ + concat_from(texts(parts@), k as int, end@) == old(out)@ + terminated(
                texts(parts@),
                end@,
            ),
        decreases parts.len() - k,
    {
        let ghost before = out@;
        let ghost rest = concat_from(texts(parts@), k as int, end@);
        push_all(out, &parts[k]);
        push_all(out, end);
        k += 1;
        assert(texts(parts@)[k - 1] == parts@[k - 1]@);
        assert(out@ + concat_from(texts(parts@), k as int, end@) =~= before + rest);
    }
    assert(out@ + Seq::<char>::empty() =~= out@);
}

/// The pieces of `parts` with `sep` between each two neighbours.
pub fn join_text(parts: &Vec<Vec<char>>, sep: &Vec<char>) -> (out: Vec<char>)
    ensures
        out@ == join(texts(parts@), sep@),
{
    let mut out: Vec<char> = Vec::new();
    if parts.len() == 0 {
        return out;
    }
    push_all(&mut out, &parts[0]);
    assert(texts(parts@)[0] == parts@[0]@);
    let mut k: usize = 1;
    while k < parts.len()
        invariant
            1 <= k <= parts.len(),
            out@ + join_rest(texts(parts@), k as int, sep@) == join(texts(parts@), sep@),
        decreases parts.len() - k,
    {
        let ghost before = out@;
        let ghost rest = join_rest(texts(parts@), k as int, sep@);
        push_all(&mut out, sep);
        push_all(&mut out, &parts[k]);
        k += 1;
        assert(texts(parts@)[k - 1] == parts@[k - 1]@);
        assert(out@ + join_rest(texts(parts@), k as int, sep@) =~= before + rest);
    }
    assert(out@ + Seq::<char>::empty() =~= out@);
    out
}

/// Whether `p` occurs somewhere in `s`.
pub fn find_text(s: &Vec<char>, p: &Vec<char>) -> (b: bool)
    ensures
        b == contains_text(s@, p@),
{
    let mut i: usize = 0;
    while i < s.len()
        invariant
            i <= s.len(),
            forall|k: int| 0 <= k < i ==> !matches_at(s@, k, p@),
        decreases s.len() - i,
    {
        if occurs_at(s, i, p) {
            return true;
        }
        i += 1;
    }
    occurs_at(s, i, p)
}

/// The characters of each string of `v`.
pub fn chars_of_all(v: &Vec<String>) -> (out: Vec<Vec<char>>)
    ensures
        texts(out@) == strings(v@),
{
    let mut out: Vec<Vec<char>> = Vec::new();
    let mut i: usize = 0;
    while i < v.len()
        invariant
            i <= v.len(),
            texts(out@) == strings(v@.take(i as int)),
        decreases v.len() - i,
    {
        let ghost before = out@;
        let c = chars_of(v[i].as_str());
        out.push(c);
        i += 1;
        assert(texts(out@) =~= texts(before).push(c@));
        assert(strings(v@.take(i as int)) =~= strings(v@.take(i - 1)).push(v@[i - 1]@));
    }
    assert(v@.take(v.len() as int) =~= v@);
    out
}

/// The strings made of the characters of each element of `v`.
pub fn strings_of_all(v: &Vec<Vec<char>>) -> (out: Vec<String>)
    ensures
        strings(out@) == texts(v@),
{
    let mut out: Vec<String> = Vec::new();
    let mut i: usize = 0;
    while i < v.len()
        invariant
            i <= v.len(),
            strings(out@) == texts(v@.take(i as int)),
        decreases v.len() - i,
    {
        let ghost before = out@;
        let c = string_of(&v[i]);
        out.push(c);
        i += 1;
        assert(strings(out@) =~= strings(before).push(c@));
        assert(texts(v@.take(i as int)) =~= texts(v@.take(i - 1)).push(v@[i - 1]@));
    }
    assert(v@.take(v.len() as int) =~= v@);
    out
}

/// Whether `c` is a lower-case ASCII letter.
pub open spec fn is_lower(c: char) -> bool {
    'a' <= c && c <= 'z'
}

/// The upper-case form of a lower-case ASCII letter; any other character
/// unchanged.
pub open spec fn to_upper(c: char) -> char {
    if is_lower(c) {
        ((c as u8 - 32) as u8) as char
    } else {
        c
    }
}

/// `s` with each lower-case ASCII letter in upper case.
pub open spec fn upper(s: Seq<char>) -> Seq<char> {
    s.map_values(|c: char| to_upper(c))
}

/// The upper-case form of `c`.
pub fn upper_char(c: char) -> (u: char)
    ensures
        u == to_upper(c),
{
    if 'a' <= c && c <= 'z' {
        ((c as u8) - 32) as char
    } else {
        c
    }
}

/// `s` with each lower-case ASCII letter in upper case.
pub fn uppercase(s: &Vec<char>) -> (out: Vec<char>)
    ensures
        out@ == upper(s@),
{
    let mut out: Vec<char> = Vec::new();
    let mut i: usize = 0;
    while i < s.len()
        invariant
            i <= s.len(),
            out@ == upper(s@.take(i as int)),
        decreases s.len() - i,
    {
        out.push(upper_char(s[i]));
        i += 1;
        assert(upper(s@.take(i as int)) =~= upper(s@.take(i - 1)).push(to_upper(s@[i - 1])));
    }
    assert(s@.take(s.len() as int) =~= s@);
    out
}

/// The entries of `v` that hold a value, in their order.
pub open spec fn present(v: Seq<Option<Seq<char>>>) -> Seq<Seq<char>>
    decreases v.len(),
{
    if v.len() == 0 {
        Seq::empty()
    } else {
        match v.last() {
            Some(x) => present(v.drop_last()).push(x),
            None => present(v.drop_last()),
        }
    }
}

/// Whether `c` does not occur in `s`.
pub open spec fn is_free_of(s: Seq<char>, c: char) -> bool {
    forall|i: int| 0 <= i < s.len() ==> #[trigger] s[i] != c
}

/// While the scan for `c` runs through a stretch of `s` in which `c` does
/// not occur, the pieces stay what they are.
proof fn lemma_split_skips(s: Seq<char>, start: int, i: int, end: int, c: char)
    requires
        0 <= start <= i <= end <= s.len(),
        is_free_of(s.subrange(start, end), c),
    ensures
        split_from(s, start, i, seq![c]) == split_from(s, start, end, seq![c]),
    decreases end - i,
{
    if i < end {
        assert(s.subrange(start, end)[i - start] == s[i]);
        assert(!matches_at(s, i, seq![c])) by {
            if matches_at(s, i, seq![c]) {
                assert(s.subrange(i, i + 1)[0] == s[i]);
            }
        }
        lemma_split_skips(s, start, i + 1, end, c);
    }
}

/// Cutting at `c` undoes joining with `c`, from the `k`-th piece on: where
/// `s[a..]` is the `k`-th piece and after it the further pieces, each with
/// `c` before it, and `c` occurs in none of the pieces, the pieces of
/// `s[a..]` are the pieces from the `k`-th on.
pub proof fn lemma_split_join_from(s: Seq<char>, a: int, parts: Seq<Seq<char>>, k: int, c: char)
    requires
        0 <= a <= s.len(),
        0 <= k < parts.len(),
        s.subrange(a, s.len() as int) == parts[k] + join_rest(parts, k + 1, seq![c]),
        forall|j: int| 0 <= j < parts.len() ==> is_free_of(#[trigger] parts[j], c),
    ensures
        split_from(s, a, a, seq![c]) == parts.skip(k),
    decreases parts.len() - k,
{
    let sep = seq![c];
    let tail = s.subrange(a, s.len() as int);
    let piece = parts[k];
    let end = a + piece.len();
    assert(tail.len() == piece.len() + join_rest(parts, k + 1, sep).len());
    assert(s.subrange(a, end) =~= piece) by {
        assert forall|j: int| 0 <= j < piece.len() implies s.subrange(a, end)[j] == piece[j] by {
            assert(tail[j] == piece[j]);
        }
    }
    lemma_split_skips(s, a, a, end, c);
    if k == parts.len() - 1 {
        assert(join_rest(parts, k + 1, sep) =~= Seq::<char>::empty());
        assert(end == s.len());
        assert(parts.skip(k) =~= seq![piece]);
    } else {
        let next = parts[k + 1];
        let rest = join_rest(parts, k + 2, sep);
        assert(join_rest(parts, k + 1, sep) == sep + next + rest);
        assert(tail[piece.len() as int] == c);
        assert(s[end] == c);
        assert(s.subrange(end, end + 1) =~= sep);
        assert(matches_at(s, end, sep));
        assert(s.subrange(end + 1, s.len() as int) =~= next + rest) by {
            assert forall|j: int| 0 <= j < s.len() - end - 1 implies s.subrange(
                end + 1,
                s.len() as int,
            )[j] == (next + rest)[j] by {
                assert(tail[piece.len() + 1 + j] == (sep + next + rest)[1 + j]);
            }
        }
        lemma_split_join_from(s, end + 1, parts, k + 1, c);
        assert(parts.skip(k) =~= seq![piece] + parts.skip(k + 1));
    }
}

/// Cutting at `c` undoes joining with `c`: pieces in which `c` does not
/// occur, joined with `c` between them and then cut at `c`, are the pieces
/// again. There must be a piece: no pieces join to the empty text, which cuts
/// into one empty piece.
pub proof fn lemma_split_join(parts: Seq<Seq<char>>, c: char)
    requires
        parts.len() > 0,
        forall|j: int| 0 <= j < parts.len() ==> is_free_of(#[trigger] parts[j], c),
    ensures
        split(join(parts, seq![c]), seq![c]) == parts,
{
    let s = join(parts, seq![c]);
    assert(s.subrange(0, s.len() as int) =~= s);
    lemma_split_join_from(s, 0, parts, 0, c);
    assert(parts.skip(0) =~= parts);
}

/// Pieces that are each followed by `end` are the pieces and an empty piece
/// after them, joined with `end` between them.
pub proof fn lemma_terminated_is_join(parts: Seq<Seq<char>>, end: Seq<char>)
    ensures
        terminated(parts, end) == join(parts.push(Seq::empty()), end),
{
    let more = parts.push(Seq::<char>::empty());
    lemma_concat_is_join_rest(parts, 0, end);
    if parts.len() == 0 {
        assert(join_rest(more, 1, end) =~= Seq::<char>::empty());
        assert(join(more, end) =~= Seq::<char>::empty());
    } else {
        assert(more[0] == parts[0]);
    }
}

/// The pieces from the `k`-th on, each followed by `end`, are the `k`-th
/// piece and then, each with `end` before it, the further pieces and an
/// empty piece.
proof fn lemma_concat_is_join_rest(parts: Seq<Seq<char>>, k: int, end: Seq<char>)
    requires
        0 <= k,
    ensures
        k < parts.len() ==> concat_from(parts, k, end) == parts[k] + join_rest(
            parts.push(Seq::empty()),
            k + 1,
            end,
        ),
        k >= parts.len() ==> concat_from(parts, k, end) == Seq::<char>::empty(),
    decreases parts.len() - k,
{
    let more = parts.push(Seq::<char>::empty());
    if k < parts.len() {
        lemma_concat_is_join_rest(parts, k + 1, end);
        if k + 1 < parts.len() {
            assert(more[k + 1] == parts[k + 1]);
            assert(join_rest(more, k + 1, end) == end + parts[k + 1] + join_rest(more, k + 2, end));
            assert(concat_from(parts, k, end) =~= parts[k] + join_rest(more, k + 1, end));
        } else {
            assert(more[k + 1] == Seq::<char>::empty());
            assert(join_rest(more, k + 2, end) =~= Seq::<char>::empty());
            assert(join_rest(more, k + 1, end) =~= end);
            assert(concat_from(parts, k, end) =~= parts[k] + join_rest(more, k + 1, end));
        }
    }
}

/// The lines of a text that was written line by line are the lines that
/// were written: where neither line feed nor carriage return occurs in the
/// lines, each followed by a line feed, they are the lines of the text.
pub proof fn lemma_lines_of_terminated(written: Seq<Seq<char>>)
    requires
        forall|j: int|
            0 <= j < written.len() ==> is_free_of(#[trigger] written[j], '\n') && is_free_of(
                written[j],
                '\r',
            ),
    ensures
        lines(terminated(written, seq!['\n'])) == written,
{
    let nl = seq!['\n'];
    let more = written.push(Seq::<char>::empty());
    lemma_terminated_is_join(written, nl);
    assert forall|j: int| 0 <= j < more.len() implies is_free_of(#[trigger] more[j], '\n') by {
        if j < written.len() {
            assert(more[j] == written[j]);
        }
    }
    lemma_split_join(more, '\n');
    let pieces = split(terminated(written, nl), nl);
    assert(pieces == more);
    assert(pieces[pieces.len() - 1].len() == 0);
    let kept = pieces.subrange(0, pieces.len() - 1);
    assert(kept =~= written);
    assert forall|j: int| 0 <= j < written.len() implies strip_cr(#[trigger] written[j])
        == written[j] by {
        if written[j].len() > 0 {
            assert(written[j][written[j].len() - 1] != '\r');
        }
    }
    assert(kept.map_values(|p: Seq<char>| strip_cr(p)) =~= written);
}

} // verus!
