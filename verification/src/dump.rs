//! The dump tokenizer: recovers column names and row values from the text of
//! a relational dump script without parsing its statements.
//!
//! The text first goes through five rewrites, each applied to the result of
//! the one before, after which every line holds at most one keyword marker,
//! one column definition or one value. The lines are then read one by one by
//! a lexer with two states, which collects column names while inside a table
//! definition and values while inside row data.

use crate::classify::{date_at, is_date_at, TypeTag};
use crate::table::{rows_of, text_grid, Table};
use crate::text::{
    ascii_word_char, chars_of, chars_of_all, contains_text, digit, find_text, is_ascii_word,
    is_digit, is_space, is_word, lines, lines_of, lower, lowercase, matches_at, occurs_at, push_all,
    push_str, replace, replace_all, same_text, slice, space_char, string_of, strings,
    strings_of_all, texts, word_char,
};
use crate::timestamp::{is_time_at, push_zone, time_at, wire};
use vstd::prelude::*;

verus! {

/// The text after the five rewrites, in their order: the opening of a value
/// list goes to the end of its line, its keyword one letter shorter; a line
/// break follows every comma; the end of a row that is followed by another
/// gives way to a line that opens the next row as a statement of its own;
/// every opening parenthesis goes; two line breaks in a row become one.
pub open spec fn normalized(text: Seq<char>) -> Seq<char> {
    let a = replace_all(text, "VALUES ("@, "VALUE (\n"@);
    let b = replace_all(a, ","@, ",\n"@);
    let c = replace_all(b, "),"@, "\nINSERT INTO `null` VALUES (\n"@);
    let d = replace_all(c, "("@, ""@);
    replace_all(d, "\n\n"@, "\n"@)
}

/// The lines of the rewritten text that are not empty.
pub open spec fn normalized_lines(text: Seq<char>) -> Seq<Seq<char>> {
    lines(normalized(text)).filter(|l: Seq<char>| l.len() > 0)
}

/// The classes of characters of which the lexer reads runs.
#[derive(Clone, Copy, Debug, PartialEq, Eq, Structural)]
pub enum CharClass {
    /// What an identifier is made of: a backtick or an ASCII word character.
    Identifier,
    /// What a numeric literal is made of: a decimal digit or a point.
    Numeric,
    /// What a quoted span is made of: a word character or ASCII white space.
    Span,
}

/// Whether `c` belongs to `class`.
pub open spec fn in_class(class: CharClass, c: char) -> bool {
    match class {
        CharClass::Identifier => c == '`' || is_ascii_word(c),
        CharClass::Numeric => is_digit(c) || c == '.',
        CharClass::Span => is_word(c) || is_space(c),
    }
}

/// The index at which the run of characters of `class` that starts at `i`
/// ends: the first index from `i` on whose character is not of `class`, or
/// the length of `s`.
pub open spec fn run_end(s: Seq<char>, i: int, class: CharClass) -> int
    decreases s.len() - i,
{
    if i < 0 || i >= s.len() || !in_class(class, s[i]) {
        i
    } else {
        run_end(s, i + 1, class)
    }
}

/// The numeric literal with which a line begins, if it begins with one.
pub open spec fn leading_number(line: Seq<char>) -> Seq<Seq<char>> {
    let e = run_end(line, 0, CharClass::Numeric);
    if 0 < e <= line.len() {
        seq![line.subrange(0, e)]
    } else {
        Seq::empty()
    }
}

/// Where the quoted span that starts at `i` ends, the closing quote
/// included; `i` itself where none starts there. A quoted span is a single
/// quote, one or more word or white-space characters, and a single quote.
pub open spec fn quoted_span_end(s: Seq<char>, i: int) -> int {
    let e = run_end(s, i + 1, CharClass::Span);
    if 0 <= i < s.len() && s[i] == '\'' && i + 1 < e < s.len() && s[e] == '\'' {
        e + 1
    } else {
        i
    }
}

/// The contents of the quoted spans of `s[i..]`, leftmost first and without
/// overlap.
pub open spec fn quoted_spans_from(s: Seq<char>, i: int) -> Seq<Seq<char>>
    decreases s.len() - i,
{
    if i < 0 || i >= s.len() {
        Seq::empty()
    } else {
        let e = quoted_span_end(s, i);
        if i < e <= s.len() {
            seq![s.subrange(i + 1, e - 1)] + quoted_spans_from(s, e)
        } else {
            quoted_spans_from(s, i + 1)
        }
    }
}

/// The keyword literal that stands in `s` at `i`: `TRUE`, `FALSE` or `NULL`;
/// empty where none does.
pub open spec fn literal_at(s: Seq<char>, i: int) -> Seq<char> {
    if matches_at(s, i, "TRUE"@) {
        "TRUE"@
    } else if matches_at(s, i, "FALSE"@) {
        "FALSE"@
    } else if matches_at(s, i, "NULL"@) {
        "NULL"@
    } else {
        Seq::empty()
    }
}

/// The keyword literals of `s[i..]` in lower case, leftmost first and without
/// overlap.
pub open spec fn literals_from(s: Seq<char>, i: int) -> Seq<Seq<char>>
    decreases s.len() - i,
{
    if i < 0 || i >= s.len() {
        Seq::empty()
    } else {
        let w = literal_at(s, i);
        if w.len() > 0 {
            seq![lower(w)] + literals_from(s, i + w.len())
        } else {
            literals_from(s, i + 1)
        }
    }
}

/// Whether a quoted date-time stands in `s` at `i`: a single quote, a date,
/// one white-space character, a time of day, and a single quote.
pub open spec fn is_quoted_datetime_at(s: Seq<char>, i: int) -> bool {
    &&& 0 <= i
    &&& i + 21 <= s.len()
    &&& s[i] == '\''
    &&& is_date_at(s, i + 1)
    &&& is_space(s[i + 11])
    &&& is_time_at(s, i + 12)
    &&& s[i + 20] == '\''
}

/// The wire encoding of the quoted date-time at `i`: `T` between date and
/// time of day, milliseconds `.000`, and the zone suffix.
pub open spec fn quoted_datetime(s: Seq<char>, i: int, tz: bool) -> Seq<char> {
    wire(s.subrange(i + 1, i + 11) + seq!['T'] + s.subrange(i + 12, i + 20) + ".000"@, tz)
}

/// The wire encodings of the quoted date-times of `s[i..]`, leftmost first
/// and without overlap.
pub open spec fn datetimes_from(s: Seq<char>, i: int, tz: bool) -> Seq<Seq<char>>
    decreases s.len() - i,
{
    if i < 0 || i >= s.len() {
        Seq::empty()
    } else if is_quoted_datetime_at(s, i) {
        seq![quoted_datetime(s, i, tz)] + datetimes_from(s, i + 21, tz)
    } else {
        datetimes_from(s, i + 1, tz)
    }
}

/// The values that one line of row data holds: its leading numeric literal,
/// then the contents of its quoted spans, then its keyword literals in lower
/// case, then its quoted date-times in wire encoding.
pub open spec fn line_values(line: Seq<char>, tz: bool) -> Seq<Seq<char>> {
    leading_number(line) + quoted_spans_from(line, 0) + literals_from(line, 0) + datetimes_from(
        line,
        0,
        tz,
    )
}

/// The noise keyword that stands in `s` at `i`; empty where none does.
pub open spec fn noise_at(s: Seq<char>, i: int) -> Seq<char> {
    if matches_at(s, i, "CREATE"@) {
        "CREATE"@
    } else if matches_at(s, i, "ENGINE"@) {
        "ENGINE"@
    } else if matches_at(s, i, "INSERT"@) {
        "INSERT"@
    } else if matches_at(s, i, "PRIMARY"@) {
        "PRIMARY"@
    } else if matches_at(s, i, "LOCK"@) {
        "LOCK"@
    } else {
        Seq::empty()
    }
}

/// `s[i..]` without the noise keywords in it, leftmost first and without
/// overlap.
pub open spec fn without_noise_from(s: Seq<char>, i: int) -> Seq<char>
    decreases s.len() - i,
{
    if i < 0 || i >= s.len() {
        Seq::empty()
    } else {
        let w = noise_at(s, i);
        if w.len() > 0 {
            without_noise_from(s, i + w.len())
        } else {
            seq![s[i]] + without_noise_from(s, i + 1)
        }
    }
}

/// The identifier with which a line begins, backticks included.
pub open spec fn leading_identifier(line: Seq<char>) -> Seq<char> {
    let e = run_end(line, 0, CharClass::Identifier);
    if 0 <= e <= line.len() {
        line.subrange(0, e)
    } else {
        Seq::empty()
    }
}

/// The column name that a line of a table definition gives: the identifier
/// with which it begins, without backticks and without noise keywords. Empty
/// where the line names no column.
pub open spec fn column_name(line: Seq<char>) -> Seq<char> {
    without_noise_from(leading_identifier(line).filter(|c: char| c != '`'), 0)
}

/// Whether a line starts or ends a table definition: whether `CREATE TABLE`
/// or `UNLOCK TABLES` occurs in it.
pub open spec fn is_table_marker(line: Seq<char>) -> bool {
    contains_text(line, "CREATE TABLE"@) || contains_text(line, "UNLOCK TABLES"@)
}

/// Whether a line opens the row data of a statement: whether `INSERT INTO`
/// occurs in it.
pub open spec fn is_insert_marker(line: Seq<char>) -> bool {
    contains_text(line, "INSERT INTO"@)
}

/// Whether `c` belongs to `class`.
pub fn class_has(class: CharClass, c: char) -> (b: bool)
    ensures
        b == in_class(class, c),
{
    match class {
        CharClass::Identifier => c == '`' || ascii_word_char(c),
        CharClass::Numeric => digit(c) || c == '.',
        CharClass::Span => word_char(c) || space_char(c),
    }
}

/// The index at which the run of characters of `class` from `i` on ends.
pub fn run_end_of(s: &Vec<char>, i: usize, class: CharClass) -> (e: usize)
    ensures
        e == run_end(s@, i as int, class),
        i <= e,
        i <= s.len() ==> e <= s.len(),
{
    if i >= s.len() {
        return i;
    }
    let mut j: usize = i;
    while j < s.len() && class_has(class, s[j])
        invariant
            i <= j <= s.len(),
            run_end(s@, i as int, class) == run_end(s@, j as int, class),
        decreases s.len() - j,
    {
        j += 1;
    }
    j
}

/// The normalised text of a dump script.
pub fn normalize(text: &Vec<char>) -> (out: Vec<char>)
    ensures
        out@ == normalized(text@),
{
    let a = replace(text, &chars_of("VALUES ("), &chars_of("VALUE (\n"));
    let b = replace(&a, &chars_of(","), &chars_of(",\n"));
    let c = replace(&b, &chars_of("),"), &chars_of("\nINSERT INTO `null` VALUES (\n"));
    let d = replace(&c, &chars_of("("), &chars_of(""));
    replace(&d, &chars_of("\n\n"), &chars_of("\n"))
}

/// The elements of `v` that are not empty.
pub fn non_empty(v: Vec<Vec<char>>) -> (out: Vec<Vec<char>>)
    ensures
        texts(out@) == texts(v@).filter(|l: Seq<char>| l.len() > 0),
{
    let ghost keep = |l: Seq<char>| l.len() > 0;
    let mut out: Vec<Vec<char>> = Vec::new();
    let mut i: usize = 0;
    assert(texts(v@).take(0).filter(keep) =~= Seq::<Seq<char>>::empty()) by {
        assert(texts(v@).take(0) =~= Seq::<Seq<char>>::empty());
    }
    while i < v.len()
        invariant
            i <= v.len(),
            keep == (|l: Seq<char>| l.len() > 0),
            texts(out@) == texts(v@).take(i as int).filter(keep),
        decreases v.len() - i,
    {
        let ghost before = out@;
        let ghost seen = texts(v@).take(i as int);
        proof {
            seen.lemma_filter_push(v@[i as int]@, keep);
            assert(texts(v@).take(i + 1) =~= seen.push(v@[i as int]@));
        }
        if v[i].len() > 0 {
            let line = slice(&v[i], 0, v[i].len());
            assert(line@ =~= v@[i as int]@);
            out.push(line);
            assert(texts(out@) =~= texts(before).push(line@));
        }
        i += 1;
    }
    assert(texts(v@).take(v.len() as int) =~= texts(v@));
    out
}

/// Rewrites the text of a dump script so that every line holds at most one
/// marker, one column definition or one value, and gives the lines that are
/// not empty.
pub fn preprocess_sql(text: &str) -> (out: Vec<String>)
    ensures
        strings(out@) == normalized_lines(text@),
{
    let t = chars_of(text);
    let n = normalize(&t);
    let all = lines_of(&n);
    let kept = non_empty(all);
    strings_of_all(&kept)
}

/// The numeric literal with which `line` begins, if it begins with one.
pub fn leading_number_of(line: &Vec<char>) -> (out: Vec<Vec<char>>)
    ensures
        texts(out@) == leading_number(line@),
{
    let mut out: Vec<Vec<char>> = Vec::new();
    let e = run_end_of(line, 0, CharClass::Numeric);
    if e > 0 {
        let token = slice(line, 0, e);
        out.push(token);
        assert(texts(out@) =~= seq![token@]);
    } else {
        assert(texts(out@) =~= Seq::<Seq<char>>::empty());
    }
    out
}

/// Appends the contents of the quoted spans of `line` to `out`.
pub fn push_quoted_spans(out: &mut Vec<Vec<char>>, line: &Vec<char>)
    ensures
        texts(final(out)@) == texts(old(out)@) + quoted_spans_from(line@, 0),
{
    let mut i: usize = 0;
    while i < line.len()
        invariant
            i <= line.len(),
            texts(out@) + quoted_spans_from(line@, i as int) == texts(old(out)@)
                + quoted_spans_from(line@, 0),
        decreases line.len() - i,
    {
        let ghost before = out@;
        let ghost rest = quoted_spans_from(line@, i as int);
        let mut matched = false;
        if line[i] == '\'' {
            let e = run_end_of(line, i + 1, CharClass::Span);
            if e > i + 1 && e < line.len() && line[e] == '\'' {
                let token = slice(line, i + 1, e);
                out.push(token);
                assert(texts(out@) =~= texts(before).push(token@));
                i = e + 1;
                matched = true;
                assert(texts(out@) + quoted_spans_from(line@, i as int) =~= texts(before) + rest);
            }
        }
        if !matched {
            i += 1;
        }
    }
    assert(texts(out@) + Seq::<Seq<char>>::empty() =~= texts(out@));
}

/// The three keyword literals as characters.
struct Literals {
    truth: Vec<char>,
    falsehood: Vec<char>,
    null: Vec<char>,
}

impl Literals {
    /// Whether the three hold `TRUE`, `FALSE` and `NULL`.
    spec fn wf(&self) -> bool {
        self.truth@ == "TRUE"@ && self.falsehood@ == "FALSE"@ && self.null@ == "NULL"@
    }

    /// The three literals.
    fn new() -> (out: Literals)
        ensures
            out.wf(),
    {
        Literals { truth: chars_of("TRUE"), falsehood: chars_of("FALSE"), null: chars_of("NULL") }
    }

    /// The length of the keyword literal that stands in `s` at `i`, and 0
    /// where none does.
    fn len_at(&self, s: &Vec<char>, i: usize) -> (n: usize)
        requires
            self.wf(),
        ensures
            n == literal_at(s@, i as int).len(),
            n > 0 ==> i + n <= s.len() && s@.subrange(i as int, i + n) == literal_at(s@, i as int),
    {
        if occurs_at(s, i, &self.truth) {
            self.truth.len()
        } else if occurs_at(s, i, &self.falsehood) {
            self.falsehood.len()
        } else if occurs_at(s, i, &self.null) {
            self.null.len()
        } else {
            0
        }
    }
}

/// Appends the keyword literals of `line`, in lower case, to `out`.
pub fn push_literals(out: &mut Vec<Vec<char>>, line: &Vec<char>)
    ensures
        texts(final(out)@) == texts(old(out)@) + literals_from(line@, 0),
{
    let literals = Literals::new();
    let mut i: usize = 0;
    while i < line.len()
        invariant
            i <= line.len(),
            literals.wf(),
            texts(out@) + literals_from(line@, i as int) == texts(old(out)@) + literals_from(
                line@,
                0,
            ),
        decreases line.len() - i,
    {
        let ghost before = out@;
        let ghost rest = literals_from(line@, i as int);
        let n = literals.len_at(line, i);
        if n > 0 {
            let word = slice(line, i, i + n);
            let token = lowercase(&word);
            out.push(token);
            assert(texts(out@) =~= texts(before).push(token@));
            i += n;
            assert(texts(out@) + literals_from(line@, i as int) =~= texts(before) + rest);
        } else {
            i += 1;
        }
    }
    assert(texts(out@) + Seq::<Seq<char>>::empty() =~= texts(out@));
}

/// Whether a quoted date-time stands in `s` at `i`.
pub fn quoted_datetime_at(s: &Vec<char>, i: usize) -> (b: bool)
    ensures
        b == is_quoted_datetime_at(s@, i as int),
{
    if i > s.len() || s.len() - i < 21 {
        return false;
    }
    s[i] == '\'' && date_at(s, i + 1) && space_char(s[i + 11]) && time_at(s, i + 12) && s[i + 20]
        == '\''
}

/// The wire encoding of the quoted date-time that stands in `s` at `i`.
fn quoted_datetime_of(s: &Vec<char>, i: usize, tz: bool) -> (out: Vec<char>)
    requires
        is_quoted_datetime_at(s@, i as int),
    ensures
        out@ == quoted_datetime(s@, i as int, tz),
{
    let len = s.len();
    assert(i + 21 <= len);
    let mut out = slice(s, i + 1, i + 11);
    out.push('T');
    let time = slice(s, i + 12, i + 20);
    push_all(&mut out, &time);
    push_str(&mut out, ".000");
    assert(out@ =~= s@.subrange(i + 1, i + 11) + seq!['T'] + s@.subrange(i + 12, i + 20) + ".000"@);
    push_zone(&mut out, tz);
    out
}

/// Appends the wire encodings of the quoted date-times of `line` to `out`.
pub fn push_datetimes(out: &mut Vec<Vec<char>>, line: &Vec<char>, tz: bool)
    ensures
        texts(final(out)@) == texts(old(out)@) + datetimes_from(line@, 0, tz),
{
    let mut i: usize = 0;
    while i < line.len()
        invariant
            i <= line.len(),
            texts(out@) + datetimes_from(line@, i as int, tz) == texts(old(out)@) + datetimes_from(
                line@,
                0,
                tz,
            ),
        decreases line.len() - i,
    {
        let ghost before = out@;
        let ghost rest = datetimes_from(line@, i as int, tz);
        if quoted_datetime_at(line, i) {
            let token = quoted_datetime_of(line, i, tz);
            out.push(token);
            assert(texts(out@) =~= texts(before).push(token@));
            i += 21;
            assert(texts(out@) + datetimes_from(line@, i as int, tz) =~= texts(before) + rest);
        } else {
            i += 1;
        }
    }
    assert(texts(out@) + Seq::<Seq<char>>::empty() =~= texts(out@));
}

/// Appends the values that one line of row data holds to `out`.
pub fn push_line_values(out: &mut Vec<Vec<char>>, line: &Vec<char>, tz: bool)
    ensures
        texts(final(out)@) == texts(old(out)@) + line_values(line@, tz),
{
    let ghost before = texts(out@);
    let n = leading_number_of(line);
    if n.len() > 0 {
        let token = slice(&n[0], 0, n[0].len());
        assert(token@ =~= n@[0]@);
        let ghost prior = out@;
        out.push(token);
        assert(texts(out@) =~= texts(prior).push(token@));
        assert(texts(n@) =~= seq![token@]);
    }
    assert(texts(out@) =~= before + leading_number(line@));
    push_quoted_spans(out, line);
    push_literals(out, line);
    push_datetimes(out, line, tz);
    assert(texts(out@) =~= before + line_values(line@, tz));
}

/// What a value of row data was read as.
#[derive(Clone, Copy, Debug, PartialEq, Eq, Structural)]
pub enum TokenKind {
    /// A numeric literal at the beginning of the line.
    Number,
    /// The contents of a quoted span.
    Text,
    /// The keyword literal `TRUE` or `FALSE`.
    Boolean,
    /// The keyword literal `NULL`.
    Null,
    /// A quoted date-time.
    Timestamp,
}

/// A value of row data with what it was read as.
#[derive(Debug, PartialEq, Eq)]
pub struct Token {
    pub kind: TokenKind,
    pub text: String,
}

/// What a keyword literal in lower case was read as.
pub open spec fn literal_kind(t: Seq<char>) -> TokenKind {
    if t == "null"@ {
        TokenKind::Null
    } else {
        TokenKind::Boolean
    }
}

/// What a value was read as, by the pattern that found it.
pub open spec fn kind_for(pattern: TokenKind, t: Seq<char>) -> TokenKind {
    if pattern == TokenKind::Boolean {
        literal_kind(t)
    } else {
        pattern
    }
}

/// The values `values`, all found by `pattern`, each with what it was read
/// as.
pub open spec fn tagged(values: Seq<Seq<char>>, pattern: TokenKind) -> Seq<
    (TokenKind, Seq<char>),
> {
    values.map_values(|t: Seq<char>| (kind_for(pattern, t), t))
}

/// The values that one line of row data holds, each with what it was read
/// as, in the order of `line_values`: by the four patterns in their order,
/// and for each pattern from left to right.
pub open spec fn line_tokens(line: Seq<char>, tz: bool) -> Seq<(TokenKind, Seq<char>)> {
    tagged(leading_number(line), TokenKind::Number) + tagged(
        quoted_spans_from(line, 0),
        TokenKind::Text,
    ) + tagged(literals_from(line, 0), TokenKind::Boolean) + tagged(
        datetimes_from(line, 0, tz),
        TokenKind::Timestamp,
    )
}

/// The model of a vector of tokens.
pub open spec fn tokens_view(v: Seq<Token>) -> Seq<(TokenKind, Seq<char>)> {
    v.map_values(|t: Token| (t.kind, t.text@))
}

/// Appends `values`, all found by `pattern`, to `out`, each with what it
/// was read as.
fn push_tagged(out: &mut Vec<Token>, values: &Vec<Vec<char>>, pattern: TokenKind)
    ensures
        tokens_view(final(out)@) == tokens_view(old(out)@) + tagged(texts(values@), pattern),
{
    let null = chars_of("null");
    let mut i: usize = 0;
    while i < values.len()
        invariant
            i <= values.len(),
            null@ == "null"@,
            tokens_view(out@) == tokens_view(old(out)@) + tagged(
                texts(values@).take(i as int),
                pattern,
            ),
        decreases values.len() - i,
    {
        let ghost before = out@;
        let kind = if pattern == TokenKind::Boolean {
            if same_text(&values[i], &null) {
                TokenKind::Null
            } else {
                TokenKind::Boolean
            }
        } else {
            pattern
        };
        let text = string_of(&values[i]);
        out.push(Token { kind, text });
        i += 1;
        proof {
            let all = texts(values@);
            assert(all[i - 1] == values@[i - 1]@);
            assert(tokens_view(out@) =~= tokens_view(before).push((kind, values@[i - 1]@)));
            assert(all.take(i as int) =~= all.take(i - 1).push(all[i - 1]));
            assert(tagged(all.take(i as int), pattern) =~= tagged(all.take(i - 1), pattern).push(
                (kind_for(pattern, all[i - 1]), all[i - 1]),
            ));
        }
    }
    assert(texts(values@).take(values.len() as int) =~= texts(values@));
}

/// Reads the values of one line of row data, each with what it was read as:
/// the numeric literal with which the line begins, then the contents of its
/// quoted spans, then its keyword literals in lower case, then its quoted
/// date-times in the wire encoding that `tz` selects.
pub fn read_line_tokens(line: &str, tz: bool) -> (out: Vec<Token>)
    ensures
        tokens_view(out@) == line_tokens(line@, tz),
{
    let l = chars_of(line);
    let mut out: Vec<Token> = Vec::new();
    let numbers = leading_number_of(&l);
    let mut spans: Vec<Vec<char>> = Vec::new();
    push_quoted_spans(&mut spans, &l);
    let mut literals: Vec<Vec<char>> = Vec::new();
    push_literals(&mut literals, &l);
    let mut stamps: Vec<Vec<char>> = Vec::new();
    push_datetimes(&mut stamps, &l, tz);
    proof {
        assert(texts(spans@) =~= quoted_spans_from(line@, 0));
        assert(texts(literals@) =~= literals_from(line@, 0));
        assert(texts(stamps@) =~= datetimes_from(line@, 0, tz));
    }
    push_tagged(&mut out, &numbers, TokenKind::Number);
    push_tagged(&mut out, &spans, TokenKind::Text);
    push_tagged(&mut out, &literals, TokenKind::Boolean);
    push_tagged(&mut out, &stamps, TokenKind::Timestamp);
    assert(tokens_view(out@) =~= line_tokens(line@, tz));
    out
}

/// The tokens of a line are its values, in the same order.
pub proof fn lemma_token_texts(line: Seq<char>, tz: bool)
    ensures
        line_tokens(line, tz).map_values(|p: (TokenKind, Seq<char>)| p.1) == line_values(line, tz),
{
    assert(line_tokens(line, tz).map_values(|p: (TokenKind, Seq<char>)| p.1) =~= line_values(
        line,
        tz,
    ));
}

/// The five noise keywords as characters.
struct Noise {
    create: Vec<char>,
    engine: Vec<char>,
    insert: Vec<char>,
    primary: Vec<char>,
    lock: Vec<char>,
}

impl Noise {
    /// Whether the five hold `CREATE`, `ENGINE`, `INSERT`, `PRIMARY` and
    /// `LOCK`.
    spec fn wf(&self) -> bool {
        &&& self.create@ == "CREATE"@
        &&& self.engine@ == "ENGINE"@
        &&& self.insert@ == "INSERT"@
        &&& self.primary@ == "PRIMARY"@
        &&& self.lock@ == "LOCK"@
    }

    /// The five keywords.
    fn new() -> (out: Noise)
        ensures
            out.wf(),
    {
        Noise {
            create: chars_of("CREATE"),
            engine: chars_of("ENGINE"),
            insert: chars_of("INSERT"),
            primary: chars_of("PRIMARY"),
            lock: chars_of("LOCK"),
        }
    }

    /// The length of the noise keyword that stands in `s` at `i`, and 0
    /// where none does.
    fn len_at(&self, s: &Vec<char>, i: usize) -> (n: usize)
        requires
            self.wf(),
        ensures
            n == noise_at(s@, i as int).len(),
            n > 0 ==> i + n <= s.len(),
    {
        if occurs_at(s, i, &self.create) {
            self.create.len()
        } else if occurs_at(s, i, &self.engine) {
            self.engine.len()
        } else if occurs_at(s, i, &self.insert) {
            self.insert.len()
        } else if occurs_at(s, i, &self.primary) {
            self.primary.len()
        } else if occurs_at(s, i, &self.lock) {
            self.lock.len()
        } else {
            0
        }
    }
}

/// `s` without the noise keywords in it.
pub fn without_noise(s: &Vec<char>) -> (out: Vec<char>)
    ensures
        out@ == without_noise_from(s@, 0),
{
    let noise = Noise::new();
    let mut out: Vec<char> = Vec::new();
    let mut i: usize = 0;
    while i < s.len()
        invariant
            i <= s.len(),
            noise.wf(),
            out@ + without_noise_from(s@, i as int) == without_noise_from(s@, 0),
        decreases s.len() - i,
    {
        let ghost before = out@;
        let ghost rest = without_noise_from(s@, i as int);
        let n = noise.len_at(s, i);
        if n > 0 {
            i += n;
        } else {
            out.push(s[i]);
            i += 1;
            assert(out@ + without_noise_from(s@, i as int) =~= before + rest);
        }
    }
    assert(out@ + Seq::<char>::empty() =~= out@);
    out
}

/// `s` without its backticks.
pub fn without_backticks(s: &Vec<char>) -> (out: Vec<char>)
    ensures
        out@ == s@.filter(|c: char| c != '`'),
{
    let ghost keep = |c: char| c != '`';
    let mut out: Vec<char> = Vec::new();
    let mut i: usize = 0;
    assert(s@.take(0).filter(keep) =~= Seq::<char>::empty()) by {
        assert(s@.take(0) =~= Seq::<char>::empty());
    }
    while i < s.len()
        invariant
            i <= s.len(),
            keep == (|c: char| c != '`'),
            out@ == s@.take(i as int).filter(keep),
        decreases s.len() - i,
    {
        proof {
            s@.take(i as int).lemma_filter_push(s@[i as int], keep);
            assert(s@.take(i + 1) =~= s@.take(i as int).push(s@[i as int]));
        }
        if s[i] != '`' {
            out.push(s[i]);
        }
        i += 1;
    }
    assert(s@.take(s.len() as int) =~= s@);
    out
}

/// The column name that a line of a table definition gives.
pub fn column_name_of(line: &Vec<char>) -> (out: Vec<char>)
    ensures
        out@ == column_name(line@),
{
    let e = run_end_of(line, 0, CharClass::Identifier);
    let ident = slice(line, 0, e);
    let bare = without_backticks(&ident);
    without_noise(&bare)
}

/// Whether a line starts or ends a table definition.
pub fn table_marker(line: &Vec<char>) -> (b: bool)
    ensures
        b == is_table_marker(line@),
{
    find_text(line, &chars_of("CREATE TABLE")) || find_text(line, &chars_of("UNLOCK TABLES"))
}

/// Whether a line opens the row data of a statement.
pub fn insert_marker(line: &Vec<char>) -> (b: bool)
    ensures
        b == is_insert_marker(line@),
{
    find_text(line, &chars_of("INSERT INTO"))
}

/// Whether the lexer, in the state given by `in_header`, reads a column name
/// from `line`: it is inside a table definition, or `line` starts one.
pub open spec fn reads_column(in_header: bool, line: Seq<char>) -> bool {
    in_header || is_table_marker(line)
}

/// Whether the lexer, in the state given by `in_header`, reads values from
/// `line`: it is outside a table definition, or `line` opens row data.
pub open spec fn reads_values(in_header: bool, line: Seq<char>) -> bool {
    !reads_column(in_header, line) || is_insert_marker(line)
}

/// Whether the lexer is inside a table definition after `lines`. It starts
/// outside; a table marker takes it inside, and an insert marker takes it
/// out again.
pub open spec fn in_header_after(lines: Seq<Seq<char>>) -> bool
    decreases lines.len(),
{
    if lines.len() == 0 {
        false
    } else {
        !reads_values(in_header_after(lines.drop_last()), lines.last())
    }
}

/// The column names that the lexer has collected after `lines`.
pub open spec fn columns_of(lines: Seq<Seq<char>>) -> Seq<Seq<char>>
    decreases lines.len(),
{
    if lines.len() == 0 {
        Seq::empty()
    } else {
        let before = lines.drop_last();
        let line = lines.last();
        if reads_column(in_header_after(before), line) && column_name(line).len() > 0 {
            columns_of(before).push(column_name(line))
        } else {
            columns_of(before)
        }
    }
}

/// The values that the lexer has collected after `lines`.
pub open spec fn values_of(lines: Seq<Seq<char>>, tz: bool) -> Seq<Seq<char>>
    decreases lines.len(),
{
    if lines.len() == 0 {
        Seq::empty()
    } else {
        let before = lines.drop_last();
        let line = lines.last();
        if reads_values(in_header_after(before), line) {
            values_of(before, tz) + line_values(line, tz)
        } else {
            values_of(before, tz)
        }
    }
}

/// `v` cut into pieces of `n` elements; the last piece holds what is left
/// and may be shorter. There are no pieces where `n` is 0.
pub open spec fn chunks<T>(v: Seq<T>, n: int) -> Seq<Seq<T>>
    decreases v.len(),
{
    if n <= 0 || v.len() == 0 {
        Seq::empty()
    } else {
        let m = if n < v.len() {
            n
        } else {
            v.len() as int
        };
        seq![v.take(m)] + chunks(v.skip(m), n)
    }
}

/// What the lexer has collected from the lines of a dump script.
#[derive(Debug)]
pub struct DumpTokens {
    /// The column names, in the order of the table definition.
    pub columns: Vec<String>,
    /// The values of all rows, in the order of the script.
    pub values: Vec<String>,
}

/// The two states of the lexer.
#[derive(Clone, Copy, Debug, PartialEq, Eq, Structural)]
pub enum LexState {
    /// Inside a table definition: lines give column names.
    Header,
    /// Inside row data: lines give values.
    Data,
}

/// The state in which the lexer leaves `line` when it met it in `state`.
pub open spec fn next_state(state: LexState, line: Seq<char>) -> LexState {
    if reads_values(state == LexState::Header, line) {
        LexState::Data
    } else {
        LexState::Header
    }
}

/// Reads one line in `state`: appends the column name that the line gives, if
/// it gives one, to `columns`, the values that it gives to `values`, and
/// returns the state for the next line.
pub fn lex_line(
    state: LexState,
    line: &Vec<char>,
    tz: bool,
    columns: &mut Vec<Vec<char>>,
    values: &mut Vec<Vec<char>>,
) -> (next: LexState)
    ensures
        next == next_state(state, line@),
        texts(final(columns)@) == if reads_column(state == LexState::Header, line@) && column_name(
            line@,
        ).len() > 0 {
            texts(old(columns)@).push(column_name(line@))
        } else {
            texts(old(columns)@)
        },
        texts(final(values)@) == if reads_values(state == LexState::Header, line@) {
            texts(old(values)@) + line_values(line@, tz)
        } else {
            texts(old(values)@)
        },
{
    let header = state == LexState::Header || table_marker(line);
    if header {
        let name = column_name_of(line);
        if name.len() > 0 {
            let ghost before = columns@;
            columns.push(name);
            assert(texts(columns@) =~= texts(before).push(column_name(line@)));
        }
    }
    if !header || insert_marker(line) {
        push_line_values(values, line, tz);
        LexState::Data
    } else {
        LexState::Header
    }
}

/// Reads the lines of a normalised dump script from the first to the last,
/// starting outside a table definition.
pub fn tokenize(lines: &Vec<String>, tz: bool) -> (tokens: DumpTokens)
    ensures
        strings(tokens.columns@) == columns_of(strings(lines@)),
        strings(tokens.values@) == values_of(strings(lines@), tz),
{
    let mut columns: Vec<Vec<char>> = Vec::new();
    let mut values: Vec<Vec<char>> = Vec::new();
    let mut state = LexState::Data;
    let mut i: usize = 0;
    let ghost all = strings(lines@);
    assert(texts(columns@) =~= columns_of(all.take(0)));
    assert(texts(values@) =~= values_of(all.take(0), tz));
    while i < lines.len()
        invariant
            i <= lines.len(),
            all == strings(lines@),
            (state == LexState::Header) == in_header_after(all.take(i as int)),
            texts(columns@) == columns_of(all.take(i as int)),
            texts(values@) == values_of(all.take(i as int), tz),
        decreases lines.len() - i,
    {
        let line = chars_of(lines[i].as_str());
        proof {
            assert(all.take(i + 1).drop_last() =~= all.take(i as int));
            assert(all.take(i + 1).last() == line@);
        }
        state = lex_line(state, &line, tz, &mut columns, &mut values);
        i += 1;
    }
    assert(all.take(lines.len() as int) =~= all);
    DumpTokens { columns: strings_of_all(&columns), values: strings_of_all(&values) }
}

/// Cuts `values` into rows of `n` fields. The last row holds what is left
/// and may be shorter; the cut is by count alone. There are no rows where
/// `n` is 0.
pub fn chunk_rows(values: &Vec<Vec<char>>, n: usize) -> (rows: Vec<Vec<Vec<char>>>)
    ensures
        text_grid(rows@) == chunks(texts(values@), n as int),
{
    let mut rows: Vec<Vec<Vec<char>>> = Vec::new();
    let ghost all = texts(values@);
    if n == 0 {
        assert(text_grid(rows@) =~= chunks(all, 0));
        return rows;
    }
    let mut i: usize = 0;
    assert(all.skip(0) =~= all);
    while i < values.len()
        invariant
            i <= values.len(),
            n > 0,
            all == texts(values@),
            text_grid(rows@) + chunks(all.skip(i as int), n as int) == chunks(all, n as int),
        decreases values.len() - i,
    {
        let ghost before = rows@;
        let ghost rest = all.skip(i as int);
        let left = values.len() - i;
        let m: usize = if n < left {
            n
        } else {
            left
        };
        let mut row: Vec<Vec<char>> = Vec::new();
        let mut k: usize = 0;
        while k < m
            invariant
                k <= m,
                i + m <= values.len(),
                all == texts(values@),
                texts(row@) == all.subrange(i as int, i + k),
            decreases m - k,
        {
            let ghost prior = row@;
            let field = slice(&values[i + k], 0, values[i + k].len());
            assert(field@ =~= values@[i + k]@);
            row.push(field);
            k += 1;
            assert(texts(row@) =~= texts(prior).push(field@));
            assert(all.subrange(i as int, i + k) =~= all.subrange(i as int, i + k - 1).push(
                all[i + k - 1],
            ));
        }
        assert(texts(row@) =~= rest.take(m as int));
        assert(rest.skip(m as int) =~= all.skip(i + m));
        rows.push(row);
        assert(text_grid(rows@) =~= text_grid(before).push(texts(row@)));
        i += m;
        assert(text_grid(rows@) + chunks(all.skip(i as int), n as int) =~= text_grid(before)
            + chunks(rest, n as int));
    }
    assert(text_grid(rows@) + Seq::<Seq<Seq<char>>>::empty() =~= text_grid(rows@));
    rows
}

/// Reads the text of a dump script: the column names of its table
/// definition, and its values cut into rows of as many fields as there are
/// columns.
pub fn read_dump(text: &str, tz: bool) -> (table: Table)
    ensures
        table.names() == columns_of(normalized_lines(text@)),
        table.fields() == chunks(
            values_of(normalized_lines(text@), tz),
            columns_of(normalized_lines(text@)).len() as int,
        ),
        table.types() == Seq::<Seq<Option<TypeTag>>>::empty(),
{
    let lines = preprocess_sql(text);
    let tokens = tokenize(&lines, tz);
    let values = chars_of_all(&tokens.values);
    let rows = chunk_rows(&values, tokens.columns.len());
    let table = Table { header: tokens.columns, rows: rows_of(&rows), tags: Vec::new() };
    assert(table.types() =~= Seq::<Seq<Option<TypeTag>>>::empty());
    table
}

/// The values that the lexer reads from `line` when it has read `before`.
pub open spec fn values_read(before: Seq<Seq<char>>, line: Seq<char>, tz: bool) -> Seq<Seq<char>> {
    if reads_values(in_header_after(before), line) {
        line_values(line, tz)
    } else {
        Seq::empty()
    }
}

/// The number of insert markers among `lines`: the number of statements of
/// row data in a normalised script, where every row has a statement of its
/// own.
pub open spec fn marker_count(lines: Seq<Seq<char>>) -> nat
    decreases lines.len(),
{
    if lines.len() == 0 {
        0
    } else if is_insert_marker(lines.last()) {
        marker_count(lines.drop_last()) + 1
    } else {
        marker_count(lines.drop_last())
    }
}

/// The values of `lines` statement by statement: one group for every insert
/// marker, holding what the lexer reads from the marker's line and from the
/// lines up to the next marker.
pub open spec fn statements(lines: Seq<Seq<char>>, tz: bool) -> Seq<Seq<Seq<char>>>
    decreases lines.len(),
{
    if lines.len() == 0 {
        Seq::empty()
    } else {
        let before = lines.drop_last();
        let groups = statements(before, tz);
        let got = values_read(before, lines.last(), tz);
        if is_insert_marker(lines.last()) {
            groups.push(got)
        } else if groups.len() > 0 {
            groups.drop_last().push(groups.last() + got)
        } else {
            groups
        }
    }
}

/// The values that the lexer reads before the first insert marker.
pub open spec fn stray_values(lines: Seq<Seq<char>>, tz: bool) -> Seq<Seq<char>>
    decreases lines.len(),
{
    if lines.len() == 0 {
        Seq::empty()
    } else if marker_count(lines) > 0 {
        stray_values(lines.drop_last(), tz)
    } else {
        stray_values(lines.drop_last(), tz) + values_read(lines.drop_last(), lines.last(), tz)
    }
}

/// Whether the lines of a normalised script are well formed: the table
/// definition names at least one column, no value stands before the first
/// statement, and every statement holds one value for every column.
pub open spec fn well_formed(lines: Seq<Seq<char>>, tz: bool) -> bool {
    &&& columns_of(lines).len() > 0
    &&& stray_values(lines, tz).len() == 0
    &&& forall|j: int|
        0 <= j < statements(lines, tz).len() ==> (#[trigger] statements(lines, tz)[j]).len()
            == columns_of(lines).len()
}

/// There are as many groups of values as there are insert markers.
pub proof fn lemma_statement_count(lines: Seq<Seq<char>>, tz: bool)
    ensures
        statements(lines, tz).len() == marker_count(lines),
    decreases lines.len(),
{
    if lines.len() > 0 {
        lemma_statement_count(lines.drop_last(), tz);
    }
}

/// The values that the lexer collects are the stray values followed by the
/// values of the statements, one statement after the other.
pub proof fn lemma_values_by_statement(lines: Seq<Seq<char>>, tz: bool)
    ensures
        values_of(lines, tz) == stray_values(lines, tz) + statements(lines, tz).flatten(),
    decreases lines.len(),
{
    if lines.len() == 0 {
        assert(values_of(lines, tz) =~= stray_values(lines, tz) + statements(lines, tz).flatten());
    } else {
        let before = lines.drop_last();
        let groups = statements(before, tz);
        let got = values_read(before, lines.last(), tz);
        let stray = stray_values(before, tz);
        lemma_values_by_statement(before, tz);
        lemma_statement_count(before, tz);
        lemma_statement_count(lines, tz);
        assert(values_of(lines, tz) =~= values_of(before, tz) + got);
        if is_insert_marker(lines.last()) {
            groups.lemma_flatten_push(got);
            assert(values_of(lines, tz) =~= stray + groups.push(got).flatten());
        } else if groups.len() > 0 {
            let head = groups.drop_last();
            head.lemma_flatten_push(groups.last());
            head.lemma_flatten_push(groups.last() + got);
            assert(groups =~= head.push(groups.last()));
            assert(values_of(lines, tz) =~= stray + head.push(groups.last() + got).flatten());
        } else {
            assert(groups.flatten() =~= Seq::<Seq<char>>::empty());
            assert(values_of(lines, tz) =~= (stray + got) + groups.flatten());
        }
    }
}

/// Groups that all hold `n` values, written one after the other and cut
/// into pieces of `n`, are the groups again.
pub proof fn lemma_chunks_of_flatten<T>(groups: Seq<Seq<T>>, n: int)
    requires
        n > 0,
        forall|j: int| 0 <= j < groups.len() ==> (#[trigger] groups[j]).len() == n,
    ensures
        chunks(groups.flatten(), n) == groups,
    decreases groups.len(),
{
    if groups.len() == 0 {
        assert(chunks(groups.flatten(), n) =~= groups);
    } else {
        let first = groups.first();
        let rest = groups.drop_first();
        let flat = groups.flatten();
        assert forall|j: int| 0 <= j < rest.len() implies (#[trigger] rest[j]).len() == n by {
            assert(rest[j] == groups[j + 1]);
        }
        lemma_chunks_of_flatten(rest, n);
        assert(flat == first + rest.flatten());
        assert(first.len() == n);
        assert(flat.take(n) =~= first);
        assert(flat.skip(n) =~= rest.flatten());
        assert(chunks(flat, n) =~= seq![first] + rest);
        assert(seq![first] + rest =~= groups);
    }
}

/// The rows of a well-formed script are its statements: cutting the values
/// by the number of columns gives exactly one row for every statement, with
/// that statement's values. So there are as many rows as insert markers.
pub proof fn lemma_rows_are_statements(lines: Seq<Seq<char>>, tz: bool)
    requires
        well_formed(lines, tz),
    ensures
        chunks(values_of(lines, tz), columns_of(lines).len() as int) == statements(lines, tz),
        chunks(values_of(lines, tz), columns_of(lines).len() as int).len() == marker_count(lines),
{
    lemma_values_by_statement(lines, tz);
    lemma_statement_count(lines, tz);
    lemma_chunks_of_flatten(statements(lines, tz), columns_of(lines).len() as int);
    assert(values_of(lines, tz) =~= statements(lines, tz).flatten());
}

/// Why the rows of a dump script cannot be told apart. The checks are made
/// in the order of the variants, and the first that fails is reported.
#[derive(Clone, Copy, Debug, PartialEq, Eq, Structural)]
pub enum DumpError {
    /// The script names no column.
    NoColumns,
    /// A value stands before the first statement.
    StrayValues,
    /// The statement with this index, counted from 0, is the first that
    /// does not hold one value for every column.
    Misaligned(usize),
}

/// Whether the statement with index `j` holds one value for every column.
pub open spec fn is_aligned(lines: Seq<Seq<char>>, tz: bool, j: int) -> bool {
    statements(lines, tz)[j].len() == columns_of(lines).len()
}

/// Whether `e` says why the rows of `lines` cannot be told apart: whether it
/// is the first of the checks that fails.
pub open spec fn is_dump_error(lines: Seq<Seq<char>>, tz: bool, e: DumpError) -> bool {
    match e {
        DumpError::NoColumns => columns_of(lines).len() == 0,
        DumpError::StrayValues => columns_of(lines).len() > 0 && stray_values(lines, tz).len() > 0,
        DumpError::Misaligned(j) => {
            &&& columns_of(lines).len() > 0
            &&& stray_values(lines, tz).len() == 0
            &&& j < statements(lines, tz).len()
            &&& !is_aligned(lines, tz, j as int)
            &&& forall|h: int| 0 <= h < j ==> is_aligned(lines, tz, h)
        },
    }
}

/// What the lexer has collected from the lines of a dump script, with the
/// number of values of each statement.
#[derive(Debug)]
pub struct Statements {
    /// The column names and the values.
    pub tokens: DumpTokens,
    /// For every statement, in the order of the script, the number of
    /// values that it holds.
    pub sizes: Vec<usize>,
    /// The number of values before the first statement.
    pub stray: usize,
}

/// Reads the lines of a normalised dump script as `tokenize` does, and
/// counts the values statement by statement.
pub fn tokenize_statements(lines: &Vec<String>, tz: bool) -> (out: Statements)
    ensures
        strings(out.tokens.columns@) == columns_of(strings(lines@)),
        strings(out.tokens.values@) == values_of(strings(lines@), tz),
        out.sizes@.len() == statements(strings(lines@), tz).len(),
        forall|j: int|
            0 <= j < out.sizes@.len() ==> out.sizes@[j] == (#[trigger] statements(
                strings(lines@),
                tz,
            )[j]).len(),
        out.stray == stray_values(strings(lines@), tz).len(),
{
    let mut columns: Vec<Vec<char>> = Vec::new();
    let mut values: Vec<Vec<char>> = Vec::new();
    let mut sizes: Vec<usize> = Vec::new();
    let mut stray: usize = 0;
    let mut state = LexState::Data;
    let mut i: usize = 0;
    let ghost all = strings(lines@);
    assert(texts(columns@) =~= columns_of(all.take(0)));
    assert(texts(values@) =~= values_of(all.take(0), tz));
    while i < lines.len()
        invariant
            i <= lines.len(),
            all == strings(lines@),
            (state == LexState::Header) == in_header_after(all.take(i as int)),
            texts(columns@) == columns_of(all.take(i as int)),
            texts(values@) == values_of(all.take(i as int), tz),
            sizes@.len() == statements(all.take(i as int), tz).len(),
            forall|j: int|
                0 <= j < sizes@.len() ==> sizes@[j] == (#[trigger] statements(
                    all.take(i as int),
                    tz,
                )[j]).len(),
            forall|j: int| 0 <= j < sizes@.len() ==> #[trigger] sizes@[j] <= values@.len(),
            stray == stray_values(all.take(i as int), tz).len(),
            stray <= values@.len(),
        decreases lines.len() - i,
    {
        let line = chars_of(lines[i].as_str());
        let ghost before = all.take(i as int);
        let ghost groups = statements(before, tz);
        let ghost got = values_read(before, line@, tz);
        proof {
            assert(all.take(i + 1).drop_last() =~= before);
            assert(all.take(i + 1).last() == line@);
            lemma_statement_count(before, tz);
            lemma_statement_count(all.take(i + 1), tz);
            assert(texts(values@).len() == values@.len());
        }
        let had = values.len();
        let marker = insert_marker(&line);
        state = lex_line(state, &line, tz, &mut columns, &mut values);
        assert(texts(values@).len() == values@.len());
        let count = values.len() - had;
        assert(count == got.len());
        if marker {
            sizes.push(count);
        } else if sizes.len() > 0 {
            let last = sizes.len() - 1;
            let size = sizes[last];
            sizes.set(last, size + count);
        } else {
            stray = stray + count;
        }
        i += 1;
    }
    assert(all.take(lines.len() as int) =~= all);
    Statements {
        tokens: DumpTokens { columns: strings_of_all(&columns), values: strings_of_all(&values) },
        sizes,
        stray,
    }
}

/// Reads the text of a dump script and checks that its rows can be told
/// apart: that it names a column, that no value stands before the first
/// statement, and that every statement holds one value for every column.
/// The rows are then the statements of the normalised script, one row for
/// every statement and every value in its place.
pub fn read_dump_checked(text: &str, tz: bool) -> (result: Result<Table, DumpError>)
    ensures
        match result {
            Ok(table) => {
                &&& well_formed(normalized_lines(text@), tz)
                &&& table.names() == columns_of(normalized_lines(text@))
                &&& table.fields() == statements(normalized_lines(text@), tz)
                &&& table.fields().len() == marker_count(normalized_lines(text@))
                &&& table.types() == Seq::<Seq<Option<TypeTag>>>::empty()
            },
            Err(e) => is_dump_error(normalized_lines(text@), tz, e),
        },
{
    let lines = preprocess_sql(text);
    let ghost ls = normalized_lines(text@);
    let read = tokenize_statements(&lines, tz);
    let n = read.tokens.columns.len();
    assert(strings(read.tokens.columns@).len() == read.tokens.columns@.len());
    if n == 0 {
        return Err(DumpError::NoColumns);
    }
    if read.stray > 0 {
        return Err(DumpError::StrayValues);
    }
    let mut j: usize = 0;
    while j < read.sizes.len()
        invariant
            j <= read.sizes.len(),
            ls == normalized_lines(text@),
            n == columns_of(ls).len(),
            n > 0,
            stray_values(ls, tz).len() == 0,
            read.sizes@.len() == statements(ls, tz).len(),
            forall|h: int|
                0 <= h < read.sizes@.len() ==> read.sizes@[h] == (#[trigger] statements(ls, tz)[h]).len(),
            forall|h: int| 0 <= h < j ==> is_aligned(ls, tz, h),
        decreases read.sizes.len() - j,
    {
        if read.sizes[j] != n {
            assert(!is_aligned(ls, tz, j as int));
            return Err(DumpError::Misaligned(j));
        }
        assert(is_aligned(ls, tz, j as int));
        j += 1;
    }
    proof {
        assert forall|h: int| 0 <= h < statements(ls, tz).len() implies (#[trigger] statements(
            ls,
            tz,
        )[h]).len() == columns_of(ls).len() by {
            assert(is_aligned(ls, tz, h));
        }
        lemma_rows_are_statements(ls, tz);
    }
    let values = chars_of_all(&read.tokens.values);
    let rows = chunk_rows(&values, n);
    let table = Table { header: read.tokens.columns, rows: rows_of(&rows), tags: Vec::new() };
    assert(table.types() =~= Seq::<Seq<Option<TypeTag>>>::empty());
    Ok(table)
}

/// What is wrong with the rows of a script is why its lines are not well
/// formed: where one of the checks fails, the lines are not well formed.
pub proof fn lemma_error_is_malformed(lines: Seq<Seq<char>>, tz: bool, e: DumpError)
    requires
        is_dump_error(lines, tz, e),
    ensures
        !well_formed(lines, tz),
{
    if let DumpError::Misaligned(j) = e {
        assert(!is_aligned(lines, tz, j as int));
    }
}

/// Reads the text of a dump script and says whether its rows can be told
/// apart. Where they can, the rows are the statements of the normalised
/// script and nothing is noted. Where they cannot, the first check that
/// fails is the error where `strict` is set; where it is not set, the values
/// are cut into rows by count alone, as `read_dump` cuts them, and the check
/// that fails is noted beside the table.
pub fn read_dump_under(text: &str, tz: bool, strict: bool) -> (result: Result<
    (Table, Option<DumpError>),
    DumpError,
>)
    ensures
        (result matches Ok(found) && found.1.is_none()) <==> well_formed(normalized_lines(text@), tz),
        result.is_err() <==> strict && !well_formed(normalized_lines(text@), tz),
        match result {
            Ok((table, None)) => {
                &&& table.names() == columns_of(normalized_lines(text@))
                &&& table.fields() == statements(normalized_lines(text@), tz)
                &&& table.fields().len() == marker_count(normalized_lines(text@))
                &&& table.types() == Seq::<Seq<Option<TypeTag>>>::empty()
            },
            Ok((table, Some(e))) => {
                &&& is_dump_error(normalized_lines(text@), tz, e)
                &&& table.names() == columns_of(normalized_lines(text@))
                &&& table.fields() == chunks(
                    values_of(normalized_lines(text@), tz),
                    columns_of(normalized_lines(text@)).len() as int,
                )
                &&& table.types() == Seq::<Seq<Option<TypeTag>>>::empty()
            },
            Err(e) => is_dump_error(normalized_lines(text@), tz, e),
        },
{
    match read_dump_checked(text, tz) {
        Ok(table) => Ok((table, None)),
        Err(e) => {
            proof {
                lemma_error_is_malformed(normalized_lines(text@), tz, e);
            }
            if strict {
                Err(e)
            } else {
                Ok((read_dump(text, tz), Some(e)))
            }
        },
    }
}

} // verus!
