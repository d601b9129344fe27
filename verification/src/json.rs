//! Line-delimited typed JSON documents: the writer and the reader.
//!
//! Every row is one object on a line of its own. In array mode the writer
//! makes the objects the elements of one array, which opens and closes on
//! lines of their own.
//!
//! The reader has each line parsed as JSON and takes the members of its
//! object one by one, in the order in which the line writes them, each as
//! the JSON text of its value. A value is a string, a number, a truth value,
//! or an object that wraps an identifier (`$oid`) or a timestamp (`$date`);
//! members with any other value are passed over. The kind of a value decides
//! the type of its field.

use crate::classify::{has_date_prefix, is_boolean, is_object_id, object_id_of, TypeTag};
use crate::document::{
    document_raw, document_tag, field_document, is_number, json_value, lemma_document_round_trip,
    parse_document, quote, quoted, Document,
};
use crate::files::Format;
use crate::prescan::{
    check_fit, has_trailing_comma, scan_line, top_keys, top_keys_of, within_limits,
};
use crate::render::{numeral_of, option_text};
use crate::table::{field_grid, field_tag, fields, identifier_of, Field, FieldText, Table};
use crate::text::{
    chars_of, chars_of_all, has_word_char, join, join_text, lines, lines_of, lower, present,
    push_all, push_str, push_terminated, same_text, slice, string_of, strings, strings_of_all,
    terminated, texts,
};
use crate::timestamp::{canonical, has_datetime, lemma_canonical_shape, lemma_decode_encode, wire};
use rustc_serialize::json::Json;
use vstd::prelude::*;

verus! {

/// The choices of a JSON writer.
#[derive(Clone, Copy, Debug)]
pub struct JsonStyle {
    /// Timestamps end in `Z` rather than in `+0000`.
    pub tz: bool,
    /// Identifiers and timestamps are typed documents rather than strings.
    pub native: bool,
    /// The rows are the elements of one array.
    pub array: bool,
    /// A blank field is written as the empty string rather than left out.
    pub keep_blank: bool,
    /// With typed documents, what is written in a column named `_id` is
    /// wrapped as an identifier, whatever its type.
    pub wrap_id: bool,
}

/// The style of a JSON writer for rows that were read from text of the
/// format `from`. The value of a column named `_id` is wrapped as an
/// identifier where the rows come from a dump script, which has no way of
/// its own to say that a value is an identifier; everything else is as the
/// caller asks.
pub open spec fn style_for(from: Format, tz: bool, native: bool, array: bool, keep_blank: bool) -> JsonStyle {
    JsonStyle { tz, native, array, keep_blank, wrap_id: from == Format::Sql }
}

impl JsonStyle {
    /// The style of a JSON writer for rows that were read from text of the
    /// format `from`.
    pub fn for_source(from: Format, tz: bool, native: bool, array: bool, keep_blank: bool) -> (out:
        JsonStyle)
        ensures
            out == style_for(from, tz, native, array, keep_blank),
    {
        JsonStyle { tz, native, array, keep_blank, wrap_id: from == Format::Sql }
    }
}

/// What is written for each field of `row`.
pub open spec fn written(row: Seq<FieldText>, style: JsonStyle) -> Seq<Option<Seq<char>>> {
    row.map_values(|f: FieldText| json_value(f, style.tz, style.native, style.keep_blank))
}

/// The values of a row: what is written for its fields, without the fields
/// that are left out.
pub open spec fn row_values(row: Seq<FieldText>, style: JsonStyle) -> Seq<Seq<char>> {
    present(written(row, style))
}

/// One member of an object.
pub open spec fn member(key: Seq<char>, value: Seq<char>) -> Seq<char> {
    quoted(key) + ":"@ + value
}

/// Whether the writer gives the field a place among the column names: it
/// writes a value for it, or the field stands for a value that is not there.
/// A field that is left out, as blank text is, has no place.
pub open spec fn has_place(f: FieldText, style: JsonStyle) -> bool {
    f.absent || json_value(f, style.tz, style.native, style.keep_blank).is_some()
}

/// The number of fields of `row` that have a place.
pub open spec fn places(row: Seq<FieldText>, style: JsonStyle) -> nat
    decreases row.len(),
{
    if row.len() == 0 {
        0
    } else if has_place(row.last(), style) {
        places(row.drop_last(), style) + 1
    } else {
        places(row.drop_last(), style)
    }
}

/// The column names under which the values of `row` are written, one for
/// every value as far as there are names. The fields that have a place take
/// the names in their order. A field that stands for a value that is not
/// there takes its name and writes nothing, so that the fields after it keep
/// their columns; a field that is left out takes no name, so that the values
/// after it go with the names before theirs.
pub open spec fn open_names(header: Seq<Seq<char>>, row: Seq<FieldText>, style: JsonStyle) -> Seq<
    Seq<char>,
>
    decreases row.len(),
{
    if row.len() == 0 {
        Seq::empty()
    } else {
        let before = open_names(header, row.drop_last(), style);
        let place = places(row.drop_last(), style);
        if !row.last().absent && has_place(row.last(), style) && place < header.len() {
            before.push(header[place as int])
        } else {
            before
        }
    }
}

/// The keys and values that the writer pairs in a row's object, where
/// `header` are the names under which the values are written. The values are
/// paired with the names by position: the first value goes with the first
/// name. A value for which no name is left has no pair.
pub open spec fn member_pairs(header: Seq<Seq<char>>, values: Seq<Seq<char>>) -> Seq<
    (Seq<char>, Seq<char>),
> {
    Seq::new(
        if header.len() < values.len() {
            header.len()
        } else {
            values.len()
        },
        |x: int| (header[x], values[x]),
    )
}

/// The members of a row's object.
pub open spec fn members(header: Seq<Seq<char>>, values: Seq<Seq<char>>) -> Seq<Seq<char>> {
    member_pairs(header, values).map_values(|p: (Seq<char>, Seq<char>)| member(p.0, p.1))
}

/// Whether the value that goes with the name `name` is wrapped as an
/// identifier: the style asks for typed documents and for the wrapping, and
/// the name is `_id`.
pub open spec fn wraps_id(name: Seq<char>, style: JsonStyle) -> bool {
    style.native && style.wrap_id && name == "_id"@
}

/// The values `values` as they are written under the names `header`: a value
/// that goes with the name `_id` is wrapped as an identifier, as it stands,
/// where the style asks for it; every other value is itself.
pub open spec fn with_ids(header: Seq<Seq<char>>, values: Seq<Seq<char>>, style: JsonStyle) -> Seq<
    Seq<char>,
> {
    Seq::new(
        values.len(),
        |x: int|
            if x < header.len() && wraps_id(header[x], style) {
                "{\"$oid\":"@ + values[x] + "}"@
            } else {
                values[x]
            },
    )
}

/// The members of the object of a row: its values under their names.
pub open spec fn row_members(header: Seq<Seq<char>>, row: Seq<FieldText>, style: JsonStyle) -> Seq<
    Seq<char>,
> {
    let names = open_names(header, row, style);
    members(names, with_ids(names, row_values(row, style), style))
}

/// The object of a row.
pub open spec fn object(header: Seq<Seq<char>>, row: Seq<FieldText>, style: JsonStyle) -> Seq<
    char,
> {
    "{"@ + join(row_members(header, row, style), ","@) + "}"@
}

/// The line of the `r`-th row: its object, and in array mode a comma after
/// it unless the row is the last.
pub open spec fn record_line(
    header: Seq<Seq<char>>,
    rows: Seq<Seq<FieldText>>,
    r: int,
    style: JsonStyle,
) -> Seq<char> {
    if style.array && r + 1 < rows.len() {
        object(header, rows[r], style) + ","@
    } else {
        object(header, rows[r], style)
    }
}

/// The lines of the rows.
pub open spec fn record_lines(
    header: Seq<Seq<char>>,
    rows: Seq<Seq<FieldText>>,
    style: JsonStyle,
) -> Seq<Seq<char>> {
    Seq::new(rows.len(), |r: int| record_line(header, rows, r, style))
}

/// The lines of the output: the lines of the rows, in array mode between a
/// line `[` and a line `]`.
pub open spec fn json_lines(
    header: Seq<Seq<char>>,
    rows: Seq<Seq<FieldText>>,
    style: JsonStyle,
) -> Seq<Seq<char>> {
    if style.array {
        seq!["["@] + record_lines(header, rows, style) + seq!["]"@]
    } else {
        record_lines(header, rows, style)
    }
}

/// The output: every line followed by a line feed.
pub open spec fn json_text(
    header: Seq<Seq<char>>,
    rows: Seq<Seq<FieldText>>,
    style: JsonStyle,
) -> Seq<char> {
    terminated(json_lines(header, rows, style), "\n"@)
}

/// What is written for the fields of `row`, without the fields for which
/// nothing is written, and the names under which it is written.
pub fn row_values_of(header: &Vec<Vec<char>>, row: &Vec<Field>, style: JsonStyle) -> (out: (
    Vec<Vec<char>>,
    Vec<Vec<char>>,
))
    ensures
        texts(out.0@) == open_names(texts(header@), fields(row@), style),
        texts(out.1@) == row_values(fields(row@), style),
{
    let ghost names = texts(header@);
    let ghost fs = fields(row@);
    let ghost all = written(fs, style);
    let mut keys: Vec<Vec<char>> = Vec::new();
    let mut values: Vec<Vec<char>> = Vec::new();
    let mut place: usize = 0;
    let mut k: usize = 0;
    assert(texts(values@) =~= present(all.take(0)));
    assert(texts(keys@) =~= open_names(names, fs.take(0), style));
    while k < row.len()
        invariant
            k <= row.len(),
            place <= k,
            names == texts(header@),
            fs == fields(row@),
            all == written(fs, style),
            place == places(fs.take(k as int), style),
            texts(keys@) == open_names(names, fs.take(k as int), style),
            texts(values@) == present(all.take(k as int)),
        decreases row.len() - k,
    {
        let ghost keys_before = keys@;
        let ghost values_before = values@;
        let value = match Document::of_field(&row[k], style.tz, style.native, style.keep_blank) {
            Some(d) => Some(d.chars()),
            None => None,
        };
        proof {
            assert(fs.take(k + 1).drop_last() =~= fs.take(k as int));
            assert(fs.take(k + 1).last() == row@[k as int]@);
            assert(all.take(k + 1).drop_last() =~= all.take(k as int));
            assert(all.take(k + 1).last() == option_text(value));
        }
        match value {
            Some(v) => {
                if place < header.len() {
                    let name = slice(&header[place], 0, header[place].len());
                    assert(name@ =~= names[place as int]);
                    keys.push(name);
                    assert(texts(keys@) =~= texts(keys_before).push(name@));
                }
                values.push(v);
                assert(texts(values@) =~= texts(values_before).push(v@));
                place += 1;
            },
            None => {
                if row[k].absent {
                    place += 1;
                }
            },
        }
        k += 1;
    }
    assert(all.take(row.len() as int) =~= all);
    assert(fs.take(row.len() as int) =~= fs);
    (keys, values)
}

/// The members of a row's object.
pub fn members_of(header: &Vec<Vec<char>>, values: &Vec<Vec<char>>) -> (out: Vec<Vec<char>>)
    ensures
        texts(out@) == members(texts(header@), texts(values@)),
{
    let n = if header.len() < values.len() {
        header.len()
    } else {
        values.len()
    };
    let mut out: Vec<Vec<char>> = Vec::new();
    let mut x: usize = 0;
    while x < n
        invariant
            x <= n,
            n <= header.len(),
            n <= values.len(),
            out@.len() == x,
            forall|j: int| 0 <= j < x ==> (#[trigger] out@[j])@ == member(header@[j]@, values@[j]@),
        decreases n - x,
    {
        let mut m = quote(&header[x]);
        push_str(&mut m, ":");
        push_all(&mut m, &values[x]);
        out.push(m);
        x += 1;
    }
    assert(texts(out@) =~= members(texts(header@), texts(values@)));
    out
}

/// The values `values` as they are written under the names `header`.
pub fn with_ids_of(header: &Vec<Vec<char>>, values: &Vec<Vec<char>>, style: JsonStyle) -> (out: Vec<
    Vec<char>,
>)
    ensures
        texts(out@) == with_ids(texts(header@), texts(values@), style),
{
    let id = chars_of("_id");
    let mut out: Vec<Vec<char>> = Vec::new();
    let mut x: usize = 0;
    while x < values.len()
        invariant
            x <= values.len(),
            id@ == "_id"@,
            out@.len() == x,
            forall|j: int|
                0 <= j < x ==> (#[trigger] out@[j])@ == with_ids(
                    texts(header@),
                    texts(values@),
                    style,
                )[j],
        decreases values.len() - x,
    {
        let wrap = style.native && style.wrap_id && x < header.len() && same_text(&header[x], &id);
        let v = if wrap {
            let mut v = chars_of("{\"$oid\":");
            push_all(&mut v, &values[x]);
            push_str(&mut v, "}");
            v
        } else {
            slice(&values[x], 0, values[x].len())
        };
        proof {
            assert(texts(values@)[x as int] == values@[x as int]@);
            assert(values@[x as int]@.subrange(0, values@[x as int]@.len() as int) =~= values@[x as int]@);
            if x < header.len() {
                assert(texts(header@)[x as int] == header@[x as int]@);
            }
        }
        out.push(v);
        x += 1;
    }
    assert(texts(out@) =~= with_ids(texts(header@), texts(values@), style));
    out
}

/// The object of a row.
pub fn object_of(header: &Vec<Vec<char>>, row: &Vec<Field>, style: JsonStyle) -> (out: Vec<char>)
    ensures
        out@ == object(texts(header@), fields(row@), style),
{
    let (names, plain) = row_values_of(header, row, style);
    let values = with_ids_of(&names, &plain, style);
    let parts = members_of(&names, &values);
    let inner = join_text(&parts, &chars_of(","));
    let mut out = chars_of("{");
    push_all(&mut out, &inner);
    push_str(&mut out, "}");
    out
}

/// The lines of the rows.
pub fn record_lines_of(header: &Vec<Vec<char>>, rows: &Vec<Vec<Field>>, style: JsonStyle) -> (out:
    Vec<Vec<char>>)
    ensures
        texts(out@) == record_lines(texts(header@), field_grid(rows@), style),
{
    let mut out: Vec<Vec<char>> = Vec::new();
    let mut r: usize = 0;
    while r < rows.len()
        invariant
            r <= rows.len(),
            out@.len() == r,
            forall|j: int|
                0 <= j < r ==> (#[trigger] out@[j])@ == record_line(
                    texts(header@),
                    field_grid(rows@),
                    j,
                    style,
                ),
        decreases rows.len() - r,
    {
        let mut line = object_of(header, &rows[r], style);
        if style.array && r + 1 < rows.len() {
            push_str(&mut line, ",");
        }
        assert(field_grid(rows@)[r as int] == fields(rows@[r as int]@));
        out.push(line);
        r += 1;
    }
    assert(texts(out@) =~= record_lines(texts(header@), field_grid(rows@), style));
    out
}

/// Writes rows as typed JSON documents, one object on every line, each line
/// ended by a line feed.
pub fn write_json(header: &Vec<String>, rows: &Vec<Vec<Field>>, style: JsonStyle) -> (out: String)
    ensures
        out@ == json_text(strings(header@), field_grid(rows@), style),
{
    let names = chars_of_all(header);
    let body = record_lines_of(&names, rows, style);
    let mut lines: Vec<Vec<char>> = Vec::new();
    if style.array {
        lines.push(chars_of("["));
        let mut i: usize = 0;
        while i < body.len()
            invariant
                i <= body.len(),
                texts(lines@) == seq!["["@] + texts(body@).take(i as int),
            decreases body.len() - i,
        {
            let ghost before = lines@;
            let line = slice(&body[i], 0, body[i].len());
            assert(line@ =~= body@[i as int]@);
            lines.push(line);
            i += 1;
            assert(texts(lines@) =~= texts(before).push(line@));
            assert(texts(body@).take(i as int) =~= texts(body@).take(i - 1).push(line@));
        }
        assert(texts(body@).take(body.len() as int) =~= texts(body@));
        let ghost before = lines@;
        lines.push(chars_of("]"));
        assert(texts(lines@) =~= texts(before).push("]"@));
        assert(texts(lines@) =~= seq!["["@] + texts(body@) + seq!["]"@]);
    } else {
        lines = body;
    }
    let mut out: Vec<char> = Vec::new();
    push_terminated(&mut out, &lines, &chars_of("\n"));
    string_of(&out)
}

/// What the parser makes of `line`: `None` where `line` is not JSON; no
/// members where it holds a JSON value that is no object; and for an object
/// its members, each as its key and the JSON text of its value, written
/// without white space, in the order of the keys. This is what the parser
/// gives: it is named here, not defined.
pub uninterp spec fn json_members(line: Seq<char>) -> Option<Option<Seq<(Seq<char>, Seq<char>)>>>;

/// The model of a vector of pairs of strings.
pub open spec fn pairs(v: Seq<(String, String)>) -> Seq<(Seq<char>, Seq<char>)> {
    v.map_values(|p: (String, String)| (p.0@, p.1@))
}

/// The model of what the parser makes of a line.
pub open spec fn parsed_view(v: Option<Option<Vec<(String, String)>>>) -> Option<
    Option<Seq<(Seq<char>, Seq<char>)>>,
> {
    match v {
        Some(Some(x)) => Some(Some(pairs(x@))),
        Some(None) => Some(None),
        None => None,
    }
}

/// Calls `rustc_serialize::json::Json::from_str` on the line and, where the
/// result is an object, writes each member's value with `Display`, which for
/// `Json` is the compact encoding. The members come in the order of the
/// object's map, which is the order of their keys, not the order in which
/// the line writes them. The contract claims that the result is a function
/// of the line alone, and nothing about what it is. It leaves out the lines
/// on which the parser is not safe: those beyond the limits of the scan, and
/// those with a comma before a closing brace.
#[verifier::external_body]
fn parse_members(line: &str) -> (out: Option<Option<Vec<(String, String)>>>)
    requires
        within_limits(line@),
        !has_trailing_comma(line@),
    ensures
        parsed_view(out) == json_members(line@),
{
    match Json::from_str(line) {
        Ok(Json::Object(map)) => {
            Some(Some(map.iter().map(|(k, v)| (k.clone(), v.to_string())).collect()))
        },
        Ok(_) => Some(None),
        Err(_) => None,
    }
}

/// The first index from `i` on at which `ms` has a member with the key
/// `key`, and the length of `ms` where it has none.
pub open spec fn key_index(ms: Seq<(Seq<char>, Seq<char>)>, key: Seq<char>, i: int) -> int
    decreases ms.len() - i,
{
    if i < 0 || i >= ms.len() {
        ms.len() as int
    } else if ms[i].0 == key {
        i
    } else {
        key_index(ms, key, i + 1)
    }
}

/// The members that `keys` name, in the order of `keys`: for every key, where
/// it stands in `keys` for the first time, the first member with that key, if
/// there is one.
pub open spec fn picked(ms: Seq<(Seq<char>, Seq<char>)>, keys: Seq<Seq<char>>) -> Seq<
    (Seq<char>, Seq<char>),
>
    decreases keys.len(),
{
    if keys.len() == 0 {
        Seq::empty()
    } else {
        let before = picked(ms, keys.drop_last());
        let at = key_index(ms, keys.last(), 0);
        if !keys.drop_last().contains(keys.last()) && 0 <= at < ms.len() {
            before.push(ms[at])
        } else {
            before
        }
    }
}

/// The members `ms` in the order of `keys`: first the members that `keys`
/// name, in the order of `keys`; then the members that `keys` do not name, in
/// the order in which they stand in `ms`.
pub open spec fn in_order_of(ms: Seq<(Seq<char>, Seq<char>)>, keys: Seq<Seq<char>>) -> Seq<
    (Seq<char>, Seq<char>),
> {
    picked(ms, keys) + ms.filter(|m: (Seq<char>, Seq<char>)| !keys.contains(m.0))
}

/// The members of the object that `line` holds, in the order in which the
/// line writes them, from left to right: what the parser gives, in the order
/// of the keys of the line's text. There are none where the line holds
/// another JSON value.
///
/// A key is matched as the line writes it. The parser gives a key with its
/// escapes resolved, so that a key with an escape in it is not matched: its
/// member comes after the others. Of a key that the line writes twice the
/// parser gives one member, which stands where the key is written first.
pub open spec fn line_members(line: Seq<char>) -> Seq<(Seq<char>, Seq<char>)> {
    match json_members(line) {
        Some(Some(ms)) => in_order_of(ms, top_keys(line)),
        _ => Seq::empty(),
    }
}

/// One field that the reader has read: its key, its raw text and its type.
pub type Read = (Seq<char>, Seq<char>, TypeTag);

/// What the member with the key `key` and the JSON text `v` gives, and
/// `None` where the member is passed over: the key, the raw field of the
/// member's document, and the type that the document has.
pub open spec fn member_read(key: Seq<char>, v: Seq<char>, tz: bool, native: bool) -> Option<Read> {
    match parse_document(v) {
        Some(d) => Some((key, document_raw(d, tz, native), document_tag(d, native))),
        None => None,
    }
}

/// The keys, raw fields and types that the members `ms` give, without the
/// members that are passed over.
pub open spec fn decoded(ms: Seq<(Seq<char>, Seq<char>)>, tz: bool, native: bool) -> Seq<Read>
    decreases ms.len(),
{
    if ms.len() == 0 {
        Seq::empty()
    } else {
        match member_read(ms.last().0, ms.last().1, tz, native) {
            Some(r) => decoded(ms.drop_last(), tz, native).push(r),
            None => decoded(ms.drop_last(), tz, native),
        }
    }
}

/// The names `names`, and after them those of `keys` that are new, each
/// once, in their order.
pub open spec fn with_names(names: Seq<Seq<char>>, keys: Seq<Seq<char>>) -> Seq<Seq<char>>
    decreases keys.len(),
{
    if keys.len() == 0 {
        names
    } else {
        let before = with_names(names, keys.drop_last());
        if before.contains(keys.last()) {
            before
        } else {
            before.push(keys.last())
        }
    }
}

/// The keys of what was read.
pub open spec fn keys_of(rs: Seq<Read>) -> Seq<Seq<char>> {
    rs.map_values(|r: Read| r.0)
}

/// The raw fields of what was read.
pub open spec fn raws_of(rs: Seq<Read>) -> Seq<Seq<char>> {
    rs.map_values(|r: Read| r.1)
}

/// The types of what was read.
pub open spec fn tags_of(rs: Seq<Read>) -> Seq<TypeTag> {
    rs.map_values(|r: Read| r.2)
}

/// The model of a vector of fields that were read.
pub open spec fn reads(v: Seq<(String, String, TypeTag)>) -> Seq<Read> {
    v.map_values(|r: (String, String, TypeTag)| (r.0@, r.1@, r.2))
}

/// Whether `line` is JSON: no comma stands before a closing brace, and the
/// parser takes it. This is asked only of a line within the limits. A line
/// that holds a JSON value that is no object is JSON, and has no members.
pub open spec fn is_json(line: Seq<char>) -> bool {
    !has_trailing_comma(line) && json_members(line).is_some()
}

/// Whether the reader can take `line`: it is within the limits and it is
/// JSON.
pub open spec fn line_ok(line: Seq<char>) -> bool {
    within_limits(line) && is_json(line)
}

/// The keys, raw fields and types of one line.
pub open spec fn line_pairs(line: Seq<char>, tz: bool, native: bool) -> Seq<Read> {
    decoded(line_members(line), tz, native)
}

/// The column names of `lines`: the keys in the order in which they are
/// first seen, line by line from top to bottom and within a line from left
/// to right, as the line writes them.
pub open spec fn json_header(lines: Seq<Seq<char>>, tz: bool, native: bool) -> Seq<Seq<char>>
    decreases lines.len(),
{
    if lines.len() == 0 {
        Seq::empty()
    } else {
        with_names(
            json_header(lines.drop_last(), tz, native),
            keys_of(line_pairs(lines.last(), tz, native)),
        )
    }
}

/// The first index from `i` on at which `rs` has a field with the key `key`,
/// and the length of `rs` where it has none.
pub open spec fn read_index(rs: Seq<Read>, key: Seq<char>, i: int) -> int
    decreases rs.len() - i,
{
    if i < 0 || i >= rs.len() {
        rs.len() as int
    } else if rs[i].0 == key {
        i
    } else {
        read_index(rs, key, i + 1)
    }
}

/// The raw fields of one line under the column names `names`: for every
/// name the raw field that the line has under that key, and the empty text
/// where it has none.
pub open spec fn aligned_raws(rs: Seq<Read>, names: Seq<Seq<char>>) -> Seq<Seq<char>> {
    Seq::new(
        names.len(),
        |c: int|
            if read_index(rs, names[c], 0) < rs.len() {
                rs[read_index(rs, names[c], 0)].1
            } else {
                Seq::empty()
            },
    )
}

/// The types of the fields of one line under the column names `names`: for
/// every name the type of the field that the line has under that key, and
/// `None` where it has none.
pub open spec fn aligned_tags(rs: Seq<Read>, names: Seq<Seq<char>>) -> Seq<Option<TypeTag>> {
    Seq::new(
        names.len(),
        |c: int|
            if read_index(rs, names[c], 0) < rs.len() {
                Some(rs[read_index(rs, names[c], 0)].2)
            } else {
                None
            },
    )
}

/// The rows of `lines`: every line gives one row, which holds one field for
/// every column name of `lines`, in their order: the raw field that the line
/// has under that key, and the empty text where it has none.
pub open spec fn json_rows(lines: Seq<Seq<char>>, tz: bool, native: bool) -> Seq<Seq<Seq<char>>> {
    Seq::new(
        lines.len(),
        |i: int| aligned_raws(line_pairs(lines[i], tz, native), json_header(lines, tz, native)),
    )
}

/// The types of the fields of `lines`, row by row and column by column: the
/// type of the document that the line has under the column's key, and `None`
/// where it has none.
pub open spec fn json_tags(lines: Seq<Seq<char>>, tz: bool, native: bool) -> Seq<
    Seq<Option<TypeTag>>,
> {
    Seq::new(
        lines.len(),
        |i: int| aligned_tags(line_pairs(lines[i], tz, native), json_header(lines, tz, native)),
    )
}

/// Why a text could not be read as typed JSON documents.
#[derive(Clone, Copy, Debug, PartialEq, Eq, Structural)]
pub enum ReadError {
    /// The line with this index, counted from 0, is beyond the limits of the
    /// reader: it nests too deep, or has too long a key for its depth, too
    /// long an exponent, or too many characters.
    Limit(usize),
    /// The line with this index, counted from 0, is within the limits and
    /// is not JSON.
    Syntax(usize),
}

impl ReadError {
    /// The index of the line that could not be read.
    pub open spec fn line(self) -> int {
        match self {
            ReadError::Limit(i) => i as int,
            ReadError::Syntax(i) => i as int,
        }
    }
}

/// The first index at which `members` has a member with the key `key`, and
/// the length of `members` where it has none.
pub fn find_key(members: &Vec<(String, String)>, key: &String) -> (at: usize)
    ensures
        at == key_index(pairs(members@), key@, 0),
        at <= members.len(),
{
    let ghost ms = pairs(members@);
    let mut i: usize = 0;
    while i < members.len()
        invariant
            i <= members.len(),
            ms == pairs(members@),
            key_index(ms, key@, 0) == key_index(ms, key@, i as int),
        decreases members.len() - i,
    {
        assert(ms[i as int].0 == members@[i as int].0@);
        if members[i].0 == *key {
            return i;
        }
        i += 1;
    }
    i
}

/// Whether `keys[k]` stands among the keys before it.
fn seen_before(keys: &Vec<String>, k: usize) -> (b: bool)
    requires
        k < keys.len(),
    ensures
        b == strings(keys@).take(k as int).contains(keys@[k as int]@),
{
    let ghost before = strings(keys@).take(k as int);
    let mut i: usize = 0;
    while i < k
        invariant
            i <= k < keys.len(),
            before == strings(keys@).take(k as int),
            forall|j: int| 0 <= j < i ==> before[j] != keys@[k as int]@,
        decreases k - i,
    {
        assert(before[i as int] == keys@[i as int]@);
        if keys[i] == keys[k] {
            return true;
        }
        i += 1;
    }
    false
}

/// A copy of the member `m`.
pub fn copy_member(m: &(String, String)) -> (out: (String, String))
    ensures
        out.0@ == m.0@,
        out.1@ == m.1@,
{
    (m.0.clone(), m.1.clone())
}

/// Brings `members` into the order of `keys`: first the members that `keys`
/// name, in the order of `keys`, then the others in the order in which they
/// stand.
pub fn order_members(members: &Vec<(String, String)>, keys: &Vec<String>) -> (out: Vec<
    (String, String),
>)
    ensures
        pairs(out@) == in_order_of(pairs(members@), strings(keys@)),
{
    let ghost ms = pairs(members@);
    let ghost ks = strings(keys@);
    let mut out: Vec<(String, String)> = Vec::new();
    let mut k: usize = 0;
    assert(pairs(out@) =~= picked(ms, ks.take(0)));
    while k < keys.len()
        invariant
            k <= keys.len(),
            ms == pairs(members@),
            ks == strings(keys@),
            pairs(out@) == picked(ms, ks.take(k as int)),
        decreases keys.len() - k,
    {
        let ghost before = out@;
        proof {
            assert(ks.take(k + 1).drop_last() =~= ks.take(k as int));
            assert(ks.take(k + 1).last() == keys@[k as int]@);
        }
        if !seen_before(keys, k) {
            let at = find_key(members, &keys[k]);
            if at < members.len() {
                let m = copy_member(&members[at]);
                out.push(m);
                assert(ms[at as int] == (members@[at as int].0@, members@[at as int].1@));
                assert(pairs(out@) =~= pairs(before).push(ms[at as int]));
            }
        }
        k += 1;
    }
    assert(ks.take(keys.len() as int) =~= ks);
    let ghost first = pairs(out@);
    let ghost unnamed = |m: (Seq<char>, Seq<char>)| !ks.contains(m.0);
    let mut i: usize = 0;
    assert(ms.take(0).filter(unnamed) =~= Seq::<(Seq<char>, Seq<char>)>::empty()) by {
        assert(ms.take(0) =~= Seq::<(Seq<char>, Seq<char>)>::empty());
    }
    assert(pairs(out@) =~= first + ms.take(0).filter(unnamed));
    while i < members.len()
        invariant
            i <= members.len(),
            ms == pairs(members@),
            ks == strings(keys@),
            unnamed == (|m: (Seq<char>, Seq<char>)| !ks.contains(m.0)),
            first == picked(ms, ks),
            pairs(out@) == first + ms.take(i as int).filter(unnamed),
        decreases members.len() - i,
    {
        let ghost before = out@;
        proof {
            assert(ms[i as int] == (members@[i as int].0@, members@[i as int].1@));
            assert(ms.take(i + 1) =~= ms.take(i as int).push(ms[i as int]));
            ms.take(i as int).lemma_filter_push(ms[i as int], unnamed);
        }
        if !has_name(keys, &members[i].0) {
            let m = copy_member(&members[i]);
            out.push(m);
            assert(pairs(out@) =~= pairs(before).push(ms[i as int]));
        }
        i += 1;
    }
    assert(ms.take(members.len() as int) =~= ms);
    out
}

/// Brings the members that the parser gives for `line` into the order in
/// which the line writes them.
pub fn members_as_written(line: &str, members: &Vec<(String, String)>) -> (out: Vec<
    (String, String),
>)
    ensures
        pairs(out@) == in_order_of(pairs(members@), top_keys(line@)),
{
    let keys = strings_of_all(&top_keys_of(&chars_of(line)));
    order_members(members, &keys)
}

/// The keys, raw fields and types that the members of one line give. A
/// member whose value is neither a string, a number, a truth value nor a
/// wrapper document is passed over. The type of a field is that of its
/// document, not that of its raw text.
pub fn decode_members(members: &Vec<(String, String)>, tz: bool, native: bool) -> (out: Vec<
    (String, String, TypeTag),
>)
    ensures
        reads(out@) == decoded(pairs(members@), tz, native),
{
    let ghost all = pairs(members@);
    let mut out: Vec<(String, String, TypeTag)> = Vec::new();
    let mut k: usize = 0;
    assert(reads(out@) =~= decoded(all.take(0), tz, native));
    while k < members.len()
        invariant
            k <= members.len(),
            all == pairs(members@),
            reads(out@) == decoded(all.take(k as int), tz, native),
        decreases members.len() - k,
    {
        let ghost before = out@;
        proof {
            assert(all.take(k + 1).drop_last() =~= all.take(k as int));
            assert(all.take(k + 1).last() == (members@[k as int].0@, members@[k as int].1@));
        }
        match Document::parse(members[k].1.as_str()) {
            Some(d) => {
                let key = members[k].0.clone();
                let raw = d.raw(tz, native);
                let tag = d.tag(native);
                out.push((key, raw, tag));
                assert(reads(out@) =~= reads(before).push((members@[k as int].0@, raw@, tag)));
            },
            None => {},
        }
        k += 1;
    }
    assert(all.take(members.len() as int) =~= all);
    out
}

/// Whether one of `names` is `name`.
pub fn has_name(names: &Vec<String>, name: &String) -> (b: bool)
    ensures
        b == strings(names@).contains(name@),
{
    let mut i: usize = 0;
    while i < names.len()
        invariant
            i <= names.len(),
            forall|j: int| 0 <= j < i ==> strings(names@)[j] != name@,
        decreases names.len() - i,
    {
        if names[i] == *name {
            assert(strings(names@)[i as int] == name@);
            return true;
        }
        i += 1;
    }
    false
}

/// Appends those keys of `fields` that are not yet among `names`.
pub fn add_names(names: &mut Vec<String>, fields: &Vec<(String, String, TypeTag)>)
    ensures
        strings(final(names)@) == with_names(strings(old(names)@), keys_of(reads(fields@))),
{
    let ghost keys = keys_of(reads(fields@));
    let mut k: usize = 0;
    assert(keys.take(0) =~= Seq::<Seq<char>>::empty());
    while k < fields.len()
        invariant
            k <= fields.len(),
            keys == keys_of(reads(fields@)),
            strings(names@) == with_names(strings(old(names)@), keys.take(k as int)),
        decreases fields.len() - k,
    {
        let ghost before = names@;
        proof {
            assert(keys.take(k + 1).drop_last() =~= keys.take(k as int));
            assert(keys.take(k + 1).last() == fields@[k as int].0@);
        }
        if !has_name(names, &fields[k].0) {
            let key = fields[k].0.clone();
            names.push(key);
            assert(strings(names@) =~= strings(before).push(fields@[k as int].0@));
        }
        k += 1;
    }
    assert(keys.take(fields.len() as int) =~= keys);
}

/// The first index at which `fields` has a field with the key `key`, and the
/// length of `fields` where it has none.
pub fn find_read(fields: &Vec<(String, String, TypeTag)>, key: &String) -> (at: usize)
    ensures
        at == read_index(reads(fields@), key@, 0),
        at <= fields.len(),
{
    let ghost rs = reads(fields@);
    let mut i: usize = 0;
    while i < fields.len()
        invariant
            i <= fields.len(),
            rs == reads(fields@),
            read_index(rs, key@, 0) == read_index(rs, key@, i as int),
        decreases fields.len() - i,
    {
        assert(rs[i as int].0 == fields@[i as int].0@);
        if fields[i].0 == *key {
            return i;
        }
        i += 1;
    }
    i
}

/// Puts the fields of one line under the column names `names`: for every
/// name the raw field and the type that the line has under that key, and the
/// empty text and no type where it has none.
pub fn align(fields: &Vec<(String, String, TypeTag)>, names: &Vec<String>) -> (out: (
    Vec<String>,
    Vec<Option<TypeTag>>,
))
    ensures
        strings(out.0@) == aligned_raws(reads(fields@), strings(names@)),
        out.1@ == aligned_tags(reads(fields@), strings(names@)),
{
    let ghost rs = reads(fields@);
    let ghost ns = strings(names@);
    let mut row: Vec<String> = Vec::new();
    let mut kinds: Vec<Option<TypeTag>> = Vec::new();
    let mut c: usize = 0;
    while c < names.len()
        invariant
            c <= names.len(),
            rs == reads(fields@),
            ns == strings(names@),
            row@.len() == c,
            kinds@.len() == c,
            forall|j: int| 0 <= j < c ==> (#[trigger] row@[j])@ == aligned_raws(rs, ns)[j],
            forall|j: int| 0 <= j < c ==> #[trigger] kinds@[j] == aligned_tags(rs, ns)[j],
        decreases names.len() - c,
    {
        assert(ns[c as int] == names@[c as int]@);
        let at = find_read(fields, &names[c]);
        if at < fields.len() {
            assert(rs[at as int] == (fields@[at as int].0@, fields@[at as int].1@, fields@[at as int].2));
            row.push(fields[at].1.clone());
            kinds.push(Some(fields[at].2));
        } else {
            row.push(String::new());
            kinds.push(None);
        }
        c += 1;
    }
    assert(strings(row@) =~= aligned_raws(rs, ns));
    assert(kinds@ =~= aligned_tags(rs, ns));
    (row, kinds)
}

/// Reads typed JSON documents, one on every line of `text`. The column names
/// are the keys in the order in which they are first seen, from the first
/// line to the last and within a line from left to right, as the line writes
/// them. Every line gives one row, and every row holds one field for every
/// column: the raw field that the line has under the column's key, and where
/// it has none, an empty field that `tags` marks with `None`. So every value
/// stands under its own key's column, whatever keys the other lines have and
/// in whatever order a line writes them. A line that holds a JSON value that
/// is no object has no value in any column. Reading stops at the first line
/// that is beyond the limits of the reader or is not JSON, and the error
/// names that line.
///
/// The kind that a value has in JSON decides the type of its field, and the
/// types are handed on in the table's `tags`, row by row and field by field:
/// the number `-1` is a number though it does not begin with a digit, and
/// the string `"02134"` is text though it does. A string is a timestamp
/// where `native` is set and it begins with a date.
pub fn read_json(text: &str, tz: bool, native: bool) -> (result: Result<Table, ReadError>)
    ensures
        match result {
            Ok(table) => {
                &&& forall|i: int| 0 <= i < lines(text@).len() ==> line_ok(#[trigger] lines(text@)[i])
                &&& table.names() == json_header(lines(text@), tz, native)
                &&& table.fields() == json_rows(lines(text@), tz, native)
                &&& table.types() == json_tags(lines(text@), tz, native)
            },
            Err(e) => {
                &&& 0 <= e.line() < lines(text@).len()
                &&& forall|i: int| 0 <= i < e.line() ==> line_ok(#[trigger] lines(text@)[i])
                &&& !line_ok(lines(text@)[e.line()])
                &&& e is Limit <==> !within_limits(lines(text@)[e.line()])
            },
        },
{
    let all = lines_of(&chars_of(text));
    let ghost ls = lines(text@);
    let mut header: Vec<String> = Vec::new();
    let mut read: Vec<Vec<(String, String, TypeTag)>> = Vec::new();
    let mut i: usize = 0;
    assert(strings(header@) =~= json_header(ls.take(0), tz, native));
    while i < all.len()
        invariant
            i <= all.len(),
            ls == lines(text@),
            texts(all@) == ls,
            forall|j: int| 0 <= j < i ==> line_ok(#[trigger] ls[j]),
            strings(header@) == json_header(ls.take(i as int), tz, native),
            read@.len() == i,
            forall|j: int|
                0 <= j < i ==> reads((#[trigger] read@[j])@) == line_pairs(ls[j], tz, native),
        decreases all.len() - i,
    {
        assert(ls[i as int] == all@[i as int]@);
        let seen = scan_line(&all[i]);
        if !check_fit(seen, all[i].len()) {
            return Err(ReadError::Limit(i));
        }
        if seen.trailing_comma {
            return Err(ReadError::Syntax(i));
        }
        let line = string_of(&all[i]);
        let members = match parse_members(line.as_str()) {
            Some(Some(m)) => members_as_written(line.as_str(), &m),
            Some(None) => Vec::new(),
            None => {
                return Err(ReadError::Syntax(i));
            },
        };
        assert(pairs(members@) =~= line_members(ls[i as int]));
        let fields = decode_members(&members, tz, native);
        proof {
            assert(ls.take(i + 1).drop_last() =~= ls.take(i as int));
            assert(ls.take(i + 1).last() == ls[i as int]);
        }
        add_names(&mut header, &fields);
        read.push(fields);
        i += 1;
    }
    assert(ls.take(all.len() as int) =~= ls);
    let mut rows: Vec<Vec<String>> = Vec::new();
    let mut tags: Vec<Vec<Option<TypeTag>>> = Vec::new();
    let mut r: usize = 0;
    while r < read.len()
        invariant
            r <= read.len(),
            read@.len() == ls.len(),
            ls == lines(text@),
            strings(header@) == json_header(ls, tz, native),
            forall|j: int|
                0 <= j < read@.len() ==> reads((#[trigger] read@[j])@) == line_pairs(
                    ls[j],
                    tz,
                    native,
                ),
            rows@.len() == r,
            tags@.len() == r,
            forall|j: int| 0 <= j < r ==> strings((#[trigger] rows@[j])@) == json_rows(ls, tz, native)[j],
            forall|j: int| 0 <= j < r ==> (#[trigger] tags@[j])@ == json_tags(ls, tz, native)[j],
        decreases read.len() - r,
    {
        let (row, kinds) = align(&read[r], &header);
        rows.push(row);
        tags.push(kinds);
        r += 1;
    }
    let table = Table { header, rows, tags };
    assert(table.fields() =~= json_rows(ls, tz, native));
    assert(table.types() =~= json_tags(ls, tz, native));
    Ok(table)
}

/// What a field stands for, however it is written: the identifier of an
/// identifier, the canonical form of a timestamp, the numeral of a number, a
/// truth value in lower case, and text as it is.
pub open spec fn canonical_value(f: FieldText) -> Seq<char> {
    match field_tag(f) {
        TypeTag::ObjectIdRef => identifier_of(f.raw),
        TypeTag::Timestamp => canonical(f.raw),
        TypeTag::Number => numeral_of(f),
        TypeTag::Boolean => lower(f.raw),
        TypeTag::Text => f.raw,
    }
}

/// Whether the typed document of `f` can be read back without loss: the
/// field stands for a value that is there; the
/// numeral of a number begins as a JSON number does; a truth value is `true`
/// or `false`; and text is written at all, which text without a word
/// character is not, and does not begin with a date, which would be read as
/// a timestamp.
pub open spec fn reads_back(f: FieldText) -> bool {
    !f.absent && match field_tag(f) {
        TypeTag::Number => is_number(numeral_of(f)),
        TypeTag::Boolean => is_boolean(f.raw),
        TypeTag::Text => has_word_char(f.raw) && !has_date_prefix(f.raw),
        _ => true,
    }
}

/// What the writer writes for a field, with typed documents, the reader
/// reads as a field with the same type and the same canonical value.
///
/// This is stated of the text of one member's value: of what `json_value`
/// gives and `member_read` takes. `numeral` is the numeral that comes with
/// the field that was read; for a number it is taken to be the numeral that
/// was written.
pub proof fn lemma_field_round_trip(
    key: Seq<char>,
    f: FieldText,
    tz: bool,
    keep_blank: bool,
    numeral: Option<Seq<char>>,
)
    requires
        reads_back(f),
        field_tag(f) == TypeTag::Number ==> numeral == Some(numeral_of(f)),
    ensures
        json_value(f, tz, true, keep_blank).is_some(),
        member_read(key, json_value(f, tz, true, keep_blank).unwrap(), tz, true).is_some(),
        ({
            let read = member_read(key, json_value(f, tz, true, keep_blank).unwrap(), tz, true).unwrap();
            let again = FieldText { raw: read.1, numeral, tag: Some(read.2), absent: false };
            &&& read.0 == key
            &&& field_tag(again) == field_tag(f)
            &&& canonical_value(again) == canonical_value(f)
        }),
{
    reveal_strlit("ObjectId(");
    reveal_strlit(")");
    reveal_strlit("true");
    reveal_strlit("false");
    reveal_strlit("Z");
    reveal_strlit("+0000");
    let d = field_document(f, tz, true, keep_blank).unwrap();
    lemma_document_round_trip(d);
    let raw = document_raw(d, tz, true);
    match field_tag(f) {
        TypeTag::ObjectIdRef => {
            let id = identifier_of(f.raw);
            assert(raw == "ObjectId("@ + id + ")"@);
            assert(raw.subrange(0, 9) =~= "ObjectId("@);
            assert(is_object_id(raw));
            assert(object_id_of(raw) =~= id);
        },
        TypeTag::Timestamp => {
            let c = canonical(f.raw);
            lemma_canonical_shape(f.raw);
            let w = wire(c, tz);
            if has_datetime(f.raw) {
                lemma_decode_encode(c, tz);
            } else {
                assert(w.len() < 19);
                assert(!has_datetime(w));
                assert(canonical(w) =~= c);
            }
            assert(raw == w);
        },
        TypeTag::Number => {},
        TypeTag::Boolean => {
            let l = lower(f.raw);
            assert(raw == l);
            assert(lower(l) =~= l);
        },
        TypeTag::Text => {},
    }
}

/// What a field says in its column: the column, the field's type and its
/// canonical value.
pub open spec fn triple(column: Seq<char>, f: FieldText) -> (Seq<char>, TypeTag, Seq<char>) {
    (column, field_tag(f), canonical_value(f))
}

/// Where the style does not ask for the wrapping of the `_id` column, the
/// values are written as they are.
pub proof fn lemma_no_wrapping(header: Seq<Seq<char>>, values: Seq<Seq<char>>, style: JsonStyle)
    requires
        !style.wrap_id || !style.native,
    ensures
        with_ids(header, values, style) == values,
{
    assert(with_ids(header, values, style) =~= values);
}

/// Where a value is written for every field of a row and the row has no
/// more fields than there are columns, the values are written under the
/// column names in their order, each under the name at its own position.
pub proof fn lemma_names_in_place(header: Seq<Seq<char>>, row: Seq<FieldText>, style: JsonStyle)
    requires
        row.len() <= header.len(),
        forall|i: int|
            0 <= i < row.len() ==> !(#[trigger] row[i]).absent && json_value(
                row[i],
                style.tz,
                style.native,
                style.keep_blank,
            ).is_some(),
    ensures
        places(row, style) == row.len(),
        open_names(header, row, style) == header.take(row.len() as int),
        row_values(row, style).len() == row.len(),
        member_pairs(open_names(header, row, style), row_values(row, style)) == member_pairs(
            header,
            row_values(row, style),
        ),
    decreases row.len(),
{
    if row.len() == 0 {
        assert(open_names(header, row, style) =~= header.take(0));
        assert(written(row, style) =~= Seq::<Option<Seq<char>>>::empty());
    } else {
        let head = row.drop_last();
        lemma_names_in_place(header, head, style);
        assert(written(row, style).drop_last() =~= written(head, style));
        assert(written(row, style).last() == json_value(
            row.last(),
            style.tz,
            style.native,
            style.keep_blank,
        ));
        assert(open_names(header, row, style) =~= header.take(row.len() as int));
    }
    assert(member_pairs(open_names(header, row, style), row_values(row, style)) =~= member_pairs(
        header,
        row_values(row, style),
    ));
}

/// A row that is written with typed documents is read back as the same
/// columns, types and canonical values, field by field.
///
/// This is stated of the keys and values that the writer pairs and the
/// reader takes, not of the text between them: the row has no more fields
/// than there are columns, every field of it can be read back, and no value
/// is wrapped on account of its column's name.
/// `numerals` are the numerals that come with the fields that were read; for
/// a number each is taken to be the numeral that was written.
pub proof fn lemma_row_round_trip(
    header: Seq<Seq<char>>,
    row: Seq<FieldText>,
    style: JsonStyle,
    numerals: Seq<Option<Seq<char>>>,
)
    requires
        style.native,
        !style.wrap_id,
        row.len() <= header.len(),
        numerals.len() == row.len(),
        forall|i: int| 0 <= i < row.len() ==> reads_back(#[trigger] row[i]),
        forall|i: int|
            0 <= i < row.len() && field_tag(#[trigger] row[i]) == TypeTag::Number ==> numerals[i]
                == Some(numeral_of(row[i])),
    ensures
        row_values(row, style).len() == row.len(),
        with_ids(header, row_values(row, style), style) == row_values(row, style),
        member_pairs(open_names(header, row, style), row_values(row, style)) == member_pairs(
            header,
            row_values(row, style),
        ),
        ({
            let read = decoded(member_pairs(header, row_values(row, style)), style.tz, true);
            &&& read.len() == row.len()
            &&& forall|i: int|
                0 <= i < row.len() ==> triple(
                    (#[trigger] read[i]).0,
                    FieldText { raw: read[i].1, numeral: numerals[i], tag: Some(read[i].2), absent: false },
                ) == triple(header[i], row[i])
        }),
    decreases row.len(),
{
    let values = row_values(row, style);
    let pairs = member_pairs(header, values);
    lemma_no_wrapping(header, values, style);
    assert forall|i: int| 0 <= i < row.len() implies !(#[trigger] row[i]).absent && json_value(
        row[i],
        style.tz,
        style.native,
        style.keep_blank,
    ).is_some() by {
        lemma_field_round_trip(header[i], row[i], style.tz, style.keep_blank, numerals[i]);
    }
    lemma_names_in_place(header, row, style);
    if row.len() == 0 {
        assert(written(row, style) =~= Seq::<Option<Seq<char>>>::empty());
        assert(pairs =~= Seq::<(Seq<char>, Seq<char>)>::empty());
    } else {
        let n = row.len() - 1;
        let head = row.drop_last();
        let last = row.last();
        lemma_row_round_trip(header, head, style, numerals.drop_last());
        lemma_field_round_trip(header[n], last, style.tz, style.keep_blank, numerals[n]);
        let v = json_value(last, style.tz, true, style.keep_blank).unwrap();
        assert(written(row, style).drop_last() =~= written(head, style));
        assert(written(row, style).last() == Some(v));
        assert(values == row_values(head, style).push(v));
        let before = member_pairs(header, row_values(head, style));
        assert(pairs =~= before.push((header[n], v)));
        assert(pairs.drop_last() =~= before);
        let read = decoded(pairs, style.tz, true);
        let one = member_read(header[n], v, style.tz, true).unwrap();
        assert(read == decoded(before, style.tz, true).push(one));
        assert forall|i: int| 0 <= i < row.len() implies triple(
            (#[trigger] read[i]).0,
            FieldText { raw: read[i].1, numeral: numerals[i], tag: Some(read[i].2), absent: false },
        ) == triple(header[i], row[i]) by {
            if i < n {
                assert(read[i] == decoded(before, style.tz, true)[i]);
                assert(numerals.drop_last()[i] == numerals[i]);
                assert(head[i] == row[i]);
            }
        }
    }
}

/// Adding names keeps what is there and adds each new key once: where no
/// name stands twice in `names`, none stands twice afterwards, `names` is
/// the beginning of the result, and every key is in it.
pub proof fn lemma_with_names(names: Seq<Seq<char>>, keys: Seq<Seq<char>>)
    requires
        names.no_duplicates(),
    ensures
        with_names(names, keys).no_duplicates(),
        names.is_prefix_of(with_names(names, keys)),
        forall|k: int| 0 <= k < keys.len() ==> with_names(names, keys).contains(#[trigger] keys[k]),
    decreases keys.len(),
{
    if keys.len() > 0 {
        let head = keys.drop_last();
        let before = with_names(names, head);
        let after = with_names(names, keys);
        lemma_with_names(names, head);
        if !before.contains(keys.last()) {
            assert(after == before.push(keys.last()));
            assert(after[before.len() as int] == keys.last());
            assert forall|i: int, j: int| 0 <= i < after.len() && 0 <= j < after.len() && i
                != j implies after[i] != after[j] by {
                if i < before.len() && j < before.len() {
                    assert(before[i] != before[j]);
                } else if i < before.len() {
                    assert(before.contains(before[i]));
                } else {
                    assert(before.contains(before[j]));
                }
            }
        }
        assert forall|k: int| 0 <= k < keys.len() implies after.contains(#[trigger] keys[k]) by {
            if k < head.len() {
                assert(head[k] == keys[k]);
                let at = choose|at: int| 0 <= at < before.len() && before[at] == head[k];
                assert(after[at] == head[k]);
            } else if before.contains(keys.last()) {
            } else {
                assert(after[before.len() as int] == keys[k]);
            }
        }
    }
}

/// Every key is a column, once: no column name of `lines` stands twice, and
/// every key under which a line has a field is a column name.
pub proof fn lemma_json_header(lines: Seq<Seq<char>>, tz: bool, native: bool)
    ensures
        json_header(lines, tz, native).no_duplicates(),
        forall|i: int, j: int|
            0 <= i < lines.len() && 0 <= j < line_pairs(lines[i], tz, native).len()
                ==> json_header(lines, tz, native).contains(
                (#[trigger] line_pairs(lines[i], tz, native)[j]).0,
            ),
    decreases lines.len(),
{
    if lines.len() > 0 {
        let head = lines.drop_last();
        let before = json_header(head, tz, native);
        let after = json_header(lines, tz, native);
        let keys = keys_of(line_pairs(lines.last(), tz, native));
        lemma_json_header(head, tz, native);
        lemma_with_names(before, keys);
        assert forall|i: int, j: int|
            0 <= i < lines.len() && 0 <= j < line_pairs(lines[i], tz, native).len() implies after.contains(
            (#[trigger] line_pairs(lines[i], tz, native)[j]).0,
        ) by {
            let key = line_pairs(lines[i], tz, native)[j].0;
            if i < head.len() {
                assert(head[i] == lines[i]);
                assert(before.contains(key));
                let at = choose|at: int| 0 <= at < before.len() && before[at] == key;
                assert(after[at] == key);
            } else {
                assert(keys[j] == key);
            }
        }
    }
}

/// Every value stands under its own key's column: the field that a line has
/// under a key stands, in the line's row, in the column of that key, with
/// its type. Where a line has several fields under one key, the first
/// stands there.
pub proof fn lemma_value_in_its_column(lines: Seq<Seq<char>>, tz: bool, native: bool, i: int, j: int)
    requires
        0 <= i < lines.len(),
        0 <= j < line_pairs(lines[i], tz, native).len(),
        read_index(line_pairs(lines[i], tz, native), line_pairs(lines[i], tz, native)[j].0, 0) == j,
    ensures
        exists|c: int|
            0 <= c < json_header(lines, tz, native).len() && json_header(lines, tz, native)[c]
                == line_pairs(lines[i], tz, native)[j].0 && (#[trigger] json_rows(
                lines,
                tz,
                native,
            )[i][c]) == line_pairs(lines[i], tz, native)[j].1 && json_tags(lines, tz, native)[i][c]
                == Some(line_pairs(lines[i], tz, native)[j].2),
{
    let header = json_header(lines, tz, native);
    let rs = line_pairs(lines[i], tz, native);
    lemma_json_header(lines, tz, native);
    assert(header.contains(rs[j].0));
    let c = choose|c: int| 0 <= c < header.len() && header[c] == rs[j].0;
    assert(json_rows(lines, tz, native)[i][c] == rs[j].1);
    assert(json_tags(lines, tz, native)[i][c] == Some(rs[j].2));
}

} // verus!
