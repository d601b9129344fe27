//! Typed documents: the values that the members of a line-delimited typed
//! JSON document have.
//!
//! A document is a scalar (a string, a number or a truth value) or an
//! object with one member that wraps a value of an extended type: an
//! identifier under `$oid`, a timestamp under `$date`. The reader takes a
//! document from the JSON text of a member's value and turns it into a raw
//! field; the writer turns a field into a document and writes its text.

use crate::classify::{date_at, has_date_prefix, TypeTag};
use crate::render::{numeral_chars, numeral_of};
use crate::table::{field_tag, identifier_chars, identifier_of, tag_of_field, Field, FieldText};
use crate::text::{
    any_word_char, chars_of, digit, has_prefix, has_word_char, is_digit, lower, lowercase,
    occurs_at, push_all, push_str, same_text, slice, string_of,
};
use crate::timestamp::{canonical, canonical_chars, push_zone, wire};
use vstd::prelude::*;

verus! {

/// The value of one member of a typed JSON document.
#[derive(Debug, PartialEq, Eq)]
pub enum Document {
    /// An identifier, wrapped as `{"$oid":"..."}`.
    ObjectId(String),
    /// A timestamp, wrapped as `{"$date":"..."}`.
    Date(String),
    /// A string; it holds what stands between the quotes, escapes as they
    /// are written.
    Text(String),
    /// A number; it holds the number's text.
    Number(String),
    /// A truth value.
    Boolean(bool),
}

/// The model of a document.
pub enum DocumentText {
    ObjectId(Seq<char>),
    Date(Seq<char>),
    Text(Seq<char>),
    Number(Seq<char>),
    Boolean(bool),
}

impl View for Document {
    type V = DocumentText;

    open spec fn view(&self) -> DocumentText {
        match self {
            Document::ObjectId(s) => DocumentText::ObjectId(s@),
            Document::Date(s) => DocumentText::Date(s@),
            Document::Text(s) => DocumentText::Text(s@),
            Document::Number(s) => DocumentText::Number(s@),
            Document::Boolean(b) => DocumentText::Boolean(*b),
        }
    }
}

/// The model of an optional document.
pub open spec fn option_document(d: Option<Document>) -> Option<DocumentText> {
    match d {
        Some(x) => Some(x@),
        None => None,
    }
}

/// `s` between double quotes.
pub open spec fn quoted(s: Seq<char>) -> Seq<char> {
    "\""@ + s + "\""@
}

/// The text that opens a wrapped identifier.
pub open spec fn oid_open() -> Seq<char> {
    "{\"$oid\":\""@
}

/// The text that opens a wrapped timestamp.
pub open spec fn date_open() -> Seq<char> {
    "{\"$date\":\""@
}

/// The text that closes a wrapper.
pub open spec fn wrapper_close() -> Seq<char> {
    "\"}"@
}

/// The text of a truth value.
pub open spec fn truth_text(b: bool) -> Seq<char> {
    if b {
        "true"@
    } else {
        "false"@
    }
}

/// How a document is written. What a document holds is written as it is:
/// nothing is escaped.
pub open spec fn document_text(d: DocumentText) -> Seq<char> {
    match d {
        DocumentText::ObjectId(id) => oid_open() + id + wrapper_close(),
        DocumentText::Date(t) => date_open() + t + wrapper_close(),
        DocumentText::Text(x) => quoted(x),
        DocumentText::Number(n) => n,
        DocumentText::Boolean(b) => truth_text(b),
    }
}

/// Whether `v` is a wrapper that opens with `open`: `open`, any characters,
/// and `"}`.
pub open spec fn is_wrapped(v: Seq<char>, open: Seq<char>) -> bool {
    v.len() >= open.len() + 2 && has_prefix(v, open) && v[v.len() - 2] == '"' && v[v.len() - 1]
        == '}'
}

/// What a wrapper that opens with `open` wraps.
pub open spec fn unwrapped(v: Seq<char>, open: Seq<char>) -> Seq<char> {
    v.subrange(open.len() as int, v.len() - 2)
}

/// Whether `v` is a JSON string: it begins and ends with a double quote.
pub open spec fn is_string(v: Seq<char>) -> bool {
    v.len() >= 2 && v[0] == '"' && v[v.len() - 1] == '"'
}

/// Whether `v` begins as a JSON number does: with a digit or a minus sign.
pub open spec fn is_number(v: Seq<char>) -> bool {
    v.len() >= 1 && (is_digit(v[0]) || v[0] == '-')
}

/// The document that the JSON text `v` of a member's value holds, and `None`
/// where it holds none: where the value is null, an array, or an object
/// that is no wrapper.
pub open spec fn parse_document(v: Seq<char>) -> Option<DocumentText> {
    if is_wrapped(v, oid_open()) {
        Some(DocumentText::ObjectId(unwrapped(v, oid_open())))
    } else if is_wrapped(v, date_open()) {
        Some(DocumentText::Date(unwrapped(v, date_open())))
    } else if is_string(v) {
        Some(DocumentText::Text(v.subrange(1, v.len() - 1)))
    } else if is_number(v) {
        Some(DocumentText::Number(v))
    } else if v == "true"@ {
        Some(DocumentText::Boolean(true))
    } else if v == "false"@ {
        Some(DocumentText::Boolean(false))
    } else {
        None
    }
}

/// The raw field that a document gives.
///
/// An identifier gives an identifier literal where `native` is set, and the
/// bare identifier where it is not. A timestamp gives the wire encoding that
/// `tz` selects of the date-time that it holds. A string gives what it
/// holds; where `native` is set and that begins with a date, it gives the
/// wire encoding. A number gives its text, a truth value `true` or `false`.
pub open spec fn document_raw(d: DocumentText, tz: bool, native: bool) -> Seq<char> {
    match d {
        DocumentText::ObjectId(id) => if native {
            "ObjectId("@ + id + ")"@
        } else {
            id
        },
        DocumentText::Date(t) => wire(canonical(t), tz),
        DocumentText::Text(x) => if native && has_date_prefix(x) {
            wire(canonical(x), tz)
        } else {
            x
        },
        DocumentText::Number(n) => n,
        DocumentText::Boolean(b) => truth_text(b),
    }
}

/// The type of the field that a document gives: an identifier and a
/// timestamp are what they are wrapped as, a number is a number and a truth
/// value a truth value, whatever their text looks like; a string is text,
/// and a timestamp where `native` is set and it begins with a date.
pub open spec fn document_tag(d: DocumentText, native: bool) -> TypeTag {
    match d {
        DocumentText::ObjectId(_) => TypeTag::ObjectIdRef,
        DocumentText::Date(_) => TypeTag::Timestamp,
        DocumentText::Text(x) => if native && has_date_prefix(x) {
            TypeTag::Timestamp
        } else {
            TypeTag::Text
        },
        DocumentText::Number(_) => TypeTag::Number,
        DocumentText::Boolean(_) => TypeTag::Boolean,
    }
}

/// The document as which a JSON writer writes a field, and `None` where it
/// writes none: where it leaves the field out, or the field stands for a
/// value that is not there. The type of the field is the one that came with
/// it, or else the one that its raw text has.
///
/// With `native` set, an identifier is a wrapped identifier and a timestamp
/// a wrapped timestamp, in the wire encoding that `tz` selects; without it
/// they are strings, the timestamp as it was read. A number is its numeral,
/// text is a string. A field that is text without a word character is left
/// out, or is the empty string where `keep_blank` is set.
pub open spec fn field_document(f: FieldText, tz: bool, native: bool, keep_blank: bool) -> Option<
    DocumentText,
> {
    if f.absent {
        None
    } else {
        match field_tag(f) {
            TypeTag::ObjectIdRef => Some(
                if native {
                    DocumentText::ObjectId(identifier_of(f.raw))
                } else {
                    DocumentText::Text(identifier_of(f.raw))
                },
            ),
            TypeTag::Timestamp => Some(
                if native {
                    DocumentText::Date(wire(canonical(f.raw), tz))
                } else {
                    DocumentText::Text(f.raw)
                },
            ),
            TypeTag::Number => Some(DocumentText::Number(numeral_of(f))),
            TypeTag::Boolean => Some(DocumentText::Boolean(lower(f.raw) == "true"@)),
            TypeTag::Text => if has_word_char(f.raw) {
                Some(DocumentText::Text(f.raw))
            } else if keep_blank {
                Some(DocumentText::Text(Seq::empty()))
            } else {
                None
            },
        }
    }
}

/// What a JSON writer writes for a field, and `None` where it leaves the
/// field out: the text of the field's document.
pub open spec fn json_value(f: FieldText, tz: bool, native: bool, keep_blank: bool) -> Option<
    Seq<char>,
> {
    match field_document(f, tz, native, keep_blank) {
        Some(d) => Some(document_text(d)),
        None => None,
    }
}

/// Whether `v` is a wrapper that opens with `open`.
pub fn wrapped(v: &Vec<char>, open: &Vec<char>) -> (b: bool)
    ensures
        b == is_wrapped(v@, open@),
{
    if v.len() < 2 || open.len() > v.len() - 2 {
        return false;
    }
    occurs_at(v, 0, open) && v[v.len() - 2] == '"' && v[v.len() - 1] == '}'
}

/// The document that the JSON text `v` of a member's value holds.
pub fn parse_chars(v: &Vec<char>) -> (out: Option<Document>)
    ensures
        option_document(out) == parse_document(v@),
{
    let oid = chars_of("{\"$oid\":\"");
    let date = chars_of("{\"$date\":\"");
    if wrapped(v, &oid) {
        Some(Document::ObjectId(string_of(&slice(v, oid.len(), v.len() - 2))))
    } else if wrapped(v, &date) {
        Some(Document::Date(string_of(&slice(v, date.len(), v.len() - 2))))
    } else if v.len() >= 2 && v[0] == '"' && v[v.len() - 1] == '"' {
        Some(Document::Text(string_of(&slice(v, 1, v.len() - 1))))
    } else if v.len() >= 1 && (digit(v[0]) || v[0] == '-') {
        Some(Document::Number(string_of(v)))
    } else if same_text(v, &chars_of("true")) {
        Some(Document::Boolean(true))
    } else if same_text(v, &chars_of("false")) {
        Some(Document::Boolean(false))
    } else {
        None
    }
}

/// `s` between double quotes.
pub fn quote(s: &Vec<char>) -> (out: Vec<char>)
    ensures
        out@ == quoted(s@),
{
    let mut out = chars_of("\"");
    push_all(&mut out, s);
    push_str(&mut out, "\"");
    out
}

/// The wire encoding of the date-time with which `raw` begins.
pub fn wire_chars(raw: &Vec<char>, tz: bool) -> (out: Vec<char>)
    ensures
        out@ == wire(canonical(raw@), tz),
{
    let mut out = canonical_chars(raw);
    push_zone(&mut out, tz);
    out
}

impl Document {
    /// The document that the JSON text of a member's value holds, and `None`
    /// where it holds none: where the value is null, an array, or an object
    /// that is no wrapper. The text is taken as a JSON writer writes it,
    /// without white space.
    pub fn parse(text: &str) -> (out: Option<Document>)
        ensures
            option_document(out) == parse_document(text@),
    {
        parse_chars(&chars_of(text))
    }

    /// The document as which a JSON writer writes `field`, and `None` where
    /// it leaves the field out.
    pub fn of_field(field: &Field, tz: bool, native: bool, keep_blank: bool) -> (out: Option<
        Document,
    >)
        ensures
            option_document(out) == field_document(field@, tz, native, keep_blank),
    {
        if field.absent {
            return None;
        }
        let raw = chars_of(field.raw.as_str());
        match tag_of_field(field, &raw) {
            TypeTag::ObjectIdRef => {
                let id = string_of(&identifier_chars(&raw));
                if native {
                    Some(Document::ObjectId(id))
                } else {
                    Some(Document::Text(id))
                }
            },
            TypeTag::Timestamp => {
                if native {
                    Some(Document::Date(string_of(&wire_chars(&raw, tz))))
                } else {
                    Some(Document::Text(string_of(&raw)))
                }
            },
            TypeTag::Number => Some(Document::Number(string_of(&numeral_chars(field)))),
            TypeTag::Boolean => {
                let truth = same_text(&lowercase(&raw), &chars_of("true"));
                Some(Document::Boolean(truth))
            },
            TypeTag::Text => {
                if any_word_char(&raw) {
                    Some(Document::Text(string_of(&raw)))
                } else if keep_blank {
                    Some(Document::Text(String::new()))
                } else {
                    None
                }
            },
        }
    }

    /// How the document is written, as characters.
    pub fn chars(&self) -> (out: Vec<char>)
        ensures
            out@ == document_text(self@),
    {
        match self {
            Document::ObjectId(id) => {
                let mut out = chars_of("{\"$oid\":\"");
                push_str(&mut out, id.as_str());
                push_str(&mut out, "\"}");
                out
            },
            Document::Date(t) => {
                let mut out = chars_of("{\"$date\":\"");
                push_str(&mut out, t.as_str());
                push_str(&mut out, "\"}");
                out
            },
            Document::Text(x) => quote(&chars_of(x.as_str())),
            Document::Number(n) => chars_of(n.as_str()),
            Document::Boolean(b) => {
                if *b {
                    chars_of("true")
                } else {
                    chars_of("false")
                }
            },
        }
    }

    /// How the document is written.
    pub fn text(&self) -> (out: String)
        ensures
            out@ == document_text(self@),
    {
        string_of(&self.chars())
    }

    /// The raw field that the document gives, as characters.
    pub fn raw_chars(&self, tz: bool, native: bool) -> (out: Vec<char>)
        ensures
            out@ == document_raw(self@, tz, native),
    {
        match self {
            Document::ObjectId(id) => {
                if native {
                    let mut out = chars_of("ObjectId(");
                    push_str(&mut out, id.as_str());
                    push_str(&mut out, ")");
                    out
                } else {
                    chars_of(id.as_str())
                }
            },
            Document::Date(t) => wire_chars(&chars_of(t.as_str()), tz),
            Document::Text(x) => {
                let inner = chars_of(x.as_str());
                if native && date_at(&inner, 0) {
                    wire_chars(&inner, tz)
                } else {
                    inner
                }
            },
            Document::Number(n) => chars_of(n.as_str()),
            Document::Boolean(b) => {
                if *b {
                    chars_of("true")
                } else {
                    chars_of("false")
                }
            },
        }
    }

    /// The type of the field that the document gives.
    pub fn tag(&self, native: bool) -> (out: TypeTag)
        ensures
            out == document_tag(self@, native),
    {
        match self {
            Document::ObjectId(_) => TypeTag::ObjectIdRef,
            Document::Date(_) => TypeTag::Timestamp,
            Document::Text(x) => {
                if native && date_at(&chars_of(x.as_str()), 0) {
                    TypeTag::Timestamp
                } else {
                    TypeTag::Text
                }
            },
            Document::Number(_) => TypeTag::Number,
            Document::Boolean(_) => TypeTag::Boolean,
        }
    }

    /// The raw field that the document gives.
    pub fn raw(&self, tz: bool, native: bool) -> (out: String)
        ensures
            out@ == document_raw(self@, tz, native),
    {
        string_of(&self.raw_chars(tz, native))
    }
}

/// Whether a document is written so that it reads as itself: a number
/// begins as a JSON number does.
pub open spec fn is_readable(d: DocumentText) -> bool {
    d matches DocumentText::Number(n) ==> is_number(n)
}

/// A document that is written and read is the document: what `document_text`
/// writes, `parse_document` reads as what was written.
pub proof fn lemma_document_round_trip(d: DocumentText)
    requires
        is_readable(d),
    ensures
        parse_document(document_text(d)) == Some(d),
{
    reveal_strlit("{\"$oid\":\"");
    reveal_strlit("{\"$date\":\"");
    reveal_strlit("\"}");
    reveal_strlit("\"");
    reveal_strlit("true");
    reveal_strlit("false");
    let v = document_text(d);
    let oid = oid_open();
    let date = date_open();
    match d {
        DocumentText::ObjectId(id) => {
            assert(v.subrange(0, 9) =~= oid);
            assert(unwrapped(v, oid) =~= id);
        },
        DocumentText::Date(t) => {
            assert(v.len() >= 12);
            assert(v.subrange(0, 9)[3] == 'd');
            assert(v.subrange(0, 10) =~= date);
            assert(unwrapped(v, date) =~= t);
        },
        DocumentText::Text(x) => {
            lemma_first_decides(v);
            assert(v.subrange(1, v.len() - 1) =~= x);
        },
        DocumentText::Number(n) => {
            lemma_first_decides(n);
        },
        DocumentText::Boolean(b) => {
            lemma_first_decides(v);
        },
    }
}

/// A text that does not begin with an opening brace is no wrapper.
proof fn lemma_first_decides(v: Seq<char>)
    requires
        v.len() > 0,
        v[0] != '{',
    ensures
        !is_wrapped(v, oid_open()),
        !is_wrapped(v, date_open()),
{
    reveal_strlit("{\"$oid\":\"");
    reveal_strlit("{\"$date\":\"");
    if v.len() >= 9 {
        assert(v.subrange(0, 9)[0] == v[0]);
    }
    if v.len() >= 10 {
        assert(v.subrange(0, 10)[0] == v[0]);
    }
}

} // verus!
