//! How one field is written in delimited text and in a dump script.
//!
//! A writer takes each field as its raw text together with the numeral that
//! stands for it: the raw text read as a floating-point number and written
//! with two decimal places, or nothing where the raw text is no such number.
//! The numeral is the caller's to supply; which fields are numbers, and what
//! is written where there is no numeral, is decided here.

use crate::classify::TypeTag;
use crate::document::{quote, quoted};
use crate::table::{field_tag, identifier_chars, identifier_of, tag_of_field, Field, FieldText};
use crate::text::{any_word_char, chars_of, has_word_char, lower, lowercase, upper, uppercase};
use crate::timestamp::{sql_literal, sql_literal_chars};
use vstd::prelude::*;

verus! {

/// What is written for a number whose raw text could not be read as one.
pub open spec fn default_numeral() -> Seq<char> {
    "0.00"@
}

/// The numeral of a field: the one that came with it, or the default.
pub open spec fn numeral_of(f: FieldText) -> Seq<char> {
    match f.numeral {
        Some(n) => n,
        None => default_numeral(),
    }
}

/// How a field that is left out by default is written when blank fields are
/// kept: as the empty string between double quotes.
pub open spec fn blank_value() -> Seq<char> {
    quoted(Seq::empty())
}

/// What a dump-script writer writes for a field, and `None` where it leaves
/// the field out. The type of the field is the one that came with it, or
/// else the one that its raw text has. Identifiers and text stand between double quotes, as they
/// are, and so does a timestamp, as date, space and time of day; a number is
/// its numeral and a truth value is in upper case, both without quotes. A
/// field that is text without a word character is left out, or written as
/// the empty string where `keep_blank` is set. For a field that stands for a
/// value that is not there, `NULL` is written.
pub open spec fn sql_value(f: FieldText, keep_blank: bool) -> Option<Seq<char>> {
    if f.absent {
        Some("NULL"@)
    } else {
        match field_tag(f) {
            TypeTag::ObjectIdRef => Some(quoted(identifier_of(f.raw))),
            TypeTag::Timestamp => Some(quoted(sql_literal(f.raw))),
            TypeTag::Number => Some(numeral_of(f)),
            TypeTag::Boolean => Some(upper(f.raw)),
            TypeTag::Text => if has_word_char(f.raw) {
                Some(quoted(f.raw))
            } else if keep_blank {
                Some(blank_value())
            } else {
                None
            },
        }
    }
}

/// What a CSV writer writes for a field: the numeral of a number, a truth
/// value in lower case, and any other field as it was read, without quotes.
/// The type of the field is the one that came with it, or else the one that
/// its raw text has. For a field that stands for a value that is not there,
/// nothing is written: its place stays empty.
pub open spec fn csv_value(f: FieldText) -> Seq<char> {
    if f.absent {
        Seq::empty()
    } else {
        match field_tag(f) {
            TypeTag::Number => numeral_of(f),
            TypeTag::Boolean => lower(f.raw),
            _ => f.raw,
        }
    }
}

/// The numeral of `field` as characters.
pub fn numeral_chars(field: &Field) -> (out: Vec<char>)
    ensures
        out@ == numeral_of(field@),
{
    match &field.numeral {
        Some(n) => chars_of(n.as_str()),
        None => chars_of("0.00"),
    }
}

/// How text is written between double quotes, or left out.
pub fn text_value(raw: &Vec<char>, keep_blank: bool) -> (out: Option<Vec<char>>)
    ensures
        out.is_some() == (has_word_char(raw@) || keep_blank),
        out matches Some(v) ==> v@ == if has_word_char(raw@) {
            quoted(raw@)
        } else {
            blank_value()
        },
{
    if any_word_char(raw) {
        Some(quote(raw))
    } else if keep_blank {
        let empty: Vec<char> = Vec::new();
        assert(empty@ =~= Seq::<char>::empty());
        Some(quote(&empty))
    } else {
        None
    }
}

/// The model of an optional text.
pub open spec fn option_text(v: Option<Vec<char>>) -> Option<Seq<char>> {
    match v {
        Some(x) => Some(x@),
        None => None,
    }
}

/// What a dump-script writer writes for `field`.
pub fn sql_value_of(field: &Field, keep_blank: bool) -> (out: Option<Vec<char>>)
    ensures
        option_text(out) == sql_value(field@, keep_blank),
{
    if field.absent {
        return Some(chars_of("NULL"));
    }
    let raw = chars_of(field.raw.as_str());
    match tag_of_field(field, &raw) {
        TypeTag::ObjectIdRef => {
            let id = identifier_chars(&raw);
            Some(quote(&id))
        },
        TypeTag::Timestamp => {
            let t = sql_literal_chars(&raw);
            Some(quote(&t))
        },
        TypeTag::Number => Some(numeral_chars(field)),
        TypeTag::Boolean => Some(uppercase(&raw)),
        TypeTag::Text => text_value(&raw, keep_blank),
    }
}

/// What a CSV writer writes for `field`.
pub fn csv_value_of(field: &Field) -> (out: Vec<char>)
    ensures
        out@ == csv_value(field@),
{
    if field.absent {
        return Vec::new();
    }
    let raw = chars_of(field.raw.as_str());
    match tag_of_field(field, &raw) {
        TypeTag::Number => numeral_chars(field),
        TypeTag::Boolean => lowercase(&raw),
        _ => raw,
    }
}

} // verus!
