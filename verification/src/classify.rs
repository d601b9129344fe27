//! The type classifier: one semantic type tag for every raw field value.

use crate::text::{
    any_word_char, chars_of, digit, has_prefix, has_word_char, is_digit, lower, lowercase,
    occurs_at, same_text, to_lower,
};
use vstd::prelude::*;

verus! {

/// The semantic type of one field value.
#[derive(Clone, Copy, Debug, PartialEq, Eq, Structural)]
pub enum TypeTag {
    /// An identifier literal, written `ObjectId(..)`.
    ObjectIdRef,
    /// A value that begins with a calendar date.
    Timestamp,
    /// A value that begins with a decimal digit.
    Number,
    /// `true` or `false`, in any mix of upper and lower case.
    Boolean,
    /// Any other value.
    Text,
}

/// Whether `s` is an identifier literal: `ObjectId(`, any characters, `)`.
pub open spec fn is_object_id(s: Seq<char>) -> bool {
    s.len() >= 10 && has_prefix(s, "ObjectId("@) && s[s.len() - 1] == ')'
}

/// The identifier inside an identifier literal.
pub open spec fn object_id_of(s: Seq<char>) -> Seq<char> {
    s.subrange(9, s.len() - 1)
}

/// Whether `s` holds a date, `YYYY-MM-DD`, at index `i`.
pub open spec fn is_date_at(s: Seq<char>, i: int) -> bool {
    &&& 0 <= i
    &&& i + 10 <= s.len()
    &&& is_digit(s[i])
    &&& is_digit(s[i + 1])
    &&& is_digit(s[i + 2])
    &&& is_digit(s[i + 3])
    &&& s[i + 4] == '-'
    &&& is_digit(s[i + 5])
    &&& is_digit(s[i + 6])
    &&& s[i + 7] == '-'
    &&& is_digit(s[i + 8])
    &&& is_digit(s[i + 9])
}

/// Whether `s` begins with a date, `YYYY-MM-DD`; anything may follow.
pub open spec fn has_date_prefix(s: Seq<char>) -> bool {
    is_date_at(s, 0)
}

/// Whether `s` begins with a decimal digit; anything may follow.
pub open spec fn has_leading_digit(s: Seq<char>) -> bool {
    s.len() >= 1 && is_digit(s[0])
}

/// Whether `s` is `true` or `false` in any mix of upper and lower case.
pub open spec fn is_boolean(s: Seq<char>) -> bool {
    lower(s) == "true"@ || lower(s) == "false"@
}

/// The tag of `s`: the first of the five rules that `s` meets, in the order
/// identifier, timestamp, number, boolean, text. A later rule is never
/// consulted once an earlier one is met.
pub open spec fn tag_of(s: Seq<char>) -> TypeTag {
    if is_object_id(s) {
        TypeTag::ObjectIdRef
    } else if has_date_prefix(s) {
        TypeTag::Timestamp
    } else if has_leading_digit(s) {
        TypeTag::Number
    } else if is_boolean(s) {
        TypeTag::Boolean
    } else {
        TypeTag::Text
    }
}

/// Whether a writer that drops blank fields leaves `s` out: it is tagged as
/// text and holds no word character.
pub open spec fn is_blank(s: Seq<char>) -> bool {
    tag_of(s) == TypeTag::Text && !has_word_char(s)
}

/// Whether `s` is an identifier literal.
pub fn object_id(s: &Vec<char>) -> (b: bool)
    ensures
        b == is_object_id(s@),
{
    let prefix = chars_of("ObjectId(");
    proof {
        reveal_strlit("ObjectId(");
    }
    s.len() >= 10 && occurs_at(s, 0, &prefix) && s[s.len() - 1] == ')'
}

/// Whether `s` holds a date at index `i`.
pub fn date_at(s: &Vec<char>, i: usize) -> (b: bool)
    ensures
        b == is_date_at(s@, i as int),
{
    if i > s.len() || s.len() - i < 10 {
        return false;
    }
    digit(s[i]) && digit(s[i + 1]) && digit(s[i + 2]) && digit(s[i + 3]) && s[i + 4] == '-'
        && digit(s[i + 5]) && digit(s[i + 6]) && s[i + 7] == '-' && digit(s[i + 8]) && digit(
        s[i + 9],
    )
}

/// Whether `s` is a truth value.
pub fn boolean(s: &Vec<char>) -> (b: bool)
    ensures
        b == is_boolean(s@),
{
    let l = lowercase(s);
    let t = chars_of("true");
    let f = chars_of("false");
    same_text(&l, &t) || same_text(&l, &f)
}

/// The tag of the characters `s`.
pub fn classify_chars(s: &Vec<char>) -> (tag: TypeTag)
    ensures
        tag == tag_of(s@),
{
    if object_id(s) {
        TypeTag::ObjectIdRef
    } else if date_at(s, 0) {
        TypeTag::Timestamp
    } else if s.len() >= 1 && digit(s[0]) {
        TypeTag::Number
    } else if boolean(s) {
        TypeTag::Boolean
    } else {
        TypeTag::Text
    }
}

/// Decides the semantic type of one raw field value. The five rules are tried
/// in a fixed order and the first that is met decides.
pub fn classify(raw: &str) -> (tag: TypeTag)
    ensures
        tag == tag_of(raw@),
{
    let s = chars_of(raw);
    classify_chars(&s)
}

/// Whether `raw` begins with a date, `YYYY-MM-DD`.
pub fn is_date(raw: &str) -> (b: bool)
    ensures
        b == has_date_prefix(raw@),
{
    let s = chars_of(raw);
    date_at(&s, 0)
}

/// Whether a writer that drops blank fields leaves `raw` out: whether it is
/// text without a word character.
pub fn blank(raw: &str) -> (b: bool)
    ensures
        b == is_blank(raw@),
{
    let s = chars_of(raw);
    let tag = classify_chars(&s);
    tag == TypeTag::Text && !any_word_char(&s)
}

/// The classification order is fixed. A value that meets an earlier rule gets
/// that rule's tag whatever later rules it also meets: every value that begins
/// with a date also begins with a digit, and is a timestamp, never a number.
/// Every value gets exactly one tag, and text is what is left.
pub proof fn lemma_precedence(s: Seq<char>)
    ensures
        is_object_id(s) ==> tag_of(s) == TypeTag::ObjectIdRef,
        has_date_prefix(s) ==> has_leading_digit(s) && !is_object_id(s),
        has_date_prefix(s) ==> tag_of(s) == TypeTag::Timestamp,
        has_leading_digit(s) ==> !is_object_id(s) && !is_boolean(s),
        has_leading_digit(s) && !has_date_prefix(s) ==> tag_of(s) == TypeTag::Number,
        is_boolean(s) ==> !is_object_id(s) && tag_of(s) == TypeTag::Boolean,
        tag_of(s) == TypeTag::Text <==> !is_object_id(s) && !has_date_prefix(s)
            && !has_leading_digit(s) && !is_boolean(s),
{
    reveal_strlit("ObjectId(");
    reveal_strlit("true");
    reveal_strlit("false");
    assert(lower(s).len() == s.len());
    if s.len() > 0 {
        assert(lower(s)[0] == to_lower(s[0]));
    }
    if is_object_id(s) {
        assert(s.subrange(0, 9)[0] == s[0]);
    }
}

} // verus!
