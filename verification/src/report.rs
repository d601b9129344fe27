//! Fields that a writer coerces without saying so, found and listed: numbers
//! that could not be read as numbers, and timestamps that hold no date-time.
//! What becomes of the rows that hold such fields is a matter of policy.

use crate::classify::TypeTag;
use crate::table::{field_grid, field_tag, fields, tag_of_field, Field, FieldText};
use crate::text::chars_of;
use crate::timestamp::{datetime_at, has_datetime};
use vstd::prelude::*;

verus! {

/// What is wrong with a field.
#[derive(Clone, Copy, Debug, PartialEq, Eq, Structural)]
pub enum IssueKind {
    /// The field is tagged as a number and has no numeral: a writer puts the
    /// default numeral in its place.
    ParseFailure,
    /// The field is tagged as a timestamp and does not begin with a date and
    /// a time of day: a writer puts an empty timestamp in its place.
    MalformedTimestamp,
}

/// A field with something wrong, by the index of its row and its index in
/// that row, both counted from 0.
#[derive(Clone, Copy, Debug, PartialEq, Eq, Structural)]
pub struct Issue {
    pub row: usize,
    pub column: usize,
    pub kind: IssueKind,
}

/// What is wrong with the field `f`, if anything is. Nothing is wrong with a
/// field that stands for a value that is not there.
pub open spec fn issue_of(f: FieldText) -> Option<IssueKind> {
    if f.absent {
        None
    } else {
        match field_tag(f) {
            TypeTag::Number => if f.numeral.is_none() {
                Some(IssueKind::ParseFailure)
            } else {
                None
            },
            TypeTag::Timestamp => if !has_datetime(f.raw) {
                Some(IssueKind::MalformedTimestamp)
            } else {
                None
            },
            _ => None,
        }
    }
}

/// The issues of the row with index `r`, in the order of its fields.
pub open spec fn row_issues(row: Seq<FieldText>, r: usize) -> Seq<Issue>
    decreases row.len(),
{
    if row.len() == 0 {
        Seq::empty()
    } else {
        let before = row_issues(row.drop_last(), r);
        match issue_of(row.last()) {
            Some(kind) => before.push(Issue { row: r, column: (row.len() - 1) as usize, kind }),
            None => before,
        }
    }
}

/// The issues of all rows, row after row.
pub open spec fn all_issues(rows: Seq<Seq<FieldText>>) -> Seq<Issue>
    decreases rows.len(),
{
    if rows.len() == 0 {
        Seq::empty()
    } else {
        all_issues(rows.drop_last()) + row_issues(rows.last(), (rows.len() - 1) as usize)
    }
}

/// What is wrong with `field`, if anything is.
pub fn check_field(field: &Field) -> (out: Option<IssueKind>)
    ensures
        out == issue_of(field@),
{
    if field.absent {
        return None;
    }
    let raw = chars_of(field.raw.as_str());
    match tag_of_field(field, &raw) {
        TypeTag::Number => if field.numeral.is_none() {
            Some(IssueKind::ParseFailure)
        } else {
            None
        },
        TypeTag::Timestamp => if !(datetime_at(&raw, 0, 'T') || datetime_at(&raw, 0, ' ')) {
            Some(IssueKind::MalformedTimestamp)
        } else {
            None
        },
        _ => None,
    }
}

/// Lists every field of `rows` that a writer would coerce: every number
/// without a numeral and every timestamp without a date-time, row after row
/// and within a row field after field.
pub fn find_issues(rows: &Vec<Vec<Field>>) -> (out: Vec<Issue>)
    ensures
        out@ == all_issues(field_grid(rows@)),
{
    let ghost all = field_grid(rows@);
    let mut out: Vec<Issue> = Vec::new();
    let mut r: usize = 0;
    assert(out@ =~= all_issues(all.take(0)));
    while r < rows.len()
        invariant
            r <= rows.len(),
            all == field_grid(rows@),
            out@ == all_issues(all.take(r as int)),
        decreases rows.len() - r,
    {
        let row = &rows[r];
        let ghost start = out@;
        let ghost fs = fields(row@);
        let mut k: usize = 0;
        assert(out@ =~= start + row_issues(fs.take(0), r));
        while k < row.len()
            invariant
                k <= row.len(),
                fs == fields(row@),
                out@ == start + row_issues(fs.take(k as int), r),
            decreases row.len() - k,
        {
            let ghost before = out@;
            let found = check_field(&row[k]);
            proof {
                assert(fs.take(k + 1).drop_last() =~= fs.take(k as int));
                assert(fs.take(k + 1).last() == row@[k as int]@);
            }
            match found {
                Some(kind) => {
                    out.push(Issue { row: r, column: k, kind });
                    assert(out@ =~= start + row_issues(fs.take(k + 1), r));
                },
                None => {},
            }
            k += 1;
        }
        proof {
            assert(fs.take(row.len() as int) =~= fs);
            assert(all.take(r + 1).drop_last() =~= all.take(r as int));
            assert(all.take(r + 1).last() == fs);
        }
        r += 1;
    }
    assert(all.take(rows.len() as int) =~= all);
    out
}

/// What becomes of rows that hold a field with an issue.
#[derive(Clone, Copy, Debug, PartialEq, Eq, Structural)]
pub enum Policy {
    /// They are written, with the coerced values.
    Lenient,
    /// They are left out.
    SkipRows,
    /// Nothing is written: the conversion fails.
    Fail,
}

/// Whether no field of `row` has an issue.
pub open spec fn is_clean(row: Seq<FieldText>) -> bool {
    forall|i: int| 0 <= i < row.len() ==> issue_of(#[trigger] row[i]).is_none()
}

/// The rows that are written under `policy`, where any are.
pub open spec fn rows_under(rows: Seq<Seq<FieldText>>, policy: Policy) -> Seq<Seq<FieldText>> {
    if policy == Policy::SkipRows {
        rows.filter(|r: Seq<FieldText>| is_clean(r))
    } else {
        rows
    }
}

/// A row has no issues exactly where it is clean.
pub proof fn lemma_clean_row(row: Seq<FieldText>, r: usize)
    ensures
        row_issues(row, r).len() == 0 <==> is_clean(row),
    decreases row.len(),
{
    if row.len() > 0 {
        let head = row.drop_last();
        lemma_clean_row(head, r);
        if is_clean(row) {
            assert forall|i: int| 0 <= i < head.len() implies issue_of(#[trigger] head[i]).is_none() by {
                assert(head[i] == row[i]);
            }
            assert(issue_of(row[row.len() - 1]).is_none());
        }
        if row_issues(row, r).len() == 0 {
            assert forall|i: int| 0 <= i < row.len() implies issue_of(#[trigger] row[i]).is_none() by {
                if i < head.len() {
                    assert(head[i] == row[i]);
                }
            }
        }
    }
}

/// A copy of `field`.
pub fn copy_field(field: &Field) -> (out: Field)
    ensures
        out@ == field@,
{
    let numeral = match &field.numeral {
        Some(n) => Some(n.clone()),
        None => None,
    };
    Field { raw: field.raw.clone(), numeral, tag: field.tag, absent: field.absent }
}

/// A copy of `row`.
pub fn copy_row(row: &Vec<Field>) -> (out: Vec<Field>)
    ensures
        fields(out@) == fields(row@),
{
    let mut out: Vec<Field> = Vec::new();
    let mut i: usize = 0;
    while i < row.len()
        invariant
            i <= row.len(),
            out@.len() == i,
            forall|j: int| 0 <= j < i ==> (#[trigger] out@[j])@ == row@[j]@,
        decreases row.len() - i,
    {
        out.push(copy_field(&row[i]));
        i += 1;
    }
    assert(fields(out@) =~= fields(row@));
    out
}

/// Whether no field of `row` has an issue.
pub fn check_row(row: &Vec<Field>) -> (b: bool)
    ensures
        b == is_clean(fields(row@)),
{
    let mut i: usize = 0;
    while i < row.len()
        invariant
            i <= row.len(),
            forall|j: int| 0 <= j < i ==> issue_of(#[trigger] fields(row@)[j]).is_none(),
        decreases row.len() - i,
    {
        if check_field(&row[i]).is_some() {
            assert(fields(row@)[i as int] == row@[i as int]@);
            return false;
        }
        assert(fields(row@)[i as int] == row@[i as int]@);
        i += 1;
    }
    true
}

/// Puts `policy` into effect. Under `Lenient` all rows are written. Under
/// `SkipRows` the rows are written that hold no field with an issue. Under
/// `Fail` all rows are written if there is no issue at all, and otherwise
/// none is: the issues are returned in their place.
pub fn enforce(rows: &Vec<Vec<Field>>, policy: Policy) -> (result: Result<Vec<Vec<Field>>, Vec<Issue>>)
    ensures
        result.is_err() <==> policy == Policy::Fail && all_issues(field_grid(rows@)).len() > 0,
        result matches Ok(kept) ==> field_grid(kept@) == rows_under(field_grid(rows@), policy),
        result matches Err(issues) ==> issues@ == all_issues(field_grid(rows@)),
{
    if policy == Policy::Fail {
        let issues = find_issues(rows);
        if issues.len() > 0 {
            return Err(issues);
        }
    }
    let ghost all = field_grid(rows@);
    let ghost clean = |r: Seq<FieldText>| is_clean(r);
    let mut kept: Vec<Vec<Field>> = Vec::new();
    let mut r: usize = 0;
    assert(all.take(0).filter(clean) =~= Seq::<Seq<FieldText>>::empty()) by {
        assert(all.take(0) =~= Seq::<Seq<FieldText>>::empty());
    }
    assert(field_grid(kept@) =~= rows_under(all.take(0), policy));
    while r < rows.len()
        invariant
            r <= rows.len(),
            all == field_grid(rows@),
            clean == (|r: Seq<FieldText>| is_clean(r)),
            field_grid(kept@) == rows_under(all.take(r as int), policy),
        decreases rows.len() - r,
    {
        let ghost before = kept@;
        proof {
            assert(all[r as int] == fields(rows@[r as int]@));
            assert(all.take(r + 1) =~= all.take(r as int).push(all[r as int]));
            all.take(r as int).lemma_filter_push(all[r as int], clean);
        }
        if policy != Policy::SkipRows || check_row(&rows[r]) {
            let row = copy_row(&rows[r]);
            kept.push(row);
            assert(field_grid(kept@) =~= field_grid(before).push(all[r as int]));
        }
        r += 1;
    }
    assert(all.take(rows.len() as int) =~= all);
    Ok(kept)
}

} // verus!
