//! Delimited text: the reader and the writer.
//!
//! The first line names the columns and every further line is one row. A
//! line is cut at every occurrence of the separator and nowhere else: there
//! are no quotes and no escapes, so that a separator inside a field cannot
//! be written.

use crate::classify::TypeTag;
use crate::render::{csv_value, csv_value_of};
use crate::table::{field_grid, fields, rows_of, text_grid, Field, FieldText, Table};
use crate::text::{
    chars_of, chars_of_all, is_free_of, join, join_rest, join_text, lemma_lines_of_terminated,
    lemma_split_join, lines, lines_of, push_terminated, slice, split, split_text, string_of,
    strings, strings_of_all, terminated, texts,
};
use vstd::prelude::*;

verus! {

/// The line that names the columns: the first line, and the empty line
/// where the text has none.
pub open spec fn header_line(text: Seq<char>) -> Seq<char> {
    if lines(text).len() > 0 {
        lines(text)[0]
    } else {
        Seq::empty()
    }
}

/// The column names of a delimited text.
pub open spec fn csv_header(text: Seq<char>, separator: Seq<char>) -> Seq<Seq<char>> {
    split(header_line(text), separator)
}

/// The number of rows of a delimited text: one for every line after the
/// first.
pub open spec fn csv_row_count(text: Seq<char>) -> nat {
    if lines(text).len() > 0 {
        (lines(text).len() - 1) as nat
    } else {
        0
    }
}

/// The rows of a delimited text.
pub open spec fn csv_rows(text: Seq<char>, separator: Seq<char>) -> Seq<Seq<Seq<char>>> {
    Seq::new(csv_row_count(text), |r: int| split(lines(text)[r + 1], separator))
}

/// What is written for the fields of `row`.
pub open spec fn csv_values(row: Seq<FieldText>) -> Seq<Seq<char>> {
    row.map_values(|f: FieldText| csv_value(f))
}

/// The lines of a delimited text: the column names, then one line for every
/// row, the fields of a line with the separator between them.
pub open spec fn csv_lines(
    header: Seq<Seq<char>>,
    rows: Seq<Seq<FieldText>>,
    separator: Seq<char>,
) -> Seq<Seq<char>> {
    seq![join(header, separator)] + Seq::new(
        rows.len(),
        |r: int| join(csv_values(rows[r]), separator),
    )
}

/// The delimited text: every line followed by a line feed.
pub open spec fn csv_text(
    header: Seq<Seq<char>>,
    rows: Seq<Seq<FieldText>>,
    separator: Seq<char>,
) -> Seq<char> {
    terminated(csv_lines(header, rows, separator), "\n"@)
}

/// Reads delimited text. The first line gives the column names and every
/// further line a row; each is cut at the separator. A row may have more or
/// fewer fields than there are columns. An empty separator cuts nowhere.
/// Fields and columns go together by position, and the table says nothing of
/// types.
pub fn read_csv(text: &str, separator: &str) -> (table: Table)
    ensures
        table.names() == csv_header(text@, separator@),
        table.fields() == csv_rows(text@, separator@),
        table.types() == Seq::<Seq<Option<TypeTag>>>::empty(),
{
    let all = lines_of(&chars_of(text));
    let sep = chars_of(separator);
    let ghost ls = lines(text@);
    let first: Vec<char> = if all.len() > 0 {
        assert(ls[0] == all@[0]@);
        slice(&all[0], 0, all[0].len())
    } else {
        Vec::new()
    };
    assert(first@ =~= header_line(text@));
    let header = split_text(&first, &sep);
    let mut rows: Vec<Vec<Vec<char>>> = Vec::new();
    let mut i: usize = 1;
    while i < all.len()
        invariant
            1 <= i,
            i <= all.len() || i == 1,
            ls == lines(text@),
            texts(all@) == ls,
            sep@ == separator@,
            rows@.len() == i - 1,
            forall|r: int| 0 <= r < i - 1 ==> texts((#[trigger] rows@[r])@) == split(ls[r + 1], sep@),
        decreases all.len() - i,
    {
        assert(ls[i as int] == all@[i as int]@);
        let row = split_text(&all[i], &sep);
        rows.push(row);
        i += 1;
    }
    assert(ls.len() == all@.len());
    assert(rows@.len() == csv_row_count(text@));
    assert forall|r: int| 0 <= r < rows@.len() implies text_grid(rows@)[r] == csv_rows(
        text@,
        separator@,
    )[r] by {
        assert(text_grid(rows@)[r] == texts(rows@[r]@));
    }
    assert(text_grid(rows@) =~= csv_rows(text@, separator@));
    let table = Table { header: strings_of_all(&header), rows: rows_of(&rows), tags: Vec::new() };
    assert(table.types() =~= Seq::<Seq<Option<TypeTag>>>::empty());
    table
}

/// What is written for the fields of `row`.
pub fn csv_values_of(row: &Vec<Field>) -> (out: Vec<Vec<char>>)
    ensures
        texts(out@) == csv_values(fields(row@)),
{
    let mut out: Vec<Vec<char>> = Vec::new();
    let mut k: usize = 0;
    while k < row.len()
        invariant
            k <= row.len(),
            out@.len() == k,
            forall|j: int| 0 <= j < k ==> (#[trigger] out@[j])@ == csv_value(row@[j]@),
        decreases row.len() - k,
    {
        out.push(csv_value_of(&row[k]));
        k += 1;
    }
    assert(texts(out@) =~= csv_values(fields(row@)));
    out
}

/// Writes rows as delimited text: the column names on the first line, then
/// one line for every row, each line ended by a line feed.
pub fn write_csv(header: &Vec<String>, rows: &Vec<Vec<Field>>, separator: &str) -> (out: String)
    ensures
        out@ == csv_text(strings(header@), field_grid(rows@), separator@),
{
    let sep = chars_of(separator);
    let names = chars_of_all(header);
    let ghost all = field_grid(rows@);
    let ghost want = csv_lines(strings(header@), all, separator@);
    let mut lines: Vec<Vec<char>> = Vec::new();
    lines.push(join_text(&names, &sep));
    let mut r: usize = 0;
    while r < rows.len()
        invariant
            r <= rows.len(),
            sep@ == separator@,
            all == field_grid(rows@),
            want == csv_lines(strings(header@), all, separator@),
            lines@.len() == r + 1,
            forall|j: int| 0 <= j < r + 1 ==> (#[trigger] lines@[j])@ == want[j],
        decreases rows.len() - r,
    {
        let values = csv_values_of(&rows[r]);
        assert(all[r as int] == fields(rows@[r as int]@));
        lines.push(join_text(&values, &sep));
        r += 1;
    }
    assert(texts(lines@) =~= want);
    let mut out: Vec<char> = Vec::new();
    push_terminated(&mut out, &lines, &chars_of("\n"));
    string_of(&out)
}

/// Whether a value can be written in delimited text and read back: neither
/// the separator `c` nor a line feed nor a carriage return occurs in it.
pub open spec fn is_plain(v: Seq<char>, c: char) -> bool {
    is_free_of(v, c) && is_free_of(v, '\n') && is_free_of(v, '\r')
}

/// What follows the first `k` of some plain values that are joined with `c`
/// holds neither line feed nor carriage return.
proof fn lemma_joined_rest(values: Seq<Seq<char>>, k: int, c: char)
    requires
        0 <= k,
        c != '\n',
        c != '\r',
        forall|i: int| 0 <= i < values.len() ==> is_plain(#[trigger] values[i], c),
    ensures
        is_free_of(join_rest(values, k, seq![c]), '\n'),
        is_free_of(join_rest(values, k, seq![c]), '\r'),
    decreases values.len() - k,
{
    if k < values.len() {
        lemma_joined_rest(values, k + 1, c);
        assert(is_plain(values[k], c));
    }
}

/// A line of plain values, joined with `c`, holds neither line feed nor
/// carriage return.
pub proof fn lemma_joined_line(values: Seq<Seq<char>>, c: char)
    requires
        c != '\n',
        c != '\r',
        forall|i: int| 0 <= i < values.len() ==> is_plain(#[trigger] values[i], c),
    ensures
        is_free_of(join(values, seq![c]), '\n'),
        is_free_of(join(values, seq![c]), '\r'),
{
    if values.len() > 0 {
        lemma_joined_rest(values, 1, c);
        assert(is_plain(values[0], c));
    }
}

/// What is written as delimited text is read back as it was written: the
/// same column names and, for every row, the values that were written for
/// its fields.
///
/// This holds where the separator is one character, neither line feed nor
/// carriage return; where there is a column, and a field in every row; and
/// where every name and every written value is plain. A value in which the
/// separator occurs is read back as two.
pub proof fn lemma_csv_round_trip(
    header: Seq<Seq<char>>,
    rows: Seq<Seq<FieldText>>,
    separator: Seq<char>,
)
    requires
        separator.len() == 1,
        separator[0] != '\n',
        separator[0] != '\r',
        header.len() > 0,
        forall|i: int| 0 <= i < header.len() ==> is_plain(#[trigger] header[i], separator[0]),
        forall|r: int| 0 <= r < rows.len() ==> (#[trigger] rows[r]).len() > 0,
        forall|r: int, i: int|
            0 <= r < rows.len() && 0 <= i < rows[r].len() ==> is_plain(
                csv_value(#[trigger] rows[r][i]),
                separator[0],
            ),
    ensures
        csv_header(csv_text(header, rows, separator), separator) == header,
        csv_rows(csv_text(header, rows, separator), separator) == Seq::new(
            rows.len(),
            |r: int| csv_values(rows[r]),
        ),
{
    let c = separator[0];
    assert(separator =~= seq![c]);
    assert("\n"@ =~= seq!['\n']) by {
        reveal_strlit("\n");
    }
    let written = csv_lines(header, rows, separator);
    let text = csv_text(header, rows, separator);
    assert forall|j: int| 0 <= j < written.len() implies is_free_of(#[trigger] written[j], '\n')
        && is_free_of(written[j], '\r') by {
        if j == 0 {
            lemma_joined_line(header, c);
        } else {
            let values = csv_values(rows[j - 1]);
            assert forall|i: int| 0 <= i < values.len() implies is_plain(
                #[trigger] values[i],
                c,
            ) by {
                assert(is_plain(csv_value(rows[j - 1][i]), c));
            }
            lemma_joined_line(values, c);
        }
    }
    lemma_lines_of_terminated(written);
    assert(lines(text) == written);
    lemma_split_join(header, c);
    assert(header_line(text) == join(header, separator));
    assert forall|r: int| 0 <= r < rows.len() implies csv_rows(text, separator)[r] == csv_values(
        rows[r],
    ) by {
        let values = csv_values(rows[r]);
        assert forall|i: int| 0 <= i < values.len() implies is_free_of(#[trigger] values[i], c) by {
            assert(is_plain(csv_value(rows[r][i]), c));
        }
        lemma_split_join(values, c);
        assert(written[r + 1] == join(values, separator));
    }
    assert(csv_rows(text, separator) =~= Seq::new(rows.len(), |r: int| csv_values(rows[r])));
}

} // verus!
