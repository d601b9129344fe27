//! Relational dump scripts: the writer.
//!
//! A script drops the table, creates it with one column for every column of
//! the schema, and inserts every row with a statement of its own, one value
//! on a line. The schema is collected from the rows themselves, the first
//! value seen in a column deciding its type.

use crate::classify::TypeTag;
use crate::render::{option_text, sql_value, sql_value_of};
use crate::schema::{
    column_type_for, distinct_names, first_tag, has_column, lemma_first_decides,
    lemma_first_seen_wins, lemma_first_tag_append, observed_all, type_of, ColumnType, Columns,
    Schema, SchemaBuilder,
};
use crate::table::{field_grid, field_tag, fields, tag_of_field, Field, FieldText};
use crate::text::{
    chars_of, join, join_text, present, push_all, push_str, slice, string_of, strings, texts,
};
use vstd::prelude::*;

verus! {

/// What the comment block at the head of a script says.
#[derive(Debug)]
pub struct Heading {
    /// What kind of input the table was read from, as in `CSV file`.
    pub source: String,
    /// The name of the input file.
    pub input: String,
    /// The name of the output file.
    pub output: String,
    /// The name and version of the program that writes the script.
    pub signature: String,
    /// The time at which the script is written, as it is to be shown.
    pub generated_at: String,
}

/// The model of a heading.
pub struct HeadingText {
    pub source: Seq<char>,
    pub input: Seq<char>,
    pub output: Seq<char>,
    pub signature: Seq<char>,
    pub generated_at: Seq<char>,
}

impl View for Heading {
    type V = HeadingText;

    open spec fn view(&self) -> HeadingText {
        HeadingText {
            source: self.source@,
            input: self.input@,
            output: self.output@,
            signature: self.signature@,
            generated_at: self.generated_at@,
        }
    }
}

/// The model of an optional heading.
pub open spec fn option_heading(h: Option<&Heading>) -> Option<HeadingText> {
    match h {
        Some(x) => Some(x@),
        None => None,
    }
}

/// The character of the decimal digit `d`.
pub open spec fn digit_char(d: int) -> char {
    ((48 + d) as u8) as char
}

/// `n` in decimal notation.
pub open spec fn decimal(n: nat) -> Seq<char>
    decreases n,
{
    if n < 10 {
        seq![digit_char(n as int)]
    } else {
        decimal(n / 10).push(digit_char((n % 10) as int))
    }
}

/// How a column type is declared in a script.
pub open spec fn type_text(t: ColumnType) -> Seq<char> {
    match t {
        ColumnType::ObjectIdRef => "VARCHAR(24)"@,
        ColumnType::Timestamp => "TIMESTAMP"@,
        ColumnType::Number(places) => "NUMERIC(15, "@ + decimal(places as nat) + ")"@,
        ColumnType::Boolean => "BOOLEAN"@,
        ColumnType::Text(width) => "VARCHAR("@ + decimal(width as nat) + ")"@,
    }
}

/// How one column is declared: its name between backticks and its type.
pub open spec fn column_text(c: (Seq<char>, ColumnType)) -> Seq<char> {
    "`"@ + c.0 + "` "@ + type_text(c.1)
}

/// The line that declares the `i`-th column: the declaration, then a comma,
/// or `);` after the last, which closes the definition.
pub open spec fn column_line(cols: Columns, i: int) -> Seq<char> {
    if i + 1 < cols.len() {
        column_text(cols[i]) + ","@
    } else {
        column_text(cols[i]) + ");"@
    }
}

/// The line that opens the table definition. Where there are no columns it
/// closes the definition too: the parentheses stay empty.
pub open spec fn create_line(table: Seq<char>, cols: Columns) -> Seq<char> {
    if cols.len() == 0 {
        "CREATE TABLE IF NOT EXISTS `"@ + table + "` ("@ + ");"@
    } else {
        "CREATE TABLE IF NOT EXISTS `"@ + table + "` ("@
    }
}

/// The table definition: the opening line and one line for every column.
pub open spec fn definition(table: Seq<char>, cols: Columns) -> Seq<Seq<char>> {
    seq![create_line(table, cols)] + Seq::new(cols.len(), |i: int| column_line(cols, i))
}

/// The line that opens the statement of a row.
pub open spec fn insert_line(table: Seq<char>) -> Seq<char> {
    "INSERT INTO `"@ + table + "` VALUES ("@
}

/// The line of the `i`-th value of a statement: the value, then a comma, or
/// `);` after the last.
pub open spec fn value_line(values: Seq<Seq<char>>, i: int) -> Seq<char> {
    if i + 1 < values.len() {
        values[i] + ","@
    } else {
        values[i] + ");"@
    }
}

/// The lines of the statement that inserts a row with these values: the
/// opening line, one line for every value, and an empty line. There is no
/// statement for a row without values.
pub open spec fn statement(table: Seq<char>, values: Seq<Seq<char>>) -> Seq<Seq<char>> {
    if values.len() == 0 {
        Seq::empty()
    } else {
        seq![insert_line(table)] + Seq::new(values.len(), |i: int| value_line(values, i)) + seq![
            ""@,
        ]
    }
}

/// What is written for the fields of `row`, without the fields that are left
/// out.
pub open spec fn sql_values(row: Seq<FieldText>, keep_blank: bool) -> Seq<Seq<char>> {
    present(row.map_values(|f: FieldText| sql_value(f, keep_blank)))
}

/// The lines of the statements of `rows`, one row after the other.
pub open spec fn statement_lines(
    table: Seq<char>,
    rows: Seq<Seq<FieldText>>,
    keep_blank: bool,
) -> Seq<Seq<char>>
    decreases rows.len(),
{
    if rows.len() == 0 {
        Seq::empty()
    } else {
        statement_lines(table, rows.drop_last(), keep_blank) + statement(
            table,
            sql_values(rows.last(), keep_blank),
        )
    }
}

/// Whether a field shows its column a type: a value is written for it, and
/// it does not stand for a value that is not there.
pub open spec fn shows(f: FieldText, keep_blank: bool) -> bool {
    !f.absent && sql_value(f, keep_blank).is_some()
}

/// What the fields of `row` show of the columns: for every field that is
/// written and has a column name at its position, that name and the field's
/// type. A field that stands for a value that is not there shows nothing.
pub open spec fn row_observations(
    header: Seq<Seq<char>>,
    row: Seq<FieldText>,
    keep_blank: bool,
) -> Seq<(Seq<char>, TypeTag)>
    decreases row.len(),
{
    if row.len() == 0 {
        Seq::empty()
    } else {
        let before = row_observations(header, row.drop_last(), keep_blank);
        let i = row.len() - 1;
        if i < header.len() && shows(row.last(), keep_blank) {
            before.push((header[i], field_tag(row.last())))
        } else {
            before
        }
    }
}

/// What the fields of `rows` show of the columns, row after row.
pub open spec fn observations(
    header: Seq<Seq<char>>,
    rows: Seq<Seq<FieldText>>,
    keep_blank: bool,
) -> Seq<(Seq<char>, TypeTag)>
    decreases rows.len(),
{
    if rows.len() == 0 {
        Seq::empty()
    } else {
        observations(header, rows.drop_last(), keep_blank) + row_observations(
            header,
            rows.last(),
            keep_blank,
        )
    }
}

/// The schema of `rows`: every column's type is decided by the first field
/// that is written in it.
pub open spec fn schema_of(
    header: Seq<Seq<char>>,
    rows: Seq<Seq<FieldText>>,
    keep_blank: bool,
) -> Columns {
    observed_all(observations(header, rows, keep_blank))
}

/// The comment block: what was converted, by what, and when; then an empty
/// line.
pub open spec fn comment_lines(table: Seq<char>, h: HeadingText) -> Seq<Seq<char>> {
    seq![
        "-- SQL table dump from "@ + h.source + ": "@ + table + " ("@ + h.input + " -> "@
            + h.output + ")"@,
        "-- Generated by: "@ + h.signature,
        "-- Generated at: "@ + h.generated_at,
        ""@,
    ]
}

/// The lines before the table: the comment block, if there is a heading, and
/// the line that selects the database, if one is named.
pub open spec fn preamble(table: Seq<char>, database: Seq<char>, heading: Option<HeadingText>) -> Seq<
    Seq<char>,
> {
    let comments = match heading {
        Some(h) => comment_lines(table, h),
        None => Seq::empty(),
    };
    if database.len() > 0 {
        comments.push("USE `"@ + database + "`;"@)
    } else {
        comments
    }
}

/// The lines of a script.
pub open spec fn sql_lines(
    table: Seq<char>,
    header: Seq<Seq<char>>,
    rows: Seq<Seq<FieldText>>,
    database: Seq<char>,
    heading: Option<HeadingText>,
    keep_blank: bool,
) -> Seq<Seq<char>> {
    preamble(table, database, heading).push("DROP TABLE IF EXISTS `"@ + table + "`;"@) + definition(
        table,
        schema_of(header, rows, keep_blank),
    ) + seq![""@] + statement_lines(table, rows, keep_blank)
}

/// The script: its lines with a line feed between each two.
pub open spec fn sql_text(
    table: Seq<char>,
    header: Seq<Seq<char>>,
    rows: Seq<Seq<FieldText>>,
    database: Seq<char>,
    heading: Option<HeadingText>,
    keep_blank: bool,
) -> Seq<char> {
    join(sql_lines(table, header, rows, database, heading, keep_blank), "\n"@)
}

/// `n` in decimal notation.
pub fn decimal_of(n: u32) -> (out: Vec<char>)
    ensures
        out@ == decimal(n as nat),
    decreases n,
{
    if n < 10 {
        let mut out: Vec<char> = Vec::new();
        out.push((48 + n as u8) as char);
        assert(out@ =~= decimal(n as nat));
        out
    } else {
        let mut out = decimal_of(n / 10);
        out.push((48 + (n % 10) as u8) as char);
        out
    }
}

/// How a column type is declared in a script.
pub fn type_text_of(t: ColumnType) -> (out: Vec<char>)
    ensures
        out@ == type_text(t),
{
    match t {
        ColumnType::ObjectIdRef => chars_of("VARCHAR(24)"),
        ColumnType::Timestamp => chars_of("TIMESTAMP"),
        ColumnType::Number(places) => {
            let mut out = chars_of("NUMERIC(15, ");
            push_all(&mut out, &decimal_of(places));
            push_str(&mut out, ")");
            out
        },
        ColumnType::Boolean => chars_of("BOOLEAN"),
        ColumnType::Text(width) => {
            let mut out = chars_of("VARCHAR(");
            push_all(&mut out, &decimal_of(width));
            push_str(&mut out, ")");
            out
        },
    }
}

/// The table definition for `schema`.
pub fn definition_of(table: &Vec<char>, schema: &Schema) -> (out: Vec<Vec<char>>)
    ensures
        texts(out@) == definition(table@, schema@),
{
    let ghost cols = schema@;
    let n = schema.columns.len();
    let mut first = chars_of("CREATE TABLE IF NOT EXISTS `");
    push_all(&mut first, table);
    push_str(&mut first, "` (");
    if n == 0 {
        push_str(&mut first, ");");
    }
    let mut out: Vec<Vec<char>> = Vec::new();
    out.push(first);
    let mut i: usize = 0;
    while i < n
        invariant
            i <= n,
            n == schema.columns.len(),
            cols == schema@,
            out@.len() == i + 1,
            out@[0]@ == create_line(table@, cols),
            forall|j: int| 0 <= j < i ==> (#[trigger] out@[j + 1])@ == column_line(cols, j),
        decreases n - i,
    {
        let mut line = chars_of("`");
        push_all(&mut line, &chars_of(schema.columns[i].name.as_str()));
        push_str(&mut line, "` ");
        push_all(&mut line, &type_text_of(schema.columns[i].column_type));
        if i + 1 < n {
            push_str(&mut line, ",");
        } else {
            push_str(&mut line, ");");
        }
        assert(cols[i as int] == (schema.columns@[i as int].name@, schema.columns@[i as int].column_type));
        assert(line@ == column_line(cols, i as int));
        let ghost before = out@;
        out.push(line);
        assert forall|j: int| 0 <= j < i + 1 implies (#[trigger] out@[j + 1])@ == column_line(
            cols,
            j,
        ) by {
            if j < i {
                assert(out@[j + 1] == before[j + 1]);
            }
        }
        i += 1;
    }
    let ghost want = definition(table@, cols);
    assert(want.len() == n + 1);
    assert forall|j: int| 0 <= j < out@.len() implies texts(out@)[j] == want[j] by {
        if j > 0 {
            assert(out@[(j - 1) + 1]@ == column_line(cols, j - 1));
        }
    }
    assert(texts(out@) =~= want);
    out
}

/// What is written for the fields of `row`, without the fields that are left
/// out.
pub fn sql_values_of(row: &Vec<Field>, keep_blank: bool) -> (out: Vec<Vec<char>>)
    ensures
        texts(out@) == sql_values(fields(row@), keep_blank),
{
    let ghost all = fields(row@).map_values(|f: FieldText| sql_value(f, keep_blank));
    let mut out: Vec<Vec<char>> = Vec::new();
    let mut k: usize = 0;
    assert(texts(out@) =~= present(all.take(0)));
    while k < row.len()
        invariant
            k <= row.len(),
            all == fields(row@).map_values(|f: FieldText| sql_value(f, keep_blank)),
            texts(out@) == present(all.take(k as int)),
        decreases row.len() - k,
    {
        let ghost before = out@;
        let value = sql_value_of(&row[k], keep_blank);
        proof {
            assert(all.take(k + 1).drop_last() =~= all.take(k as int));
            assert(all.take(k + 1).last() == option_text(value));
        }
        match value {
            Some(v) => {
                out.push(v);
                assert(texts(out@) =~= texts(before).push(v@));
            },
            None => {},
        }
        k += 1;
    }
    assert(all.take(row.len() as int) =~= all);
    out
}

/// Appends the lines of the statement that inserts a row with these values
/// to `out`.
pub fn push_statement(out: &mut Vec<Vec<char>>, table: &Vec<char>, values: &Vec<Vec<char>>)
    ensures
        texts(final(out)@) == texts(old(out)@) + statement(table@, texts(values@)),
{
    if values.len() == 0 {
        assert(texts(out@) =~= texts(out@) + statement(table@, texts(values@)));
        return ;
    }
    let ghost start = texts(out@);
    let ghost vs = texts(values@);
    let mut first = chars_of("INSERT INTO `");
    push_all(&mut first, table);
    push_str(&mut first, "` VALUES (");
    let ghost before = out@;
    out.push(first);
    assert(texts(out@) =~= start + seq![insert_line(table@)]) by {
        assert(texts(out@) =~= texts(before).push(first@));
    }
    let mut i: usize = 0;
    while i < values.len()
        invariant
            i <= values.len(),
            vs == texts(values@),
            texts(out@) == start + seq![insert_line(table@)] + Seq::new(
                i as nat,
                |j: int| value_line(vs, j),
            ),
        decreases values.len() - i,
    {
        let ghost prior = out@;
        let mut line = slice(&values[i], 0, values[i].len());
        assert(line@ =~= vs[i as int]);
        if i + 1 < values.len() {
            push_str(&mut line, ",");
        } else {
            push_str(&mut line, ");");
        }
        out.push(line);
        i += 1;
        assert(texts(out@) =~= texts(prior).push(value_line(vs, i - 1)));
        assert(Seq::new(i as nat, |j: int| value_line(vs, j)) =~= Seq::new(
            (i - 1) as nat,
            |j: int| value_line(vs, j),
        ).push(value_line(vs, i - 1)));
    }
    let ghost prior = out@;
    out.push(chars_of(""));
    assert(texts(out@) =~= texts(prior).push(""@));
    assert(texts(out@) =~= start + statement(table@, vs));
}

/// Records in `builder` what the fields of `row` show of the columns, where
/// `seen` is what the builder was shown so far.
fn observe_row(
    builder: &mut SchemaBuilder,
    header: &Vec<String>,
    row: &Vec<Field>,
    keep_blank: bool,
    Ghost(seen): Ghost<Seq<(Seq<char>, TypeTag)>>,
)
    requires
        old(builder)@ == observed_all(seen),
    ensures
        final(builder)@ == observed_all(
            seen + row_observations(strings(header@), fields(row@), keep_blank),
        ),
{
    let ghost names = strings(header@);
    let ghost all = fields(row@);
    let mut k: usize = 0;
    assert(seen + row_observations(names, all.take(0), keep_blank) =~= seen);
    while k < row.len()
        invariant
            k <= row.len(),
            names == strings(header@),
            all == fields(row@),
            builder@ == observed_all(seen + row_observations(names, all.take(k as int), keep_blank)),
        decreases row.len() - k,
    {
        let ghost so_far = seen + row_observations(names, all.take(k as int), keep_blank);
        proof {
            assert(all.take(k + 1).drop_last() =~= all.take(k as int));
            assert(all.take(k + 1).last() == row@[k as int]@);
        }
        if k < header.len() && !row[k].absent {
            let value = sql_value_of(&row[k], keep_blank);
            if value.is_some() {
                let raw = chars_of(row[k].raw.as_str());
                let tag = tag_of_field(&row[k], &raw);
                builder.observe(header[k].as_str(), tag);
                proof {
                    let next = so_far.push((names[k as int], tag));
                    assert(next.drop_last() =~= so_far);
                    assert(seen + row_observations(names, all.take(k + 1), keep_blank) =~= next);
                }
            }
        }
        k += 1;
    }
    assert(all.take(row.len() as int) =~= all);
}

/// The schema of `rows`.
pub fn infer_schema(header: &Vec<String>, rows: &Vec<Vec<Field>>, keep_blank: bool) -> (schema:
    Schema)
    ensures
        schema@ == schema_of(strings(header@), field_grid(rows@), keep_blank),
        distinct_names(schema@),
{
    let ghost names = strings(header@);
    let ghost all = field_grid(rows@);
    let mut builder = SchemaBuilder::new();
    let mut r: usize = 0;
    while r < rows.len()
        invariant
            r <= rows.len(),
            names == strings(header@),
            all == field_grid(rows@),
            builder@ == observed_all(observations(names, all.take(r as int), keep_blank)),
        decreases rows.len() - r,
    {
        proof {
            assert(all.take(r + 1).drop_last() =~= all.take(r as int));
            assert(all.take(r + 1).last() == fields(rows@[r as int]@));
        }
        observe_row(
            &mut builder,
            header,
            &rows[r],
            keep_blank,
            Ghost(observations(names, all.take(r as int), keep_blank)),
        );
        r += 1;
    }
    assert(all.take(rows.len() as int) =~= all);
    builder.resolve()
}

/// The lines before the table.
pub fn preamble_of(table: &Vec<char>, database: &str, heading: Option<&Heading>) -> (out: Vec<
    Vec<char>,
>)
    ensures
        texts(out@) == preamble(table@, database@, option_heading(heading)),
{
    let mut out: Vec<Vec<char>> = Vec::new();
    match heading {
        Some(h) => {
            let mut a = chars_of("-- SQL table dump from ");
            push_str(&mut a, h.source.as_str());
            push_str(&mut a, ": ");
            push_all(&mut a, table);
            push_str(&mut a, " (");
            push_str(&mut a, h.input.as_str());
            push_str(&mut a, " -> ");
            push_str(&mut a, h.output.as_str());
            push_str(&mut a, ")");
            let mut b = chars_of("-- Generated by: ");
            push_str(&mut b, h.signature.as_str());
            let mut c = chars_of("-- Generated at: ");
            push_str(&mut c, h.generated_at.as_str());
            out.push(a);
            out.push(b);
            out.push(c);
            out.push(chars_of(""));
            assert(texts(out@) =~= comment_lines(table@, h@));
        },
        None => {
            assert(texts(out@) =~= Seq::<Seq<char>>::empty());
        },
    }
    let db = chars_of(database);
    if db.len() > 0 {
        let ghost before = out@;
        let mut line = chars_of("USE `");
        push_all(&mut line, &db);
        push_str(&mut line, "`;");
        out.push(line);
        assert(texts(out@) =~= texts(before).push("USE `"@ + database@ + "`;"@));
    }
    out
}

/// Writes rows as a dump script for the table `table`: the comment block
/// where `heading` is given, the selection of `database` where one is named,
/// the table dropped and created with the schema of the rows, and one
/// statement for every row that has a value.
pub fn write_sql(
    table: &str,
    header: &Vec<String>,
    rows: &Vec<Vec<Field>>,
    database: &str,
    heading: Option<&Heading>,
    keep_blank: bool,
) -> (out: String)
    ensures
        out@ == sql_text(
            table@,
            strings(header@),
            field_grid(rows@),
            database@,
            option_heading(heading),
            keep_blank,
        ),
{
    let name = chars_of(table);
    let ghost all = field_grid(rows@);
    let mut lines = preamble_of(&name, database, heading);
    let mut drop = chars_of("DROP TABLE IF EXISTS `");
    push_all(&mut drop, &name);
    push_str(&mut drop, "`;");
    let ghost before = lines@;
    lines.push(drop);
    assert(texts(lines@) =~= texts(before).push("DROP TABLE IF EXISTS `"@ + table@ + "`;"@));
    let schema = infer_schema(header, rows, keep_blank);
    let mut create = definition_of(&name, &schema);
    let ghost head = texts(lines@) + texts(create@) + seq![""@];
    let ghost before = lines@;
    let ghost made = create@;
    lines.append(&mut create);
    assert(texts(lines@) =~= texts(before) + texts(made));
    let ghost before = lines@;
    lines.push(chars_of(""));
    assert(texts(lines@) =~= texts(before).push(""@));
    assert(texts(lines@) =~= head + statement_lines(table@, all.take(0), keep_blank));
    let mut r: usize = 0;
    while r < rows.len()
        invariant
            r <= rows.len(),
            all == field_grid(rows@),
            name@ == table@,
            texts(lines@) == head + statement_lines(table@, all.take(r as int), keep_blank),
        decreases rows.len() - r,
    {
        proof {
            assert(all.take(r + 1).drop_last() =~= all.take(r as int));
            assert(all.take(r + 1).last() == fields(rows@[r as int]@));
        }
        let values = sql_values_of(&rows[r], keep_blank);
        push_statement(&mut lines, &name, &values);
        r += 1;
    }
    assert(all.take(rows.len() as int) =~= all);
    let text = join_text(&lines, &chars_of("\n"));
    string_of(&text)
}

/// What the first `j` rows show of the columns is the beginning of what the
/// first `k` rows show, for `j <= k`.
pub proof fn lemma_observations_grow(
    header: Seq<Seq<char>>,
    rows: Seq<Seq<FieldText>>,
    j: int,
    k: int,
    keep_blank: bool,
)
    requires
        0 <= j <= k <= rows.len(),
    ensures
        observations(header, rows.take(j), keep_blank).is_prefix_of(
            observations(header, rows.take(k), keep_blank),
        ),
    decreases k - j,
{
    if j < k {
        lemma_observations_grow(header, rows, j, k - 1, keep_blank);
        assert(rows.take(k).drop_last() =~= rows.take(k - 1));
    }
}

/// First seen wins, row by row: a column that is in the schema after the
/// first `j` rows has after the first `k` rows, for `j <= k`, the type that
/// it had after `j`, whatever the rows between hold.
pub proof fn lemma_schema_first_seen(
    header: Seq<Seq<char>>,
    rows: Seq<Seq<FieldText>>,
    j: int,
    k: int,
    keep_blank: bool,
    name: Seq<char>,
)
    requires
        0 <= j <= k <= rows.len(),
        has_column(schema_of(header, rows.take(j), keep_blank), name),
    ensures
        type_of(schema_of(header, rows.take(k), keep_blank), name) == type_of(
            schema_of(header, rows.take(j), keep_blank),
            name,
        ),
{
    let early = observations(header, rows.take(j), keep_blank);
    let late = observations(header, rows.take(k), keep_blank);
    lemma_observations_grow(header, rows, j, k, keep_blank);
    assert(late.take(early.len() as int) =~= early);
    assert(late.take(late.len() as int) =~= late);
    lemma_first_seen_wins(late, early.len() as int, late.len() as int, name);
}

/// The tag of the first field that shows the column with index `c` a type,
/// from the first row to the last; `None` where no field shows it one.
pub open spec fn column_first_tag(rows: Seq<Seq<FieldText>>, c: int, keep_blank: bool) -> Option<
    TypeTag,
>
    decreases rows.len(),
{
    if rows.len() == 0 {
        None
    } else {
        match column_first_tag(rows.drop_last(), c, keep_blank) {
            Some(t) => Some(t),
            None => if 0 <= c < rows.last().len() && shows(rows.last()[c], keep_blank) {
                Some(field_tag(rows.last()[c]))
            } else {
                None
            },
        }
    }
}

/// Of what one row shows of the columns, the first that names the column
/// with index `c` is what the field at `c` shows, where no column name
/// stands twice.
pub proof fn lemma_row_first_tag(
    header: Seq<Seq<char>>,
    row: Seq<FieldText>,
    keep_blank: bool,
    c: int,
)
    requires
        header.no_duplicates(),
        0 <= c < header.len(),
    ensures
        first_tag(row_observations(header, row, keep_blank), header[c]) == if c < row.len() && shows(
            row[c],
            keep_blank,
        ) {
            Some(field_tag(row[c]))
        } else {
            None::<TypeTag>
        },
    decreases row.len(),
{
    if row.len() > 0 {
        let head = row.drop_last();
        let i = row.len() - 1;
        lemma_row_first_tag(header, head, keep_blank, c);
        if c < i {
            assert(head[c] == row[c]);
        }
        if i < header.len() && shows(row.last(), keep_blank) {
            let obs = row_observations(header, row, keep_blank);
            assert(obs.drop_last() =~= row_observations(header, head, keep_blank));
            assert(obs.last() == (header[i], field_tag(row.last())));
            if i != c {
                assert(header[i] != header[c]);
            }
        }
    }
}

/// Of what the rows show of the columns, the first that names the column
/// with index `c` is what the first field shows that stands at `c` and shows
/// anything, where no column name stands twice.
pub proof fn lemma_column_first_tag(
    header: Seq<Seq<char>>,
    rows: Seq<Seq<FieldText>>,
    keep_blank: bool,
    c: int,
)
    requires
        header.no_duplicates(),
        0 <= c < header.len(),
    ensures
        first_tag(observations(header, rows, keep_blank), header[c]) == column_first_tag(
            rows,
            c,
            keep_blank,
        ),
    decreases rows.len(),
{
    if rows.len() > 0 {
        lemma_column_first_tag(header, rows.drop_last(), keep_blank, c);
        lemma_row_first_tag(header, rows.last(), keep_blank, c);
        lemma_first_tag_append(
            observations(header, rows.drop_last(), keep_blank),
            row_observations(header, rows.last(), keep_blank),
            header[c],
        );
    }
}

/// One column for every name under which a value is written, typed by the
/// first value under that name: where no column name stands twice, the
/// schema has the column with index `c` exactly if some field at `c` shows
/// it a type, and its type is the one that follows from the tag of the first
/// such field, from the first row to the last. A field that stands for a
/// value that is not there decides nothing, and neither does a field of
/// another column.
pub proof fn lemma_column_types(
    header: Seq<Seq<char>>,
    rows: Seq<Seq<FieldText>>,
    keep_blank: bool,
    c: int,
)
    requires
        header.no_duplicates(),
        0 <= c < header.len(),
    ensures
        has_column(schema_of(header, rows, keep_blank), header[c]) == column_first_tag(
            rows,
            c,
            keep_blank,
        ).is_some(),
        type_of(schema_of(header, rows, keep_blank), header[c]) == match column_first_tag(
            rows,
            c,
            keep_blank,
        ) {
            Some(t) => Some(column_type_for(header[c], t)),
            None => None,
        },
{
    lemma_column_first_tag(header, rows, keep_blank, c);
    lemma_first_decides(observations(header, rows, keep_blank), header[c]);
}

} // verus!
