//! Rows of raw fields under a header: what every reader gives and every
//! writer takes.

use crate::classify::{classify_chars, is_object_id, object_id, object_id_of, tag_of, TypeTag};
use crate::text::{slice, strings, strings_of_all, texts};
use vstd::prelude::*;

verus! {

/// The rows of one input: the column names, and for each row its raw field
/// values in the order of the columns. A row is expected, not required, to
/// have as many fields as there are columns.
///
/// A reader that learns from its input to which column a value belongs and
/// of what type it is, as the reader of typed JSON documents does, gives
/// rows that hold one field for every column, and says in `tags`, row by row
/// and field by field, what type the field has, or `None` where the row has
/// no value in that column; the raw text of such a field is empty. The other
/// readers pair fields and columns by position, find no types and leave
/// `tags` empty.
#[derive(Debug)]
pub struct Table {
    pub header: Vec<String>,
    pub rows: Vec<Vec<String>>,
    pub tags: Vec<Vec<Option<TypeTag>>>,
}

/// The views of the fields of each row.
pub open spec fn grid(rows: Seq<Vec<String>>) -> Seq<Seq<Seq<char>>> {
    rows.map_values(|r: Vec<String>| strings(r@))
}

/// The views of the fields of each row.
pub open spec fn text_grid(rows: Seq<Vec<Vec<char>>>) -> Seq<Seq<Seq<char>>> {
    rows.map_values(|r: Vec<Vec<char>>| texts(r@))
}

impl Table {
    /// The column names.
    pub open spec fn names(&self) -> Seq<Seq<char>> {
        strings(self.header@)
    }

    /// The raw fields, row by row.
    pub open spec fn fields(&self) -> Seq<Seq<Seq<char>>> {
        grid(self.rows@)
    }

    /// The types that the reader found, row by row; `None` stands where a
    /// row has no value in a column.
    pub open spec fn types(&self) -> Seq<Seq<Option<TypeTag>>> {
        self.tags@.map_values(|r: Vec<Option<TypeTag>>| r@)
    }
}

/// The rows of `v` with each field as a string.
pub fn rows_of(v: &Vec<Vec<Vec<char>>>) -> (out: Vec<Vec<String>>)
    ensures
        grid(out@) == text_grid(v@),
{
    let mut out: Vec<Vec<String>> = Vec::new();
    let mut i: usize = 0;
    while i < v.len()
        invariant
            i <= v.len(),
            grid(out@) == text_grid(v@.take(i as int)),
        decreases v.len() - i,
    {
        let ghost before = out@;
        let row = strings_of_all(&v[i]);
        out.push(row);
        i += 1;
        assert(grid(out@) =~= grid(before).push(strings(row@)));
        assert(text_grid(v@.take(i as int)) =~= text_grid(v@.take(i - 1)).push(texts(v@[i - 1]@)));
    }
    assert(v@.take(v.len() as int) =~= v@);
    out
}

/// The model of one field: its raw text, its numeral where it has one, its
/// type where the reader found one, and whether it stands for a value that
/// is not there.
pub struct FieldText {
    pub raw: Seq<char>,
    pub numeral: Option<Seq<char>>,
    pub tag: Option<TypeTag>,
    pub absent: bool,
}

/// One raw field as a writer takes it.
#[derive(Debug)]
pub struct Field {
    /// The raw text.
    pub raw: String,
    /// The numeral that stands for the field: the raw text read as a
    /// floating-point number and written with two decimal places. There is
    /// none where the raw text is no such number.
    pub numeral: Option<String>,
    /// The type of the field, where the reader found one. Where there is
    /// none, a writer decides the type by the raw text.
    pub tag: Option<TypeTag>,
    /// The row has no value in the column of this field: the field only
    /// keeps the place of the column. A writer writes no value for it, shows
    /// it no column type, and lets the fields after it keep their columns.
    pub absent: bool,
}

impl View for Field {
    type V = FieldText;

    open spec fn view(&self) -> FieldText {
        FieldText {
            raw: self.raw@,
            numeral: match self.numeral {
                Some(n) => Some(n@),
                None => None,
            },
            tag: self.tag,
            absent: self.absent,
        }
    }
}

/// The type of a field: the one that the reader found, and where it found
/// none, the one that the classifier gives the raw text.
pub open spec fn field_tag(f: FieldText) -> TypeTag {
    match f.tag {
        Some(t) => t,
        None => tag_of(f.raw),
    }
}

/// The identifier that a raw field holds: what stands inside an identifier
/// literal, and the raw text itself where it is no such literal.
pub open spec fn identifier_of(raw: Seq<char>) -> Seq<char> {
    if is_object_id(raw) {
        object_id_of(raw)
    } else {
        raw
    }
}

/// The type of `field`, whose raw text is `raw`.
pub(crate) fn tag_of_field(field: &Field, raw: &Vec<char>) -> (tag: TypeTag)
    requires
        raw@ == field.raw@,
    ensures
        tag == field_tag(field@),
{
    match field.tag {
        Some(t) => t,
        None => classify_chars(raw),
    }
}

/// The identifier that the raw field `raw` holds.
pub fn identifier_chars(raw: &Vec<char>) -> (out: Vec<char>)
    ensures
        out@ == identifier_of(raw@),
{
    if object_id(raw) {
        slice(raw, 9, raw.len() - 1)
    } else {
        let out = slice(raw, 0, raw.len());
        assert(out@ =~= raw@);
        out
    }
}

/// The models of the fields of one row.
pub open spec fn fields(row: Seq<Field>) -> Seq<FieldText> {
    row.map_values(|f: Field| f@)
}

/// The models of the fields of each row.
pub open spec fn field_grid(rows: Seq<Vec<Field>>) -> Seq<Seq<FieldText>> {
    rows.map_values(|r: Vec<Field>| fields(r@))
}

/// The model of an optional string.
pub open spec fn option_string(v: Option<String>) -> Option<Seq<char>> {
    match v {
        Some(x) => Some(x@),
        None => None,
    }
}

/// The model of a grid of numerals.
pub open spec fn numeral_grid(v: Seq<Vec<Option<String>>>) -> Seq<Seq<Option<Seq<char>>>> {
    v.map_values(|r: Vec<Option<String>>| r@.map_values(|n: Option<String>| option_string(n)))
}

/// Whether the grid `g` holds something for the field at `c` in row `r`.
pub open spec fn holds<T>(g: Seq<Seq<T>>, r: int, c: int) -> bool {
    0 <= r < g.len() && 0 <= c < g[r].len()
}

/// The field at `c` in row `r` of a table, as a writer takes it: the raw
/// text; the numeral that `numerals` holds for it, if it holds one; the type
/// that the reader found, if it found one; and the mark that the field
/// stands for a value that is not there, which it does where the reader
/// says of this field that the row has no value in its column.
pub open spec fn cell(
    raws: Seq<Seq<Seq<char>>>,
    types: Seq<Seq<Option<TypeTag>>>,
    numerals: Seq<Seq<Option<Seq<char>>>>,
    r: int,
    c: int,
) -> FieldText {
    FieldText {
        raw: raws[r][c],
        numeral: if holds(numerals, r, c) {
            numerals[r][c]
        } else {
            None
        },
        tag: if holds(types, r, c) {
            types[r][c]
        } else {
            None
        },
        absent: holds(types, r, c) && types[r][c].is_none(),
    }
}

/// The fields of a table as a writer takes them, row by row.
pub open spec fn cells(
    raws: Seq<Seq<Seq<char>>>,
    types: Seq<Seq<Option<TypeTag>>>,
    numerals: Seq<Seq<Option<Seq<char>>>>,
) -> Seq<Seq<FieldText>> {
    Seq::new(
        raws.len(),
        |r: int| Seq::new(raws[r].len(), |c: int| cell(raws, types, numerals, r, c)),
    )
}

impl Table {
    /// The fields of the table as a writer takes them: every raw field with
    /// the numeral that `numerals` holds for it, row by row and field by
    /// field, and with what the reader found of it.
    pub fn with_numerals(&self, numerals: &Vec<Vec<Option<String>>>) -> (out: Vec<Vec<Field>>)
        ensures
            field_grid(out@) == cells(self.fields(), self.types(), numeral_grid(numerals@)),
    {
        let ghost raws = self.fields();
        let ghost types = self.types();
        let ghost given = numeral_grid(numerals@);
        let mut out: Vec<Vec<Field>> = Vec::new();
        let mut r: usize = 0;
        while r < self.rows.len()
            invariant
                r <= self.rows.len(),
                raws == self.fields(),
                types == self.types(),
                given == numeral_grid(numerals@),
                out@.len() == r,
                forall|j: int| 0 <= j < r ==> fields((#[trigger] out@[j])@) == cells(raws, types, given)[j],
            decreases self.rows.len() - r,
        {
            let row = &self.rows[r];
            let mut fs: Vec<Field> = Vec::new();
            let mut c: usize = 0;
            assert(raws[r as int] == strings(row@));
            while c < row.len()
                invariant
                    c <= row.len(),
                    r < self.rows.len(),
                    row@ == self.rows@[r as int]@,
                    raws == self.fields(),
                    types == self.types(),
                    given == numeral_grid(numerals@),
                    raws[r as int] == strings(row@),
                    fs@.len() == c,
                    forall|j: int| 0 <= j < c ==> (#[trigger] fs@[j])@ == cell(raws, types, given, r as int, j),
                decreases row.len() - c,
            {
                let numeral = if r < numerals.len() && c < numerals[r].len() {
                    assert(given[r as int][c as int] == option_string(numerals@[r as int]@[c as int]));
                    match &numerals[r][c] {
                        Some(n) => Some(n.clone()),
                        None => None,
                    }
                } else {
                    None
                };
                let found = r < self.tags.len() && c < self.tags[r].len();
                proof {
                    if found {
                        assert(types[r as int][c as int] == self.tags@[r as int]@[c as int]);
                    }
                    assert(raws[r as int][c as int] == row@[c as int]@);
                }
                let tag = if found {
                    self.tags[r][c]
                } else {
                    None
                };
                let absent = found && tag.is_none();
                fs.push(Field { raw: row[c].clone(), numeral, tag, absent });
                c += 1;
            }
            assert(fields(fs@) =~= cells(raws, types, given)[r as int]);
            out.push(fs);
            r += 1;
        }
        assert(field_grid(out@) =~= cells(raws, types, given));
        out
    }
}

} // verus!
