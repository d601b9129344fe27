//! The schema builder: an ordered mapping from column names to column types,
//! in which the first value seen in a column decides the column's type for
//! good.

use crate::classify::TypeTag;
use vstd::prelude::*;
use vstd::string::StringExecFns;

verus! {

/// How a column is declared. It follows from the tag of the first value seen
/// in the column, and for text from the column's name.
#[derive(Clone, Copy, Debug, PartialEq, Eq, Structural)]
pub enum ColumnType {
    /// A fixed-width identifier.
    ObjectIdRef,
    /// A date-time.
    Timestamp,
    /// A number with the given count of decimal places.
    Number(u32),
    /// A truth value.
    Boolean,
    /// Text of at most the given width.
    Text(u32),
}

/// One column of a schema.
#[derive(Debug)]
pub struct Column {
    pub name: String,
    pub column_type: ColumnType,
}

/// A resolved schema: the columns in the order in which they were first
/// seen.
#[derive(Debug)]
pub struct Schema {
    pub columns: Vec<Column>,
}

/// Collects the columns of one input while its rows are read.
pub struct SchemaBuilder {
    columns: Vec<Column>,
}

/// The mathematical model of a schema: names and types, in order.
pub type Columns = Seq<(Seq<char>, ColumnType)>;

/// The width of a text column: 100 for the column `description`, 50 for any
/// other.
pub open spec fn text_width(name: Seq<char>) -> u32 {
    if name == "description"@ {
        100
    } else {
        50
    }
}

/// The type of a column whose first value has the tag `tag`.
pub open spec fn column_type_for(name: Seq<char>, tag: TypeTag) -> ColumnType {
    match tag {
        TypeTag::ObjectIdRef => ColumnType::ObjectIdRef,
        TypeTag::Timestamp => ColumnType::Timestamp,
        TypeTag::Number => ColumnType::Number(2),
        TypeTag::Boolean => ColumnType::Boolean,
        TypeTag::Text => ColumnType::Text(text_width(name)),
    }
}

/// Whether `cols` has a column of that name.
pub open spec fn has_column(cols: Columns, name: Seq<char>) -> bool {
    exists|i: int| 0 <= i < cols.len() && (#[trigger] cols[i]).0 == name
}

/// The type of the column of that name, if there is one.
pub open spec fn type_of(cols: Columns, name: Seq<char>) -> Option<ColumnType> {
    if has_column(cols, name) {
        let i = choose|i: int| 0 <= i < cols.len() && (#[trigger] cols[i]).0 == name;
        Some(cols[i].1)
    } else {
        None
    }
}

/// Whether no name occurs twice.
pub open spec fn distinct_names(cols: Columns) -> bool {
    forall|i: int, j: int|
        0 <= i < j < cols.len() ==> (#[trigger] cols[i]).0 != (#[trigger] cols[j]).0
}

/// The schema after a value with tag `tag` was seen in column `name`: a new
/// last column where the name is new, and `cols` itself where it is not.
pub open spec fn observed(cols: Columns, name: Seq<char>, tag: TypeTag) -> Columns {
    if has_column(cols, name) {
        cols
    } else {
        cols.push((name, column_type_for(name, tag)))
    }
}

/// The schema after all of `obs` were seen, from the first to the last.
pub open spec fn observed_all(obs: Seq<(Seq<char>, TypeTag)>) -> Columns
    decreases obs.len(),
{
    if obs.len() == 0 {
        Seq::empty()
    } else {
        observed(observed_all(obs.drop_last()), obs.last().0, obs.last().1)
    }
}

/// The model of a vector of columns.
pub open spec fn columns_view(v: Seq<Column>) -> Columns {
    v.map_values(|c: Column| (c.name@, c.column_type))
}

impl View for Schema {
    type V = Columns;

    open spec fn view(&self) -> Columns {
        columns_view(self.columns@)
    }
}

impl View for SchemaBuilder {
    type V = Columns;

    closed spec fn view(&self) -> Columns {
        columns_view(self.columns@)
    }
}

/// The width of a text column of that name.
pub fn width_for(name: &str) -> (w: u32)
    ensures
        w == text_width(name@),
{
    let wide = String::from_str("description");
    let given = String::from_str(name);
    if given == wide {
        100
    } else {
        50
    }
}

/// The type of a column of that name whose first value has the tag `tag`.
pub fn column_type(name: &str, tag: TypeTag) -> (t: ColumnType)
    ensures
        t == column_type_for(name@, tag),
{
    match tag {
        TypeTag::ObjectIdRef => ColumnType::ObjectIdRef,
        TypeTag::Timestamp => ColumnType::Timestamp,
        TypeTag::Number => ColumnType::Number(2),
        TypeTag::Boolean => ColumnType::Boolean,
        TypeTag::Text => ColumnType::Text(width_for(name)),
    }
}

impl SchemaBuilder {
    /// No name occurs twice.
    #[verifier::type_invariant]
    spec fn well_formed(self) -> bool {
        distinct_names(columns_view(self.columns@))
    }

    /// A builder that has seen nothing.
    pub fn new() -> (b: SchemaBuilder)
        ensures
            b@ == Columns::empty(),
    {
        let b = SchemaBuilder { columns: Vec::new() };
        assert(b@ =~= Columns::empty());
        b
    }

    /// The number of columns seen so far.
    pub fn len(&self) -> (n: usize)
        ensures
            n == self@.len(),
    {
        self.columns.len()
    }

    /// Whether a column of that name was seen.
    pub fn contains(&self, name: &str) -> (b: bool)
        ensures
            b == has_column(self@, name@),
    {
        let given = String::from_str(name);
        let mut i: usize = 0;
        while i < self.columns.len()
            invariant
                i <= self.columns.len(),
                given@ == name@,
                forall|k: int| 0 <= k < i ==> (#[trigger] self@[k]).0 != name@,
            decreases self.columns.len() - i,
        {
            if self.columns[i].name == given {
                assert(self@[i as int].0 == name@);
                return true;
            }
            i += 1;
        }
        false
    }

    /// Records that a value with tag `tag` was seen in column `name`. The
    /// first call for a name appends the column, with the type that follows
    /// from `tag`; every later call for that name changes nothing, whatever
    /// its tag.
    pub fn observe(&mut self, name: &str, tag: TypeTag)
        ensures
            final(self)@ == observed(old(self)@, name@, tag),
    {
        proof {
            use_type_invariant(&*self);
            lemma_observed_keeps(self@, name@, tag);
        }
        if !self.contains(name) {
            let ghost before = self.columns@;
            let column = Column { name: String::from_str(name), column_type: column_type(name, tag) };
            let mut columns: Vec<Column> = Vec::new();
            assert(distinct_names(columns_view(columns@)));
            core::mem::swap(&mut self.columns, &mut columns);
            columns.push(column);
            assert(columns_view(columns@) =~= columns_view(before).push(
                (name@, column_type_for(name@, tag)),
            ));
            self.columns = columns;
        }
    }

    /// The schema collected so far: the columns in the order in which they
    /// were first seen, none of them twice.
    pub fn resolve(self) -> (schema: Schema)
        ensures
            schema@ == self@,
            distinct_names(schema@),
    {
        proof {
            use_type_invariant(&self);
        }
        Schema { columns: self.columns }
    }
}

/// Seeing one more value keeps every column that is there, in its place and
/// with its type, and keeps the names distinct.
pub proof fn lemma_observed_keeps(cols: Columns, name: Seq<char>, tag: TypeTag)
    requires
        distinct_names(cols),
    ensures
        cols.is_prefix_of(observed(cols, name, tag)),
        distinct_names(observed(cols, name, tag)),
        has_column(observed(cols, name, tag), name),
{
    let next = observed(cols, name, tag);
    if !has_column(cols, name) {
        assert(next[cols.len() as int].0 == name);
        assert forall|i: int, j: int| 0 <= i < j < next.len() implies (#[trigger] next[i]).0 != (
        #[trigger] next[j]).0 by {
            if j == cols.len() {
                assert(cols[i].0 != name);
            } else {
                assert(cols[i].0 != cols[j].0);
            }
        }
    }
}

/// No name occurs twice in a schema that was built from observations.
pub proof fn lemma_observed_all_distinct(obs: Seq<(Seq<char>, TypeTag)>)
    ensures
        distinct_names(observed_all(obs)),
    decreases obs.len(),
{
    if obs.len() > 0 {
        lemma_observed_all_distinct(obs.drop_last());
        lemma_observed_keeps(observed_all(obs.drop_last()), obs.last().0, obs.last().1);
    }
}

/// The schema after the first `j` observations is the beginning of the
/// schema after the first `k`, for `j <= k`.
pub proof fn lemma_observed_all_grows(obs: Seq<(Seq<char>, TypeTag)>, j: int, k: int)
    requires
        0 <= j <= k <= obs.len(),
    ensures
        observed_all(obs.take(j)).is_prefix_of(observed_all(obs.take(k))),
    decreases k - j,
{
    if j < k {
        lemma_observed_all_grows(obs, j, k - 1);
        assert(obs.take(k).drop_last() =~= obs.take(k - 1));
        lemma_observed_all_distinct(obs.take(k - 1));
        lemma_observed_keeps(observed_all(obs.take(k - 1)), obs.take(k).last().0, obs.take(k).last().1);
    }
}

/// In a schema without a repeated name, a column's type is that of any column
/// of that name.
pub proof fn lemma_type_of(cols: Columns, i: int)
    requires
        distinct_names(cols),
        0 <= i < cols.len(),
    ensures
        type_of(cols, cols[i].0) == Some(cols[i].1),
{
    let name = cols[i].0;
    let c = choose|c: int| 0 <= c < cols.len() && (#[trigger] cols[c]).0 == name;
    if c < i {
        assert(cols[c].0 != cols[i].0);
    } else if i < c {
        assert(cols[i].0 != cols[c].0);
    }
}

/// First seen wins: once a column is in the schema, its type stays what it
/// was, however many more values are seen and whatever their tags. For
/// observations `obs` and `j <= k`, a column that is there after the first
/// `j` observations has after the first `k` the type that it had after `j`.
pub proof fn lemma_first_seen_wins(obs: Seq<(Seq<char>, TypeTag)>, j: int, k: int, name: Seq<char>)
    requires
        0 <= j <= k <= obs.len(),
        has_column(observed_all(obs.take(j)), name),
    ensures
        type_of(observed_all(obs.take(k)), name) == type_of(observed_all(obs.take(j)), name),
{
    let early = observed_all(obs.take(j));
    let late = observed_all(obs.take(k));
    lemma_observed_all_grows(obs, j, k);
    lemma_observed_all_distinct(obs.take(j));
    lemma_observed_all_distinct(obs.take(k));
    let i = choose|i: int| 0 <= i < early.len() && (#[trigger] early[i]).0 == name;
    assert(late[i] == early[i]);
    lemma_type_of(early, i);
    lemma_type_of(late, i);
}

/// The type of a column is decided by the first observation of its name: if
/// no observation before the `i`-th names the column, its type is the one
/// that follows from the `i`-th tag, whatever comes later.
pub proof fn lemma_type_from_first(obs: Seq<(Seq<char>, TypeTag)>, i: int)
    requires
        0 <= i < obs.len(),
        forall|h: int| 0 <= h < i ==> (#[trigger] obs[h]).0 != obs[i].0,
    ensures
        type_of(observed_all(obs), obs[i].0) == Some(column_type_for(obs[i].0, obs[i].1)),
{
    let name = obs[i].0;
    lemma_unseen(obs.take(i), name);
    let before = observed_all(obs.take(i));
    let at = observed_all(obs.take(i + 1));
    assert(obs.take(i + 1).drop_last() =~= obs.take(i));
    assert(obs.take(i + 1).last() == obs[i]);
    assert(at == before.push((name, column_type_for(name, obs[i].1))));
    lemma_observed_all_distinct(obs.take(i + 1));
    lemma_type_of(at, before.len() as int);
    assert(has_column(at, name));
    lemma_first_seen_wins(obs, i + 1, obs.len() as int, name);
    assert(obs.take(obs.len() as int) =~= obs);
}

/// A name that no observation mentions is in no schema built from them.
proof fn lemma_unseen(obs: Seq<(Seq<char>, TypeTag)>, name: Seq<char>)
    requires
        forall|h: int| 0 <= h < obs.len() ==> (#[trigger] obs[h]).0 != name,
    ensures
        !has_column(observed_all(obs), name),
    decreases obs.len(),
{
    if obs.len() > 0 {
        assert forall|h: int| 0 <= h < obs.drop_last().len() implies (#[trigger] obs.drop_last()[h]).0
            != name by {
            assert(obs.drop_last()[h] == obs[h]);
        }
        lemma_unseen(obs.drop_last(), name);
        assert(obs.last() == obs[obs.len() - 1]);
        let prev = observed_all(obs.drop_last());
        let next = observed_all(obs);
        if has_column(next, name) {
            let c = choose|c: int| 0 <= c < next.len() && (#[trigger] next[c]).0 == name;
            if c < prev.len() {
                assert(prev[c].0 == name);
            }
        }
    }
}

/// The tag of the first of `obs` that names the column `name`, and `None`
/// where none of them names it.
pub open spec fn first_tag(obs: Seq<(Seq<char>, TypeTag)>, name: Seq<char>) -> Option<TypeTag>
    decreases obs.len(),
{
    if obs.len() == 0 {
        None
    } else {
        match first_tag(obs.drop_last(), name) {
            Some(t) => Some(t),
            None => if obs.last().0 == name {
                Some(obs.last().1)
            } else {
                None
            },
        }
    }
}

/// The first observation of a column decides: a schema has a column exactly
/// for the names that were observed, and the type of each is the one that
/// follows from the tag of the first observation of its name.
pub proof fn lemma_first_decides(obs: Seq<(Seq<char>, TypeTag)>, name: Seq<char>)
    ensures
        has_column(observed_all(obs), name) == first_tag(obs, name).is_some(),
        type_of(observed_all(obs), name) == match first_tag(obs, name) {
            Some(t) => Some(column_type_for(name, t)),
            None => None,
        },
    decreases obs.len(),
{
    if obs.len() > 0 {
        let before = obs.drop_last();
        let prev = observed_all(before);
        let cols = observed_all(obs);
        let n = obs.last().0;
        let t = obs.last().1;
        lemma_first_decides(before, name);
        lemma_observed_all_distinct(before);
        lemma_observed_all_distinct(obs);
        lemma_observed_keeps(prev, n, t);
        if first_tag(before, name).is_some() {
            assert(obs.take(obs.len() - 1) =~= before);
            assert(obs.take(obs.len() as int) =~= obs);
            lemma_first_seen_wins(obs, obs.len() - 1, obs.len() as int, name);
            let c = choose|c: int| 0 <= c < prev.len() && (#[trigger] prev[c]).0 == name;
            assert(cols[c] == prev[c]);
        } else if n == name {
            assert(cols == prev.push((name, column_type_for(name, t))));
            assert(cols[prev.len() as int].0 == name);
            lemma_type_of(cols, prev.len() as int);
        } else {
            if has_column(cols, name) {
                let c = choose|c: int| 0 <= c < cols.len() && (#[trigger] cols[c]).0 == name;
                if c < prev.len() {
                    assert(prev[c].0 == name);
                }
            }
        }
    }
}

/// Among observations that are put one after the other, the first that names
/// a column is the first of the earlier ones that names it, and where none
/// of those does, the first of the later ones.
pub proof fn lemma_first_tag_append(
    a: Seq<(Seq<char>, TypeTag)>,
    b: Seq<(Seq<char>, TypeTag)>,
    name: Seq<char>,
)
    ensures
        first_tag(a + b, name) == match first_tag(a, name) {
            Some(t) => Some(t),
            None => first_tag(b, name),
        },
    decreases b.len(),
{
    if b.len() == 0 {
        assert(a + b =~= a);
    } else {
        lemma_first_tag_append(a, b.drop_last(), name);
        assert((a + b).drop_last() =~= a + b.drop_last());
        assert((a + b).last() == b.last());
    }
}

} // verus!
