//! Planning the statements that seed one table: row checks, value conversion, and the
//! `INSERT` (or upsert) text of each row.
use vstd::prelude::*;
use crate::config::{lemma_row_lookup_none, TableMode, TableRow, TableSeed};
use crate::metadata::ColumnInfo;
use crate::table_name::{quote_table_name, TableName};
use crate::numbers::{decimal, decimal_chars};
use crate::text::{
    chars_equal, chars_of, contains, contains_seq, lower, lowercase, push_all, push_str, push_string,
    string_chars, string_from_chars,
};
use crate::value::{convert_value, converted, ConvertError, SqlValue};
use crate::yaml::{yaml_is_null, YamlValue};

verus! {

/// The items joined with a separator between each two.
pub open spec fn join(sep: Seq<char>, items: Seq<Seq<char>>) -> Seq<char>
    decreases items.len(),
{
    if items.len() == 0 {
        Seq::<char>::empty()
    } else if items.len() == 1 {
        items[0]
    } else {
        join(sep, items.drop_last()) + sep + items.last()
    }
}

/// A name between back quotes.
pub open spec fn backquoted(name: Seq<char>) -> Seq<char> {
    seq!['`'] + name + seq!['`']
}

/// The update assignment of one column: `` `c` = VALUES(`c`) ``.
pub open spec fn update_assignment(name: Seq<char>) -> Seq<char> {
    backquoted(name) + " = VALUES("@ + backquoted(name) + seq![')']
}

/// The placeholder of one value: `NULL` for a null, `?` for a bound value.
pub open spec fn placeholder(is_null: bool) -> Seq<char> {
    if is_null {
        "NULL"@
    } else {
        "?"@
    }
}

/// The statement text for a row: the columns given, their placeholders, and the columns that an
/// upsert updates (no update clause when there are none).
pub open spec fn insert_sql(
    table: Seq<char>,
    names: Seq<Seq<char>>,
    nulls: Seq<bool>,
    update: Seq<Seq<char>>,
) -> Seq<char> {
    "INSERT INTO "@ + table + " ("@ + join(", "@, names.map_values(|n: Seq<char>| backquoted(n)))
        + ") VALUES ("@ + join(", "@, nulls.map_values(|b: bool| placeholder(b))) + ")"@ + if update.len()
        == 0 {
        Seq::<char>::empty()
    } else {
        " ON DUPLICATE KEY UPDATE "@ + join(
            ", "@,
            update.map_values(|n: Seq<char>| update_assignment(n)),
        )
    }
}

/// Appends `sep` (unless `first`) and then `item`.
fn push_separated(out: &mut Vec<char>, first: bool, sep: &Vec<char>, item: &Vec<char>)
    ensures
        final(out)@ == old(out)@ + (if first {
            Seq::<char>::empty()
        } else {
            sep@
        }) + item@,
{
    let ghost start = out@;
    if !first {
        push_all(out, sep);
    }
    push_all(out, item);
    assert(first ==> start + Seq::<char>::empty() =~= start);
}

/// The items joined by `, `.
pub fn join_comma(items: &Vec<Vec<char>>) -> (r: Vec<char>)
    ensures
        r@ == join(", "@, views(items@)),
{
    let sep = chars_of(", ");
    let ghost all = views(items@);
    let mut out: Vec<char> = Vec::new();
    for i in 0..items.len()
        invariant
            sep@ == ", "@,
            all == views(items@),
            out@ == join(", "@, all.take(i as int)),
    {
        proof {
            assert(all.take(i + 1).drop_last() =~= all.take(i as int));
            if i == 0 {
                assert(all.take(1) =~= seq![all[0]]);
                assert(join(", "@, all.take(0)) =~= Seq::<char>::empty());
            }
        }
        push_separated(&mut out, i == 0, &sep, &items[i]);
        proof {
            if i == 0 {
                assert(out@ =~= all[0]);
            }
        }
    }
    assert(all.take(items.len() as int) =~= all);
    out
}


fn backquote(name: &Vec<char>) -> (r: Vec<char>)
    ensures
        r@ == backquoted(name@),
{
    let mut r: Vec<char> = Vec::new();
    r.push('`');
    push_all(&mut r, name);
    r.push('`');
    assert(r@ =~= backquoted(name@));
    r
}

fn assignment(name: &Vec<char>) -> (r: Vec<char>)
    ensures
        r@ == update_assignment(name@),
{
    let mut r = backquote(name);
    push_all(&mut r, &chars_of(" = VALUES("));
    push_all(&mut r, &backquote(name));
    r.push(')');
    assert(r@ =~= update_assignment(name@));
    r
}

/// The views of a list of character vectors.
pub open spec fn views(v: Seq<Vec<char>>) -> Seq<Seq<char>> {
    v.map_values(|x: Vec<char>| x@)
}

/// The text of an `INSERT` statement; see `insert_sql`.
pub fn build_insert_sql(
    table: &Vec<char>,
    names: &Vec<Vec<char>>,
    nulls: &Vec<bool>,
    update: &Vec<Vec<char>>,
) -> (r: Vec<char>)
    ensures
        r@ == insert_sql(table@, views(names@), nulls@, views(update@)),
{
    let mut quoted: Vec<Vec<char>> = Vec::new();
    for i in 0..names.len()
        invariant
            quoted@.len() == i,
            forall|j: int| 0 <= j < i ==> #[trigger] quoted@[j]@ == backquoted(names@[j]@),
    {
        quoted.push(backquote(&names[i]));
    }
    assert(views(quoted@) =~= views(names@).map_values(|n: Seq<char>| backquoted(n)));
    let mut marks: Vec<Vec<char>> = Vec::new();
    for i in 0..nulls.len()
        invariant
            marks@.len() == i,
            forall|j: int| 0 <= j < i ==> #[trigger] marks@[j]@ == placeholder(nulls@[j]),
    {
        if nulls[i] {
            marks.push(chars_of("NULL"));
        } else {
            marks.push(chars_of("?"));
        }
    }
    assert(views(marks@) =~= nulls@.map_values(|b: bool| placeholder(b)));
    let mut sets: Vec<Vec<char>> = Vec::new();
    for i in 0..update.len()
        invariant
            sets@.len() == i,
            forall|j: int| 0 <= j < i ==> #[trigger] sets@[j]@ == update_assignment(update@[j]@),
    {
        sets.push(assignment(&update[i]));
    }
    assert(views(sets@) =~= views(update@).map_values(|n: Seq<char>| update_assignment(n)));
    let mut r = chars_of("INSERT INTO ");
    push_all(&mut r, table);
    push_all(&mut r, &chars_of(" ("));
    push_all(&mut r, &join_comma(&quoted));
    push_all(&mut r, &chars_of(") VALUES ("));
    push_all(&mut r, &join_comma(&marks));
    push_all(&mut r, &chars_of(")"));
    if update.len() > 0 {
        push_all(&mut r, &chars_of(" ON DUPLICATE KEY UPDATE "));
        push_all(&mut r, &join_comma(&sets));
    }
    assert(update.len() == 0 ==> r@ =~= r@ + Seq::<char>::empty());
    r
}


/// The first position below `n` where `p` holds.
pub open spec fn first_where(n: nat, p: spec_fn(int) -> bool) -> Option<int>
    decreases n,
{
    if n == 0 {
        None
    } else {
        match first_where((n - 1) as nat, p) {
            Some(k) => Some(k),
            None => if p(n - 1) {
                Some(n - 1)
            } else {
                None
            },
        }
    }
}

pub proof fn lemma_first_where_none(n: nat, p: spec_fn(int) -> bool)
    requires
        forall|j: int| 0 <= j < n ==> !#[trigger] p(j),
    ensures
        first_where(n, p) is None,
    decreases n,
{
    if n > 0 {
        lemma_first_where_none((n - 1) as nat, p);
    }
}

pub proof fn lemma_first_where_some(n: nat, p: spec_fn(int) -> bool, k: int)
    requires
        0 <= k < n,
        p(k),
        forall|j: int| 0 <= j < k ==> !#[trigger] p(j),
    ensures
        first_where(n, p) == Some(k),
    decreases n,
{
    if n - 1 > k {
        lemma_first_where_some((n - 1) as nat, p, k);
    } else {
        lemma_first_where_none(k as nat, p);
    }
}

/// A key at position `k` that names none of the columns.
pub open spec fn unknown_key_at(keys: Seq<Seq<char>>, names: Seq<Seq<char>>) -> spec_fn(int) -> bool {
    |k: int| !names.contains(keys[k])
}

/// A required column at position `j` that the row leaves out.
pub open spec fn missing_at(cols: Seq<ColumnInfo>, row: TableRow) -> spec_fn(int) -> bool {
    |j: int| is_required(cols[j]) && row.lookup(cols[j].name@) is None
}

/// A generated column at position `j` that the row gives a value for.
pub open spec fn generated_given_at(cols: Seq<ColumnInfo>, row: TableRow) -> spec_fn(int) -> bool {
    |j: int| row.lookup(cols[j].name@) is Some && is_generated(cols[j])
}

/// A listed update column at position `q` that is not a column, or has no value.
pub open spec fn bad_update_at(
    listed: Seq<Seq<char>>,
    names: Seq<Seq<char>>,
    given: Seq<Seq<char>>,
) -> spec_fn(int) -> bool {
    |q: int| !names.contains(listed[q]) || !given.contains(listed[q])
}

/// The names of the columns.
pub open spec fn column_names(cols: Seq<ColumnInfo>) -> Seq<Seq<char>> {
    cols.map_values(|c: ColumnInfo| c.name@)
}

/// A generated column: its `extra` mentions `stored generated`, `virtual generated` or
/// `generated always`, in any ASCII case.
pub open spec fn is_generated(c: ColumnInfo) -> bool {
    let e = lower(c.extra@);
    ||| contains_seq(e, "stored generated"@)
    ||| contains_seq(e, "virtual generated"@)
    ||| contains_seq(e, "generated always"@)
}

/// A column that every row must give: not nullable, without default, not `auto_increment`,
/// not generated.
pub open spec fn is_required(c: ColumnInfo) -> bool {
    &&& !c.is_nullable
    &&& c.column_default is None
    &&& !contains_seq(lower(c.extra@), "auto_increment"@)
    &&& !is_generated(c)
}

/// The columns that a row gives a value for, in column order.
pub open spec fn given_columns(cols: Seq<ColumnInfo>, row: TableRow) -> Seq<ColumnInfo>
    decreases cols.len(),
{
    if cols.len() == 0 {
        Seq::<ColumnInfo>::empty()
    } else {
        let before = given_columns(cols.drop_last(), row);
        if row.lookup(cols.last().name@) is Some {
            before.push(cols.last())
        } else {
            before
        }
    }
}

/// The views of a list of strings.
pub open spec fn string_views(v: Seq<String>) -> Seq<Seq<char>> {
    v.map_values(|u: String| u@)
}

/// Which of the given columns hold a null value.
pub open spec fn null_flags(given: Seq<ColumnInfo>, row: TableRow) -> Seq<bool> {
    given.map_values(|c: ColumnInfo| yaml_is_null(value_of(row, c)))
}

/// Each value is a conversion of the value that the row gives its column.
pub open spec fn conversions_hold(given: Seq<ColumnInfo>, row: TableRow, values: Seq<SqlValue>) -> bool {
    &&& values.len() == given.len()
    &&& forall|p: int|
        0 <= p < given.len() ==> converted(#[trigger] given[p], value_of(row, given[p]), Ok(values[p]))
}

/// The value that a row gives a column.
pub open spec fn value_of(row: TableRow, c: ColumnInfo) -> YamlValue {
    row.lookup(c.name@)->Some_0
}

/// Every value that the row gives a column before position `j` converts.
pub open spec fn converts_before(cols: Seq<ColumnInfo>, row: TableRow, j: int) -> bool {
    forall|jj: int|
        #![trigger cols[jj]]
        0 <= jj < j && row.lookup(cols[jj].name@) is Some ==> exists|x: SqlValue|
            converted(cols[jj], value_of(row, cols[jj]), Ok(x))
}

/// Why an upsert's update list is refused: the position of the first listed column that is
/// not a column of the table, or that the row gives no value for.
pub open spec fn update_problem(listed: Seq<Seq<char>>, names: Seq<Seq<char>>, given: Seq<Seq<char>>) -> Option<int> {
    first_where(listed.len(), bad_update_at(listed, names, given))
}

/// The columns that a row's statement updates on a duplicate key.
pub open spec fn update_list(seed: TableSeed, given: Seq<Seq<char>>) -> Seq<Seq<char>> {
    match seed.mode {
        TableMode::Insert => Seq::<Seq<char>>::empty(),
        TableMode::UpsertUpdate => match seed.update_columns {
            None => given,
            Some(us) => string_views(us@),
        },
    }
}

/// The custom update list of an upsert, if the seed has one.
pub open spec fn custom_updates(seed: TableSeed) -> Option<Seq<Seq<char>>> {
    match seed.mode {
        TableMode::UpsertUpdate => match seed.update_columns {
            Some(us) => Some(string_views(us@)),
            None => None,
        },
        TableMode::Insert => None,
    }
}

/// Why a table could not be seeded.
#[derive(Debug)]
pub enum ApplyError {
    /// The table has no columns in the database schema.
    TableNotFound { table: String },
    /// A row names a column that the table does not have.
    UnknownColumn { column: String, table: String, row: usize },
    /// A row leaves out a required column.
    MissingRequiredColumn { column: String, table: String, row: usize },
    /// A row gives a value for a generated column.
    GeneratedColumn { column: String, table: String, row: usize },
    /// A row's value could not be converted for its column.
    Conversion { column: String, table: String, row: usize, cause: ConvertError },
    /// An update column that the table does not have.
    UnknownUpdateColumn { column: String, table: String },
    /// An update column that the row gives no value for.
    UpdateColumnWithoutValue { column: String, row: usize },
}

/// The message of a failure to seed a table (for a conversion, without its cause).
pub open spec fn apply_error_message(e: ApplyError) -> Seq<char> {
    match e {
        ApplyError::TableNotFound { table } => "table `"@ + table@ + "` not found in database schema"@,
        ApplyError::UnknownColumn { column, table, row } => "unknown column `"@ + column@
            + "` in table `"@ + table@ + "` (row "@ + decimal(row as nat) + ")"@,
        ApplyError::MissingRequiredColumn { column, table, row } => "missing required column `"@
            + column@ + "` in table `"@ + table@ + "` (row "@ + decimal(row as nat) + ")"@,
        ApplyError::GeneratedColumn { column, table, row } => "column `"@ + column@
            + "` in table `"@ + table@ + "` is generated and cannot be specified (row "@ + decimal(
            row as nat,
        ) + ")"@,
        ApplyError::Conversion { column, table, row, .. } => "failed to convert value for column `"@
            + column@ + "` in table `"@ + table@ + "` (row "@ + decimal(row as nat) + ")"@,
        ApplyError::UnknownUpdateColumn { column, table } => "update column `"@ + column@
            + "` is not part of table `"@ + table@ + "`"@,
        ApplyError::UpdateColumnWithoutValue { column, row } => "update column `"@ + column@
            + "` has no value in row "@ + decimal(row as nat),
    }
}

impl ApplyError {
    /// The message shown for the failure; a conversion's cause has a message of its own.
    pub fn message(&self) -> (r: String)
        ensures
            r@ == apply_error_message(*self),
    {
        let mut v: Vec<char> = Vec::new();
        match self {
            ApplyError::TableNotFound { table } => {
                push_str(&mut v, "table `");
                push_string(&mut v, table);
                push_str(&mut v, "` not found in database schema");
            },
            ApplyError::UnknownColumn { column, table, row } => {
                push_str(&mut v, "unknown column `");
                push_string(&mut v, column);
                push_str(&mut v, "` in table `");
                push_string(&mut v, table);
                push_str(&mut v, "` (row ");
                push_all(&mut v, &decimal_chars(*row as u64));
                push_str(&mut v, ")");
            },
            ApplyError::MissingRequiredColumn { column, table, row } => {
                push_str(&mut v, "missing required column `");
                push_string(&mut v, column);
                push_str(&mut v, "` in table `");
                push_string(&mut v, table);
                push_str(&mut v, "` (row ");
                push_all(&mut v, &decimal_chars(*row as u64));
                push_str(&mut v, ")");
            },
            ApplyError::GeneratedColumn { column, table, row } => {
                push_str(&mut v, "column `");
                push_string(&mut v, column);
                push_str(&mut v, "` in table `");
                push_string(&mut v, table);
                push_str(&mut v, "` is generated and cannot be specified (row ");
                push_all(&mut v, &decimal_chars(*row as u64));
                push_str(&mut v, ")");
            },
            ApplyError::Conversion { column, table, row, .. } => {
                push_str(&mut v, "failed to convert value for column `");
                push_string(&mut v, column);
                push_str(&mut v, "` in table `");
                push_string(&mut v, table);
                push_str(&mut v, "` (row ");
                push_all(&mut v, &decimal_chars(*row as u64));
                push_str(&mut v, ")");
            },
            ApplyError::UnknownUpdateColumn { column, table } => {
                push_str(&mut v, "update column `");
                push_string(&mut v, column);
                push_str(&mut v, "` is not part of table `");
                push_string(&mut v, table);
                push_str(&mut v, "`");
            },
            ApplyError::UpdateColumnWithoutValue { column, row } => {
                push_str(&mut v, "update column `");
                push_string(&mut v, column);
                push_str(&mut v, "` has no value in row ");
                push_all(&mut v, &decimal_chars(*row as u64));
            },
        }
        assert(v@ =~= apply_error_message(*self));
        string_from_chars(&v)
    }
}

/// One `INSERT` statement: its text and the values of its columns, in order (a NULL value is
/// written into the text and bound to no placeholder).
#[derive(Debug)]
pub struct Statement {
    /// The statement's text, with a `?` for each bound value.
    pub sql: String,
    /// The value of each column given, in column order.
    pub values: Vec<SqlValue>,
}

/// What a row becomes.
#[derive(Debug)]
pub enum RowPlan {
    /// The row gives no column: no statement.
    Skipped,
    /// The row's statement.
    Insert(Statement),
}

/// What `plan_row` may give for row `i` of a seed, for the table's columns and quoted name.
pub open spec fn row_planned(
    seed: TableSeed,
    cols: Seq<ColumnInfo>,
    table: Seq<char>,
    i: int,
    r: Result<RowPlan, ApplyError>,
) -> bool {
    let row = seed.rows@[i];
    let names = column_names(cols);
    let n = (i + 1) as usize;
    match first_where(row.keys().len(), unknown_key_at(row.keys(), names)) {
        Some(k) => r matches Err(ApplyError::UnknownColumn { column, table: t, row: rn })
            && column@ == row.keys()[k] && t@ == seed.name@ && rn == n,
        None => match first_where(cols.len(), missing_at(cols, row)) {
            Some(j) => r matches Err(ApplyError::MissingRequiredColumn { column, table: t, row: rn })
                && column@ == cols[j].name@ && t@ == seed.name@ && rn == n,
            None => {
                let given = given_columns(cols, row);
                let given_names = column_names(given);
                let generated = first_where(cols.len(), generated_given_at(cols, row));
                match r {
                    Err(ApplyError::Conversion { column, table: t, row: rn, cause }) => exists|j: int|
                        #![trigger cols[j]]
                        0 <= j < cols.len() && row.lookup(cols[j].name@) is Some && (forall|jj: int|
                            0 <= jj <= j && row.lookup(cols[jj].name@) is Some ==> !is_generated(
                                cols[jj],
                            )) && converts_before(cols, row, j) && column@ == cols[j].name@ && t@
                            == seed.name@ && rn == n && converted(
                            cols[j],
                            value_of(row, cols[j]),
                            Err(cause),
                        ),
                    Err(ApplyError::GeneratedColumn { column, table: t, row: rn }) => generated
                        matches Some(j) && converts_before(cols, row, j) && column@ == cols[j].name@
                        && t@ == seed.name@ && rn == n,
                    Ok(RowPlan::Skipped) => generated is None && given.len() == 0,
                    Err(ApplyError::UnknownUpdateColumn { column, table: t }) => {
                        &&& generated is None
                        &&& given.len() > 0
                        &&& converts_before(cols, row, cols.len() as int)
                        &&& custom_updates(seed) matches Some(us)
                        &&& update_problem(us, names, given_names) matches Some(q)
                        &&& !names.contains(us[q])
                        &&& column@ == us[q]
                        &&& t@ == seed.name@
                    },
                    Err(ApplyError::UpdateColumnWithoutValue { column, row: rn }) => {
                        &&& generated is None
                        &&& given.len() > 0
                        &&& converts_before(cols, row, cols.len() as int)
                        &&& custom_updates(seed) matches Some(us)
                        &&& update_problem(us, names, given_names) matches Some(q)
                        &&& names.contains(us[q])
                        &&& column@ == us[q]
                        &&& rn == n
                    },
                    Ok(RowPlan::Insert(st)) => {
                        &&& generated is None
                        &&& given.len() > 0
                        &&& (custom_updates(seed) matches Some(us) ==> update_problem(
                            us,
                            names,
                            given_names,
                        ) is None)
                        &&& st.sql@ == insert_sql(
                            table,
                            given_names,
                            null_flags(given, row),
                            update_list(seed, given_names),
                        )
                        &&& conversions_hold(given, row, st.values@)
                    },
                    _ => false,
                }
            },
        },
    }
}


/// What the plan reads of each column: its name, and whether it is generated or required.
pub struct ColumnFacts {
    names: Vec<Vec<char>>,
    generated: Vec<bool>,
    required: Vec<bool>,
}

impl ColumnFacts {
    /// The facts describe the columns, one entry each.
    pub closed spec fn describes(&self, cols: Seq<ColumnInfo>) -> bool {
        &&& self.names@.len() == cols.len()
        &&& self.generated@.len() == cols.len()
        &&& self.required@.len() == cols.len()
        &&& forall|j: int| 0 <= j < cols.len() ==> #[trigger] self.names@[j]@ == cols[j].name@
        &&& forall|j: int| 0 <= j < cols.len() ==> #[trigger] self.generated@[j] == is_generated(cols[j])
        &&& forall|j: int| 0 <= j < cols.len() ==> #[trigger] self.required@[j] == is_required(cols[j])
    }

    /// The names, as views.
    pub closed spec fn name_views(&self) -> Seq<Seq<char>> {
        views(self.names@)
    }

    /// The facts of the given columns.
    pub fn of(cols: &Vec<ColumnInfo>) -> (r: ColumnFacts)
        ensures
            r.describes(cols@),
            r.name_views() == column_names(cols@),
    {
        let mut names: Vec<Vec<char>> = Vec::new();
        let mut generated: Vec<bool> = Vec::new();
        let mut required: Vec<bool> = Vec::new();
        for j in 0..cols.len()
            invariant
                names@.len() == j,
                generated@.len() == j,
                required@.len() == j,
                forall|k: int| 0 <= k < j ==> #[trigger] names@[k]@ == cols@[k].name@,
                forall|k: int| 0 <= k < j ==> #[trigger] generated@[k] == is_generated(cols@[k]),
                forall|k: int| 0 <= k < j ==> #[trigger] required@[k] == is_required(cols@[k]),
        {
            let c = &cols[j];
            let extra = lowercase(&string_chars(&c.extra));
            let gen = contains(&extra, &chars_of("stored generated")) || contains(
                &extra,
                &chars_of("virtual generated"),
            ) || contains(&extra, &chars_of("generated always"));
            let auto = contains(&extra, &chars_of("auto_increment"));
            let req = !c.is_nullable && c.column_default.is_none() && !auto && !gen;
            names.push(string_chars(&c.name));
            generated.push(gen);
            required.push(req);
            assert(names@[j as int]@ == cols@[j as int].name@);
            assert(generated@[j as int] == is_generated(cols@[j as int]));
            assert(required@[j as int] == is_required(cols@[j as int]));
        }
        let r = ColumnFacts { names, generated, required };
        assert(r.name_views() =~= column_names(cols@));
        r
    }
}

/// Whether a name is among the names.
fn among(names: &Vec<Vec<char>>, name: &Vec<char>) -> (r: bool)
    ensures
        r == views(names@).contains(name@),
{
    let mut i: usize = 0;
    while i < names.len()
        invariant
            i <= names@.len(),
            forall|k: int| 0 <= k < i ==> names@[k]@ != name@,
        decreases names.len() - i,
    {
        if chars_equal(&names[i], name) {
            assert(views(names@)[i as int] == name@);
            return true;
        }
        i = i + 1;
    }
    assert(!views(names@).contains(name@)) by {
        assert forall|k: int| 0 <= k < views(names@).len() implies views(names@)[k] != name@ by {
            assert(views(names@)[k] == names@[k]@);
        }
    }
    false
}

fn copy_names(v: &Vec<Vec<char>>) -> (r: Vec<Vec<char>>)
    ensures
        views(r@) == views(v@),
{
    let mut r: Vec<Vec<char>> = Vec::new();
    for i in 0..v.len()
        invariant
            r@.len() == i,
            forall|k: int| 0 <= k < i ==> #[trigger] r@[k]@ == v@[k]@,
    {
        r.push(crate::text::slice_chars(&v[i], 0, v[i].len()));
        assert(v@[i as int]@.subrange(0, v@[i as int]@.len() as int) =~= v@[i as int]@);
    }
    assert(views(r@) =~= views(v@));
    r
}


proof fn lemma_given_step(cols: Seq<ColumnInfo>, row: TableRow, j: int)
    requires
        0 <= j < cols.len(),
    ensures
        given_columns(cols.take(j + 1), row) == if row.lookup(cols[j].name@) is Some {
            given_columns(cols.take(j), row).push(cols[j])
        } else {
            given_columns(cols.take(j), row)
        },
{
    assert(cols.take(j + 1).drop_last() =~= cols.take(j));
    assert(cols.take(j + 1).last() == cols[j]);
}

/// Plans row `i` of a seed: checks its keys and required columns, converts its values in
/// column order, and writes its statement; see `row_planned`.
#[verifier::loop_isolation(false)]
pub fn plan_row(
    seed: &TableSeed,
    i: usize,
    cols: &Vec<ColumnInfo>,
    facts: &ColumnFacts,
    table: &Vec<char>,
) -> (r: Result<RowPlan, ApplyError>)
    requires
        i < seed.rows@.len(),
        facts.describes(cols@),
    ensures
        row_planned(*seed, cols@, table@, i as int, r),
{
    let row = &seed.rows[i];
    let ghost names = column_names(cols@);
    let n = row.len();
    assert(i < seed.rows.len());
    let row_number: usize = i + 1;
    let ghost unknown = unknown_key_at(row.keys(), names);
    assert(facts.name_views() =~= names) by {
        assert forall|j: int| 0 <= j < names.len() implies facts.name_views()[j] == names[j] by {
            assert(facts.names@[j]@ == cols@[j].name@);
        }
    }
    for k in 0..n
        invariant
            *row == seed.rows@[i as int],
            row_number == i + 1,
            n == row.keys().len(),
            facts.describes(cols@),
            facts.name_views() == names,
            names == column_names(cols@),
            unknown == unknown_key_at(row.keys(), names),
            forall|kk: int| 0 <= kk < k ==> !#[trigger] unknown(kk),
    {
        let key = string_chars(row.key_at(k));
        if !among(&facts.names, &key) {
            proof {
                lemma_first_where_some(row.keys().len(), unknown, k as int);
            }
            return Err(
                ApplyError::UnknownColumn {
                    column: row.key_at(k).clone(),
                    table: seed.name.clone(),
                    row: row_number,
                },
            );
        }
    }
    proof {
        lemma_first_where_none(row.keys().len(), unknown);
    }
    let ghost missing = missing_at(cols@, *row);
    for j in 0..cols.len()
        invariant
            *row == seed.rows@[i as int],
            row_number == i + 1,
            facts.describes(cols@),
            missing == missing_at(cols@, *row),
            forall|jj: int| 0 <= jj < j ==> !#[trigger] missing(jj),
    {
        assert(facts.names@[j as int]@ == cols@[j as int].name@);
        if facts.required[j] && row.get(&facts.names[j]).is_none() {
            proof {
                lemma_first_where_some(cols@.len(), missing, j as int);
            }
            return Err(
                ApplyError::MissingRequiredColumn {
                    column: cols[j].name.clone(),
                    table: seed.name.clone(),
                    row: row_number,
                },
            );
        }
    }
    proof {
        lemma_first_where_none(cols@.len(), missing);
    }
    let ghost gen_given = generated_given_at(cols@, *row);
    let mut given_names: Vec<Vec<char>> = Vec::new();
    let mut nulls: Vec<bool> = Vec::new();
    let mut values: Vec<SqlValue> = Vec::new();
    assert(cols@.take(0) =~= Seq::<ColumnInfo>::empty());
    for j in 0..cols.len()
        invariant
            *row == seed.rows@[i as int],
            row_number == i + 1,
            facts.describes(cols@),
            gen_given == generated_given_at(cols@, *row),
            forall|jj: int| 0 <= jj < j ==> !#[trigger] gen_given(jj),
            converts_before(cols@, *row, j as int),
            views(given_names@) == column_names(given_columns(cols@.take(j as int), *row)),
            nulls@ == null_flags(given_columns(cols@.take(j as int), *row), *row),
            conversions_hold(given_columns(cols@.take(j as int), *row), *row, values@),
    {
        proof {
            lemma_given_step(cols@, *row, j as int);
        }
        let ghost before = given_columns(cols@.take(j as int), *row);
        assert(conversions_hold(before, *row, values@));
        assert(facts.names@[j as int]@ == cols@[j as int].name@);
        match row.get(&facts.names[j]) {
            Some(v) => {
                if facts.generated[j] {
                    proof {
                        assert(gen_given(j as int));
                        lemma_first_where_some(cols@.len(), gen_given, j as int);
                    }
                    return Err(
                        ApplyError::GeneratedColumn {
                            column: cols[j].name.clone(),
                            table: seed.name.clone(),
                            row: row_number,
                        },
                    );
                }
                match convert_value(&cols[j], v) {
                    Ok(x) => {
                        let null = v.is_null();
                        let ghost old_names = given_names@;
                        let ghost old_values = values@;
                        assert(converted(cols@[j as int], *v, Ok(x)));
                        assert(converts_before(cols@, *row, j + 1)) by {
                            assert forall|jj: int|
                                #![trigger cols@[jj]]
                                0 <= jj < j + 1 && row.lookup(cols@[jj].name@) is Some implies exists|y: SqlValue|
                                    converted(cols@[jj], value_of(*row, cols@[jj]), Ok(y)) by {
                                if jj == j {
                                    assert(value_of(*row, cols@[jj]) == *v);
                                }
                            }
                        }
                        values.push(x);
                        nulls.push(null);
                        given_names.push(string_chars(&cols[j].name));
                        proof {
                            let after = before.push(cols@[j as int]);
                            assert(views(given_names@) =~= views(old_names).push(cols@[j as int].name@));
                            assert(column_names(after) =~= column_names(before).push(cols@[j as int].name@));
                            assert(nulls@ =~= null_flags(after, *row));
                            assert(values@.len() == after.len());
                            assert forall|p: int| 0 <= p < values@.len() implies converted(
                                #[trigger] after[p],
                                value_of(*row, after[p]),
                                Ok(values@[p]),
                            ) by {
                                if p < before.len() {
                                    assert(after[p] == before[p]);
                                    assert(values@[p] == old_values[p]);
                                    assert(converted(before[p], value_of(*row, before[p]), Ok(old_values[p])));
                                } else {
                                    assert(after[p] == cols@[j as int]);
                                    assert(value_of(*row, cols@[j as int]) == *v);
                                }
                            }
                        }
                    },
                    Err(e) => {
                        proof {
                            assert(forall|jj: int|
                                0 <= jj <= j && row.lookup(cols@[jj].name@) is Some ==> !is_generated(
                                    cols@[jj],
                                )) by {
                                assert forall|jj: int|
                                    0 <= jj <= j && row.lookup(
                                        cols@[jj].name@,
                                    ) is Some implies !is_generated(cols@[jj]) by {
                                    if jj < j {
                                        assert(!gen_given(jj));
                                    }
                                }
                            }
                        }
                        return Err(
                            ApplyError::Conversion {
                                column: cols[j].name.clone(),
                                table: seed.name.clone(),
                                row: row_number,
                                cause: e,
                            },
                        );
                    },
                }
            },
            None => {},
        }
    }
    proof {
        lemma_first_where_none(cols@.len(), gen_given);
        assert(cols@.take(cols@.len() as int) =~= cols@);
    }
    let ghost given = given_columns(cols@, *row);
    if values.len() == 0 {
        return Ok(RowPlan::Skipped);
    }
    let update: Vec<Vec<char>> = match seed.mode {
        TableMode::Insert => {
            let empty: Vec<Vec<char>> = Vec::new();
            assert(views(empty@) =~= Seq::<Seq<char>>::empty());
            empty
        },
        TableMode::UpsertUpdate => match &seed.update_columns {
            None => copy_names(&given_names),
            Some(us) => {
                let ghost listed = string_views(us@);
                let ghost bad = bad_update_at(listed, names, views(given_names@));
                let mut out: Vec<Vec<char>> = Vec::new();
                for q in 0..us.len()
                    invariant
                        *row == seed.rows@[i as int],
                        row_number == i + 1,
                        seed.update_columns == Some(*us),
                        facts.name_views() == names,
                        listed == string_views(us@),
                        bad == bad_update_at(listed, names, views(given_names@)),
                        forall|qq: int| 0 <= qq < q ==> !#[trigger] bad(qq),
                        out@.len() == q,
                        forall|qq: int| 0 <= qq < q ==> #[trigger] out@[qq]@ == listed[qq],
                {
                    let u = string_chars(&us[q]);
                    if !among(&facts.names, &u) {
                        proof {
                            lemma_first_where_some(listed.len(), bad, q as int);
                        }
                        return Err(ApplyError::UnknownUpdateColumn { column: us[q].clone(), table: seed.name.clone() });
                    }
                    if !among(&given_names, &u) {
                        proof {
                            lemma_first_where_some(listed.len(), bad, q as int);
                        }
                        return Err(ApplyError::UpdateColumnWithoutValue { column: us[q].clone(), row: row_number });
                    }
                    out.push(u);
                }
                proof {
                    lemma_first_where_none(listed.len(), bad);
                    assert(views(out@) =~= listed);
                }
                out
            },
        },
    };
    assert(views(update@) == update_list(*seed, column_names(given)));
    let sql = build_insert_sql(table, &given_names, &nulls, &update);
    Ok(RowPlan::Insert(Statement { sql: string_from_chars(&sql), values }))
}


/// The statements of a table's seeds, up to the first row that fails.
#[derive(Debug)]
pub struct TablePlan {
    /// The table does not exist and was skipped, as asked.
    pub skipped_missing_table: bool,
    /// What each row became, in order, up to the failing row.
    pub rows: Vec<RowPlan>,
    /// Why the table (or its next row) failed, if it did.
    pub error: Option<ApplyError>,
}

/// The statements of a table's rows, as applied: their texts, in order.
#[derive(Debug, Default)]
pub struct ApplyOutcome {
    /// The text of each statement.
    pub statements: Vec<String>,
}

/// The statement texts of the planned rows, in order.
pub open spec fn planned_sql(rows: Seq<RowPlan>) -> Seq<Seq<char>>
    decreases rows.len(),
{
    if rows.len() == 0 {
        Seq::<Seq<char>>::empty()
    } else {
        match rows.last() {
            RowPlan::Insert(st) => planned_sql(rows.drop_last()).push(st.sql@),
            RowPlan::Skipped => planned_sql(rows.drop_last()),
        }
    }
}

/// What `plan_table` gives: with no columns, a skip or `TableNotFound`; otherwise each row's
/// plan in order, stopping at the first row that fails.
pub open spec fn table_planned(
    seed: TableSeed,
    table: TableName,
    cols: Seq<ColumnInfo>,
    ignore_missing_tables: bool,
    r: TablePlan,
) -> bool {
    if cols.len() == 0 {
        &&& r.rows@.len() == 0
        &&& if ignore_missing_tables {
            r.skipped_missing_table && r.error is None
        } else {
            &&& !r.skipped_missing_table
            &&& r.error matches Some(ApplyError::TableNotFound { table: t })
            &&& t@ == seed.name@
        }
    } else {
        let quoted = quote_table_name(table.schema_view(), table.table_view());
        &&& !r.skipped_missing_table
        &&& r.rows@.len() <= seed.rows@.len()
        &&& forall|k: int|
            0 <= k < r.rows@.len() ==> row_planned(seed, cols, quoted, k, Ok(#[trigger] r.rows@[k]))
        &&& match r.error {
            Some(e) => r.rows@.len() < seed.rows@.len() && row_planned(
                seed,
                cols,
                quoted,
                r.rows@.len() as int,
                Err(e),
            ),
            None => r.rows@.len() == seed.rows@.len(),
        }
    }
}

/// Plans the statements that seed a table with the given columns (those of the database
/// schema; none when the table does not exist); see `table_planned`.
pub fn plan_table(
    seed: &TableSeed,
    table_name: &TableName,
    columns: &Vec<ColumnInfo>,
    ignore_missing_tables: bool,
) -> (r: TablePlan)
    ensures
        table_planned(*seed, *table_name, columns@, ignore_missing_tables, r),
{
    if columns.len() == 0 {
        if ignore_missing_tables {
            return TablePlan { skipped_missing_table: true, rows: Vec::new(), error: None };
        }
        return TablePlan {
            skipped_missing_table: false,
            rows: Vec::new(),
            error: Some(ApplyError::TableNotFound { table: seed.name.clone() }),
        };
    }
    let facts = ColumnFacts::of(columns);
    let quoted = string_chars(&table_name.quoted());
    let ghost q = quote_table_name(table_name.schema_view(), table_name.table_view());
    let mut rows: Vec<RowPlan> = Vec::new();
    for i in 0..seed.rows.len()
        invariant
            columns@.len() > 0,
            facts.describes(columns@),
            q == quote_table_name(table_name.schema_view(), table_name.table_view()),
            quoted@ == q,
            rows@.len() == i,
            forall|k: int| 0 <= k < i ==> row_planned(*seed, columns@, q, k, Ok(#[trigger] rows@[k])),
    {
        match plan_row(seed, i, columns, &facts, &quoted) {
            Ok(p) => {
                rows.push(p);
                assert(rows@[i as int] == p);
            },
            Err(e) => {
                return TablePlan { skipped_missing_table: false, rows, error: Some(e) };
            },
        }
    }
    TablePlan { skipped_missing_table: false, rows, error: None }
}

impl TablePlan {
    /// The statement texts of the planned rows, in order.
    pub fn outcome(&self) -> (r: ApplyOutcome)
        ensures
            string_views(r.statements@) == planned_sql(self.rows@),
    {
        let mut statements: Vec<String> = Vec::new();
        for k in 0..self.rows.len()
            invariant
                string_views(statements@) == planned_sql(self.rows@.take(k as int)),
        {
            assert(self.rows@.take(k + 1).drop_last() =~= self.rows@.take(k as int));
            match &self.rows[k] {
                RowPlan::Insert(st) => {
                    let ghost before = statements@;
                    statements.push(st.sql.clone());
                    assert(string_views(statements@) =~= string_views(before).push(st.sql@));
                },
                RowPlan::Skipped => {},
            }
        }
        assert(self.rows@.take(self.rows@.len() as int) =~= self.rows@);
        ApplyOutcome { statements }
    }
}

/// Whether statements are executed: not in a dry run, not when only validating.
pub open spec fn executes_statements(dry_run: bool, validate_only: bool) -> bool {
    !dry_run && !validate_only
}

/// Whether the planned statements are executed (and a seed file's transaction committed
/// rather than rolled back).
pub fn executes(dry_run: bool, validate_only: bool) -> (r: bool)
    ensures
        r == executes_statements(dry_run, validate_only),
{
    !(dry_run || validate_only)
}

proof fn lemma_first_where_found(n: nat, p: spec_fn(int) -> bool)
    ensures
        (first_where(n, p) matches Some(k) ==> 0 <= k < n && p(k)),
        forall|j: int| #![trigger p(j)] 0 <= j < n && p(j) ==> (first_where(n, p) matches Some(k) && k <= j),
    decreases n,
{
    if n > 0 {
        lemma_first_where_found((n - 1) as nat, p);
    }
}

/// Row `k` of a seed is planned whenever it is, and never refused.
pub open spec fn row_passes(seed: TableSeed, cols: Seq<ColumnInfo>, table: Seq<char>, k: int) -> bool {
    forall|r: Result<RowPlan, ApplyError>| #[trigger] row_planned(seed, cols, table, k, r) ==> r is Ok
}

/// The rows before row `i` pass.
pub open spec fn rows_pass_before(seed: TableSeed, table: TableName, cols: Seq<ColumnInfo>, i: int) -> bool {
    forall|k: int|
        0 <= k < i ==> #[trigger] row_passes(
            seed,
            cols,
            quote_table_name(table.schema_view(), table.table_view()),
            k,
        )
}

proof fn lemma_stops_at(
    seed: TableSeed,
    table: TableName,
    cols: Seq<ColumnInfo>,
    ignore_missing_tables: bool,
    plan: TablePlan,
    i: int,
)
    requires
        table_planned(seed, table, cols, ignore_missing_tables, plan),
        cols.len() > 0,
        0 <= i < seed.rows@.len(),
        rows_pass_before(seed, table, cols, i),
        forall|p: RowPlan|
            !#[trigger] row_planned(
                seed,
                cols,
                quote_table_name(table.schema_view(), table.table_view()),
                i,
                Ok(p),
            ),
    ensures
        plan.rows@.len() == i,
        plan.error matches Some(e) && row_planned(
            seed,
            cols,
            quote_table_name(table.schema_view(), table.table_view()),
            i,
            Err(e),
        ),
{
    let q = quote_table_name(table.schema_view(), table.table_view());
    let n = plan.rows@.len() as int;
    if n < i {
        let e = plan.error->Some_0;
        assert(row_passes(seed, cols, q, n));
        assert(row_planned(seed, cols, q, n, Err(e)));
    } else if n > i {
        assert(row_planned(seed, cols, q, i, Ok(plan.rows@[i])));
    }
}

/// A table's plan stops at the first row with a key that is not a column, when the rows
/// before it pass: it plans the rows before, and reports that row with one of its unknown keys.
pub proof fn law_table_stops_at_unknown_column(
    seed: TableSeed,
    table: TableName,
    cols: Seq<ColumnInfo>,
    ignore_missing_tables: bool,
    plan: TablePlan,
    i: int,
)
    requires
        table_planned(seed, table, cols, ignore_missing_tables, plan),
        cols.len() > 0,
        0 <= i < seed.rows@.len(),
        rows_pass_before(seed, table, cols, i),
        exists|j: int|
            0 <= j < seed.rows@[i].keys().len() && !column_names(cols).contains(
                #[trigger] seed.rows@[i].keys()[j],
            ),
    ensures
        plan.rows@.len() == i,
        plan.error matches Some(ApplyError::UnknownColumn { column, table: t, row }) && seed.rows@[i].keys().contains(
            column@,
        ) && !column_names(cols).contains(column@) && t@ == seed.name@ && row == (i + 1) as usize,
{
    let q = quote_table_name(table.schema_view(), table.table_view());
    let r = seed.rows@[i];
    let p = unknown_key_at(r.keys(), column_names(cols));
    let j = choose|j: int|
        0 <= j < r.keys().len() && !column_names(cols).contains(#[trigger] r.keys()[j]);
    assert(p(j));
    lemma_first_where_found(r.keys().len(), p);
    lemma_stops_at(seed, table, cols, ignore_missing_tables, plan, i);
    let k = first_where(r.keys().len(), p)->Some_0;
    assert(p(k));
    assert(r.keys().contains(r.keys()[k]));
}

/// A table's plan stops at the first row that leaves out a required column, when the rows
/// before it pass and its keys are all columns: it reports one of the columns left out.
pub proof fn law_table_stops_at_missing_column(
    seed: TableSeed,
    table: TableName,
    cols: Seq<ColumnInfo>,
    ignore_missing_tables: bool,
    plan: TablePlan,
    i: int,
)
    requires
        table_planned(seed, table, cols, ignore_missing_tables, plan),
        cols.len() > 0,
        0 <= i < seed.rows@.len(),
        rows_pass_before(seed, table, cols, i),
        forall|j: int|
            0 <= j < seed.rows@[i].keys().len() ==> column_names(cols).contains(
                #[trigger] seed.rows@[i].keys()[j],
            ),
        exists|c: int|
            0 <= c < cols.len() && is_required(#[trigger] cols[c]) && seed.rows@[i].lookup(
                cols[c].name@,
            ) is None,
    ensures
        plan.rows@.len() == i,
        plan.error matches Some(ApplyError::MissingRequiredColumn { column, table: t, row }) && (exists|c: int|
            0 <= c < cols.len() && is_required(#[trigger] cols[c]) && column@ == cols[c].name@
                && seed.rows@[i].lookup(cols[c].name@) is None) && t@ == seed.name@ && row == (i + 1) as usize,
{
    let r = seed.rows@[i];
    let pu = unknown_key_at(r.keys(), column_names(cols));
    let pm = missing_at(cols, r);
    lemma_first_where_found(r.keys().len(), pu);
    if first_where(r.keys().len(), pu) is Some {
        let k = first_where(r.keys().len(), pu)->Some_0;
        assert(pu(k));
        assert(column_names(cols).contains(r.keys()[k]));
    }
    let c = choose|c: int|
        0 <= c < cols.len() && is_required(#[trigger] cols[c]) && r.lookup(cols[c].name@) is None;
    assert(pm(c));
    lemma_first_where_found(cols.len(), pm);
    lemma_stops_at(seed, table, cols, ignore_missing_tables, plan, i);
    let m = first_where(cols.len(), pm)->Some_0;
    assert(pm(m));
}

/// A table's plan stops at the first row that gives a generated column, when the rows before
/// it pass, its keys are all columns, it gives every required column, and every value it gives
/// a column before that one converts: it reports one of the generated columns given.
pub proof fn law_table_stops_at_generated_column(
    seed: TableSeed,
    table: TableName,
    cols: Seq<ColumnInfo>,
    ignore_missing_tables: bool,
    plan: TablePlan,
    i: int,
    g: int,
)
    requires
        table_planned(seed, table, cols, ignore_missing_tables, plan),
        cols.len() > 0,
        0 <= i < seed.rows@.len(),
        rows_pass_before(seed, table, cols, i),
        forall|j: int|
            0 <= j < seed.rows@[i].keys().len() ==> column_names(cols).contains(
                #[trigger] seed.rows@[i].keys()[j],
            ),
        forall|c: int|
            0 <= c < cols.len() && is_required(#[trigger] cols[c]) ==> seed.rows@[i].lookup(
                cols[c].name@,
            ) is Some,
        0 <= g < cols.len(),
        is_generated(cols[g]),
        seed.rows@[i].lookup(cols[g].name@) is Some,
        forall|c: int|
            #![trigger cols[c]]
            0 <= c < g && seed.rows@[i].lookup(cols[c].name@) is Some ==> exists|x: SqlValue|
                converted(cols[c], value_of(seed.rows@[i], cols[c]), Ok(x)),
    ensures
        plan.rows@.len() == i,
        plan.error matches Some(ApplyError::GeneratedColumn { column, table: t, row }) && (exists|c: int|
            0 <= c < cols.len() && is_generated(#[trigger] cols[c]) && column@ == cols[c].name@
                && seed.rows@[i].lookup(cols[c].name@) is Some) && t@ == seed.name@ && row == (i + 1) as usize,
{
    let q = quote_table_name(table.schema_view(), table.table_view());
    let r = seed.rows@[i];
    let pu = unknown_key_at(r.keys(), column_names(cols));
    let pm = missing_at(cols, r);
    let pg = generated_given_at(cols, r);
    lemma_first_where_found(r.keys().len(), pu);
    if first_where(r.keys().len(), pu) is Some {
        let k = first_where(r.keys().len(), pu)->Some_0;
        assert(pu(k));
        assert(column_names(cols).contains(r.keys()[k]));
    }
    lemma_first_where_found(cols.len(), pm);
    if first_where(cols.len(), pm) is Some {
        let m = first_where(cols.len(), pm)->Some_0;
        assert(pm(m));
    }
    assert(pg(g));
    lemma_first_where_found(cols.len(), pg);
    let g0 = first_where(cols.len(), pg)->Some_0;
    assert(pg(g0));
    assert(g0 <= g);
    lemma_stops_at(seed, table, cols, ignore_missing_tables, plan, i);
    let e = plan.error->Some_0;
    assert(row_planned(seed, cols, q, i, Err(e)));
    match e {
        ApplyError::Conversion { column, table: t, row: rn, cause } => {
            let jc = choose|jc: int|
                #![trigger cols[jc]]
                0 <= jc < cols.len() && r.lookup(cols[jc].name@) is Some && (forall|jj: int|
                    0 <= jj <= jc && r.lookup(cols[jj].name@) is Some ==> !is_generated(cols[jj]))
                    && converts_before(cols, r, jc) && column@ == cols[jc].name@ && t@ == seed.name@
                    && rn == (i + 1) as usize && converted(cols[jc], value_of(r, cols[jc]), Err(cause));
            if jc >= g0 {
                assert(!is_generated(cols[g0]));
            }
            assert(jc < g);
            let x = choose|x: SqlValue| converted(cols[jc], value_of(r, cols[jc]), Ok(x));
            crate::value::lemma_conversion_outcome(cols[jc], value_of(r, cols[jc]), x, cause);
        },
        _ => {},
    }
}

/// The rows that give at least one column.
pub open spec fn rows_with_columns(rows: Seq<TableRow>) -> nat
    decreases rows.len(),
{
    if rows.len() == 0 {
        0
    } else if rows.last().keys().len() > 0 {
        rows_with_columns(rows.drop_last()) + 1
    } else {
        rows_with_columns(rows.drop_last())
    }
}

proof fn lemma_given_nonempty(cols: Seq<ColumnInfo>, row: TableRow)
    ensures
        given_columns(cols, row).len() > 0 <==> exists|j: int|
            0 <= j < cols.len() && (#[trigger] row.lookup(cols[j].name@)) is Some,
    decreases cols.len(),
{
    if cols.len() > 0 {
        lemma_given_nonempty(cols.drop_last(), row);
        if given_columns(cols, row).len() > 0 {
            if row.lookup(cols.last().name@) is None {
                let j = choose|j: int|
                    0 <= j < cols.drop_last().len() && (#[trigger] row.lookup(cols.drop_last()[j].name@)) is Some;
                assert(cols[j] == cols.drop_last()[j]);
            }
        } else {
            assert forall|j: int| 0 <= j < cols.len() implies (#[trigger] row.lookup(cols[j].name@)) is None by {
                if j < cols.len() - 1 {
                    assert(cols[j] == cols.drop_last()[j]);
                }
            }
        }
    }
}

proof fn lemma_row_gives_a_column(cols: Seq<ColumnInfo>, row: TableRow)
    requires
        forall|j: int| 0 <= j < row.keys().len() ==> column_names(cols).contains(#[trigger] row.keys()[j]),
    ensures
        given_columns(cols, row).len() > 0 <==> row.keys().len() > 0,
{
    lemma_given_nonempty(cols, row);
    if row.keys().len() > 0 {
        let key = row.keys()[0];
        assert(column_names(cols).contains(key));
        let j = choose|j: int| 0 <= j < column_names(cols).len() && column_names(cols)[j] == key;
        assert(cols[j].name@ == key);
        lemma_row_lookup_none(row.keys(), row.values(), key);
        assert(row.lookup(cols[j].name@) is Some);
    } else {
        assert forall|j: int| 0 <= j < cols.len() implies (#[trigger] row.lookup(cols[j].name@)) is None by {
            lemma_row_lookup_none(row.keys(), row.values(), cols[j].name@);
        }
    }
}

/// The statement text of a row that gives a column: its columns in column order, a `NULL` or
/// a `?` for each, and the columns that an upsert updates.
pub open spec fn row_statement(seed: TableSeed, cols: Seq<ColumnInfo>, table: Seq<char>, row: TableRow) -> Seq<char> {
    let given = given_columns(cols, row);
    insert_sql(table, column_names(given), null_flags(given, row), update_list(seed, column_names(given)))
}

/// The statement texts of the rows that give a column, in row order.
pub open spec fn statements_of(
    seed: TableSeed,
    cols: Seq<ColumnInfo>,
    table: Seq<char>,
    rows: Seq<TableRow>,
) -> Seq<Seq<char>>
    decreases rows.len(),
{
    if rows.len() == 0 {
        Seq::<Seq<char>>::empty()
    } else if rows.last().keys().len() > 0 {
        statements_of(seed, cols, table, rows.drop_last()).push(
            row_statement(seed, cols, table, rows.last()),
        )
    } else {
        statements_of(seed, cols, table, rows.drop_last())
    }
}

proof fn lemma_statements_count(seed: TableSeed, cols: Seq<ColumnInfo>, table: Seq<char>, rows: Seq<TableRow>)
    ensures
        statements_of(seed, cols, table, rows).len() == rows_with_columns(rows),
    decreases rows.len(),
{
    if rows.len() > 0 {
        lemma_statements_count(seed, cols, table, rows.drop_last());
    }
}

/// A table planned without failure has, in row order, one statement for each row that gives
/// a column and none for a row that gives none; each is `row_statement` of its row.
pub proof fn law_statements_of_rows_with_columns(
    seed: TableSeed,
    table: TableName,
    cols: Seq<ColumnInfo>,
    ignore_missing_tables: bool,
    plan: TablePlan,
)
    requires
        table_planned(seed, table, cols, ignore_missing_tables, plan),
        cols.len() > 0,
        plan.error is None,
    ensures
        planned_sql(plan.rows@) == statements_of(
            seed,
            cols,
            quote_table_name(table.schema_view(), table.table_view()),
            seed.rows@,
        ),
        planned_sql(plan.rows@).len() == rows_with_columns(seed.rows@),
{
    let q = quote_table_name(table.schema_view(), table.table_view());
    let rows = plan.rows@;
    let seeds = seed.rows@;
    lemma_statements(seed, cols, q, rows, rows.len() as int);
    assert(rows.take(rows.len() as int) =~= rows);
    assert(seeds.take(seeds.len() as int) =~= seeds);
    lemma_statements_count(seed, cols, q, seeds);
}

proof fn lemma_statements(seed: TableSeed, cols: Seq<ColumnInfo>, q: Seq<char>, rows: Seq<RowPlan>, k: int)
    requires
        rows.len() <= seed.rows@.len(),
        0 <= k <= rows.len(),
        forall|m: int| 0 <= m < rows.len() ==> row_planned(seed, cols, q, m, Ok(#[trigger] rows[m])),
    ensures
        planned_sql(rows.take(k)) == statements_of(seed, cols, q, seed.rows@.take(k)),
    decreases k,
{
    if k > 0 {
        lemma_statements(seed, cols, q, rows, k - 1);
        assert(rows.take(k).drop_last() =~= rows.take(k - 1));
        assert(seed.rows@.take(k).drop_last() =~= seed.rows@.take(k - 1));
        let m = k - 1;
        let r = seed.rows@[m];
        assert(row_planned(seed, cols, q, m, Ok(rows[m])));
        let pu = unknown_key_at(r.keys(), column_names(cols));
        lemma_first_where_found(r.keys().len(), pu);
        assert forall|j: int| 0 <= j < r.keys().len() implies column_names(cols).contains(
            #[trigger] r.keys()[j],
        ) by {
            if !column_names(cols).contains(r.keys()[j]) {
                assert(pu(j));
            }
        }
        lemma_row_gives_a_column(cols, r);
        assert(rows.take(k).last() == rows[m]);
        assert(seed.rows@.take(k).last() == r);
    }
}

/// A row passes the column checks: its keys are all columns, it gives every required column
/// and no generated one, and every value it gives converts.
pub open spec fn row_checks_pass(cols: Seq<ColumnInfo>, row: TableRow) -> bool {
    &&& forall|j: int| 0 <= j < row.keys().len() ==> column_names(cols).contains(#[trigger] row.keys()[j])
    &&& forall|c: int| 0 <= c < cols.len() && is_required(#[trigger] cols[c]) ==> row.lookup(cols[c].name@) is Some
    &&& forall|c: int|
        #![trigger cols[c]]
        0 <= c < cols.len() && row.lookup(cols[c].name@) is Some ==> !is_generated(cols[c])
    &&& forall|c: int|
        #![trigger cols[c]]
        0 <= c < cols.len() && row.lookup(cols[c].name@) is Some ==> exists|x: SqlValue|
            converted(cols[c], value_of(row, cols[c]), Ok(x))
}

/// Every listed update column is a column of the table and a key of the row.
pub open spec fn updates_fit(listed: Seq<Seq<char>>, cols: Seq<ColumnInfo>, row: TableRow) -> bool {
    forall|q: int|
        0 <= q < listed.len() ==> column_names(cols).contains(#[trigger] listed[q])
            && row.keys().contains(listed[q])
}

proof fn lemma_given_names(cols: Seq<ColumnInfo>, row: TableRow, x: Seq<char>)
    ensures
        column_names(given_columns(cols, row)).contains(x) <==> (column_names(cols).contains(x)
            && row.lookup(x) is Some),
    decreases cols.len(),
{
    if cols.len() == 0 {
        assert(given_columns(cols, row) =~= Seq::<ColumnInfo>::empty());
        assert(column_names(given_columns(cols, row)).len() == 0);
        assert(column_names(cols).len() == 0);
    } else {
        let d = cols.drop_last();
        let c = cols.last();
        lemma_given_names(d, row, x);
        let before = given_columns(d, row);
        let all = column_names(cols);
        assert(all =~= column_names(d).push(c.name@));
        assert(all.contains(x) <==> (column_names(d).contains(x) || c.name@ == x)) by {
            if all.contains(x) && c.name@ != x {
                let j = choose|j: int| 0 <= j < all.len() && all[j] == x;
                assert(column_names(d)[j] == x);
            }
            if column_names(d).contains(x) {
                let j = choose|j: int| 0 <= j < column_names(d).len() && column_names(d)[j] == x;
                assert(all[j] == x);
            }
            if c.name@ == x {
                assert(all[all.len() - 1] == x);
            }
        }
        if row.lookup(c.name@) is Some {
            let pushed = column_names(before.push(c));
            assert(pushed =~= column_names(before).push(c.name@));
            assert(pushed.contains(x) <==> (column_names(before).contains(x) || c.name@ == x)) by {
                if pushed.contains(x) && c.name@ != x {
                    let j = choose|j: int| 0 <= j < pushed.len() && pushed[j] == x;
                    assert(column_names(before)[j] == x);
                }
                if column_names(before).contains(x) {
                    let j = choose|j: int| 0 <= j < column_names(before).len() && column_names(before)[j] == x;
                    assert(pushed[j] == x);
                }
                if c.name@ == x {
                    assert(pushed[pushed.len() - 1] == x);
                }
            }
        }
    }
}

proof fn lemma_lookup_is_key(row: TableRow, x: Seq<char>)
    ensures
        row.lookup(x) is Some <==> row.keys().contains(x),
{
    lemma_row_lookup_none(row.keys(), row.values(), x);
}

proof fn lemma_row_with_update_list(
    seed: TableSeed,
    cols: Seq<ColumnInfo>,
    q: Seq<char>,
    k: int,
    r: Result<RowPlan, ApplyError>,
    us: Seq<Seq<char>>,
)
    requires
        0 <= k < seed.rows@.len(),
        row_checks_pass(cols, seed.rows@[k]),
        row_planned(seed, cols, q, k, r),
        custom_updates(seed) == Some(us),
    ensures
        r is Ok <==> (seed.rows@[k].keys().len() == 0 || updates_fit(us, cols, seed.rows@[k])),
        r matches Err(e) ==> (e is UnknownUpdateColumn || e is UpdateColumnWithoutValue),
{
    let row = seed.rows@[k];
    let names = column_names(cols);
    let pu = unknown_key_at(row.keys(), names);
    let pm = missing_at(cols, row);
    let pg = generated_given_at(cols, row);
    lemma_first_where_found(row.keys().len(), pu);
    if first_where(row.keys().len(), pu) is Some {
        let j = first_where(row.keys().len(), pu)->Some_0;
        assert(pu(j));
        assert(names.contains(row.keys()[j]));
    }
    lemma_first_where_found(cols.len(), pm);
    if first_where(cols.len(), pm) is Some {
        let j = first_where(cols.len(), pm)->Some_0;
        assert(pm(j));
    }
    lemma_first_where_found(cols.len(), pg);
    if first_where(cols.len(), pg) is Some {
        let j = first_where(cols.len(), pg)->Some_0;
        assert(pg(j));
        assert(!is_generated(cols[j]));
    }
    lemma_row_gives_a_column(cols, row);
    let given = given_columns(cols, row);
    let gn = column_names(given);
    let bad = bad_update_at(us, names, gn);
    lemma_first_where_found(us.len(), bad);
    assert forall|qq: int| 0 <= qq < us.len() implies (#[trigger] bad(qq) <==> !(names.contains(us[qq])
        && row.keys().contains(us[qq]))) by {
        lemma_given_names(cols, row, us[qq]);
        lemma_lookup_is_key(row, us[qq]);
    }
    if updates_fit(us, cols, row) {
        assert forall|qq: int| 0 <= qq < us.len() implies !#[trigger] bad(qq) by {
            assert(names.contains(us[qq]) && row.keys().contains(us[qq]));
        }
        if update_problem(us, names, gn) is Some {
            let p0 = update_problem(us, names, gn)->Some_0;
            assert(bad(p0));
        }
    } else {
        let qq = choose|qq: int|
            0 <= qq < us.len() && !(names.contains(#[trigger] us[qq]) && row.keys().contains(us[qq]));
        assert(bad(qq));
    }
    match r {
        Err(ApplyError::Conversion { column, table: t, row: rn, cause }) => {
            let jc = choose|jc: int|
                #![trigger cols[jc]]
                0 <= jc < cols.len() && row.lookup(cols[jc].name@) is Some && (forall|jj: int|
                    0 <= jj <= jc && row.lookup(cols[jj].name@) is Some ==> !is_generated(cols[jj]))
                    && converts_before(cols, row, jc) && column@ == cols[jc].name@ && t@ == seed.name@
                    && rn == (k + 1) as usize && converted(cols[jc], value_of(row, cols[jc]), Err(cause));
            let x = choose|x: SqlValue| converted(cols[jc], value_of(row, cols[jc]), Ok(x));
            crate::value::lemma_conversion_outcome(cols[jc], value_of(row, cols[jc]), x, cause);
        },
        _ => {},
    }
}

/// With an upsert's own list of update columns, and rows that pass the column checks, a table
/// is planned without failure exactly when every row that gives a column has every listed
/// column as a column of the table and a key of the row; otherwise it fails on an update
/// column.
pub proof fn law_update_columns_checked(
    seed: TableSeed,
    table: TableName,
    cols: Seq<ColumnInfo>,
    ignore_missing_tables: bool,
    plan: TablePlan,
    us: Seq<Seq<char>>,
)
    requires
        table_planned(seed, table, cols, ignore_missing_tables, plan),
        cols.len() > 0,
        custom_updates(seed) == Some(us),
        forall|k: int| 0 <= k < seed.rows@.len() ==> row_checks_pass(cols, #[trigger] seed.rows@[k]),
    ensures
        plan.error is None <==> forall|k: int|
            0 <= k < seed.rows@.len() && (#[trigger] seed.rows@[k]).keys().len() > 0 ==> updates_fit(
                us,
                cols,
                seed.rows@[k],
            ),
        plan.error matches Some(e) ==> (e is UnknownUpdateColumn || e is UpdateColumnWithoutValue),
{
    let q = quote_table_name(table.schema_view(), table.table_view());
    if plan.error is None {
        assert forall|k: int|
            0 <= k < seed.rows@.len() && (#[trigger] seed.rows@[k]).keys().len() > 0 implies updates_fit(
            us,
            cols,
            seed.rows@[k],
        ) by {
            lemma_row_with_update_list(seed, cols, q, k, Ok(plan.rows@[k]), us);
        }
    } else {
        let n = plan.rows@.len() as int;
        let e = plan.error->Some_0;
        lemma_row_with_update_list(seed, cols, q, n, Err(e), us);
        assert(seed.rows@[n].keys().len() > 0 && !updates_fit(us, cols, seed.rows@[n]));
    }
}

/// A column with a default is never required.
pub proof fn law_defaulted_column_not_required(c: ColumnInfo)
    ensures
        c.column_default is Some ==> !is_required(c),
{
}

/// A row that leaves out only columns with a default is never refused for a missing column.
pub proof fn law_row_may_leave_out_defaulted_columns(
    seed: TableSeed,
    cols: Seq<ColumnInfo>,
    table: Seq<char>,
    k: int,
    r: Result<RowPlan, ApplyError>,
)
    requires
        0 <= k < seed.rows@.len(),
        row_planned(seed, cols, table, k, r),
        forall|c: int|
            0 <= c < cols.len() && seed.rows@[k].lookup(#[trigger] cols[c].name@) is None
                ==> cols[c].column_default is Some,
    ensures
        !(r is Err && r->Err_0 is MissingRequiredColumn),
{
    let row = seed.rows@[k];
    let pm = missing_at(cols, row);
    lemma_first_where_found(cols.len(), pm);
    if first_where(cols.len(), pm) is Some {
        let j = first_where(cols.len(), pm)->Some_0;
        assert(pm(j));
        assert(row.lookup(cols[j].name@) is None);
    }
}


} // verus!
