//! Exporting tables: the query that reads a table as a JSON array of row objects.
use vstd::prelude::*;
use crate::apply::{join, views};
use crate::config::{TableMode, TableRow, TableSeed};
use crate::metadata::ColumnInfo;
use crate::table_name::{quote_table_name, TableName};
use crate::text::{chars_of, contains_seq, has_prefix, occurs_at, push_all, push_str, push_string, string_chars, string_from_chars};

verus! {

/// The JSON object entry of a column: `'name', t.`name``.
pub open spec fn object_pair(name: Seq<char>) -> Seq<char> {
    seq!['\''] + name + "', t.`"@ + name + seq!['`']
}

/// The ordering key of a column: `t.`name``.
pub open spec fn order_key(name: Seq<char>) -> Seq<char> {
    "t.`"@ + name + seq!['`']
}

/// The query that reads a table's rows as one JSON array of objects, ordered by all columns.
pub open spec fn json_select(table: Seq<char>, names: Seq<Seq<char>>) -> Seq<char> {
    if names.len() == 0 {
        "SELECT JSON_ARRAY() FROM "@ + table
    } else {
        "SELECT COALESCE(JSON_ARRAYAGG(row_data), JSON_ARRAY()) FROM (SELECT JSON_OBJECT("@ + join(
            ", "@,
            names.map_values(|n: Seq<char>| object_pair(n)),
        ) + ") AS row_data FROM "@ + table + " AS t ORDER BY "@ + join(
            ", "@,
            names.map_values(|n: Seq<char>| order_key(n)),
        ) + ") AS ordered"@
    }
}

fn pair_of(name: &Vec<char>) -> (r: Vec<char>)
    ensures
        r@ == object_pair(name@),
{
    let mut r: Vec<char> = Vec::new();
    r.push('\'');
    push_all(&mut r, name);
    push_all(&mut r, &chars_of("', t.`"));
    push_all(&mut r, name);
    r.push('`');
    assert(r@ =~= object_pair(name@));
    r
}

fn key_of(name: &Vec<char>) -> (r: Vec<char>)
    ensures
        r@ == order_key(name@),
{
    let mut r = chars_of("t.`");
    push_all(&mut r, name);
    r.push('`');
    assert(r@ =~= order_key(name@));
    r
}

/// The names of the columns.
pub open spec fn names_of(columns: Seq<ColumnInfo>) -> Seq<Seq<char>> {
    columns.map_values(|c: ColumnInfo| c.name@)
}

/// The query that exports a table with the given columns; see `json_select`.
pub fn build_json_select(table_name: &TableName, columns: &Vec<ColumnInfo>) -> (r: String)
    ensures
        r@ == json_select(
            quote_table_name(table_name.schema_view(), table_name.table_view()),
            names_of(columns@),
        ),
{
    let quoted = string_chars(&table_name.quoted());
    if columns.len() == 0 {
        let mut r = chars_of("SELECT JSON_ARRAY() FROM ");
        push_all(&mut r, &quoted);
        return string_from_chars(&r);
    }
    let mut pairs: Vec<Vec<char>> = Vec::new();
    let mut keys: Vec<Vec<char>> = Vec::new();
    for j in 0..columns.len()
        invariant
            pairs@.len() == j,
            keys@.len() == j,
            forall|k: int| 0 <= k < j ==> #[trigger] pairs@[k]@ == object_pair(columns@[k].name@),
            forall|k: int| 0 <= k < j ==> #[trigger] keys@[k]@ == order_key(columns@[k].name@),
    {
        let name = string_chars(&columns[j].name);
        pairs.push(pair_of(&name));
        keys.push(key_of(&name));
    }
    assert(views(pairs@) =~= names_of(columns@).map_values(|n: Seq<char>| object_pair(n)));
    assert(views(keys@) =~= names_of(columns@).map_values(|n: Seq<char>| order_key(n)));
    let mut r = chars_of("SELECT COALESCE(JSON_ARRAYAGG(row_data), JSON_ARRAY()) FROM (SELECT JSON_OBJECT(");
    push_all(&mut r, &crate::apply::join_comma(&pairs));
    push_all(&mut r, &chars_of(") AS row_data FROM "));
    push_all(&mut r, &quoted);
    push_all(&mut r, &chars_of(" AS t ORDER BY "));
    push_all(&mut r, &crate::apply::join_comma(&keys));
    push_all(&mut r, &chars_of(") AS ordered"));
    string_from_chars(&r)
}

/// Why a table could not be exported.
#[derive(Debug)]
pub enum ExportError {
    /// The table has no columns in the database schema.
    TableDoesNotExist { table: String },
}

impl ExportError {
    /// The message shown for the failure.
    pub fn message(&self) -> (r: String)
        ensures
            match self {
                ExportError::TableDoesNotExist { table } => r@ == "table `"@ + table@ + "` does not exist"@,
            },
    {
        match self {
            ExportError::TableDoesNotExist { table } => {
                let mut v: Vec<char> = Vec::new();
                push_str(&mut v, "table `");
                push_string(&mut v, table);
                push_str(&mut v, "` does not exist");
                string_from_chars(&v)
            },
        }
    }
}

/// The export query of a table, once its columns are known: refused when it has none.
pub fn export_query(table: &String, table_name: &TableName, columns: &Vec<ColumnInfo>) -> (r: Result<String, ExportError>)
    ensures
        columns@.len() == 0 ==> (r matches Err(ExportError::TableDoesNotExist { table: t }) && t@
            == table@),
        columns@.len() > 0 ==> (r matches Ok(q) && q@ == json_select(
            quote_table_name(table_name.schema_view(), table_name.table_view()),
            names_of(columns@),
        )),
{
    if columns.len() == 0 {
        return Err(ExportError::TableDoesNotExist { table: table.clone() });
    }
    Ok(build_json_select(table_name, columns))
}

/// The seeds of an exported table: its name as given, upserted, with the rows read.
pub fn exported_table(table: &String, rows: Vec<TableRow>) -> (r: TableSeed)
    ensures
        r.name@ == table@,
        r.mode == TableMode::UpsertUpdate,
        r.update_columns is None,
        r.rows@ == rows@,
{
    TableSeed { name: table.clone(), mode: TableMode::UpsertUpdate, update_columns: None, rows }
}

/// Where item `i` starts in the items joined by `sep`.
pub open spec fn join_pos(sep: Seq<char>, items: Seq<Seq<char>>, i: int) -> int {
    join(sep, items.take(i)).len() + if i > 0 {
        sep.len() as int
    } else {
        0int
    }
}

proof fn lemma_join_occurs(sep: Seq<char>, items: Seq<Seq<char>>, i: int)
    requires
        0 <= i < items.len(),
    ensures
        occurs_at(join(sep, items), items[i], join_pos(sep, items, i)),
    decreases items.len(),
{
    let n = items.len() as int;
    if n == 1 {
        assert(items.take(0) =~= Seq::<Seq<char>>::empty());
        assert(join(sep, items).subrange(0, items[0].len() as int) =~= items[0]);
    } else {
        let d = items.drop_last();
        let whole = join(sep, items);
        assert(whole == join(sep, d) + sep + items.last());
        if i < n - 1 {
            lemma_join_occurs(sep, d, i);
            assert(d.take(i) =~= items.take(i));
            assert(d[i] == items[i]);
            let p = join_pos(sep, items, i);
            assert(whole.subrange(p, p + items[i].len()) =~= join(sep, d).subrange(p, p + items[i].len()));
        } else {
            assert(items.take(i) =~= d);
            let p = join_pos(sep, items, i);
            assert(whole.subrange(p, p + items[i].len()) =~= items.last());
        }
    }
}

proof fn lemma_join_order(sep: Seq<char>, items: Seq<Seq<char>>, i: int, j: int)
    requires
        0 <= i < j < items.len(),
    ensures
        join_pos(sep, items, i) + items[i].len() <= join_pos(sep, items, j),
{
    let t = items.take(j);
    lemma_join_occurs(sep, t, i);
    assert(t.take(i) =~= items.take(i));
    assert(t[i] == items[i]);
}

proof fn lemma_occurs_after(a: Seq<char>, b: Seq<char>, x: Seq<char>, p: int)
    requires
        occurs_at(b, x, p),
    ensures
        occurs_at(a + b, x, a.len() + p),
{
    assert((a + b).subrange(a.len() + p, a.len() + p + x.len()) =~= b.subrange(p, p + x.len()));
}

proof fn lemma_extended(s: Seq<char>, c: Seq<char>, x: Seq<char>, p: int)
    ensures
        occurs_at(s, x, p) ==> occurs_at(s + c, x, p),
        has_prefix(s, x) ==> has_prefix(s + c, x),
{
    if occurs_at(s, x, p) {
        assert((s + c).subrange(p, p + x.len()) =~= s.subrange(p, p + x.len()));
    }
    if has_prefix(s, x) {
        assert((s + c).subrange(0, x.len() as int) =~= s.subrange(0, x.len() as int));
    }
}

/// What the export query of a table with columns is made of: its head and the joined
/// entries, then the rest.
proof fn lemma_query_parts(table: Seq<char>, names: Seq<Seq<char>>, x: Seq<char>, p: int)
    requires
        names.len() > 0,
    ensures
        ({
            let head = "SELECT COALESCE(JSON_ARRAYAGG(row_data), JSON_ARRAY()) FROM (SELECT JSON_OBJECT("@;
            let entries = join(", "@, names.map_values(|n: Seq<char>| object_pair(n)));
            &&& occurs_at(head + entries, x, p) ==> occurs_at(json_select(table, names), x, p)
            &&& has_prefix(head + entries, x) ==> has_prefix(json_select(table, names), x)
        }),
{
    let head = "SELECT COALESCE(JSON_ARRAYAGG(row_data), JSON_ARRAY()) FROM (SELECT JSON_OBJECT("@;
    let s0 = head + join(", "@, names.map_values(|n: Seq<char>| object_pair(n)));
    let s1 = s0 + ") AS row_data FROM "@;
    let s2 = s1 + table;
    let s3 = s2 + " AS t ORDER BY "@;
    let s4 = s3 + join(", "@, names.map_values(|n: Seq<char>| order_key(n)));
    let s5 = s4 + ") AS ordered"@;
    lemma_extended(s0, ") AS row_data FROM "@, x, p);
    lemma_extended(s1, table, x, p);
    lemma_extended(s2, " AS t ORDER BY "@, x, p);
    lemma_extended(s3, join(", "@, names.map_values(|n: Seq<char>| order_key(n))), x, p);
    lemma_extended(s4, ") AS ordered"@, x, p);
    assert(json_select(table, names) == s5);
}

/// Where the JSON object entry of column `i` starts in the export query of `table`.
pub open spec fn entry_position(table: Seq<char>, names: Seq<Seq<char>>, i: int) -> int {
    "SELECT COALESCE(JSON_ARRAYAGG(row_data), JSON_ARRAY()) FROM (SELECT JSON_OBJECT("@.len()
        + join_pos(", "@, names.map_values(|n: Seq<char>| object_pair(n)), i)
}

proof fn lemma_entry_occurs(table: Seq<char>, names: Seq<Seq<char>>, i: int)
    requires
        0 <= i < names.len(),
    ensures
        occurs_at(json_select(table, names), object_pair(names[i]), entry_position(table, names, i)),
{
    let head = "SELECT COALESCE(JSON_ARRAYAGG(row_data), JSON_ARRAY()) FROM (SELECT JSON_OBJECT("@;
    let sep = ", "@;
    let pairs = names.map_values(|n: Seq<char>| object_pair(n));
    lemma_join_occurs(sep, pairs, i);
    lemma_occurs_after(head, join(sep, pairs), pairs[i], join_pos(sep, pairs, i));
    lemma_query_parts(table, names, pairs[i], entry_position(table, names, i));
}

proof fn lemma_query_head(table: Seq<char>, names: Seq<Seq<char>>)
    requires
        names.len() > 0,
    ensures
        has_prefix(
            json_select(table, names),
            "SELECT COALESCE(JSON_ARRAYAGG(row_data), JSON_ARRAY()) FROM (SELECT JSON_OBJECT("@,
        ),
{
    let head = "SELECT COALESCE(JSON_ARRAYAGG(row_data), JSON_ARRAY()) FROM (SELECT JSON_OBJECT("@;
    let entries = join(", "@, names.map_values(|n: Seq<char>| object_pair(n)));
    assert((head + entries).subrange(0, head.len() as int) =~= head);
    lemma_query_parts(table, names, head, 0);
}

proof fn lemma_entries_ordered(table: Seq<char>, names: Seq<Seq<char>>, i: int, j: int)
    requires
        0 <= i < j < names.len(),
    ensures
        entry_position(table, names, i) + object_pair(names[i]).len() <= entry_position(table, names, j),
{
    let pairs = names.map_values(|n: Seq<char>| object_pair(n));
    lemma_join_order(", "@, pairs, i, j);
    assert(pairs[i] == object_pair(names[i]));
}

/// The export query of a table with columns reads every column: it is the aggregating query,
/// holding the JSON object entry `'c', t.`c`` of each column, the entries in column order;
/// only a table with no columns gives the empty array.
pub proof fn law_export_query_reads_every_column(table: Seq<char>, names: Seq<Seq<char>>)
    ensures
        names.len() == 0 ==> json_select(table, names) == "SELECT JSON_ARRAY() FROM "@ + table,
        names.len() > 0 ==> has_prefix(
            json_select(table, names),
            "SELECT COALESCE(JSON_ARRAYAGG(row_data), JSON_ARRAY()) FROM (SELECT JSON_OBJECT("@,
        ),
        forall|i: int|
            0 <= i < names.len() ==> occurs_at(
                json_select(table, names),
                #[trigger] object_pair(names[i]),
                entry_position(table, names, i),
            ),
        forall|i: int|
            0 <= i < names.len() ==> contains_seq(
                json_select(table, names),
                #[trigger] object_pair(names[i]),
            ),
        forall|i: int, j: int|
            #![trigger entry_position(table, names, i), entry_position(table, names, j)]
            0 <= i < j < names.len() ==> entry_position(table, names, i) + object_pair(names[i]).len()
                <= entry_position(table, names, j),
{
    if names.len() > 0 {
        lemma_query_head(table, names);
    }
    assert forall|i: int| 0 <= i < names.len() implies occurs_at(
        json_select(table, names),
        #[trigger] object_pair(names[i]),
        entry_position(table, names, i),
    ) by {
        lemma_entry_occurs(table, names, i);
    }
    assert forall|i: int| 0 <= i < names.len() implies contains_seq(
        json_select(table, names),
        #[trigger] object_pair(names[i]),
    ) by {
        lemma_entry_occurs(table, names, i);
        assert(occurs_at(json_select(table, names), object_pair(names[i]), entry_position(table, names, i)));
    }
    assert forall|i: int, j: int|
        #![trigger entry_position(table, names, i), entry_position(table, names, j)]
        0 <= i < j < names.len() implies entry_position(table, names, i) + object_pair(
            names[i],
        ).len() <= entry_position(table, names, j) by {
        lemma_entries_ordered(table, names, i, j);
    }
}

} // verus!
