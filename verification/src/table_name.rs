//! Schema-qualified table names of the form `schema.table`.
use vstd::prelude::*;
use crate::text::{
    chars_of, lemma_split_on_two, owned, push_all, split, split_on, string_chars, string_from_chars,
    trim, trim_class, CharClass,
};

verus! {

/// Why a table name was refused.
#[derive(Debug, Clone, Copy, PartialEq, Eq, Structural)]
pub enum TableNameError {
    /// The name has no dot, so no table segment.
    MissingTable,
    /// The name has more than one dot.
    ExtraSegments,
    /// The schema or the table segment is empty once trimmed.
    EmptySegment,
}

/// The message of a refused table name.
pub open spec fn table_name_message(e: TableNameError) -> Seq<char> {
    match e {
        TableNameError::MissingTable => "table name must include table segment"@,
        TableNameError::ExtraSegments => "table name must have exactly one dot"@,
        TableNameError::EmptySegment => "schema and table segments must be non-empty"@,
    }
}

impl TableNameError {
    /// The message shown for the refusal.
    pub fn message(&self) -> (r: String)
        ensures
            r@ == table_name_message(*self),
    {
        match self {
            TableNameError::MissingTable => owned("table name must include table segment"),
            TableNameError::ExtraSegments => owned("table name must have exactly one dot"),
            TableNameError::EmptySegment => owned("schema and table segments must be non-empty"),
        }
    }
}

/// A table name qualified by its schema.
#[derive(Debug, Clone)]
pub struct TableName {
    schema: String,
    table: String,
}

/// What `TableName::parse` gives for a text: the trimmed schema and table segments.
pub open spec fn parse_table_name(s: Seq<char>) -> Result<(Seq<char>, Seq<char>), TableNameError> {
    let parts = split_on(s, '.');
    if parts.len() < 2 {
        Err(TableNameError::MissingTable)
    } else if parts.len() > 2 {
        Err(TableNameError::ExtraSegments)
    } else if trim(parts[0]).len() == 0 || trim(parts[1]).len() == 0 {
        Err(TableNameError::EmptySegment)
    } else {
        Ok((trim(parts[0]), trim(parts[1])))
    }
}

/// The back-quoted form `` `schema`.`table` ``.
pub open spec fn quote_table_name(schema: Seq<char>, table: Seq<char>) -> Seq<char> {
    seq!['`'] + schema + seq!['`', '.', '`'] + table + seq!['`']
}

impl TableName {
    /// The schema segment.
    pub closed spec fn schema_view(&self) -> Seq<char> {
        self.schema@
    }

    /// The table segment.
    pub closed spec fn table_view(&self) -> Seq<char> {
        self.table@
    }

    /// Splits `schema.table` at its one dot and trims both segments; both must be non-empty.
    pub fn parse(input: &str) -> (r: Result<TableName, TableNameError>)
        ensures
            match parse_table_name(input@) {
                Ok((schema, table)) => r matches Ok(name) && name.schema_view() == schema
                    && name.table_view() == table,
                Err(e) => r == Err::<TableName, TableNameError>(e),
            },
    {
        let chars = chars_of(input);
        let parts = split(&chars, '.');
        if parts.len() < 2 {
            return Err(TableNameError::MissingTable);
        }
        if parts.len() > 2 {
            return Err(TableNameError::ExtraSegments);
        }
        let schema = trim_class(&parts[0], &CharClass::Whitespace);
        let table = trim_class(&parts[1], &CharClass::Whitespace);
        if schema.len() == 0 || table.len() == 0 {
            return Err(TableNameError::EmptySegment);
        }
        Ok(TableName { schema: string_from_chars(&schema), table: string_from_chars(&table) })
    }

    /// The schema segment.
    pub fn schema(&self) -> (r: &str)
        ensures
            r@ == self.schema_view(),
    {
        self.schema.as_str()
    }

    /// The table segment.
    pub fn table(&self) -> (r: &str)
        ensures
            r@ == self.table_view(),
    {
        self.table.as_str()
    }

    /// The name as a MySQL identifier: `` `schema`.`table` ``.
    pub fn quoted(&self) -> (r: String)
        ensures
            r@ == quote_table_name(self.schema_view(), self.table_view()),
    {
        let mut v: Vec<char> = Vec::new();
        v.push('`');
        push_all(&mut v, &string_chars(&self.schema));
        v.push('`');
        v.push('.');
        v.push('`');
        push_all(&mut v, &string_chars(&self.table));
        v.push('`');
        assert(v@ =~= quote_table_name(self.schema_view(), self.table_view()));
        string_from_chars(&v)
    }
}

/// Writing a name as `schema.table` and parsing it gives the two segments back, for segments
/// that are non-empty, hold no dot, and have no whitespace at either end.
pub proof fn law_parse_round_trip(schema: Seq<char>, table: Seq<char>)
    requires
        schema.len() > 0,
        table.len() > 0,
        forall|i: int| 0 <= i < schema.len() ==> schema[i] != '.',
        forall|i: int| 0 <= i < table.len() ==> table[i] != '.',
        trim(schema) == schema,
        trim(table) == table,
    ensures
        parse_table_name(schema + seq!['.'] + table) == Ok::<(Seq<char>, Seq<char>), TableNameError>(
            (schema, table),
        ),
{
    lemma_split_on_two(schema, table, '.');
}

} // verus!
