//! Column metadata from `information_schema.columns`.
use vstd::prelude::*;
use crate::text::{chars_equal, chars_of, lower, lowercase};

verus! {

/// One column of a table, as `information_schema.columns` describes it.
#[derive(Debug, Clone)]
pub struct ColumnInfo {
    /// The column's name.
    pub name: String,
    /// `information_schema.columns.data_type`
    pub data_type: String,
    /// The full column type, such as `int unsigned` or `enum('a','b')`.
    pub column_type: String,
    /// Whether the column accepts NULL.
    pub is_nullable: bool,
    /// The column's default, if it has one.
    pub column_default: Option<String>,
    /// Extra attributes, such as `auto_increment` or `STORED GENERATED`.
    pub extra: String,
}

impl ColumnInfo {
    /// The column described by one catalog row; `nullable_flag` is `IS_NULLABLE`, which
    /// makes the column nullable when it is `YES` in any ASCII case.
    pub fn from_catalog_row(
        name: String,
        data_type: String,
        column_type: String,
        nullable_flag: &str,
        column_default: Option<String>,
        extra: String,
    ) -> (r: ColumnInfo)
        ensures
            r.name == name,
            r.data_type == data_type,
            r.column_type == column_type,
            r.column_default == column_default,
            r.extra == extra,
            r.is_nullable == (lower(nullable_flag@) == "yes"@),
    {
        let flag = lowercase(&chars_of(nullable_flag));
        let yes = chars_of("yes");
        let is_nullable = chars_equal(&flag, &yes);
        ColumnInfo { name, data_type, column_type, is_nullable, column_default, extra }
    }
}

/// One row of `information_schema.columns` as read: `nullable_flag` is `IS_NULLABLE`, and
/// `column_default` is absent for NULL.
pub struct CatalogRow {
    pub column_name: String,
    pub data_type: String,
    pub column_type: String,
    pub nullable_flag: String,
    pub column_default: Option<String>,
    pub extra: String,
}

/// The column describes the catalog row: the same texts, nullable when the flag is `YES` in
/// any ASCII case.
pub open spec fn describes_row(c: ColumnInfo, row: CatalogRow) -> bool {
    &&& c.name@ == row.column_name@
    &&& c.data_type@ == row.data_type@
    &&& c.column_type@ == row.column_type@
    &&& c.is_nullable == (lower(row.nullable_flag@) == "yes"@)
    &&& match (c.column_default, row.column_default) {
        (Some(a), Some(b)) => a@ == b@,
        (None, None) => true,
        _ => false,
    }
    &&& c.extra@ == row.extra@
}

/// The columns of a table from its catalog rows, one each, in order.
pub fn columns_from_catalog(rows: &Vec<CatalogRow>) -> (r: Vec<ColumnInfo>)
    ensures
        r@.len() == rows@.len(),
        forall|i: int| 0 <= i < rows@.len() ==> describes_row(#[trigger] r@[i], rows@[i]),
{
    let mut out: Vec<ColumnInfo> = Vec::new();
    for i in 0..rows.len()
        invariant
            out@.len() == i,
            forall|k: int| 0 <= k < i ==> describes_row(#[trigger] out@[k], rows@[k]),
    {
        let row = &rows[i];
        let default = match &row.column_default {
            Some(d) => Some(d.clone()),
            None => None,
        };
        let c = ColumnInfo::from_catalog_row(
            row.column_name.clone(),
            row.data_type.clone(),
            row.column_type.clone(),
            row.nullable_flag.as_str(),
            default,
            row.extra.clone(),
        );
        out.push(c);
    }
    out
}

} // verus!
