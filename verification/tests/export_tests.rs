use yaml_seeder::config::{TableMode, TableRow};
use yaml_seeder::export::{build_json_select, export_query, exported_table, ExportError};
use yaml_seeder::metadata::{columns_from_catalog, CatalogRow, ColumnInfo};
use yaml_seeder::table_name::TableName;

fn column(name: &str) -> ColumnInfo {
    ColumnInfo::from_catalog_row(
        name.to_string(),
        "varchar".to_string(),
        "varchar(10)".to_string(),
        "NO",
        None,
        String::new(),
    )
}

#[test]
fn json_select_reads_every_column_in_order() {
    let table = TableName::parse("app.users").unwrap();
    let query = build_json_select(&table, &vec![column("id"), column("name")]);
    assert_eq!(
        query,
        "SELECT COALESCE(JSON_ARRAYAGG(row_data), JSON_ARRAY()) FROM (SELECT JSON_OBJECT('id', t.`id`, 'name', t.`name`) AS row_data FROM `app`.`users` AS t ORDER BY t.`id`, t.`name`) AS ordered"
    );
    assert_eq!(
        build_json_select(&table, &Vec::new()),
        "SELECT JSON_ARRAY() FROM `app`.`users`"
    );
}

#[test]
fn export_of_missing_table_fails() {
    let table = TableName::parse("app.gone").unwrap();
    match export_query(&"app.gone".to_string(), &table, &Vec::new()) {
        Err(err @ ExportError::TableDoesNotExist { .. }) => {
            assert_eq!(err.message(), "table `app.gone` does not exist");
        }
        other => panic!("expected a missing table, got {other:?}"),
    }
    assert!(export_query(&"app.gone".to_string(), &table, &vec![column("id")]).is_ok());
}

#[test]
fn exported_tables_are_upserted_by_name() {
    let seed = exported_table(&"app.users".to_string(), vec![TableRow::new()]);
    assert_eq!(seed.name, "app.users");
    assert_eq!(seed.mode, TableMode::UpsertUpdate);
    assert!(seed.update_columns.is_none());
    assert_eq!(seed.rows.len(), 1);
}

#[test]
fn catalog_rows_read_nullability_in_any_case() {
    let nullable = ColumnInfo::from_catalog_row(
        "c".to_string(),
        "int".to_string(),
        "int".to_string(),
        "yEs",
        Some("0".to_string()),
        "auto_increment".to_string(),
    );
    assert!(nullable.is_nullable);
    assert_eq!(nullable.column_default.as_deref(), Some("0"));
    assert!(!column("id").is_nullable);
}

#[test]
fn catalog_rows_become_columns_in_order() {
    let row = |name: &str, flag: &str, default: Option<&str>| CatalogRow {
        column_name: name.to_string(),
        data_type: "int".to_string(),
        column_type: "int(11)".to_string(),
        nullable_flag: flag.to_string(),
        column_default: default.map(|d| d.to_string()),
        extra: String::new(),
    };
    let columns = columns_from_catalog(&vec![row("id", "NO", None), row("n", "Yes", Some("3"))]);
    assert_eq!(columns.len(), 2);
    assert_eq!(columns[0].name, "id");
    assert!(!columns[0].is_nullable);
    assert_eq!(columns[1].name, "n");
    assert!(columns[1].is_nullable);
    assert_eq!(columns[1].column_default.as_deref(), Some("3"));
    assert_eq!(columns[1].column_type, "int(11)");
    assert!(columns_from_catalog(&Vec::new()).is_empty());
}
