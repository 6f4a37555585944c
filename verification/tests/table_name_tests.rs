use yaml_seeder::table_name::{TableName, TableNameError};

#[test]
fn parse_valid_schema_table() {
    let name = TableName::parse("foo.bar").expect("parseable");
    assert_eq!(name.schema(), "foo");
    assert_eq!(name.table(), "bar");
    assert_eq!(name.quoted(), "`foo`.`bar`");
}

#[test]
fn parse_with_whitespace_is_trimmed() {
    let name = TableName::parse(" foo . bar ").expect("parseable");
    assert_eq!(name.schema(), "foo");
    assert_eq!(name.table(), "bar");
}

#[test]
fn parse_rejects_missing_segments() {
    assert!(TableName::parse("only_schema").is_err());
    assert!(TableName::parse("schema.").is_err());
}

#[test]
fn parse_rejects_additional_segments() {
    assert!(TableName::parse("a.b.c").is_err());
}

#[test]
fn parse_errors_are_told_apart() {
    assert_eq!(
        TableName::parse("only_schema").unwrap_err(),
        TableNameError::MissingTable
    );
    assert_eq!(TableName::parse("a.b.c").unwrap_err(), TableNameError::ExtraSegments);
    assert_eq!(TableName::parse(" . x").unwrap_err(), TableNameError::EmptySegment);
    assert_eq!(
        TableNameError::MissingTable.message(),
        "table name must include table segment"
    );
    assert_eq!(
        TableNameError::ExtraSegments.message(),
        "table name must have exactly one dot"
    );
    assert_eq!(
        TableNameError::EmptySegment.message(),
        "schema and table segments must be non-empty"
    );
}

#[test]
fn parse_round_trips_plain_segments() {
    let name = TableName::parse("app.users").expect("parseable");
    let again = TableName::parse(&format!("{}.{}", name.schema(), name.table())).expect("parseable");
    assert_eq!(again.schema(), "app");
    assert_eq!(again.table(), "users");
    assert_eq!(again.quoted(), "`app`.`users`");
}
