use yaml_seeder::apply::{build_insert_sql, executes, join_comma, plan_table, ApplyError, ApplyOutcome, RowPlan};
use yaml_seeder::config::{TableMode, TableRow, TableSeed};
use yaml_seeder::metadata::ColumnInfo;
use yaml_seeder::table_name::TableName;
use yaml_seeder::value::{ConvertError, SqlValue};
use yaml_seeder::yaml::{YamlNumber, YamlValue};

fn column(name: &str, data_type: &str, nullable: bool, default: Option<&str>, extra: &str) -> ColumnInfo {
    ColumnInfo {
        name: name.to_string(),
        data_type: data_type.to_string(),
        column_type: data_type.to_string(),
        is_nullable: nullable,
        column_default: default.map(|d| d.to_string()),
        extra: extra.to_string(),
    }
}

fn columns() -> Vec<ColumnInfo> {
    vec![
        column("id", "varchar", false, None, ""),
        column("name", "varchar", false, None, ""),
        column("amount", "int", true, None, ""),
        column("seq", "bigint", false, None, "auto_increment"),
        column("total", "int", true, None, "STORED GENERATED"),
    ]
}

fn row(entries: &[(&str, YamlValue)]) -> TableRow {
    let mut sorted: Vec<(String, YamlValue)> = Vec::new();
    let mut keys: Vec<&str> = entries.iter().map(|(k, _)| *k).collect();
    keys.sort();
    for key in keys {
        let value = entries.iter().find(|(k, _)| *k == key).map(|(_, v)| clone_value(v)).unwrap();
        sorted.push((key.to_string(), value));
    }
    TableRow::from_entries(sorted).expect("sorted keys")
}

fn clone_value(v: &YamlValue) -> YamlValue {
    match v {
        YamlValue::Null => YamlValue::Null,
        YamlValue::Bool(b) => YamlValue::Bool(*b),
        YamlValue::String(s) => YamlValue::String(s.clone()),
        YamlValue::Number(YamlNumber::PosInt(n)) => YamlValue::Number(YamlNumber::PosInt(*n)),
        YamlValue::Number(YamlNumber::NegInt(n)) => YamlValue::Number(YamlNumber::NegInt(*n)),
        _ => panic!("not used here"),
    }
}

fn text(s: &str) -> YamlValue {
    YamlValue::String(s.to_string())
}

fn seed(mode: TableMode, update_columns: Option<Vec<&str>>, rows: Vec<TableRow>) -> TableSeed {
    TableSeed {
        name: "app.users".to_string(),
        mode,
        update_columns: update_columns.map(|us| us.iter().map(|u| u.to_string()).collect()),
        rows,
    }
}

fn table() -> TableName {
    TableName::parse("app.users").expect("table name")
}

#[test]
fn upsert_updates_every_given_column_by_default() {
    let rows = vec![row(&[("id", text("user_1")), ("name", text("Alice"))])];
    let plan = plan_table(&seed(TableMode::UpsertUpdate, None, rows), &table(), &columns(), false);
    assert!(plan.error.is_none());
    let outcome = plan.outcome();
    assert_eq!(
        outcome.statements,
        vec!["INSERT INTO `app`.`users` (`id`, `name`) VALUES (?, ?) ON DUPLICATE KEY UPDATE `id` = VALUES(`id`), `name` = VALUES(`name`)".to_string()]
    );
}

#[test]
fn insert_mode_has_no_update_clause_and_nulls_are_inline() {
    let rows = vec![
        row(&[("id", text("u1")), ("name", text("A")), ("amount", YamlValue::Null)]),
        row(&[("id", text("u2")), ("name", text("B")), ("amount", YamlValue::Number(YamlNumber::PosInt(3)))]),
    ];
    let plan = plan_table(&seed(TableMode::Insert, None, rows), &table(), &columns(), false);
    assert!(plan.error.is_none());
    assert_eq!(plan.rows.len(), 2);
    match &plan.rows[0] {
        RowPlan::Insert(st) => {
            assert_eq!(st.sql, "INSERT INTO `app`.`users` (`id`, `name`, `amount`) VALUES (?, ?, NULL)");
            assert!(matches!(st.values[2], SqlValue::Null));
        }
        RowPlan::Skipped => panic!("expected a statement"),
    }
    match &plan.rows[1] {
        RowPlan::Insert(st) => {
            assert_eq!(st.sql, "INSERT INTO `app`.`users` (`id`, `name`, `amount`) VALUES (?, ?, ?)");
            assert!(matches!(st.values[2], SqlValue::Int(3)));
        }
        RowPlan::Skipped => panic!("expected a statement"),
    }
}

#[test]
fn custom_update_columns_are_checked() {
    let make = || vec![row(&[("id", text("u1")), ("name", text("A"))])];
    let plan = plan_table(&seed(TableMode::UpsertUpdate, Some(vec!["name"]), make()), &table(), &columns(), false);
    assert_eq!(
        plan.outcome().statements,
        vec!["INSERT INTO `app`.`users` (`id`, `name`) VALUES (?, ?) ON DUPLICATE KEY UPDATE `name` = VALUES(`name`)".to_string()]
    );

    let plan = plan_table(&seed(TableMode::UpsertUpdate, Some(vec![]), make()), &table(), &columns(), false);
    assert_eq!(
        plan.outcome().statements,
        vec!["INSERT INTO `app`.`users` (`id`, `name`) VALUES (?, ?)".to_string()]
    );

    let plan = plan_table(&seed(TableMode::UpsertUpdate, Some(vec!["nope"]), make()), &table(), &columns(), false);
    match plan.error {
        Some(err @ ApplyError::UnknownUpdateColumn { .. }) => {
            assert_eq!(err.message(), "update column `nope` is not part of table `app.users`");
        }
        other => panic!("expected an unknown update column, got {other:?}"),
    }

    let plan = plan_table(&seed(TableMode::UpsertUpdate, Some(vec!["amount"]), make()), &table(), &columns(), false);
    match plan.error {
        Some(err @ ApplyError::UpdateColumnWithoutValue { .. }) => {
            assert_eq!(err.message(), "update column `amount` has no value in row 1");
        }
        other => panic!("expected an update column without value, got {other:?}"),
    }

    let plan = plan_table(&seed(TableMode::Insert, Some(vec!["nope"]), make()), &table(), &columns(), false);
    assert!(plan.error.is_none());
}

#[test]
fn rows_are_checked_in_order() {
    let rows = vec![
        row(&[("id", text("u1")), ("name", text("A"))]),
        row(&[("id", text("u2")), ("nickname", text("B"))]),
        row(&[("id", text("u3"))]),
    ];
    let plan = plan_table(&seed(TableMode::Insert, None, rows), &table(), &columns(), false);
    assert_eq!(plan.rows.len(), 1);
    match plan.error {
        Some(err @ ApplyError::UnknownColumn { .. }) => {
            assert_eq!(err.message(), "unknown column `nickname` in table `app.users` (row 2)");
        }
        other => panic!("expected an unknown column, got {other:?}"),
    }
}

#[test]
fn required_columns_must_be_given() {
    let rows = vec![row(&[("id", text("bad"))])];
    let plan = plan_table(&seed(TableMode::UpsertUpdate, None, rows), &table(), &columns(), false);
    assert!(plan.rows.is_empty());
    match plan.error {
        Some(err @ ApplyError::MissingRequiredColumn { .. }) => {
            assert_eq!(err.message(), "missing required column `name` in table `app.users` (row 1)");
            assert!(err.message().contains("missing required column"));
        }
        other => panic!("expected a missing required column, got {other:?}"),
    }
}

#[test]
fn generated_columns_cannot_be_given() {
    let rows = vec![row(&[("id", text("u1")), ("name", text("A")), ("total", YamlValue::Number(YamlNumber::PosInt(1)))])];
    let plan = plan_table(&seed(TableMode::Insert, None, rows), &table(), &columns(), false);
    match plan.error {
        Some(err @ ApplyError::GeneratedColumn { .. }) => {
            assert_eq!(
                err.message(),
                "column `total` in table `app.users` is generated and cannot be specified (row 1)"
            );
        }
        other => panic!("expected a generated column, got {other:?}"),
    }
}

#[test]
fn conversion_failures_name_the_column_and_row() {
    let rows = vec![row(&[("id", text("u1")), ("name", text("A")), ("amount", text("lots"))])];
    let plan = plan_table(&seed(TableMode::Insert, None, rows), &table(), &columns(), false);
    match plan.error {
        Some(err @ ApplyError::Conversion { .. }) => {
            assert_eq!(
                err.message(),
                "failed to convert value for column `amount` in table `app.users` (row 1)"
            );
            match err {
                ApplyError::Conversion { cause: ConvertError::InvalidInteger { text, .. }, .. } => {
                    assert_eq!(text, "lots")
                }
                other => panic!("expected an integer failure, got {other:?}"),
            }
        }
        other => panic!("expected a conversion failure, got {other:?}"),
    }
}

#[test]
fn missing_tables_fail_or_are_skipped() {
    let rows = vec![row(&[("id", text("u1"))])];
    let plan = plan_table(&seed(TableMode::Insert, None, rows), &table(), &Vec::new(), false);
    assert!(!plan.skipped_missing_table);
    match plan.error {
        Some(err @ ApplyError::TableNotFound { .. }) => {
            assert_eq!(err.message(), "table `app.users` not found in database schema");
        }
        other => panic!("expected a missing table, got {other:?}"),
    }
    let rows = vec![row(&[("id", text("u1"))])];
    let plan = plan_table(&seed(TableMode::Insert, None, rows), &table(), &Vec::new(), true);
    assert!(plan.skipped_missing_table);
    assert!(plan.error.is_none());
    assert!(plan.outcome().statements.is_empty());
}

#[test]
fn empty_rows_are_skipped() {
    let rows = vec![TableRow::new()];
    let cols = vec![column("note", "text", true, None, "")];
    let plan = plan_table(&seed(TableMode::UpsertUpdate, None, rows), &table(), &cols, false);
    assert!(plan.error.is_none());
    assert!(matches!(plan.rows[0], RowPlan::Skipped));
    assert!(plan.outcome().statements.is_empty());
}

#[test]
fn statements_run_only_outside_dry_run_and_validation() {
    assert!(executes(false, false));
    assert!(!executes(true, false));
    assert!(!executes(false, true));
    assert!(!executes(true, true));
}

#[test]
fn insert_text_is_assembled_from_parts() {
    let chars = |s: &str| s.chars().collect::<Vec<char>>();
    let sql = build_insert_sql(&chars("`s`.`t`"), &vec![chars("a")], &vec![true], &vec![chars("a")]);
    assert_eq!(
        sql.iter().collect::<String>(),
        "INSERT INTO `s`.`t` (`a`) VALUES (NULL) ON DUPLICATE KEY UPDATE `a` = VALUES(`a`)"
    );
    let joined = join_comma(&vec![chars("x"), chars("y"), chars("z")]);
    assert_eq!(joined.iter().collect::<String>(), "x, y, z");
    assert!(join_comma(&Vec::new()).is_empty());
    assert!(ApplyOutcome::default().statements.is_empty());
}
