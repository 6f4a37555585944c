use yaml_seeder::config::{SeedFile, TableMode, TableRow};
use yaml_seeder::yaml::YamlValue;

#[test]
fn table_mode_default_is_upsert_update() {
    assert_eq!(TableMode::default(), TableMode::UpsertUpdate);
}

#[test]
fn ensure_supported_version_accepts_one() {
    let seed = SeedFile {
        version: 1,
        tables: Vec::new(),
    };
    assert!(seed.ensure_supported_version().is_ok());
}

#[test]
fn ensure_supported_version_rejects_other_versions() {
    let seed = SeedFile {
        version: 2,
        tables: Vec::new(),
    };
    let err = seed.ensure_supported_version().unwrap_err();
    assert!(err.contains("unsupported seed file version"));
}

#[test]
fn unsupported_version_message_names_the_version() {
    let seed = SeedFile {
        version: 0,
        tables: Vec::new(),
    };
    assert_eq!(
        seed.ensure_supported_version().unwrap_err(),
        "unsupported seed file version: 0"
    );
    let seed = SeedFile {
        version: 255,
        tables: Vec::new(),
    };
    assert_eq!(
        seed.ensure_supported_version().unwrap_err(),
        "unsupported seed file version: 255"
    );
}

#[test]
fn table_row_takes_sorted_keys_only() {
    let sorted = TableRow::from_entries(vec![
        ("a".to_string(), YamlValue::Null),
        ("b".to_string(), YamlValue::Bool(true)),
    ]);
    let row = sorted.expect("sorted keys");
    assert_eq!(row.len(), 2);
    assert_eq!(row.key_at(0), "a");
    assert!(matches!(row.value_at(1), YamlValue::Bool(true)));
    let name: Vec<char> = "b".chars().collect();
    assert!(matches!(row.get(&name), Some(YamlValue::Bool(true))));
    let missing: Vec<char> = "c".chars().collect();
    assert!(row.get(&missing).is_none());

    let unsorted = TableRow::from_entries(vec![
        ("b".to_string(), YamlValue::Null),
        ("a".to_string(), YamlValue::Null),
    ]);
    assert!(unsorted.is_none());
    let duplicated = TableRow::from_entries(vec![
        ("a".to_string(), YamlValue::Null),
        ("a".to_string(), YamlValue::Null),
    ]);
    assert!(duplicated.is_none());
    assert_eq!(TableRow::new().len(), 0);
}
