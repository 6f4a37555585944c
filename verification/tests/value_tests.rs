use std::str::FromStr;

use bigdecimal::BigDecimal;
use serde_json::Value as JsonValue;
use yaml_seeder::metadata::ColumnInfo;
use bigdecimal::num_bigint::BigInt;
use chrono::{NaiveDate, NaiveDateTime, NaiveTime};
use yaml_seeder::value::{
    convert_json, convert_value, kind_of, parse_datetime, parse_enum_variants, ColumnKind, ConvertError, Date, DateTime,
    SqlValue, Time,
};
use yaml_seeder::yaml::{YamlFloat, YamlNumber, YamlValue};

fn column_info(name: &str, data_type: &str, column_type: &str) -> ColumnInfo {
    ColumnInfo {
        name: name.to_string(),
        data_type: data_type.to_string(),
        column_type: column_type.to_string(),
        is_nullable: false,
        column_default: None,
        extra: String::new(),
    }
}

fn big_decimal(digits: &str, scale: i64) -> BigDecimal {
    BigDecimal::new(BigInt::from_str(digits).unwrap(), scale)
}

fn naive_date(d: &Date) -> NaiveDate {
    NaiveDate::from_ymd_opt(d.year, d.month, d.day).unwrap()
}

fn naive_time(t: &Time) -> NaiveTime {
    NaiveTime::from_hms_nano_opt(t.hour, t.minute, t.second, t.nanosecond).unwrap()
}

fn naive_datetime(dt: &DateTime) -> NaiveDateTime {
    NaiveDateTime::new(naive_date(&dt.date), naive_time(&dt.time))
}

fn json(text: &str) -> JsonValue {
    serde_json::from_str(text).unwrap()
}

fn text(s: &str) -> YamlValue {
    YamlValue::String(s.to_string())
}

fn float(x: f64) -> YamlValue {
    let number = serde_yaml::Number::from(x);
    YamlValue::Number(YamlNumber::Float(YamlFloat {
        text: x.to_string(),
        yaml_text: number.to_string(),
        json_text: serde_json::Number::from_f64(x).map(|j| j.to_string()),
        number,
    }))
}

fn model(value: &serde_yaml::Value) -> YamlValue {
    match value {
        serde_yaml::Value::Null => YamlValue::Null,
        serde_yaml::Value::Bool(b) => YamlValue::Bool(*b),
        serde_yaml::Value::Number(n) => {
            if let Some(u) = n.as_u64() {
                YamlValue::Number(YamlNumber::PosInt(u))
            } else if let Some(i) = n.as_i64() {
                YamlValue::Number(YamlNumber::NegInt(i))
            } else {
                float(n.as_f64().unwrap())
            }
        }
        serde_yaml::Value::String(s) => YamlValue::String(s.clone()),
        serde_yaml::Value::Sequence(items) => {
            YamlValue::Sequence(items.iter().map(model).collect(), value.clone())
        }
        serde_yaml::Value::Mapping(m) => YamlValue::Mapping(
            m.iter().map(|(k, v)| (model(k), model(v))).collect(),
            value.clone(),
        ),
        serde_yaml::Value::Tagged(t) => {
            YamlValue::Tagged(Box::new(model(&t.value)), t.tag.to_string(), value.clone())
        }
    }
}

fn parse_yaml(text: &str) -> YamlValue {
    model(&serde_yaml::from_str(text).unwrap())
}

#[test]
fn convert_varchar_returns_string() {
    let column = column_info("name", "varchar", "varchar(255)");
    let yaml = text("Alice");
    match convert_value(&column, &yaml).expect("convert") {
        SqlValue::String(s) => assert_eq!(s, "Alice"),
        other => panic!("expected string value, got {other:?}"),
    }
}

#[test]
fn convert_int_parses_numbers() {
    let column = column_info("amount", "int", "int");
    let yaml = YamlValue::Number(YamlNumber::PosInt(42));
    match convert_value(&column, &yaml).expect("convert") {
        SqlValue::Int(v) => assert_eq!(v, 42),
        other => panic!("expected int value, got {other:?}"),
    }
}

#[test]
fn convert_decimal_handles_string_input() {
    let column = column_info("price", "decimal", "decimal(10,2)");
    let yaml = text("12.34");
    match convert_value(&column, &yaml).expect("convert") {
        SqlValue::Decimal { digits, scale } => {
            let value = big_decimal(&digits, scale);
            let expected = BigDecimal::from_str("12.34").unwrap();
            assert_eq!(value, expected);
        }
        other => panic!("expected decimal, got {other:?}"),
    }
}

#[test]
fn convert_json_accepts_inline_yaml() {
    let column = column_info("metadata", "json", "json");
    let yaml = parse_yaml("{ flag: true }");
    match convert_value(&column, &yaml).expect("convert") {
        SqlValue::Json(text) => {
            let value = json(&text);
            assert_eq!(value["flag"], JsonValue::Bool(true));
        }
        other => panic!("expected json, got {other:?}"),
    }
}

#[test]
fn convert_enum_validates_allowed_variants() {
    let column = column_info("status", "enum", "enum('draft','published')");
    let valid = text("draft");
    assert!(convert_value(&column, &valid).is_ok());

    let invalid = text("archived");
    let err = convert_value(&column, &invalid).unwrap_err();
    assert!(err.message().contains("not part of enum"));
}

#[test]
fn convert_datetime_parses_known_formats() {
    let column = column_info("created_at", "datetime", "datetime");
    let yaml = text("2025-09-19 12:34:56");
    match convert_value(&column, &yaml).expect("convert") {
        SqlValue::DateTime(parts) => {
            let value = naive_datetime(&parts);
            assert_eq!(
                value.format("%Y-%m-%d %H:%M:%S").to_string(),
                "2025-09-19 12:34:56"
            );
        }
        other => panic!("expected datetime, got {other:?}"),
    }
}

#[test]
fn convert_value_respects_nulls() {
    let column = column_info("name", "varchar", "varchar(255)");
    let yaml = YamlValue::Null;
    assert!(matches!(
        convert_value(&column, &yaml).unwrap(),
        SqlValue::Null
    ));
}

#[test]
fn null_converts_to_null_for_every_type() {
    for data_type in ["int", "json", "decimal", "double", "date", "enum", "geometry"] {
        let column = column_info("c", data_type, "enum('a')");
        assert!(matches!(convert_value(&column, &YamlValue::Null), Ok(SqlValue::Null)));
        let tagged = parse_yaml("!tag null");
        assert!(matches!(convert_value(&column, &tagged), Ok(SqlValue::Null)));
    }
}

#[test]
fn column_kinds_ignore_case() {
    assert_eq!(kind_of(&"VARCHAR".to_string()), ColumnKind::Text);
    assert_eq!(kind_of(&"BigInt".to_string()), ColumnKind::Integer);
    assert_eq!(kind_of(&"timestamp".to_string()), ColumnKind::DateTime);
    assert_eq!(kind_of(&"blob".to_string()), ColumnKind::Other);
}

#[test]
fn integers_from_booleans_and_strings() {
    let column = column_info("n", "tinyint", "tinyint(1)");
    assert!(matches!(convert_value(&column, &YamlValue::Bool(true)), Ok(SqlValue::Int(1))));
    assert!(matches!(convert_value(&column, &YamlValue::Bool(false)), Ok(SqlValue::Int(0))));
    assert!(matches!(convert_value(&column, &text("-17")), Ok(SqlValue::Int(-17))));
    assert!(matches!(
        convert_value(&column, &YamlValue::Number(YamlNumber::NegInt(-5))),
        Ok(SqlValue::Int(-5))
    ));
    match convert_value(&column, &text("12x")) {
        Err(ConvertError::InvalidInteger { column, text }) => {
            assert_eq!(column, "n");
            assert_eq!(text, "12x");
        }
        other => panic!("expected an invalid integer, got {other:?}"),
    }
    let big = YamlValue::Number(YamlNumber::PosInt(u64::MAX));
    assert!(matches!(
        convert_value(&column, &big),
        Err(ConvertError::InvalidInteger { .. })
    ));
    assert!(matches!(convert_value(&column, &float(2.5)), Err(ConvertError::InvalidInteger { .. })));
}

#[test]
fn unsigned_integers_wrap_into_i64() {
    let column = column_info("n", "bigint", "bigint(20) UNSIGNED");
    let big = YamlValue::Number(YamlNumber::PosInt(u64::MAX));
    assert!(matches!(convert_value(&column, &big), Ok(SqlValue::Int(-1))));
    assert!(matches!(convert_value(&column, &text("18446744073709551615")), Ok(SqlValue::Int(-1))));
    assert!(matches!(convert_value(&column, &text("+7")), Ok(SqlValue::Int(7))));
    match convert_value(&column, &text("-1")) {
        Err(err @ ConvertError::InvalidUnsigned { .. }) => {
            assert_eq!(err.message(), "failed to parse unsigned integer for column n");
        }
        other => panic!("expected an invalid unsigned integer, got {other:?}"),
    }
}

#[test]
fn decimals_from_numbers_and_strings() {
    let column = column_info("price", "NUMERIC", "decimal(10,2)");
    match convert_value(&column, &YamlValue::Number(YamlNumber::PosInt(12))) {
        Ok(SqlValue::Decimal { digits, scale }) => {
            assert_eq!(big_decimal(&digits, scale), BigDecimal::from_str("12").unwrap())
        }
        other => panic!("expected a decimal, got {other:?}"),
    }
    match convert_value(&column, &float(0.25)) {
        Ok(SqlValue::Decimal { digits, scale }) => {
            assert_eq!((digits.as_str(), scale), ("25", 2));
            assert_eq!(big_decimal(&digits, scale), BigDecimal::from_str("0.25").unwrap())
        }
        other => panic!("expected a decimal, got {other:?}"),
    }
    match convert_value(&column, &float(f64::NAN)) {
        Err(err @ ConvertError::DecimalNumber { .. }) => assert!(!err.message().is_empty()),
        other => panic!("expected a decimal error, got {other:?}"),
    }
    match convert_value(&column, &text("abc")) {
        Err(err @ ConvertError::InvalidDecimal { .. }) => {
            assert_eq!(err.message(), "failed to parse decimal for column price");
        }
        other => panic!("expected an invalid decimal, got {other:?}"),
    }
    match convert_value(&column, &YamlValue::Bool(true)) {
        Err(err @ ConvertError::NotDecimal { .. }) => {
            assert_eq!(err.message(), "column price expects decimal value");
        }
        other => panic!("expected a non-decimal error, got {other:?}"),
    }
}

#[test]
fn floats_keep_their_text() {
    let column = column_info("ratio", "double", "double");
    match convert_value(&column, &float(1.5)) {
        Ok(SqlValue::Float(t)) => assert_eq!(t, "1.5"),
        other => panic!("expected a float, got {other:?}"),
    }
    match convert_value(&column, &YamlValue::Number(YamlNumber::NegInt(-3))) {
        Ok(SqlValue::Float(t)) => assert_eq!(t, "-3"),
        other => panic!("expected a float, got {other:?}"),
    }
    match convert_value(&column, &text("1e3")) {
        Ok(SqlValue::Float(t)) => assert_eq!(t.parse::<f64>().unwrap(), 1000.0),
        other => panic!("expected a float, got {other:?}"),
    }
    for accepted in ["inf", "-Infinity", "NaN", ".5", "5.", "+1.0E-2"] {
        assert!(accepted.parse::<f64>().is_ok());
        assert!(matches!(convert_value(&column, &text(accepted)), Ok(SqlValue::Float(_))));
    }
    for refused in ["", ".", "1.2.3", "e5", "0x10", " 1"] {
        assert!(refused.parse::<f64>().is_err());
        assert!(matches!(
            convert_value(&column, &text(refused)),
            Err(ConvertError::InvalidFloat { .. })
        ));
    }
    match convert_value(&column, &YamlValue::Bool(false)) {
        Err(err @ ConvertError::NotFloat { .. }) => {
            assert_eq!(err.message(), "column ratio expects float value");
        }
        other => panic!("expected a non-float error, got {other:?}"),
    }
}

#[test]
fn dates_and_times_accept_both_formats() {
    let date = column_info("d", "date", "date");
    for input in ["2024-02-29", "2024/02/29"] {
        match convert_value(&date, &text(input)) {
            Ok(SqlValue::Date(d)) => {
                assert_eq!(d, Date { year: 2024, month: 2, day: 29 });
                assert_eq!(naive_date(&d).to_string(), "2024-02-29")
            }
            other => panic!("expected a date, got {other:?}"),
        }
    }
    match convert_value(&date, &text("2023-02-29")) {
        Err(err @ ConvertError::InvalidDate { .. }) => {
            assert_eq!(err.message(), "failed to parse date for column d");
        }
        other => panic!("expected an invalid date, got {other:?}"),
    }
    let time = column_info("t", "time", "time");
    match convert_value(&time, &text("07:05")) {
        Ok(SqlValue::Time(t)) => assert_eq!(naive_time(&t).to_string(), "07:05:00"),
        other => panic!("expected a time, got {other:?}"),
    }
    match convert_value(&time, &text("07:05:09")) {
        Ok(SqlValue::Time(t)) => {
            assert_eq!(t, Time { hour: 7, minute: 5, second: 9, nanosecond: 0 });
            assert_eq!(naive_time(&t).to_string(), "07:05:09")
        }
        other => panic!("expected a time, got {other:?}"),
    }
    assert!(matches!(
        convert_value(&time, &text("7 o'clock")),
        Err(ConvertError::InvalidTime { .. })
    ));
}

#[test]
fn datetimes_in_every_accepted_form() {
    let fractional = parse_datetime("2025-01-01 00:00:00.000000").expect("fractional");
    assert_eq!(naive_datetime(&fractional).to_string(), "2025-01-01 00:00:00");
    let slashed = parse_datetime("2025/01/02 03:04:05").expect("slashed");
    assert_eq!(naive_datetime(&slashed).to_string(), "2025-01-02 03:04:05");
    let zoned = parse_datetime("2025-09-19T12:34:56+09:00").expect("rfc 3339");
    assert_eq!(naive_datetime(&zoned).to_string(), "2025-09-19 03:34:56");
    let fraction = parse_datetime("2025-01-01 00:00:00.25").expect("fraction");
    assert_eq!(fraction.time.nanosecond, 250_000_000);
    assert!(parse_datetime("19/09/2025").is_none());
    let column = column_info("at", "timestamp", "timestamp");
    match convert_value(&column, &text("yesterday")) {
        Err(err @ ConvertError::InvalidDateTime { .. }) => {
            assert_eq!(err.message(), "failed to parse datetime for column at");
        }
        other => panic!("expected an invalid datetime, got {other:?}"),
    }
}

#[test]
fn enum_variants_are_unquoted_and_unescaped() {
    let variants = parse_enum_variants("enum('a', 'it\\'s' ,'c') ").expect("enum");
    assert_eq!(variants, vec!["a".to_string(), "it's".to_string(), "c".to_string()]);
    let upper = parse_enum_variants("ENUM('a')").expect("enum in capitals");
    assert_eq!(upper, vec!["ENUM('a".to_string()]);
    assert!(parse_enum_variants(" enum('a')").is_err());
    assert!(parse_enum_variants("enum()").expect("empty enum").is_empty());
    match parse_enum_variants("varchar(3)") {
        Err(err @ ConvertError::NotEnumType { .. }) => {
            assert_eq!(err.message(), "column type is not enum: varchar(3)");
        }
        other => panic!("expected a non-enum error, got {other:?}"),
    }
    let column = column_info("status", "enum", "enum('draft','published')");
    let err = convert_value(&column, &text("archived")).unwrap_err();
    assert_eq!(
        err.message(),
        "value 'archived' is not part of enum status (allowed: [\"draft\", \"published\"])"
    );
}

#[test]
fn json_strings_are_parsed_or_kept() {
    let column = column_info("doc", "JSON", "json");
    match convert_value(&column, &text("{\"a\": [1, 2]}")) {
        Ok(SqlValue::Json(t)) => {
            assert_eq!(t, "{\"a\":[1,2]}");
            assert_eq!(json(&t)["a"][1], JsonValue::from(2))
        }
        other => panic!("expected json, got {other:?}"),
    }
    match convert_value(&column, &text("not json")) {
        Ok(SqlValue::Json(t)) => assert_eq!(json(&t), JsonValue::String("not json".to_string())),
        other => panic!("expected json, got {other:?}"),
    }
    match convert_value(&column, &YamlValue::Number(YamlNumber::PosInt(7))) {
        Ok(SqlValue::Json(t)) => assert_eq!(json(&t), JsonValue::from(7)),
        other => panic!("expected json, got {other:?}"),
    }
    match convert_value(&column, &parse_yaml("{ [1, 2]: x }")) {
        Err(err @ ConvertError::InvalidJson { .. }) => {
            assert_eq!(err.message(), "failed to convert YAML value into JSON value");
            match err {
                ConvertError::InvalidJson { cause } => assert_eq!(cause, "key must be a string"),
                _ => unreachable!(),
            }
        }
        other => panic!("expected a json error, got {other:?}"),
    }
}

#[test]
fn other_types_bind_text() {
    let column = column_info("blob", "blob", "blob");
    match convert_value(&column, &YamlValue::Number(YamlNumber::PosInt(5))) {
        Ok(SqlValue::String(s)) => assert_eq!(s, "5"),
        other => panic!("expected a string, got {other:?}"),
    }
    match convert_value(&column, &float(0.1)) {
        Ok(SqlValue::String(s)) => assert_eq!(s, "0.1"),
        other => panic!("expected a string, got {other:?}"),
    }
    let text_column = column_info("name", "text", "text");
    match convert_value(&text_column, &YamlValue::Bool(true)) {
        Err(err @ ConvertError::NotStringCompatible { .. }) => {
            assert_eq!(
                err.message(),
                "column name expects string-compatible value but got Bool(true)"
            );
        }
        other => panic!("expected a string error, got {other:?}"),
    }
    match convert_value(&text_column, &parse_yaml("[1]")) {
        Err(err) => assert!(err.message().ends_with("but got Sequence [Number(1)]")),
        other => panic!("expected a string error, got {other:?}"),
    }
}

#[test]
fn json_of_yaml_values_matches_the_json_library() {
    let documents = [
        "null",
        "true",
        "-12",
        "18446744073709551615",
        "2.5",
        ".nan",
        "-.inf",
        "[1, \"two\", [false], {}]",
        "{ b: 1, a: [x, y], \"1\": s, 1: n }",
        "{ 1: one, true: yes, 2.5: f, -3: m }",
        "!point { x: 1 }",
        "[!t 3, { k: !u null }]",
        "{ s: \"q\\\"t\\\\\\n\\t\\u0001\\u007f é\" }",
        "{ ~: x }",
        "{ .nan: x }",
        "[1, { [a]: b }]",
        "{ !t k: v }",
    ];
    for text in documents {
        let raw: serde_yaml::Value = serde_yaml::from_str(text).unwrap();
        let expected = serde_json::to_value(&raw).map(|v| v.to_string()).map_err(|e| e.to_string());
        match convert_json(&model(&raw)) {
            Ok(SqlValue::Json(t)) => assert_eq!(Ok(t), expected, "{text}"),
            Err(ConvertError::InvalidJson { cause }) => assert_eq!(Err(cause), expected, "{text}"),
            other => panic!("unexpected {other:?} for {text}"),
        }
    }
}

#[test]
fn strings_that_are_not_json_become_json_strings() {
    let column = column_info("doc", "json", "json");
    for text in ["not json", "say \"hi\"", "tab\there", "back\\slash", "\u{1}", "{oops"] {
        let expected = serde_json::to_value(text).unwrap().to_string();
        match convert_value(&column, &YamlValue::String(text.to_string())) {
            Ok(SqlValue::Json(t)) => assert_eq!(t, expected),
            other => panic!("unexpected {other:?}"),
        }
    }
}
