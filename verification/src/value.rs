//! Conversion of YAML seed values into SQL values for a column's type.
use vstd::prelude::*;
use crate::json::{json_of, json_string, json_string_chars, json_text};
use crate::metadata::ColumnInfo;
use crate::numbers::{
    decimal, decimal_chars, float_literal, is_float_literal, parse_i64, parse_signed, parse_u64,
    parse_unsigned, signed_decimal, signed_decimal_chars,
};
use crate::text::{
    chars_equal, chars_of, contains, contains_seq, has_prefix, lower, lowercase, owned,
    push_str, push_string, replace_escaped_quotes,
    split, split_on, starts_with, string_chars, string_from_chars, strip, strip_end,
    strip_prefix_repeat, trim, trim_class, trim_end_class, trim_start_matches, unescape_quotes,
    CharClass,
};
use crate::yaml::{
    yaml_as_bool, yaml_as_i64, yaml_as_str, yaml_as_u64, yaml_float_text, yaml_is_null,
    yaml_number_text, YamlNumber, YamlValue,
};

verus! {

/// Why a text is not a decimal (`bigdecimal::ParseBigDecimalError`).
#[verifier::external_type_specification]
#[verifier::external_body]
pub struct ExParseBigDecimalError(bigdecimal::ParseBigDecimalError);

/// Why a text is not a date or time (`chrono::ParseError`).
#[verifier::external_type_specification]
#[verifier::external_body]
pub struct ExChronoParseError(chrono::ParseError);

/// A JSON error (`serde_json::Error`).
#[verifier::external_type_specification]
#[verifier::external_body]
pub struct ExJsonError(serde_json::Error);

/// The decimal that `BigDecimal::from_str` reads from a text, as the decimal text of its
/// unscaled integer and its scale (the value is that integer times ten to minus the scale).
pub uninterp spec fn parsed_decimal(s: Seq<char>) -> Option<(Seq<char>, i64)>;

/// The date that `NaiveDate::parse_from_str` reads from a text in a format, as year, month
/// and day.
pub uninterp spec fn parsed_date(s: Seq<char>, fmt: Seq<char>) -> Option<(i32, u32, u32)>;

/// The time that `NaiveTime::parse_from_str` reads from a text in a format, as hour, minute,
/// second and nanosecond.
pub uninterp spec fn parsed_time(s: Seq<char>, fmt: Seq<char>) -> Option<(u32, u32, u32, u32)>;

/// The date and time that `NaiveDateTime::parse_from_str` reads from a text in a format, as
/// year, month, day, hour, minute, second and nanosecond.
pub uninterp spec fn parsed_datetime(s: Seq<char>, fmt: Seq<char>) -> Option<
    (i32, u32, u32, u32, u32, u32, u32),
>;

/// The instant that `DateTime::parse_from_rfc3339` reads from a text, taken in UTC
/// (`DateTime::naive_utc`), as year, month, day, hour, minute, second and nanosecond.
pub uninterp spec fn parsed_rfc3339_utc(s: Seq<char>) -> Option<(i32, u32, u32, u32, u32, u32, u32)>;

/// The compact text (`Value`'s `Display`) of the document that `serde_json::from_str::<Value>`
/// reads from a text.
pub uninterp spec fn json_text_of(s: Seq<char>) -> Option<Seq<char>>;

/// `BigDecimal::from_str`, the decimal given as the text of its unscaled integer and its
/// scale (`into_bigint_and_exponent`); see `parsed_decimal`.
#[verifier::external_body]
fn parse_big_decimal(s: &str) -> (r: Result<(String, i64), bigdecimal::ParseBigDecimalError>)
    ensures
        match r {
            Ok((digits, scale)) => parsed_decimal(s@) == Some((digits@, scale)),
            Err(_) => parsed_decimal(s@) is None,
        },
{
    match <bigdecimal::BigDecimal as std::str::FromStr>::from_str(s) {
        Ok(d) => {
            let (digits, scale) = d.into_bigint_and_exponent();
            Ok((digits.to_string(), scale))
        },
        Err(e) => Err(e),
    }
}

/// `NaiveDate::parse_from_str`, the date given by its year, month and day; see `parsed_date`.
#[verifier::external_body]
fn parse_naive_date(s: &str, fmt: &str) -> (r: Result<(i32, u32, u32), chrono::ParseError>)
    ensures
        match r {
            Ok(t) => parsed_date(s@, fmt@) == Some(t),
            Err(_) => parsed_date(s@, fmt@) is None,
        },
{
    match chrono::NaiveDate::parse_from_str(s, fmt) {
        Ok(d) => Ok((chrono::Datelike::year(&d), chrono::Datelike::month(&d), chrono::Datelike::day(&d))),
        Err(e) => Err(e),
    }
}

/// `NaiveTime::parse_from_str`, the time given by its hour, minute, second and nanosecond;
/// see `parsed_time`.
#[verifier::external_body]
fn parse_naive_time(s: &str, fmt: &str) -> (r: Result<(u32, u32, u32, u32), chrono::ParseError>)
    ensures
        match r {
            Ok(t) => parsed_time(s@, fmt@) == Some(t),
            Err(_) => parsed_time(s@, fmt@) is None,
        },
{
    match chrono::NaiveTime::parse_from_str(s, fmt) {
        Ok(t) => Ok((
            chrono::Timelike::hour(&t),
            chrono::Timelike::minute(&t),
            chrono::Timelike::second(&t),
            chrono::Timelike::nanosecond(&t),
        )),
        Err(e) => Err(e),
    }
}

/// `NaiveDateTime::parse_from_str`, the date and time given by their fields; see
/// `parsed_datetime`.
#[verifier::external_body]
fn parse_naive_datetime(s: &str, fmt: &str) -> (r: Result<(i32, u32, u32, u32, u32, u32, u32), chrono::ParseError>)
    ensures
        match r {
            Ok(t) => parsed_datetime(s@, fmt@) == Some(t),
            Err(_) => parsed_datetime(s@, fmt@) is None,
        },
{
    match chrono::NaiveDateTime::parse_from_str(s, fmt) {
        Ok(t) => Ok((
            chrono::Datelike::year(&t), chrono::Datelike::month(&t), chrono::Datelike::day(&t),
            chrono::Timelike::hour(&t), chrono::Timelike::minute(&t), chrono::Timelike::second(&t),
            chrono::Timelike::nanosecond(&t),
        )),
        Err(e) => Err(e),
    }
}

/// `DateTime::parse_from_rfc3339`, the parsed instant taken as a UTC date and time
/// (`DateTime::naive_utc`) and given by its fields; see `parsed_rfc3339_utc`.
#[verifier::external_body]
fn parse_rfc3339_utc(s: &str) -> (r: Result<(i32, u32, u32, u32, u32, u32, u32), chrono::ParseError>)
    ensures
        match r {
            Ok(t) => parsed_rfc3339_utc(s@) == Some(t),
            Err(_) => parsed_rfc3339_utc(s@) is None,
        },
{
    match chrono::DateTime::parse_from_rfc3339(s) {
        Ok(z) => {
            let t = z.naive_utc();
            Ok((
                chrono::Datelike::year(&t), chrono::Datelike::month(&t), chrono::Datelike::day(&t),
                chrono::Timelike::hour(&t), chrono::Timelike::minute(&t), chrono::Timelike::second(&t),
                chrono::Timelike::nanosecond(&t),
            ))
        },
        Err(e) => Err(e),
    }
}

/// `serde_json::from_str::<Value>`, the document given by its compact text; see
/// `json_text_of`.
#[verifier::external_body]
fn parse_json(s: &str) -> (r: Result<String, serde_json::Error>)
    ensures
        match r {
            Ok(t) => json_text_of(s@) == Some(t@),
            Err(_) => json_text_of(s@) is None,
        },
{
    match serde_json::from_str::<serde_json::Value>(s) {
        Ok(v) => Ok(v.to_string()),
        Err(e) => Err(e),
    }
}

/// A calendar date.
#[derive(Debug, Clone, Copy, PartialEq, Eq, Structural)]
pub struct Date {
    pub year: i32,
    pub month: u32,
    pub day: u32,
}

/// A time of day; a leap second has a nanosecond of a billion or more.
#[derive(Debug, Clone, Copy, PartialEq, Eq, Structural)]
pub struct Time {
    pub hour: u32,
    pub minute: u32,
    pub second: u32,
    pub nanosecond: u32,
}

/// A date and time without a zone.
#[derive(Debug, Clone, Copy, PartialEq, Eq, Structural)]
pub struct DateTime {
    pub date: Date,
    pub time: Time,
}

/// The date of year, month and day.
pub open spec fn date_of(t: (i32, u32, u32)) -> Date {
    Date { year: t.0, month: t.1, day: t.2 }
}

/// The time of hour, minute, second and nanosecond.
pub open spec fn time_of(t: (u32, u32, u32, u32)) -> Time {
    Time { hour: t.0, minute: t.1, second: t.2, nanosecond: t.3 }
}

/// The date and time of their seven fields.
pub open spec fn datetime_of(t: (i32, u32, u32, u32, u32, u32, u32)) -> DateTime {
    DateTime {
        date: Date { year: t.0, month: t.1, day: t.2 },
        time: Time { hour: t.3, minute: t.4, second: t.5, nanosecond: t.6 },
    }
}

fn make_date(t: (i32, u32, u32)) -> (r: Date)
    ensures
        r == date_of(t),
{
    Date { year: t.0, month: t.1, day: t.2 }
}

fn make_time(t: (u32, u32, u32, u32)) -> (r: Time)
    ensures
        r == time_of(t),
{
    Time { hour: t.0, minute: t.1, second: t.2, nanosecond: t.3 }
}

fn make_datetime(t: (i32, u32, u32, u32, u32, u32, u32)) -> (r: DateTime)
    ensures
        r == datetime_of(t),
{
    DateTime {
        date: Date { year: t.0, month: t.1, day: t.2 },
        time: Time { hour: t.3, minute: t.4, second: t.5, nanosecond: t.6 },
    }
}

/// A value to bind for a column.
#[derive(Debug)]
pub enum SqlValue {
    /// SQL NULL.
    Null,
    /// A string.
    String(String),
    /// A signed 64-bit integer.
    Int(i64),
    /// A decimal: the decimal text of its unscaled integer, and its scale (the value is that
    /// integer times ten to minus the scale).
    Decimal { digits: String, scale: i64 },
    /// A floating-point number, given by a decimal text that `str::parse::<f64>` accepts;
    /// the number bound is the one that text denotes.
    Float(String),
    /// A date.
    Date(Date),
    /// A date and time.
    DateTime(DateTime),
    /// A time of day.
    Time(Time),
    /// A JSON document, given by its compact text.
    Json(String),
}

/// Why a value could not be converted for its column.
#[derive(Debug)]
pub enum ConvertError {
    /// The value is neither a string nor a number; `value` is its debug text.
    NotStringCompatible { column: String, value: String },
    /// The text is not an integer within `i64`.
    InvalidInteger { column: String, text: String },
    /// The text is not an integer within `u64` (for an `unsigned` column).
    InvalidUnsigned { column: String, text: String },
    /// A YAML number whose text is not a decimal.
    DecimalNumber { cause: bigdecimal::ParseBigDecimalError },
    /// A string that is not a decimal.
    InvalidDecimal { column: String, cause: bigdecimal::ParseBigDecimalError },
    /// The value is neither a number nor a string, for a decimal column.
    NotDecimal { column: String },
    /// A string that is not a float.
    InvalidFloat { column: String, text: String },
    /// The value is neither a number nor a string, for a float column.
    NotFloat { column: String },
    /// A text that is not a date in either accepted format.
    InvalidDate { column: String, cause: chrono::ParseError },
    /// A text that is not a date and time in any accepted format.
    InvalidDateTime { column: String, input: String },
    /// A text that is not a time of day in either accepted format.
    InvalidTime { column: String, cause: chrono::ParseError },
    /// The column's type does not start with `enum(`.
    NotEnumType { column_type: String },
    /// The value is not one of the enum's variants.
    NotInEnum { column: String, value: String, allowed: Vec<String> },
    /// The value could not be turned into JSON; `cause` is the JSON library's message.
    InvalidJson { cause: String },
}

/// `Vec<String>`'s `Debug` text: the items quoted and escaped, between brackets.
pub uninterp spec fn debug_list_text(items: Seq<String>) -> Seq<char>;

/// The `Debug` text of a list of strings (`format!("{:?}", ..)`), named `debug_list_text`.
#[verifier::external_body]
fn debug_list(items: &Vec<String>) -> (r: String)
    ensures
        r@ == debug_list_text(items@),
{
    format!("{:?}", items)
}

/// `ParseBigDecimalError`'s `Display` text. Nothing is stated of the text.
#[verifier::external_body]
fn decimal_error_text(e: &bigdecimal::ParseBigDecimalError) -> String {
    e.to_string()
}

/// The message of a failed conversion (without its cause); none is stated for a YAML number
/// that is not a decimal, whose message is the decimal library's.
pub open spec fn convert_error_message(e: ConvertError) -> Option<Seq<char>> {
    match e {
        ConvertError::NotStringCompatible { column, value } => Some(
            "column "@ + column@ + " expects string-compatible value but got "@ + value@,
        ),
        ConvertError::InvalidInteger { column, .. } => Some(
            "failed to parse integer for column "@ + column@,
        ),
        ConvertError::InvalidUnsigned { column, .. } => Some(
            "failed to parse unsigned integer for column "@ + column@,
        ),
        ConvertError::DecimalNumber { .. } => None,
        ConvertError::InvalidDecimal { column, .. } => Some(
            "failed to parse decimal for column "@ + column@,
        ),
        ConvertError::NotDecimal { column } => Some("column "@ + column@ + " expects decimal value"@),
        ConvertError::InvalidFloat { column, .. } => Some("failed to parse float for column "@ + column@),
        ConvertError::NotFloat { column } => Some("column "@ + column@ + " expects float value"@),
        ConvertError::InvalidDate { column, .. } => Some("failed to parse date for column "@ + column@),
        ConvertError::InvalidDateTime { column, .. } => Some(
            "failed to parse datetime for column "@ + column@,
        ),
        ConvertError::InvalidTime { column, .. } => Some("failed to parse time for column "@ + column@),
        ConvertError::NotEnumType { column_type } => Some("column type is not enum: "@ + column_type@),
        ConvertError::NotInEnum { column, value, allowed } => Some(
            "value '"@ + value@ + "' is not part of enum "@ + column@ + " (allowed: "@
                + debug_list_text(allowed@) + ")"@,
        ),
        ConvertError::InvalidJson { .. } => Some("failed to convert YAML value into JSON value"@),
    }
}

impl ConvertError {
    /// The message shown for the failure; see `convert_error_message`.
    pub fn message(&self) -> (r: String)
        ensures
            convert_error_message(*self) matches Some(m) ==> r@ == m,
    {
        let mut v: Vec<char> = Vec::new();
        match self {
            ConvertError::NotStringCompatible { column, value } => {
                push_str(&mut v, "column ");
                push_string(&mut v, column);
                push_str(&mut v, " expects string-compatible value but got ");
                push_string(&mut v, value);
            },
            ConvertError::InvalidInteger { column, .. } => {
                push_str(&mut v, "failed to parse integer for column ");
                push_string(&mut v, column);
            },
            ConvertError::InvalidUnsigned { column, .. } => {
                push_str(&mut v, "failed to parse unsigned integer for column ");
                push_string(&mut v, column);
            },
            ConvertError::DecimalNumber { cause } => {
                return decimal_error_text(cause);
            },
            ConvertError::InvalidDecimal { column, .. } => {
                push_str(&mut v, "failed to parse decimal for column ");
                push_string(&mut v, column);
            },
            ConvertError::NotDecimal { column } => {
                push_str(&mut v, "column ");
                push_string(&mut v, column);
                push_str(&mut v, " expects decimal value");
            },
            ConvertError::InvalidFloat { column, .. } => {
                push_str(&mut v, "failed to parse float for column ");
                push_string(&mut v, column);
            },
            ConvertError::NotFloat { column } => {
                push_str(&mut v, "column ");
                push_string(&mut v, column);
                push_str(&mut v, " expects float value");
            },
            ConvertError::InvalidDate { column, .. } => {
                push_str(&mut v, "failed to parse date for column ");
                push_string(&mut v, column);
            },
            ConvertError::InvalidDateTime { column, .. } => {
                push_str(&mut v, "failed to parse datetime for column ");
                push_string(&mut v, column);
            },
            ConvertError::InvalidTime { column, .. } => {
                push_str(&mut v, "failed to parse time for column ");
                push_string(&mut v, column);
            },
            ConvertError::NotEnumType { column_type } => {
                push_str(&mut v, "column type is not enum: ");
                push_string(&mut v, column_type);
            },
            ConvertError::NotInEnum { column, value, allowed } => {
                push_str(&mut v, "value '");
                push_string(&mut v, value);
                push_str(&mut v, "' is not part of enum ");
                push_string(&mut v, column);
                push_str(&mut v, " (allowed: ");
                push_string(&mut v, &debug_list(allowed));
                push_str(&mut v, ")");
            },
            ConvertError::InvalidJson { .. } => {
                push_str(&mut v, "failed to convert YAML value into JSON value");
            },
        }
        assert(convert_error_message(*self) matches Some(m) ==> v@ =~= m);
        string_from_chars(&v)
    }
}

/// How a column's `data_type` is converted.
#[derive(Debug, Clone, Copy, PartialEq, Eq, Structural)]
pub enum ColumnKind {
    Text,
    Json,
    Integer,
    Decimal,
    Float,
    Date,
    DateTime,
    Time,
    Enum,
    Other,
}

/// The kind of a `data_type`, compared in ASCII lowercase.
pub open spec fn column_kind(data_type: Seq<char>) -> ColumnKind {
    let l = lower(data_type);
    if l == "varchar"@ || l == "char"@ || l == "text"@ || l == "mediumtext"@ || l == "longtext"@
        || l == "tinytext"@ {
        ColumnKind::Text
    } else if l == "json"@ {
        ColumnKind::Json
    } else if l == "int"@ || l == "integer"@ || l == "mediumint"@ || l == "smallint"@ || l
        == "tinyint"@ || l == "bigint"@ {
        ColumnKind::Integer
    } else if l == "decimal"@ || l == "numeric"@ || l == "dec"@ || l == "fixed"@ {
        ColumnKind::Decimal
    } else if l == "double"@ || l == "float"@ || l == "real"@ {
        ColumnKind::Float
    } else if l == "date"@ {
        ColumnKind::Date
    } else if l == "datetime"@ || l == "timestamp"@ {
        ColumnKind::DateTime
    } else if l == "time"@ {
        ColumnKind::Time
    } else if l == "enum"@ {
        ColumnKind::Enum
    } else {
        ColumnKind::Other
    }
}

fn word(l: &Vec<char>, w: &str) -> (r: bool)
    ensures
        r == (l@ == w@),
{
    chars_equal(l, &chars_of(w))
}

/// The kind of a column's `data_type`.
pub fn kind_of(data_type: &String) -> (r: ColumnKind)
    ensures
        r == column_kind(data_type@),
{
    let l = lowercase(&string_chars(data_type));
    if word(&l, "varchar") || word(&l, "char") || word(&l, "text") || word(&l, "mediumtext")
        || word(&l, "longtext") || word(&l, "tinytext") {
        ColumnKind::Text
    } else if word(&l, "json") {
        ColumnKind::Json
    } else if word(&l, "int") || word(&l, "integer") || word(&l, "mediumint") || word(
        &l,
        "smallint",
    ) || word(&l, "tinyint") || word(&l, "bigint") {
        ColumnKind::Integer
    } else if word(&l, "decimal") || word(&l, "numeric") || word(&l, "dec") || word(&l, "fixed") {
        ColumnKind::Decimal
    } else if word(&l, "double") || word(&l, "float") || word(&l, "real") {
        ColumnKind::Float
    } else if word(&l, "date") {
        ColumnKind::Date
    } else if word(&l, "datetime") || word(&l, "timestamp") {
        ColumnKind::DateTime
    } else if word(&l, "time") {
        ColumnKind::Time
    } else if word(&l, "enum") {
        ColumnKind::Enum
    } else {
        ColumnKind::Other
    }
}

/// The debug text of a value that is null or a boolean (`Value`'s `Debug`); other values'
/// texts are left to the YAML library.
pub open spec fn value_debug(v: YamlValue) -> Option<Seq<char>> {
    match v {
        YamlValue::Null => Some("Null"@),
        YamlValue::Bool(b) => Some(if b {
            "Bool(true)"@
        } else {
            "Bool(false)"@
        }),
        _ => None,
    }
}

/// `Value`'s `Debug` text, as the YAML library writes it. Nothing is stated of the text.
#[verifier::external_body]
fn yaml_debug(v: &serde_yaml::Value) -> String {
    format!("{:?}", v)
}

/// The debug text of a value that cannot be read as a string.
fn debug_text(v: &YamlValue) -> (r: String)
    requires
        string_text(*v) is None,
    ensures
        value_debug(*v) matches Some(t) ==> r@ == t,
{
    match v {
        YamlValue::Null => owned("Null"),
        YamlValue::Bool(b) => if *b {
            owned("Bool(true)")
        } else {
            owned("Bool(false)")
        },
        YamlValue::Sequence(_, raw) => yaml_debug(raw),
        YamlValue::Mapping(_, raw) => yaml_debug(raw),
        YamlValue::Tagged(_, _, raw) => yaml_debug(raw),
        YamlValue::String(_) | YamlValue::Number(_) => {
            proof {
                assert(string_text(*v) is Some);
            }
            String::new()
        },
    }
}

/// The text of a value read as a string: a string itself, an integer in decimal, or a float as
/// `f64::to_string` writes it; nothing for other values.
pub open spec fn string_text(v: YamlValue) -> Option<Seq<char>> {
    match yaml_as_str(v) {
        Some(s) => Some(s),
        None => match yaml_as_i64(v) {
            Some(i) => Some(signed_decimal(i)),
            None => match yaml_as_u64(v) {
                Some(u) => Some(decimal(u)),
                None => yaml_float_text(v),
            },
        },
    }
}

/// Reads a value as a string.
pub fn expect_string(value: &YamlValue, column: &ColumnInfo) -> (r: Result<String, ConvertError>)
    ensures
        match string_text(*value) {
            Some(s) => r matches Ok(t) && t@ == s,
            None => r matches Err(ConvertError::NotStringCompatible { column: c, value: d }) && c@
                == column.name@ && (value_debug(*value) matches Some(t) ==> d@ == t),
        },
{
    match value.untagged() {
        YamlValue::String(s) => Ok(s.clone()),
        YamlValue::Number(YamlNumber::PosInt(n)) => Ok(string_from_chars(&decimal_chars(*n))),
        YamlValue::Number(YamlNumber::NegInt(n)) => Ok(
            string_from_chars(&signed_decimal_chars(*n)),
        ),
        YamlValue::Number(YamlNumber::Float(f)) => Ok(f.text.clone()),
        _ => Err(ConvertError::NotStringCompatible { column: column.name.clone(), value: debug_text(value) }),
    }
}

/// What `parse_enum_variants` gives for a column type: nothing when the type, in lowercase,
/// does not start with `enum(`; otherwise the comma-separated variants between `enum(` and the
/// closing parentheses, each trimmed, unquoted, and with `\'` read as `'`.
pub open spec fn enum_variants(column_type: Seq<char>) -> Option<Seq<Seq<char>>> {
    if !has_prefix(lower(column_type), "enum("@) {
        None
    } else {
        let inner = strip_end(
            strip_prefix_repeat(trim(column_type), "enum("@),
            CharClass::Exactly(')'),
        );
        if inner.len() == 0 {
            Some(Seq::<Seq<char>>::empty())
        } else {
            Some(
                split_on(inner, ',').map_values(
                    |p: Seq<char>| unescape_quotes(strip(trim(p), CharClass::Exactly('\''))),
                ),
            )
        }
    }
}

/// The variants of an `enum(...)` column type.
pub fn parse_enum_variants(column_type: &str) -> (r: Result<Vec<String>, ConvertError>)
    ensures
        match enum_variants(column_type@) {
            Some(vs) => r matches Ok(out) && out@.len() == vs.len() && forall|i: int|
                0 <= i < vs.len() ==> #[trigger] out@[i]@ == vs[i],
            None => r matches Err(ConvertError::NotEnumType { column_type: t }) && t@
                == column_type@,
        },
{
    let ct = chars_of(column_type);
    let low = lowercase(&ct);
    let prefix = chars_of("enum(");
    if !starts_with(&low, &prefix) {
        return Err(ConvertError::NotEnumType { column_type: string_from_chars(&ct) });
    }
    let trimmed = trim_class(&ct, &CharClass::Whitespace);
    let opened = trim_start_matches(&trimmed, &prefix);
    let inner = trim_end_class(&opened, &CharClass::Exactly(')'));
    if inner.len() == 0 {
        return Ok(Vec::new());
    }
    let parts = split(&inner, ',');
    let ghost vs = split_on(inner@, ',').map_values(
        |p: Seq<char>| unescape_quotes(strip(trim(p), CharClass::Exactly('\''))),
    );
    let mut out: Vec<String> = Vec::new();
    for i in 0..parts.len()
        invariant
            parts@.len() == vs.len(),
            vs == split_on(inner@, ',').map_values(
                |p: Seq<char>| unescape_quotes(strip(trim(p), CharClass::Exactly('\''))),
            ),
            forall|j: int| 0 <= j < parts@.len() ==> #[trigger] parts@[j]@ == split_on(inner@, ',')[j],
            out@.len() == i,
            forall|j: int| 0 <= j < i ==> #[trigger] out@[j]@ == vs[j],
    {
        let a = trim_class(&parts[i], &CharClass::Whitespace);
        let b = trim_class(&a, &CharClass::Exactly('\''));
        let c = replace_escaped_quotes(&b);
        out.push(string_from_chars(&c));
    }
    Ok(out)
}


/// What `convert_json` gives: a string that is JSON text becomes that document, and any other
/// string becomes a JSON string; any other value becomes its JSON form (`json_of`), or the
/// error of the first key that JSON cannot hold.
pub open spec fn json_converted(v: YamlValue, r: Result<SqlValue, ConvertError>) -> bool {
    match v {
        YamlValue::String(s) => match json_text_of(s@) {
            Some(t) => r matches Ok(SqlValue::Json(j)) && j@ == t,
            None => r matches Ok(SqlValue::Json(j)) && j@ == json_string(s@),
        },
        _ => match json_of(v) {
            Ok(t) => r matches Ok(SqlValue::Json(j)) && j@ == t,
            Err(e) => r matches Err(ConvertError::InvalidJson { cause }) && cause@ == e,
        },
    }
}

/// A JSON column's value: a string is parsed as JSON text, and taken as a JSON string when it is
/// not; any other value is converted to its JSON form.
pub fn convert_json(value: &YamlValue) -> (r: Result<SqlValue, ConvertError>)
    ensures
        json_converted(*value, r),
{
    match value {
        YamlValue::String(s) => match parse_json(s.as_str()) {
            Ok(j) => Ok(SqlValue::Json(j)),
            Err(_) => Ok(SqlValue::Json(string_from_chars(&json_string_chars(&string_chars(s))))),
        },
        _ => match json_text(value) {
            Ok(t) => Ok(SqlValue::Json(string_from_chars(&t))),
            Err(e) => Err(ConvertError::InvalidJson { cause: string_from_chars(&e) }),
        },
    }
}

/// The date and time that the first accepted form reads from a text: `%Y-%m-%d %H:%M:%S`,
/// `%Y-%m-%d %H:%M:%S%.f`, `%Y/%m/%d %H:%M:%S`, then RFC 3339 (an instant taken in UTC).
pub open spec fn datetime_value(s: Seq<char>) -> Option<DateTime> {
    if let Some(t) = parsed_datetime(s, "%Y-%m-%d %H:%M:%S"@) {
        Some(datetime_of(t))
    } else if let Some(t) = parsed_datetime(s, "%Y-%m-%d %H:%M:%S%.f"@) {
        Some(datetime_of(t))
    } else if let Some(t) = parsed_datetime(s, "%Y/%m/%d %H:%M:%S"@) {
        Some(datetime_of(t))
    } else if let Some(t) = parsed_rfc3339_utc(s) {
        Some(datetime_of(t))
    } else {
        None
    }
}

/// The date and time in the first accepted form that reads the text; see `datetime_value`.
pub fn parse_datetime(input: &str) -> (r: Option<DateTime>)
    ensures
        r == datetime_value(input@),
{
    if let Ok(t) = parse_naive_datetime(input, "%Y-%m-%d %H:%M:%S") {
        return Some(make_datetime(t));
    }
    if let Ok(t) = parse_naive_datetime(input, "%Y-%m-%d %H:%M:%S%.f") {
        return Some(make_datetime(t));
    }
    if let Ok(t) = parse_naive_datetime(input, "%Y/%m/%d %H:%M:%S") {
        return Some(make_datetime(t));
    }
    if let Ok(t) = parse_rfc3339_utc(input) {
        return Some(make_datetime(t));
    }
    None
}

/// An unsigned value cast to `i64`, wrapping as `as` does.
pub open spec fn wrap_to_i64(u: nat) -> int {
    if u <= i64::MAX {
        u as int
    } else {
        u - 0x1_0000_0000_0000_0000
    }
}

/// What an integer column makes of a value: an integer as is, a boolean as 1 or 0, and
/// otherwise the value's text parsed as `u64` (for an `unsigned` column type, cast to `i64`)
/// or as `i64`.
pub open spec fn integer_converted(column: ColumnInfo, v: YamlValue, r: Result<SqlValue, ConvertError>) -> bool {
    match yaml_as_i64(v) {
        Some(n) => r matches Ok(SqlValue::Int(x)) && x == n,
        None => match yaml_as_bool(v) {
            Some(b) => r matches Ok(SqlValue::Int(x)) && x == (if b {
                1int
            } else {
                0int
            }),
            None => match string_text(v) {
                None => r matches Err(ConvertError::NotStringCompatible { .. }),
                Some(s) => if contains_seq(lower(column.column_type@), "unsigned"@) {
                    match parse_unsigned(s, u64::MAX as nat) {
                        Some(u) => r matches Ok(SqlValue::Int(x)) && x == wrap_to_i64(u),
                        None => r matches Err(ConvertError::InvalidUnsigned { text: t, .. }) && t@
                            == s,
                    }
                } else {
                    match parse_signed(s) {
                        Some(i) => r matches Ok(SqlValue::Int(x)) && x == i,
                        None => r matches Err(ConvertError::InvalidInteger { text: t, .. }) && t@
                            == s,
                    }
                },
            },
        },
    }
}

/// A decimal result whose digits and scale are the given ones.
pub open spec fn is_decimal(r: Result<SqlValue, ConvertError>, d: (Seq<char>, i64)) -> bool {
    r matches Ok(SqlValue::Decimal { digits, scale }) && digits@ == d.0 && scale == d.1
}

/// What a decimal column makes of a value: a number's text, or a string, read as a decimal.
pub open spec fn decimal_converted(v: YamlValue, r: Result<SqlValue, ConvertError>) -> bool {
    match v {
        YamlValue::Number(n) => match parsed_decimal(yaml_number_text(n)) {
            Some(d) => is_decimal(r, d),
            None => r matches Err(ConvertError::DecimalNumber { .. }),
        },
        YamlValue::String(s) => match parsed_decimal(s@) {
            Some(d) => is_decimal(r, d),
            None => r matches Err(ConvertError::InvalidDecimal { .. }),
        },
        _ => r matches Err(ConvertError::NotDecimal { .. }),
    }
}

/// What a float column makes of a value: a number as its float text, a string that
/// `str::parse::<f64>` accepts as itself.
pub open spec fn float_converted(v: YamlValue, r: Result<SqlValue, ConvertError>) -> bool {
    match v {
        YamlValue::Number(n) => r matches Ok(SqlValue::Float(t)) && Some(t@) == yaml_float_text(v),
        YamlValue::String(s) => if is_float_literal(s@) {
            r matches Ok(SqlValue::Float(t)) && t@ == s@
        } else {
            r matches Err(ConvertError::InvalidFloat { text: t, .. }) && t@ == s@
        },
        _ => r matches Err(ConvertError::NotFloat { .. }),
    }
}

/// What `convert_value` gives for a value in a column: NULL for a null value, and otherwise
/// the conversion that the column's data type calls for.
pub open spec fn converted(column: ColumnInfo, v: YamlValue, r: Result<SqlValue, ConvertError>) -> bool {
    if yaml_is_null(v) {
        r matches Ok(SqlValue::Null)
    } else {
        match column_kind(column.data_type@) {
            ColumnKind::Json => json_converted(v, r),
            ColumnKind::Integer => integer_converted(column, v, r),
            ColumnKind::Decimal => decimal_converted(v, r),
            ColumnKind::Float => float_converted(v, r),
            kind => match string_text(v) {
                None => r matches Err(ConvertError::NotStringCompatible { column: c, .. }) && c@
                    == column.name@,
                Some(s) => match kind {
                    ColumnKind::Date => if let Some(t) = parsed_date(s, "%Y-%m-%d"@) {
                        r matches Ok(SqlValue::Date(d)) && d == date_of(t)
                    } else if let Some(t) = parsed_date(s, "%Y/%m/%d"@) {
                        r matches Ok(SqlValue::Date(d)) && d == date_of(t)
                    } else {
                        r matches Err(ConvertError::InvalidDate { .. })
                    },
                    ColumnKind::DateTime => if let Some(dt) = datetime_value(s) {
                        r matches Ok(SqlValue::DateTime(d)) && d == dt
                    } else {
                        r matches Err(ConvertError::InvalidDateTime { input: t, .. }) && t@ == s
                    },
                    ColumnKind::Time => if let Some(t) = parsed_time(s, "%H:%M:%S"@) {
                        r matches Ok(SqlValue::Time(x)) && x == time_of(t)
                    } else if let Some(t) = parsed_time(s, "%H:%M"@) {
                        r matches Ok(SqlValue::Time(x)) && x == time_of(t)
                    } else {
                        r matches Err(ConvertError::InvalidTime { .. })
                    },
                    ColumnKind::Enum => match enum_variants(column.column_type@) {
                        None => r matches Err(ConvertError::NotEnumType { .. }),
                        Some(allowed) => if allowed.contains(s) {
                            r matches Ok(SqlValue::String(t)) && t@ == s
                        } else {
                            r matches Err(ConvertError::NotInEnum { value: t, .. }) && t@ == s
                        },
                    },
                    _ => r matches Ok(SqlValue::String(t)) && t@ == s,
                },
            },
        }
    }
}

fn float_text_of(n: &YamlNumber) -> (r: String)
    ensures
        Some(r@) == yaml_float_text(YamlValue::Number(*n)),
{
    match n {
        YamlNumber::PosInt(u) => string_from_chars(&decimal_chars(*u)),
        YamlNumber::NegInt(i) => string_from_chars(&signed_decimal_chars(*i)),
        YamlNumber::Float(f) => f.text.clone(),
    }
}

fn number_text_of(n: &YamlNumber) -> (r: String)
    ensures
        r@ == yaml_number_text(*n),
{
    match n {
        YamlNumber::PosInt(u) => string_from_chars(&decimal_chars(*u)),
        YamlNumber::NegInt(i) => string_from_chars(&signed_decimal_chars(*i)),
        YamlNumber::Float(f) => f.yaml_text.clone(),
    }
}

fn convert_integer(column: &ColumnInfo, value: &YamlValue) -> (r: Result<SqlValue, ConvertError>)
    ensures
        integer_converted(*column, *value, r),
{
    match value.untagged() {
        YamlValue::Number(YamlNumber::PosInt(n)) => {
            if *n <= 0x7fff_ffff_ffff_ffffu64 {
                return Ok(SqlValue::Int(*n as i64));
            }
        },
        YamlValue::Number(YamlNumber::NegInt(n)) => {
            return Ok(SqlValue::Int(*n));
        },
        YamlValue::Bool(b) => {
            return Ok(SqlValue::Int(if *b { 1 } else { 0 }));
        },
        _ => {},
    }
    let s = expect_string(value, column)?;
    let text = string_chars(&s);
    let unsigned = chars_of("unsigned");
    if contains(&lowercase(&string_chars(&column.column_type)), &unsigned) {
        match parse_u64(&text) {
            Some(u) => {
                let x: i64 = if u <= 0x7fff_ffff_ffff_ffffu64 {
                    u as i64
                } else {
                    ((u - 0x8000_0000_0000_0000u64) as i64) + i64::MIN
                };
                Ok(SqlValue::Int(x))
            },
            None => Err(ConvertError::InvalidUnsigned { column: column.name.clone(), text: s }),
        }
    } else {
        match parse_i64(&text) {
            Some(i) => Ok(SqlValue::Int(i)),
            None => Err(ConvertError::InvalidInteger { column: column.name.clone(), text: s }),
        }
    }
}

fn convert_decimal(column: &ColumnInfo, value: &YamlValue) -> (r: Result<SqlValue, ConvertError>)
    ensures
        decimal_converted(*value, r),
{
    match value {
        YamlValue::Number(n) => {
            let text = number_text_of(n);
            match parse_big_decimal(text.as_str()) {
                Ok((digits, scale)) => Ok(SqlValue::Decimal { digits, scale }),
                Err(e) => Err(ConvertError::DecimalNumber { cause: e }),
            }
        },
        YamlValue::String(s) => match parse_big_decimal(s.as_str()) {
            Ok((digits, scale)) => Ok(SqlValue::Decimal { digits, scale }),
            Err(e) => Err(ConvertError::InvalidDecimal { column: column.name.clone(), cause: e }),
        },
        _ => Err(ConvertError::NotDecimal { column: column.name.clone() }),
    }
}

fn convert_float(column: &ColumnInfo, value: &YamlValue) -> (r: Result<SqlValue, ConvertError>)
    ensures
        float_converted(*value, r),
{
    match value {
        YamlValue::Number(n) => Ok(SqlValue::Float(float_text_of(n))),
        YamlValue::String(s) => {
            if float_literal(&string_chars(s)) {
                Ok(SqlValue::Float(s.clone()))
            } else {
                Err(ConvertError::InvalidFloat { column: column.name.clone(), text: s.clone() })
            }
        },
        _ => Err(ConvertError::NotFloat { column: column.name.clone() }),
    }
}

/// Converts a seed value into the SQL value that its column's data type calls for; see
/// `converted` for each data type.
pub fn convert_value(column: &ColumnInfo, value: &YamlValue) -> (r: Result<SqlValue, ConvertError>)
    ensures
        converted(*column, *value, r),
{
    if value.is_null() {
        return Ok(SqlValue::Null);
    }
    let kind = kind_of(&column.data_type);
    match kind {
        ColumnKind::Json => {
            return convert_json(value);
        },
        ColumnKind::Integer => {
            return convert_integer(column, value);
        },
        ColumnKind::Decimal => {
            return convert_decimal(column, value);
        },
        ColumnKind::Float => {
            return convert_float(column, value);
        },
        _ => {},
    }
    let s = expect_string(value, column)?;
    match kind {
        ColumnKind::Date => match parse_naive_date(s.as_str(), "%Y-%m-%d") {
            Ok(d) => Ok(SqlValue::Date(make_date(d))),
            Err(_) => match parse_naive_date(s.as_str(), "%Y/%m/%d") {
                Ok(d) => Ok(SqlValue::Date(make_date(d))),
                Err(e) => Err(ConvertError::InvalidDate { column: column.name.clone(), cause: e }),
            },
        },
        ColumnKind::DateTime => match parse_datetime(s.as_str()) {
            Some(dt) => Ok(SqlValue::DateTime(dt)),
            None => Err(ConvertError::InvalidDateTime { column: column.name.clone(), input: s }),
        },
        ColumnKind::Time => match parse_naive_time(s.as_str(), "%H:%M:%S") {
            Ok(t) => Ok(SqlValue::Time(make_time(t))),
            Err(_) => match parse_naive_time(s.as_str(), "%H:%M") {
                Ok(t) => Ok(SqlValue::Time(make_time(t))),
                Err(e) => Err(ConvertError::InvalidTime { column: column.name.clone(), cause: e }),
            },
        },
        ColumnKind::Enum => {
            let allowed = parse_enum_variants(column.column_type.as_str())?;
            let text = string_chars(&s);
            let mut i: usize = 0;
            while i < allowed.len()
                invariant
                    i <= allowed@.len(),
                    string_text(*value) == Some(s@),
                    text@ == s@,
                    column_kind(column.data_type@) == ColumnKind::Enum,
                    !yaml_is_null(*value),
                    enum_variants(column.column_type@) matches Some(vs) && vs.len()
                        == allowed@.len() && (forall|j: int|
                        0 <= j < vs.len() ==> #[trigger] allowed@[j]@ == vs[j]) && (forall|j: int|
                        0 <= j < i ==> vs[j] != text@),
                decreases allowed.len() - i,
            {
                if chars_equal(&string_chars(&allowed[i]), &text) {
                    proof {
                        let vs = enum_variants(column.column_type@)->Some_0;
                        assert(vs[i as int] == text@);
                        assert(vs.contains(text@));
                    }
                    return Ok(SqlValue::String(s));
                }
                i = i + 1;
            }
            Err(ConvertError::NotInEnum { column: column.name.clone(), value: s, allowed })
        },
        _ => Ok(SqlValue::String(s)),
    }
}

/// A value either converts for its column or fails to: never both.
pub proof fn lemma_conversion_outcome(column: ColumnInfo, v: YamlValue, x: SqlValue, e: ConvertError)
    requires
        converted(column, v, Ok(x)),
    ensures
        !converted(column, v, Err(e)),
{
}

/// The integer types `int`, `integer`, `mediumint`, `smallint`, `tinyint` and `bigint`, in any
/// ASCII case, take an integer as itself and a boolean as 1 or 0.
pub proof fn law_integer_types(column: ColumnInfo, v: YamlValue, r: Result<SqlValue, ConvertError>)
    requires
        ({
            let l = lower(column.data_type@);
            ||| l == "int"@
            ||| l == "integer"@
            ||| l == "mediumint"@
            ||| l == "smallint"@
            ||| l == "tinyint"@
            ||| l == "bigint"@
        }),
        converted(column, v, r),
    ensures
        yaml_as_i64(v) is Some ==> (r matches Ok(SqlValue::Int(x)) && x == yaml_as_i64(v)->Some_0),
        yaml_as_bool(v) is Some ==> (r matches Ok(SqlValue::Int(x)) && x == (if yaml_as_bool(v)->Some_0 {
            1int
        } else {
            0int
        })),
{
    reveal_strlit("int");
    reveal_strlit("integer");
    reveal_strlit("mediumint");
    reveal_strlit("smallint");
    reveal_strlit("tinyint");
    reveal_strlit("bigint");
    reveal_strlit("varchar");
    reveal_strlit("char");
    reveal_strlit("text");
    reveal_strlit("mediumtext");
    reveal_strlit("longtext");
    reveal_strlit("tinytext");
    reveal_strlit("json");
    let l = lower(column.data_type@);
    assert(l.len() >= 3);
    assert(l != "varchar"@ && l != "char"@ && l != "text"@) by {
        if l == "varchar"@ || l == "char"@ || l == "text"@ {
            assert(l[0] == 'v' || l[0] == 'c' || l[0] == 't');
        }
    }
    assert(column_kind(column.data_type@) == ColumnKind::Integer);
}

} // verus!
