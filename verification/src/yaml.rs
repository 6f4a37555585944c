//! The YAML values of a seed file, as far as the loader reads them.
use vstd::prelude::*;
use crate::numbers::{decimal, signed_decimal};

verus! {

/// A YAML value as parsed (`serde_yaml::Value`), carried through where its parts are not read.
#[verifier::external_type_specification]
#[verifier::external_body]
pub struct ExYamlValue(serde_yaml::Value);

/// A YAML number as parsed (`serde_yaml::Number`).
#[verifier::external_type_specification]
#[verifier::external_body]
pub struct ExYamlNumber(serde_yaml::Number);

/// A floating-point YAML number, by the texts that the loader reads of it.
#[derive(Debug)]
pub struct YamlFloat {
    /// The value's text as `f64::to_string` writes it (which `str::parse::<f64>` reads back).
    pub text: String,
    /// The value's text as the YAML library writes it (`serde_yaml::Number`'s `Display`).
    pub yaml_text: String,
    /// The value as a JSON number (`serde_json::Number`'s `Display`), absent when the value is
    /// not finite.
    pub json_text: Option<String>,
    /// The number itself.
    pub number: serde_yaml::Number,
}

/// A YAML number: a non-negative integer, a negative integer, or a float.
#[derive(Debug)]
pub enum YamlNumber {
    /// An integer from 0 to `u64::MAX`.
    PosInt(u64),
    /// A negative integer.
    NegInt(i64),
    /// A floating-point number.
    Float(YamlFloat),
}

/// A YAML value of a seed row.
#[derive(Debug)]
pub enum YamlValue {
    /// `null` or `~`.
    Null,
    /// A boolean.
    Bool(bool),
    /// A number.
    Number(YamlNumber),
    /// A string.
    String(String),
    /// A sequence: its items, and the whole sequence as parsed.
    Sequence(Vec<YamlValue>, serde_yaml::Value),
    /// A mapping: its entries in order, and the whole mapping as parsed.
    Mapping(Vec<(YamlValue, YamlValue)>, serde_yaml::Value),
    /// A tagged value: the value under the tag, the tag's text (such as `!point`), and the
    /// whole tagged value as parsed.
    Tagged(Box<YamlValue>, String, serde_yaml::Value),
}

/// The value under all of its tags (`Value::untag_ref`).
pub open spec fn untag(v: YamlValue) -> YamlValue
    decreases v,
{
    match v {
        YamlValue::Tagged(inner, _, _) => untag(*inner),
        _ => v,
    }
}

/// `Value::is_null`.
pub open spec fn yaml_is_null(v: YamlValue) -> bool {
    untag(v) is Null
}

/// `Value::as_str`.
pub open spec fn yaml_as_str(v: YamlValue) -> Option<Seq<char>> {
    match untag(v) {
        YamlValue::String(s) => Some(s@),
        _ => None,
    }
}

/// `Value::as_bool`.
pub open spec fn yaml_as_bool(v: YamlValue) -> Option<bool> {
    match untag(v) {
        YamlValue::Bool(b) => Some(b),
        _ => None,
    }
}

/// `Value::as_i64`.
pub open spec fn yaml_as_i64(v: YamlValue) -> Option<int> {
    match untag(v) {
        YamlValue::Number(YamlNumber::PosInt(n)) => if n <= i64::MAX {
            Some(n as int)
        } else {
            None
        },
        YamlValue::Number(YamlNumber::NegInt(n)) => Some(n as int),
        _ => None,
    }
}

/// `Value::as_u64`.
pub open spec fn yaml_as_u64(v: YamlValue) -> Option<nat> {
    match untag(v) {
        YamlValue::Number(YamlNumber::PosInt(n)) => Some(n as nat),
        _ => None,
    }
}

/// The text of `Value::as_f64` written by `f64::to_string`, for any number.
pub open spec fn yaml_float_text(v: YamlValue) -> Option<Seq<char>> {
    match untag(v) {
        YamlValue::Number(YamlNumber::PosInt(n)) => Some(decimal(n as nat)),
        YamlValue::Number(YamlNumber::NegInt(n)) => Some(signed_decimal(n as int)),
        YamlValue::Number(YamlNumber::Float(f)) => Some(f.text@),
        _ => None,
    }
}

/// `Number`'s `Display` text.
pub open spec fn yaml_number_text(n: YamlNumber) -> Seq<char> {
    match n {
        YamlNumber::PosInt(u) => decimal(u as nat),
        YamlNumber::NegInt(i) => signed_decimal(i as int),
        YamlNumber::Float(f) => f.yaml_text@,
    }
}

impl YamlValue {
    /// The value under all of its tags.
    pub fn untagged(&self) -> (r: &YamlValue)
        ensures
            *r == untag(*self),
        decreases self,
    {
        match self {
            YamlValue::Tagged(inner, _, _) => inner.untagged(),
            _ => self,
        }
    }

    /// Whether the value is null, under its tags.
    pub fn is_null(&self) -> (r: bool)
        ensures
            r == yaml_is_null(*self),
    {
        match self.untagged() {
            YamlValue::Null => true,
            _ => false,
        }
    }
}

} // verus!
