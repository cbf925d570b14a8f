//! YAML values as the library holds them, and the one place where text
//! becomes values: a call into `yaml_rust2`'s loader.

use vstd::prelude::*;
use yaml_rust2::{Yaml, YamlLoader};
use crate::text::{decimal, push_decimal};

verus! {

/// A YAML node, as `yaml_rust2` loads it: every variant of its `Yaml`, with a
/// mapping kept as its entries in document order.
#[derive(Debug)]
pub enum Value {
    /// A float, kept as the text it was written with.
    Real(String),
    Integer(i64),
    String(String),
    Boolean(bool),
    Array(Vec<Value>),
    Hash(Vec<Entry>),
    Alias(usize),
    Null,
    BadValue,
}

/// One entry of a mapping: its key, the key as `{:?}` renders it, and its value.
#[derive(Debug)]
pub struct Entry {
    pub key: Value,
    pub key_debug: String,
    pub value: Value,
}

/// Where and why a text is not YAML: the scanner's message, the byte index,
/// the line (counted from 1) and the column (counted from 0).
#[derive(Debug)]
pub struct ScanFault {
    pub info: String,
    pub index: usize,
    pub line: usize,
    pub col: usize,
}

#[verifier::external_type_specification]
#[verifier::external_body]
pub struct ExYaml(Yaml);

/// The documents that `yaml_rust2::YamlLoader::load_from_str` reads from `text`,
/// or the scan error that stops it.
pub uninterp spec fn yaml_documents(text: Seq<char>) -> Result<Seq<Value>, ScanFault>;

/// `yaml_rust2`'s node `y`, one variant for one variant; a mapping's entries are
/// taken in the loader's insertion order and each key is also rendered with `{:?}`.
#[verifier::external_body]
fn value_of_yaml(y: &Yaml) -> Value {
    match y {
        Yaml::Real(s) => Value::Real(s.clone()),
        Yaml::Integer(i) => Value::Integer(*i),
        Yaml::String(s) => Value::String(s.clone()),
        Yaml::Boolean(b) => Value::Boolean(*b),
        Yaml::Array(items) => Value::Array(items.iter().map(value_of_yaml).collect()),
        Yaml::Hash(h) => Value::Hash(h.iter().map(|(k, v)| Entry { key: value_of_yaml(k), key_debug: format!("{k:?}"), value: value_of_yaml(v) }).collect()),
        Yaml::Alias(n) => Value::Alias(*n),
        Yaml::Null => Value::Null,
        Yaml::BadValue => Value::BadValue,
    }
}

/// Calls `yaml_rust2::YamlLoader::load_from_str`: the documents of `text`, or
/// where scanning stopped. The contract only names the result
/// ([`yaml_documents`]); what YAML the loader accepts is the crate's.
#[verifier::external_body]
pub(crate) fn load_yaml(text: &str) -> (r: Result<Vec<Value>, ScanFault>)
    ensures
        match r {
            Ok(docs) => yaml_documents(text@) == Ok::<Seq<Value>, ScanFault>(docs@),
            Err(e) => yaml_documents(text@) == Err::<Seq<Value>, ScanFault>(e),
        },
{
    match YamlLoader::load_from_str(text) {
        Ok(docs) => Ok(docs.iter().map(value_of_yaml).collect()),
        Err(e) => Err(ScanFault { info: e.info().to_string(), index: e.marker().index(), line: e.marker().line(), col: e.marker().col() }),
    }
}

/// How `yaml_rust2` displays a scan error: the message, then where it stopped,
/// with the column counted from 1.
pub open spec fn scan_fault_text(e: ScanFault) -> Seq<char> {
    e.info@ + " at byte "@ + decimal(e.index as nat) + " line "@ + decimal(e.line as nat) + " column "@
        + decimal((e.col + 1) as nat)
}

impl ScanFault {
    /// This error as `yaml_rust2` displays it.
    pub fn describe(&self) -> (r: String)
        ensures
            r@ == scan_fault_text(*self),
    {
        let mut m = String::from_str(self.info.as_str());
        m.append(" at byte ");
        push_decimal(&mut m, self.index as u128);
        m.append(" line ");
        push_decimal(&mut m, self.line as u128);
        m.append(" column ");
        push_decimal(&mut m, self.col as u128 + 1);
        m
    }
}

} // verus!
