//! The YAML values that plan files hold, read with `yaml_rust`, and field lookup in maps.
use vstd::prelude::*;
use crate::errors::Error;
use crate::text::str_eq;

verus! {

/// A YAML value as the reader produces it: scalars, lists, and maps whose entries keep the
/// order in which the text lists them.
#[derive(Debug)]
pub enum YamlValue {
    /// A floating-point scalar, kept as its text.
    Real(String),
    Integer(i64),
    Str(String),
    Boolean(bool),
    Array(Vec<YamlValue>),
    Hash(Vec<(YamlValue, YamlValue)>),
    /// A reference to an anchor, by the anchor's number.
    Alias(usize),
    Null,
    BadValue,
}

/// The declared type of the YAML reader's node.
#[verifier::external_type_specification]
#[verifier::external_body]
pub struct ExYaml(yaml_rust::Yaml);

/// What `yaml_rust::YamlLoader::load_from_str` makes of a text: its documents, or the
/// message that its scan error displays where it rejects the text.
pub uninterp spec fn yaml_load(text: Seq<char>) -> Result<Seq<YamlValue>, Seq<char>>;

/// Moves a node of the YAML reader into the library's own value, variant for variant.
#[verifier::external_body]
fn node_to_value(node: yaml_rust::Yaml) -> YamlValue {
    match node {
        yaml_rust::Yaml::Real(s) => YamlValue::Real(s),
        yaml_rust::Yaml::Integer(i) => YamlValue::Integer(i),
        yaml_rust::Yaml::String(s) => YamlValue::Str(s),
        yaml_rust::Yaml::Boolean(b) => YamlValue::Boolean(b),
        yaml_rust::Yaml::Array(v) => YamlValue::Array(v.into_iter().map(node_to_value).collect()),
        yaml_rust::Yaml::Hash(h) => YamlValue::Hash(
            h.into_iter().map(|(k, v)| (node_to_value(k), node_to_value(v))).collect(),
        ),
        yaml_rust::Yaml::Alias(a) => YamlValue::Alias(a),
        yaml_rust::Yaml::Null => YamlValue::Null,
        yaml_rust::Yaml::BadValue => YamlValue::BadValue,
    }
}

/// Calls `yaml_rust::YamlLoader::load_from_str`, and the `Display` of its `ScanError` where
/// it fails. Claims that the documents, or the message, are `yaml_load` of the text.
#[verifier::external_body]
fn load_from_str(text: &str) -> (r: Result<Vec<YamlValue>, String>)
    ensures
        match yaml_load(text@) {
            Ok(docs) => r matches Ok(v) && v@ == docs,
            Err(m) => r matches Err(e) && e@ == m,
        },
{
    match yaml_rust::YamlLoader::load_from_str(text) {
        Ok(docs) => Ok(docs.into_iter().map(node_to_value).collect()),
        Err(e) => Err(format!("{}", e)),
    }
}

/// Reads the YAML documents of a text.
pub fn yaml_from_str(text: &str) -> (r: Result<Vec<YamlValue>, Error>)
    ensures
        match yaml_load(text@) {
            Ok(docs) => r matches Ok(v) && v@ == docs,
            Err(m) => r matches Err(Error::YamlScan(e)) && e@ == m,
        },
{
    match load_from_str(text) {
        Ok(docs) => Ok(docs),
        Err(m) => Err(Error::YamlScan(m)),
    }
}

/// `k` is the string key `field`.
pub open spec fn is_key(k: YamlValue, field: Seq<char>) -> bool {
    k matches YamlValue::Str(s) && s@ == field
}

/// Entry `i` is the first whose key is `field`.
pub open spec fn is_first_key(m: Seq<(YamlValue, YamlValue)>, field: Seq<char>, i: int) -> bool {
    &&& 0 <= i < m.len()
    &&& is_key(m[i].0, field)
    &&& forall|j: int| 0 <= j < i ==> !is_key(#[trigger] m[j].0, field)
}

/// The position of the first entry whose key is `field`.
pub open spec fn key_index(m: Seq<(YamlValue, YamlValue)>, field: Seq<char>) -> Option<int> {
    if exists|i: int| is_first_key(m, field, i) {
        Some(choose|i: int| is_first_key(m, field, i))
    } else {
        None
    }
}

/// Ties `key_index` to the first entry with the key, and to its absence.
pub proof fn lemma_key_index(m: Seq<(YamlValue, YamlValue)>, field: Seq<char>)
    ensures
        forall|i: int| is_first_key(m, field, i) ==> key_index(m, field) == Some(i),
        (forall|i: int| 0 <= i < m.len() ==> !is_key(#[trigger] m[i].0, field)) ==> key_index(
            m,
            field,
        ) is None,
        key_index(m, field) matches Some(i) ==> is_first_key(m, field, i),
{
    assert forall|i: int| is_first_key(m, field, i) implies key_index(m, field) == Some(i) by {
        let c = choose|i: int| is_first_key(m, field, i);
        if c < i {
            assert(!is_key(m[c].0, field));
        } else if c > i {
            assert(!is_key(m[i].0, field));
        }
    }
}

/// The value of the first entry whose key is `field`.
pub open spec fn field_value(m: Seq<(YamlValue, YamlValue)>, field: Seq<char>) -> Option<
    YamlValue,
> {
    match key_index(m, field) {
        Some(i) => Some(m[i].1),
        None => None,
    }
}

/// A field that must hold a string: its string, or `None` when it is missing or holds
/// something else.
pub open spec fn string_field(m: Seq<(YamlValue, YamlValue)>, field: Seq<char>) -> Option<String> {
    match field_value(m, field) {
        Some(YamlValue::Str(s)) => Some(s),
        _ => None,
    }
}

/// A field that may hold a boolean: a missing field reads as `false`; `None` when it holds
/// something else.
pub open spec fn bool_field(m: Seq<(YamlValue, YamlValue)>, field: Seq<char>) -> Option<bool> {
    match field_value(m, field) {
        None => Some(false),
        Some(YamlValue::Boolean(b)) => Some(b),
        Some(_) => None,
    }
}

fn key_is(k: &YamlValue, field: &str) -> (r: bool)
    ensures
        r == is_key(*k, field@),
{
    match k {
        YamlValue::Str(s) => str_eq(s.as_str(), field),
        _ => false,
    }
}

/// Takes the first entry whose key is `field` out of the map and returns its value.
pub fn lookup(y: &mut Vec<(YamlValue, YamlValue)>, field: &str) -> (r: Result<YamlValue, Error>)
    ensures
        match key_index(old(y)@, field@) {
            Some(i) => r == Ok::<YamlValue, Error>(old(y)@[i].1) && final(y)@ == old(y)@.remove(i),
            None => (r matches Err(Error::MissingField(f)) && f@ == field@) && final(y)@ == old(
                y,
            )@,
        },
{
    let n = y.len();
    let mut i: usize = 0;
    while i < n
        invariant
            y@ == old(y)@,
            n == y@.len(),
            i <= n,
            forall|j: int| 0 <= j < i ==> !is_key(#[trigger] y@[j].0, field@),
        decreases n - i,
    {
        if key_is(&y[i].0, field) {
            assert(is_first_key(y@, field@, i as int));
            proof { lemma_key_index(y@, field@); }
            let entry = y.remove(i);
            return Ok(entry.1);
        }
        i = i + 1;
    }
    proof { lemma_key_index(y@, field@); }
    Err(Error::MissingField(String::from_str(field)))
}

/// Takes a field that must hold a string out of the map.
pub fn lookup_string(y: &mut Vec<(YamlValue, YamlValue)>, field: &str) -> (r: Result<
    String,
    Error,
>)
    ensures
        match key_index(old(y)@, field@) {
            Some(i) => final(y)@ == old(y)@.remove(i),
            None => final(y)@ == old(y)@,
        },
        match field_value(old(y)@, field@) {
            Some(YamlValue::Str(s)) => r == Ok::<String, Error>(s),
            Some(_) => r matches Err(Error::NotAString),
            None => r matches Err(Error::MissingField(f)) && f@ == field@,
        },
{
    let v = lookup(y, field)?;
    match v {
        YamlValue::Str(s) => Ok(s),
        _ => Err(Error::NotAString),
    }
}

/// Takes a field that may hold a boolean out of the map; a missing field reads as `false`.
pub fn lookup_bool(y: &mut Vec<(YamlValue, YamlValue)>, field: &str) -> (r: Result<bool, Error>)
    ensures
        match key_index(old(y)@, field@) {
            Some(i) => final(y)@ == old(y)@.remove(i),
            None => final(y)@ == old(y)@,
        },
        match bool_field(old(y)@, field@) {
            Some(b) => r == Ok::<bool, Error>(b),
            None => r matches Err(Error::NotABool),
        },
{
    let v = lookup(y, field);
    match v {
        Err(_) => Ok(false),
        Ok(YamlValue::Boolean(b)) => Ok(b),
        Ok(_) => Err(Error::NotABool),
    }
}

/// The list that the first document of a data file holds.
pub fn root_yaml_to_vec(y: Vec<YamlValue>, type_: &str) -> (r: Result<Vec<YamlValue>, Error>)
    ensures
        y@.len() == 0 ==> (r matches Err(Error::NoElements(t)) && t@ == type_@),
        y@.len() > 0 ==> match y@[0] {
            YamlValue::Array(a) => r == Ok::<Vec<YamlValue>, Error>(a),
            _ => r matches Err(Error::NotAnArray(t)) && t@ == type_@,
        },
{
    let mut y = y;
    if y.len() == 0 {
        return Err(Error::NoElements(String::from_str(type_)));
    }
    let first = y.remove(0);
    match first {
        YamlValue::Array(a) => Ok(a),
        _ => Err(Error::NotAnArray(String::from_str(type_))),
    }
}

} // verus!
