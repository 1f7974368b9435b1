//! A YAML document as plain values, and the reads the parser makes of it:
//! string, mapping and sequence access (looking through tags) and key lookup.

use vstd::prelude::*;

verus! {

/// A YAML value. Numbers carry no payload: nothing the generator reads is a number.
#[derive(Debug)]
pub enum Yaml {
    Null,
    Bool(bool),
    Number,
    Str(String),
    Sequence(Vec<Yaml>),
    Mapping(Vec<(Yaml, Yaml)>),
    /// A value under an explicit `!Tag`.
    Tagged(Box<Yaml>),
}

/// `y` with any tags removed.
pub open spec fn untag(y: Yaml) -> Yaml
    decreases y,
{
    match y {
        Yaml::Tagged(inner) => untag(*inner),
        _ => y,
    }
}

/// The string `y` holds, looking through tags (`Value::as_str`).
pub open spec fn yaml_str(y: Yaml) -> Option<Seq<char>> {
    match untag(y) {
        Yaml::Str(s) => Some(s@),
        _ => None,
    }
}

/// The entries of the mapping `y` holds, looking through tags (`Value::as_mapping`).
pub open spec fn yaml_mapping(y: Yaml) -> Option<Seq<(Yaml, Yaml)>> {
    match untag(y) {
        Yaml::Mapping(m) => Some(m@),
        _ => None,
    }
}

/// The items of the sequence `y` holds, looking through tags (`Value::as_sequence`).
pub open spec fn yaml_sequence(y: Yaml) -> Option<Seq<Yaml>> {
    match untag(y) {
        Yaml::Sequence(items) => Some(items@),
        _ => None,
    }
}

/// `k` is the untagged string key `key`.
pub open spec fn is_key(k: Yaml, key: Seq<char>) -> bool {
    match k {
        Yaml::Str(s) => s@ == key,
        _ => false,
    }
}

/// The value under the string key `key` (`Mapping::get` with a `&str`).
pub open spec fn map_get(m: Seq<(Yaml, Yaml)>, key: Seq<char>) -> Option<Yaml>
    decreases m.len(),
{
    if m.len() == 0 {
        None
    } else if is_key(m[0].0, key) {
        Some(m[0].1)
    } else {
        map_get(m.drop_first(), key)
    }
}

/// The value under `key` when `y` is a mapping (`Value::get` with a `&str`).
pub open spec fn value_get(y: Yaml, key: Seq<char>) -> Option<Yaml> {
    match yaml_mapping(y) {
        Some(m) => map_get(m, key),
        None => None,
    }
}

/// What serde_norway parses `text` into, as a `Yaml` value, or the text of
/// its error when the text is not one well-formed YAML document.
pub uninterp spec fn yaml_document(text: Seq<char>) -> Result<Yaml, Seq<char>>;

#[verifier::external_type_specification]
#[verifier::external_body]
pub struct ExYamlValue(serde_norway::Value);

/// `serde_norway::from_str::<serde_norway::Value>`, with the value converted
/// variant for variant into `Yaml` (numbers lose their digits) and an error
/// turned into its message. The contract names the result and states nothing
/// else of YAML syntax.
#[verifier::external_body]
pub(crate) fn parse_yaml(text: &str) -> (r: Result<Yaml, String>)
    ensures
        match r {
            Ok(doc) => yaml_document(text@) == Ok::<Yaml, Seq<char>>(doc),
            Err(m) => yaml_document(text@) == Err::<Yaml, Seq<char>>(m@),
        },
{
    match serde_norway::from_str::<serde_norway::Value>(text) {
        Ok(v) => Ok(yaml_from_value(v)),
        Err(e) => Err(e.to_string()),
    }
}

/// The variant-for-variant conversion of a serde_norway value.
#[verifier::external_body]
fn yaml_from_value(v: serde_norway::Value) -> Yaml {
    match v {
        serde_norway::Value::Null => Yaml::Null,
        serde_norway::Value::Bool(b) => Yaml::Bool(b),
        serde_norway::Value::Number(_) => Yaml::Number,
        serde_norway::Value::String(s) => Yaml::Str(s),
        serde_norway::Value::Sequence(items) => Yaml::Sequence(
            items.into_iter().map(yaml_from_value).collect(),
        ),
        serde_norway::Value::Mapping(m) => Yaml::Mapping(
            m.into_iter().map(|(k, v)| (yaml_from_value(k), yaml_from_value(v))).collect(),
        ),
        serde_norway::Value::Tagged(t) => Yaml::Tagged(Box::new(yaml_from_value(t.value))),
    }
}

impl Yaml {
    /// `self` with any tags removed.
    pub fn untagged(&self) -> (r: &Yaml)
        ensures
            *r == untag(*self),
        decreases self,
    {
        match self {
            Yaml::Tagged(inner) => inner.untagged(),
            _ => self,
        }
    }

    /// `Value::as_str`.
    pub fn as_str(&self) -> (r: Option<&String>)
        ensures
            match r {
                Some(s) => yaml_str(*self) == Some(s@),
                None => yaml_str(*self) is None,
            },
    {
        match self.untagged() {
            Yaml::Str(s) => Some(s),
            _ => None,
        }
    }

    /// `Value::as_mapping`.
    pub fn as_mapping(&self) -> (r: Option<&Vec<(Yaml, Yaml)>>)
        ensures
            match r {
                Some(m) => yaml_mapping(*self) == Some(m@),
                None => yaml_mapping(*self) is None,
            },
    {
        match self.untagged() {
            Yaml::Mapping(m) => Some(m),
            _ => None,
        }
    }

    /// `Value::as_sequence`.
    pub fn as_sequence(&self) -> (r: Option<&Vec<Yaml>>)
        ensures
            match r {
                Some(items) => yaml_sequence(*self) == Some(items@),
                None => yaml_sequence(*self) is None,
            },
    {
        match self.untagged() {
            Yaml::Sequence(items) => Some(items),
            _ => None,
        }
    }

    /// `Value::get` with a string key.
    pub fn get(&self, key: &str) -> (r: Option<&Yaml>)
        ensures
            match r {
                Some(v) => value_get(*self, key@) == Some(*v),
                None => value_get(*self, key@) is None,
            },
    {
        match self.as_mapping() {
            Some(m) => mapping_get(m, key),
            None => None,
        }
    }
}

/// `Mapping::get` with a string key.
pub fn mapping_get<'a>(m: &'a Vec<(Yaml, Yaml)>, key: &str) -> (r: Option<&'a Yaml>)
    ensures
        match r {
            Some(v) => map_get(m@, key@) == Some(*v),
            None => map_get(m@, key@) is None,
        },
{
    let n = m.len();
    let mut i: usize = 0;
    assert(m@.skip(0) =~= m@);
    while i < n
        invariant
            i <= n,
            n == m@.len(),
            map_get(m@, key@) == map_get(m@.skip(i as int), key@),
        decreases n - i,
    {
        assert(m@.skip(i as int)[0] == m@[i as int]);
        assert(m@.skip(i as int).drop_first() =~= m@.skip(i + 1));
        let hit = match &m[i].0 {
            Yaml::Str(s) => crate::text::str_eq(s.as_str(), key),
            _ => false,
        };
        if hit {
            return Some(&m[i].1);
        }
        i += 1;
    }
    None
}

} // verus!
