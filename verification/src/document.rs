//! Documents as the YAML, TOML and JSON parsers read them, and the
//! library's values that they become.
//!
//! Each parser reads text into a tree of its own value type; the library
//! holds such a tree as a [`DocNode`], one node for each value, and turns it
//! into a [`Value`] by rules of its own.

use crate::error::Error;
use crate::parser::optimise_string;
use crate::types::{Frontmatter, Value};
use serde_json::Error as JsonError;
use serde_json::Number as JsonNumber;
use serde_json::Value as JsonValue;
use serde_yml::Error as YamlError;
use serde_yml::Value as YamlValue;
use toml::de::Error as TomlError;
use toml::Value as TomlValue;
use vstd::prelude::*;
use std::sync::Arc;
use vstd::string::StringSliceAdditionalSpecFns;

verus! {

/// The value type of the YAML parser.
#[verifier::external_type_specification]
#[verifier::external_body]
pub struct ExYamlValue(YamlValue);

/// The value type of the TOML parser.
#[verifier::external_type_specification]
#[verifier::external_body]
pub struct ExTomlValue(TomlValue);

/// The value type of the JSON parser.
#[verifier::external_type_specification]
#[verifier::external_body]
pub struct ExJsonValue(JsonValue);

/// A value of a parsed document, as its parser gave it.
#[derive(Debug)]
pub enum DocNode {
    /// A null value.
    Null,
    /// A boolean.
    Bool(bool),
    /// A number: its value as an `i64` where the parser gives one, and the
    /// bit pattern of its value as an `f64` where the parser gives one.
    Number {
        /// The number as an integer
        integer: Option<i64>,
        /// The bits of the number as a float
        float_bits: Option<u64>,
    },
    /// A string.
    Str(String),
    /// A sequence of values.
    List(Vec<DocNode>),
    /// A mapping from string keys to values, in the parser's order.
    Table(Vec<(String, DocNode)>),
    /// A value with a tag.
    Tagged(String, Box<DocNode>),
}

/// What the YAML parser reads from a text.
pub uninterp spec fn yaml_read(raw: Seq<char>) -> Result<DocNode, YamlError>;

/// What the TOML parser reads from a text.
pub uninterp spec fn toml_read(raw: Seq<char>) -> Result<DocNode, TomlError>;

/// What the JSON parser reads from a text.
pub uninterp spec fn json_read(raw: Seq<char>) -> Result<DocNode, JsonError>;

/// A YAML value as a node: one node for each value, numbers by
/// `Number::as_i64` and `Number::as_f64`, tags by their text.
#[verifier::external_body]
fn yaml_node(v: &YamlValue) -> DocNode {
    match v {
        YamlValue::Null => DocNode::Null,
        YamlValue::Bool(b) => DocNode::Bool(*b),
        YamlValue::Number(n) => DocNode::Number { integer: n.as_i64(), float_bits: Some(n.as_f64().to_bits()) },
        YamlValue::String(s) => DocNode::Str(s.clone()),
        YamlValue::Sequence(xs) => DocNode::List(xs.iter().map(yaml_node).collect()),
        YamlValue::Mapping(m) => DocNode::Table(m.iter().map(|(k, x)| (k.clone(), yaml_node(x))).collect()),
        YamlValue::Tagged(t) => DocNode::Tagged(t.tag().to_string(), Box::new(yaml_node(t.value()))),
    }
}

/// Calls `serde_yml::from_str` for a `serde_yml::Value` and gives the
/// value as a node ([`yaml_node`]); what it reads depends on the text
/// alone and is named [`yaml_read`] of it.
#[verifier::external_body]
fn read_yaml(raw: &str) -> (r: Result<DocNode, YamlError>)
    ensures
        r == yaml_read(raw@),
{
    match serde_yml::from_str::<YamlValue>(raw) {
        Ok(v) => Ok(yaml_node(&v)),
        Err(e) => Err(e),
    }
}

/// A TOML value as a node: integers also by their value as an `f64`,
/// dates and times by their text.
#[verifier::external_body]
fn toml_node(v: &TomlValue) -> DocNode {
    match v {
        TomlValue::String(s) => DocNode::Str(s.clone()),
        TomlValue::Integer(i) => DocNode::Number { integer: Some(*i), float_bits: JsonNumber::from(*i).as_f64().map(|x| x.to_bits()) },
        TomlValue::Float(f) => DocNode::Number { integer: None, float_bits: Some(f.to_bits()) },
        TomlValue::Boolean(b) => DocNode::Bool(*b),
        TomlValue::Datetime(d) => DocNode::Str(d.to_string()),
        TomlValue::Array(xs) => DocNode::List(xs.iter().map(toml_node).collect()),
        TomlValue::Table(t) => DocNode::Table(t.iter().map(|(k, x)| (k.clone(), toml_node(x))).collect()),
    }
}

/// Calls `str::parse` for a `toml::Value` and gives the value as a node
/// ([`toml_node`]); what it reads depends on the text alone and is named
/// [`toml_read`] of it.
#[verifier::external_body]
fn read_toml(raw: &str) -> (r: Result<DocNode, TomlError>)
    ensures
        r == toml_read(raw@),
{
    match raw.parse::<TomlValue>() {
        Ok(v) => Ok(toml_node(&v)),
        Err(e) => Err(e),
    }
}

/// A JSON value as a node: numbers by `Number::as_i64` and
/// `Number::as_f64`.
#[verifier::external_body]
fn json_node(v: &JsonValue) -> DocNode {
    match v {
        JsonValue::Null => DocNode::Null,
        JsonValue::Bool(b) => DocNode::Bool(*b),
        JsonValue::Number(n) => DocNode::Number { integer: n.as_i64(), float_bits: n.as_f64().map(|x| x.to_bits()) },
        JsonValue::String(s) => DocNode::Str(s.clone()),
        JsonValue::Array(xs) => DocNode::List(xs.iter().map(json_node).collect()),
        JsonValue::Object(o) => DocNode::Table(o.iter().map(|(k, x)| (k.clone(), json_node(x))).collect()),
    }
}

/// Calls `serde_json::from_str` for a `serde_json::Value` and gives the
/// value as a node ([`json_node`]); what it reads depends on the text
/// alone and is named [`json_read`] of it.
#[verifier::external_body]
fn read_json(raw: &str) -> (r: Result<DocNode, JsonError>)
    ensures
        r == json_read(raw@),
{
    match serde_json::from_str::<JsonValue>(raw) {
        Ok(v) => Ok(json_node(&v)),
        Err(e) => Err(e),
    }
}

/// The bits of the `f64` that a number becomes: its float value where the
/// parser gives one, else zero; in YAML an integer of magnitude 2^52 or
/// more becomes zero, as a float cannot hold every such integer exactly.
pub open spec fn number_bits(integer: Option<i64>, float_bits: Option<u64>, yaml: bool) -> u64 {
    match integer {
        Some(i) if yaml && !(-0x10_0000_0000_0000 < i < 0x10_0000_0000_0000) => 0,
        _ => match float_bits {
            Some(b) => b,
            None => 0,
        },
    }
}

/// Entry `i` is the last one of `es` with its key.
pub open spec fn last_of_key(es: Seq<(String, DocNode)>, i: int) -> bool {
    forall|j: int| i < j < es.len() ==> es[j].0@ != es[i].0@
}

/// `v` is the library's value for node `n`, read as YAML where `yaml`.
pub open spec fn node_value_is(v: Value, n: DocNode, yaml: bool) -> bool
    decreases n,
{
    match n {
        DocNode::Null => v is Null,
        DocNode::Bool(b) => v == Value::Boolean(b),
        DocNode::Number { integer, float_bits } => v == Value::Number(number_bits(integer, float_bits, yaml)),
        DocNode::Str(s) => v matches Value::String(t) && t@ == s@,
        DocNode::List(ns) => v matches Value::Array(vs) && vs@.len() == ns@.len() && forall|i: int|
            0 <= i < ns@.len() ==> node_value_is(#[trigger] vs@[i], ns@[i], yaml),
        DocNode::Table(es) => v matches Value::Object(fm) && (forall|k: Seq<char>|
            #[trigger] fm.map().contains_key(k) <==> exists|i: int|
                0 <= i < es@.len() && es@[i].0@ == k) && (forall|i: int|
            0 <= i < es@.len() && last_of_key(es@, i) ==> node_value_is(
                #[trigger] fm.map()[es@[i].0@],
                es@[i].1,
                yaml,
            )),
        DocNode::Tagged(t, b) => v matches Value::Tagged(u, w) && u@ == t@ && node_value_is(*w, *b, yaml),
    }
}

/// `m` is the map of front matter made from the entries `es`: the keys of
/// the entries, each with the library's value for its last entry.
pub open spec fn entries_map_is(m: Map<Seq<char>, Value>, es: Seq<(String, DocNode)>, yaml: bool) -> bool {
    &&& forall|k: Seq<char>| #[trigger] m.contains_key(k) <==> exists|i: int|
        0 <= i < es.len() && es[i].0@ == k
    &&& forall|i: int| 0 <= i < es.len() && last_of_key(es, i) ==> node_value_is(
        #[trigger] m[es[i].0@],
        es[i].1,
        yaml,
    )
}

/// The library's value for a node, read as YAML where `yaml`.
#[verifier::loop_isolation(false)]
pub fn node_value(n: &DocNode, yaml: bool) -> (r: Value)
    ensures
        node_value_is(r, *n, yaml),
    decreases n,
{
    match n {
        DocNode::Null => Value::Null,
        DocNode::Bool(b) => Value::Boolean(*b),
        DocNode::Number { integer, float_bits } => {
            let big = match integer {
                Some(i) => yaml && !crate::parser::integer_fits_float(*i),
                None => false,
            };
            if big {
                Value::Number(0)
            } else {
                match float_bits {
                    Some(b) => Value::Number(*b),
                    None => Value::Number(0),
                }
            }
        },
        DocNode::Str(s) => Value::String(optimise_string(s.as_str())),
        DocNode::List(ns) => {
            let mut vs: Vec<Value> = Vec::new();
            let mut i: usize = 0;
            while i < ns.len()
                invariant
                    i <= ns@.len(),
                    vs@.len() == i,
                    forall|j: int| 0 <= j < i ==> node_value_is(#[trigger] vs@[j], ns@[j], yaml),
                decreases ns@.len() - i,
            {
                proof {
                    assert(decreases_to!(*n => ns@[i as int]));
                }
                let v = node_value(&ns[i], yaml);
                vs.push(v);
                i = i + 1;
            }
            Value::Array(vs)
        },
        DocNode::Table(es) => {
            let fm = entries_frontmatter(es, yaml);
            Value::Object(Box::new(fm))
        },
        DocNode::Tagged(t, b) => {
            let w = node_value(b, yaml);
            Value::Tagged(optimise_string(t.as_str()), Box::new(w))
        },
    }
}

/// Front matter from the entries of a mapping, later entries of a key
/// replacing earlier ones.
#[verifier::loop_isolation(false)]
pub fn entries_frontmatter(es: &Vec<(String, DocNode)>, yaml: bool) -> (r: Frontmatter)
    ensures
        entries_map_is(r.map(), es@, yaml),
    decreases es,
{
    let mut fm = Frontmatter::new();
    let mut i: usize = 0;
    while i < es.len()
        invariant
            i <= es@.len(),
            entries_map_is(fm.map(), es@.take(i as int), yaml),
        decreases es@.len() - i,
    {
        let ghost before = fm.map();
        let ghost p = es@.take(i as int);
        let ghost q = es@.take(i + 1);
        let key = optimise_string(es[i].0.as_str());
        proof {
            assert(decreases_to!(*es => es@[i as int].1));
        }
        let v = node_value(&es[i].1, yaml);
        let _ = fm.insert(key, v);
        proof {
            assert(q == p.push(es@[i as int]));
            let k = es@[i as int].0@;
            assert forall|x: Seq<char>| #[trigger] fm.map().contains_key(x) <==> exists|j: int|
                0 <= j < q.len() && q[j].0@ == x by {
                if x == k {
                    assert(q[i as int].0@ == x);
                } else if before.contains_key(x) {
                    let j = choose|j: int| 0 <= j < p.len() && p[j].0@ == x;
                    assert(q[j] == p[j]);
                } else {
                    if exists|j: int| 0 <= j < q.len() && q[j].0@ == x {
                        let j = choose|j: int| 0 <= j < q.len() && q[j].0@ == x;
                        assert(j < i);
                        assert(p[j] == q[j]);
                    }
                }
            }
            assert forall|j: int| 0 <= j < q.len() && last_of_key(q, j) implies node_value_is(
                #[trigger] fm.map()[q[j].0@],
                q[j].1,
                yaml,
            ) by {
                if j == i {
                } else {
                    assert(q[j] == p[j]);
                    assert(q[j].0@ != k) by {
                        assert(q[i as int].0@ == k);
                    }
                    assert(last_of_key(p, j)) by {
                        assert forall|l: int| j < l < p.len() implies p[l].0@ != p[j].0@ by {
                            assert(p[l] == q[l]);
                        }
                    }
                }
            }
        }
        i = i + 1;
    }
    proof {
        assert(es@.take(es@.len() as int) =~= es@);
    }
    fm
}

/// The message of the error for a YAML document that is not a mapping.
pub open spec fn not_a_mapping_message() -> Seq<char> {
    "YAML front matter is not a valid mapping"@
}

/// `r` is the front matter that the YAML text `raw` gives: the entries of
/// its top-level mapping; a parser's error, or an error where the
/// document is not a mapping.
pub open spec fn yaml_frontmatter_is(r: Result<Frontmatter, Error>, raw: Seq<char>) -> bool {
    match yaml_read(raw) {
        Err(e) => r matches Err(Error::YamlParseError { source }) && *source == e,
        Ok(DocNode::Table(es)) => r matches Ok(fm) && entries_map_is(fm.map(), es@, true),
        Ok(_) => r matches Err(Error::ParseError(m)) && m@ == not_a_mapping_message(),
    }
}

/// `r` is the front matter that the TOML text `raw` gives: the entries of
/// its top-level table, none where the document is not a table, or the
/// parser's error.
pub open spec fn toml_frontmatter_is(r: Result<Frontmatter, Error>, raw: Seq<char>) -> bool {
    match toml_read(raw) {
        Err(e) => r matches Err(Error::TomlParseError(x)) && x == e,
        Ok(DocNode::Table(es)) => r matches Ok(fm) && entries_map_is(fm.map(), es@, false),
        Ok(_) => r matches Ok(fm) && fm.map() == Map::<Seq<char>, Value>::empty(),
    }
}

/// `r` is the front matter that the JSON text `raw` gives: the entries of
/// its top-level object, none where the document is not an object, or
/// the parser's error.
pub open spec fn json_frontmatter_is(r: Result<Frontmatter, Error>, raw: Seq<char>) -> bool {
    match json_read(raw) {
        Err(e) => r matches Err(Error::JsonParseError(x)) && *x == e,
        Ok(DocNode::Table(es)) => r matches Ok(fm) && entries_map_is(fm.map(), es@, false),
        Ok(_) => r matches Ok(fm) && fm.map() == Map::<Seq<char>, Value>::empty(),
    }
}

/// Parses YAML text into front matter.
pub fn parse_yaml(raw: &str) -> (r: Result<Frontmatter, Error>)
    ensures
        yaml_frontmatter_is(r, raw@),
{
    match read_yaml(raw) {
        Err(e) => Err(Error::YamlParseError { source: Arc::new(e) }),
        Ok(DocNode::Table(es)) => Ok(entries_frontmatter(&es, true)),
        Ok(_) => Err(Error::ParseError("YAML front matter is not a valid mapping".to_string())),
    }
}

/// Parses TOML text into front matter.
pub fn parse_toml(raw: &str) -> (r: Result<Frontmatter, Error>)
    ensures
        toml_frontmatter_is(r, raw@),
{
    match read_toml(raw) {
        Err(e) => Err(Error::TomlParseError(e)),
        Ok(DocNode::Table(es)) => Ok(entries_frontmatter(&es, false)),
        Ok(_) => Ok(Frontmatter::new()),
    }
}

/// Parses JSON text into front matter.
pub fn parse_json(raw: &str) -> (r: Result<Frontmatter, Error>)
    ensures
        json_frontmatter_is(r, raw@),
{
    match read_json(raw) {
        Err(e) => Err(Error::JsonParseError(Arc::new(e))),
        Ok(DocNode::Table(es)) => Ok(entries_frontmatter(&es, false)),
        Ok(_) => Ok(Frontmatter::new()),
    }
}

/// A number that a parser reads as an integer `i` of magnitude below 2^52
/// becomes, in every format, the library number with the float value
/// that the parser gives for it, never zero in its place; a number with
/// no integer value becomes its float value as well.
pub proof fn law_integer_keeps_its_value(v: Value, i: i64, bits: u64, yaml: bool)
    requires
        -0x10_0000_0000_0000 < i < 0x10_0000_0000_0000,
        node_value_is(v, DocNode::Number { integer: Some(i), float_bits: Some(bits) }, yaml),
    ensures
        v == Value::Number(bits),
{
}

/// A number with no integer value becomes the library number with the
/// float value that the parser gives, in every format.
pub proof fn law_float_keeps_its_value(v: Value, bits: u64, yaml: bool)
    requires
        node_value_is(v, DocNode::Number { integer: None, float_bits: Some(bits) }, yaml),
    ensures
        v == Value::Number(bits),
{
}

/// In YAML alone, an integer of magnitude 2^52 or more, which a float
/// cannot hold exactly, becomes zero; in TOML and JSON it keeps the float
/// value that the parser gives.
pub proof fn law_large_integer(v: Value, i: i64, bits: u64, yaml: bool)
    requires
        !(-0x10_0000_0000_0000 < i < 0x10_0000_0000_0000),
        node_value_is(v, DocNode::Number { integer: Some(i), float_bits: Some(bits) }, yaml),
    ensures
        yaml ==> v == Value::Number(0),
        !yaml ==> v == Value::Number(bits),
{
}

} // verus!
