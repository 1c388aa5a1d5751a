//! A YAML document model and typed accessors with path-rich, fail-closed
//! diagnostics.
use crate::text::{cat, cat3, decimal, decimal_string, to_string};
use vstd::prelude::*;
use yaml_rust2::{Yaml, YamlLoader};

verus! {

#[verifier::external_type_specification]
#[verifier::external_body]
pub struct ExYaml(Yaml);

/// One node of a loaded YAML document; a mapping keeps its entries in
/// document order.
#[derive(Debug)]
pub enum YamlNode {
    Real(String),
    Integer(i64),
    Str(String),
    Boolean(bool),
    Array(Vec<YamlNode>),
    Hash(Vec<(YamlNode, YamlNode)>),
    Alias(usize),
    Null,
    BadValue,
}

/// The documents that `YamlLoader::load_from_str` reads from a text, or
/// `None` where it reports a scan error.
pub uninterp spec fn yaml_documents(text: Seq<char>) -> Option<Seq<YamlNode>>;

/// Converts one node loaded by `yaml_rust2` into the library's model, variant
/// for variant and entry for entry. It has no contract of its own: only
/// `load_yaml` calls it, and what `load_yaml` returns is what the name
/// `yaml_documents` stands for.
#[verifier::external_body]
fn node_of(y: &Yaml) -> YamlNode {
    match y {
        Yaml::Real(s) => YamlNode::Real(s.clone()),
        Yaml::Integer(i) => YamlNode::Integer(*i),
        Yaml::String(s) => YamlNode::Str(s.clone()),
        Yaml::Boolean(b) => YamlNode::Boolean(*b),
        Yaml::Array(items) => YamlNode::Array(items.iter().map(node_of).collect()),
        Yaml::Hash(h) => YamlNode::Hash(h.iter().map(|(k, v)| (node_of(k), node_of(v))).collect()),
        Yaml::Alias(a) => YamlNode::Alias(*a),
        Yaml::Null => YamlNode::Null,
        Yaml::BadValue => YamlNode::BadValue,
    }
}

/// Loads the YAML documents of a text with `YamlLoader::load_from_str`.
/// Claimed: the result is `yaml_documents` of the text, a function of the
/// text alone; nothing is claimed of what the documents hold.
#[verifier::external_body]
pub(crate) fn load_yaml(text: &str) -> (r: Option<Vec<YamlNode>>)
    ensures
        r is Some <==> yaml_documents(text@) is Some,
        r matches Some(d) ==> yaml_documents(text@) == Some(d@),
{
    match YamlLoader::load_from_str(text) {
        Ok(docs) => Some(docs.iter().map(node_of).collect()),
        Err(_) => None,
    }
}

/// A mapping key that is the string `name`.
pub open spec fn key_is(k: YamlNode, name: Seq<char>) -> bool {
    k matches YamlNode::Str(s) && s@ == name
}

pub open spec fn has_key(h: Seq<(YamlNode, YamlNode)>, name: Seq<char>) -> bool {
    exists|i: int| 0 <= i < h.len() && key_is(#[trigger] h[i].0, name)
}

/// The position of the entry keyed `name`.
pub open spec fn key_index(h: Seq<(YamlNode, YamlNode)>, name: Seq<char>) -> int {
    choose|i: int| 0 <= i < h.len() && key_is(#[trigger] h[i].0, name) && forall|j: int| 0 <= j < i ==> !key_is(#[trigger] h[j].0, name)
}

/// The value keyed `name`, where there is one.
pub open spec fn lookup(h: Seq<(YamlNode, YamlNode)>, name: Seq<char>) -> Option<YamlNode> {
    if has_key(h, name) {
        Some(h[key_index(h, name)].1)
    } else {
        None
    }
}

pub open spec fn mapping_of(n: YamlNode) -> Option<Seq<(YamlNode, YamlNode)>> {
    match n {
        YamlNode::Hash(h) => Some(h@),
        _ => None,
    }
}

pub open spec fn sequence_of(n: YamlNode) -> Option<Seq<YamlNode>> {
    match n {
        YamlNode::Array(a) => Some(a@),
        _ => None,
    }
}

pub open spec fn string_of(n: YamlNode) -> Option<Seq<char>> {
    match n {
        YamlNode::Str(s) => Some(s@),
        _ => None,
    }
}

/// A positive integer scalar.
pub open spec fn positive_of(n: YamlNode) -> Option<u64> {
    match n {
        YamlNode::Integer(i) => if i > 0 { Some(i as u64) } else { None },
        _ => None,
    }
}

/// The text of a string or integer scalar.
pub open spec fn scalar_of(n: YamlNode) -> Option<Seq<char>> {
    match n {
        YamlNode::Str(s) => Some(s@),
        YamlNode::Integer(i) => Some(
            if i < 0 {
                seq!['-'] + decimal((-i) as nat)
            } else {
                decimal(i as nat)
            },
        ),
        _ => None,
    }
}

/// The position of the entry keyed `name`, where there is one.
pub fn find_key(h: &Vec<(YamlNode, YamlNode)>, name: &str) -> (r: Option<usize>)
    ensures
        match r {
            Some(i) => has_key(h@, name@) && i == key_index(h@, name@) && i < h@.len(),
            None => !has_key(h@, name@),
        },
{
    let mut i: usize = 0;
    while i < h.len()
        invariant
            i <= h.len(),
            forall|j: int| 0 <= j < i ==> !key_is(#[trigger] h@[j].0, name@),
        decreases h.len() - i,
    {
        let hit = match &h[i].0 {
            YamlNode::Str(s) => crate::text::eq_str(s.as_str(), name),
            _ => false,
        };
        if hit {
            assert(key_is(h@[i as int].0, name@));
            let ghost c = key_index(h@, name@);
            assert(0 <= c < h@.len() && key_is(h@[c].0, name@) && forall|j: int| 0 <= j < c ==> !key_is(#[trigger] h@[j].0, name@));
            proof {
                if c < i {
                    assert(!key_is(h@[c].0, name@));
                }
                if c > i {
                    assert(!key_is(h@[i as int].0, name@));
                }
            }
            return Some(i);
        }
        i += 1;
    }
    None
}

/// The value keyed `name`, where there is one.
pub fn optional<'a>(h: &'a Vec<(YamlNode, YamlNode)>, name: &str) -> (r: Option<&'a YamlNode>)
    ensures
        r is Some <==> has_key(h@, name@),
        r matches Some(v) ==> lookup(h@, name@) == Some(*v),
{
    match find_key(h, name) {
        Some(i) => Some(&h[i].1),
        None => None,
    }
}

/// The value keyed `name`; its absence is an error naming `path`.
pub fn required<'a>(h: &'a Vec<(YamlNode, YamlNode)>, name: &str, path: &str) -> (r: Result<&'a YamlNode, String>)
    ensures
        r is Ok <==> has_key(h@, name@),
        r matches Ok(v) ==> lookup(h@, name@) == Some(*v),
{
    match optional(h, name) {
        Some(v) => Ok(v),
        None => {
            let head = cat3("acceptance producers: ", path, " is missing ");
            Err(cat(head.as_str(), name))
        },
    }
}

pub fn as_mapping<'a>(n: &'a YamlNode, path: &str) -> (r: Result<&'a Vec<(YamlNode, YamlNode)>, String>)
    ensures
        r is Ok <==> mapping_of(*n) is Some,
        r matches Ok(h) ==> mapping_of(*n) == Some(h@),
{
    match n {
        YamlNode::Hash(h) => Ok(h),
        _ => Err(cat3("acceptance producers: ", path, " must be a mapping")),
    }
}

pub fn as_sequence<'a>(n: &'a YamlNode, path: &str) -> (r: Result<&'a Vec<YamlNode>, String>)
    ensures
        r is Ok <==> sequence_of(*n) is Some,
        r matches Ok(a) ==> sequence_of(*n) == Some(a@),
{
    match n {
        YamlNode::Array(a) => Ok(a),
        _ => Err(cat3("acceptance producers: ", path, " must be a sequence")),
    }
}

pub fn as_string<'a>(n: &'a YamlNode, path: &str) -> (r: Result<&'a str, String>)
    ensures
        r is Ok <==> string_of(*n) is Some,
        r matches Ok(s) ==> string_of(*n) == Some(s@),
{
    match n {
        YamlNode::Str(s) => Ok(s.as_str()),
        _ => Err(cat3("acceptance producers: ", path, " must be a string")),
    }
}

pub fn as_u64(n: &YamlNode, path: &str) -> (r: Result<u64, String>)
    ensures
        r is Ok <==> positive_of(*n) is Some,
        r matches Ok(v) ==> positive_of(*n) == Some(v),
{
    match n {
        YamlNode::Integer(i) => {
            if *i > 0 {
                Ok(*i as u64)
            } else {
                Err(cat3("acceptance producers: ", path, " must be a positive integer"))
            }
        },
        _ => Err(cat3("acceptance producers: ", path, " must be a positive integer")),
    }
}

/// The text of a setup action input, which may be written as a string or an
/// integer.
pub fn scalar_text(n: &YamlNode) -> (r: Result<String, String>)
    ensures
        r is Ok <==> scalar_of(*n) is Some,
        r matches Ok(s) ==> scalar_of(*n) == Some(s@),
{
    match n {
        YamlNode::Str(s) => Ok(to_string(s.as_str())),
        YamlNode::Integer(i) => {
            if *i < 0 {
                let magnitude: u128 = (0i128 - (*i as i128)) as u128;
                proof {
                    reveal_strlit("-");
                }
                assert("-"@ =~= seq!['-']);
                assert(magnitude as nat == (-*i) as nat);
                Ok(cat("-", decimal_string(magnitude).as_str()))
            } else {
                Ok(decimal_string(*i as u128))
            }
        },
        _ => Err(to_string("acceptance producers: setup action input must be a string or integer")),
    }
}

} // verus!
