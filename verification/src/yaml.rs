//! YAML values as the metadata queries read them, and the reading of a YAML
//! document into them.
use vstd::prelude::*;
use crate::text::{chars_of, contains_folded, contains_ignoring_case};

verus! {

/// A YAML value. A number is held as the text that spells its value. A
/// mapping holds the keys and values of its entries in one list: a key, its
/// value, the next key, its value, and so on. What a tagged value holds is
/// not kept, since nothing reads it.
#[derive(Debug, PartialEq)]
pub enum YamlValue {
    Null,
    Bool(bool),
    Number(String),
    String(String),
    Sequence(Vec<YamlValue>),
    Mapping(Vec<YamlValue>),
    Tagged,
}

/// The mathematical model of a [`YamlValue`].
pub enum YamlNode {
    Null,
    Bool(bool),
    Number(Seq<char>),
    String(Seq<char>),
    Sequence(Seq<YamlNode>),
    Mapping(Seq<YamlNode>),
    Tagged,
}

impl View for YamlValue {
    type V = YamlNode;

    open spec fn view(&self) -> YamlNode
        decreases self,
    {
        match self {
            YamlValue::Null => YamlNode::Null,
            YamlValue::Bool(b) => YamlNode::Bool(*b),
            YamlValue::Number(n) => YamlNode::Number(n@),
            YamlValue::String(s) => YamlNode::String(s@),
            YamlValue::Sequence(items) => YamlNode::Sequence(
                Seq::new(
                    items@.len(),
                    |i: int|
                        if 0 <= i < items@.len() {
                            items@[i].view()
                        } else {
                            YamlNode::Null
                        },
                ),
            ),
            YamlValue::Mapping(items) => YamlNode::Mapping(
                Seq::new(
                    items@.len(),
                    |i: int|
                        if 0 <= i < items@.len() {
                            items@[i].view()
                        } else {
                            YamlNode::Null
                        },
                ),
            ),
            YamlValue::Tagged => YamlNode::Tagged,
        }
    }
}

/// The models of named values, in their order.
pub open spec fn fields_view(fields: Seq<(String, YamlValue)>) -> Seq<(Seq<char>, YamlNode)> {
    fields.map_values(|e: (String, YamlValue)| (e.0@, e.1@))
}

/// The text `true` or `false`.
pub open spec fn bool_text(b: bool) -> Seq<char> {
    if b {
        "true"@
    } else {
        "false"@
    }
}

/// Whether a value holds the pattern: a string, a number or a boolean where
/// the lower-case form of its text holds it, a sequence where one of its
/// items does. No other value holds any pattern.
pub open spec fn node_contains(v: YamlNode, pat: Seq<char>) -> bool
    decreases v,
{
    match v {
        YamlNode::String(s) => contains_folded(s, pat),
        YamlNode::Number(n) => contains_folded(n, pat),
        YamlNode::Bool(b) => contains_folded(bool_text(b), pat),
        YamlNode::Sequence(items) => exists|i: int|
            0 <= i < items.len() && node_contains(#[trigger] items[i], pat),
        _ => false,
    }
}

/// `serde_yaml::Value`, carried through without a look inside.
#[verifier::external_type_specification]
#[verifier::external_body]
pub struct ExYamlDocumentValue(serde_yaml::Value);

/// The fields of the mapping that a YAML document holds at its top: each
/// key's text with its value, in the order of the keys. A key that the
/// mapping holds twice stands once, with the value written last. A document
/// that holds nothing has no fields. `None` where the text is no YAML
/// document, or holds anything but a mapping with scalar keys.
pub uninterp spec fn yaml_mapping(text: Seq<char>) -> Option<Seq<(Seq<char>, YamlNode)>>;

/// Turns a `serde_yaml::Value` into a [`YamlValue`], variant by variant; a
/// number becomes the text that its `Display` writes, a mapping the list of
/// its keys and values.
#[verifier::external_body]
fn convert_value(v: &serde_yaml::Value) -> (r: YamlValue) {
    match v {
        serde_yaml::Value::Null => YamlValue::Null,
        serde_yaml::Value::Bool(b) => YamlValue::Bool(*b),
        serde_yaml::Value::Number(n) => YamlValue::Number(n.to_string()),
        serde_yaml::Value::String(s) => YamlValue::String(s.clone()),
        serde_yaml::Value::Sequence(s) => YamlValue::Sequence(s.iter().map(convert_value).collect()),
        serde_yaml::Value::Mapping(m) => YamlValue::Mapping(
            m.iter().flat_map(|(k, v)| [convert_value(k), convert_value(v)]).collect(),
        ),
        serde_yaml::Value::Tagged(_) => YamlValue::Tagged,
    }
}

/// Calls `serde_yaml::from_str` for a `BTreeMap` from `String` to
/// `serde_yaml::Value`. Trusted: whether the text is accepted, and the fields
/// read from it, depend on the text alone. Nothing is claimed of which texts
/// are accepted, nor of what the fields are.
#[verifier::external_body]
pub(crate) fn parse_mapping(text: &Vec<char>) -> (r: Option<Vec<(String, YamlValue)>>)
    ensures
        match r {
            Some(fields) => yaml_mapping(text@) == Some(fields_view(fields@)),
            None => yaml_mapping(text@) is None,
        },
{
    let s: String = text.iter().collect();
    match serde_yaml::from_str::<std::collections::BTreeMap<String, serde_yaml::Value>>(&s) {
        Ok(m) => Some(m.iter().map(|(k, v)| (k.clone(), convert_value(v))).collect()),
        Err(_) => None,
    }
}

/// A copy of a value.
pub fn duplicate_value(value: &YamlValue) -> (r: YamlValue)
    ensures
        r@ == value@,
    decreases value,
{
    match value {
        YamlValue::Null => YamlValue::Null,
        YamlValue::Bool(b) => YamlValue::Bool(*b),
        YamlValue::Number(n) => YamlValue::Number(n.clone()),
        YamlValue::String(s) => YamlValue::String(s.clone()),
        YamlValue::Sequence(items) => {
            let n = items.len();
            let mut out: Vec<YamlValue> = Vec::new();
            let mut i: usize = 0;
            while i < n
                invariant
                    i <= n,
                    n == items.len(),
                    out.len() == i,
                    *value == YamlValue::Sequence(*items),
                    forall|k: int| 0 <= k < i ==> (#[trigger] out@[k])@ == items@[k]@,
                decreases n - i,
            {
                assert(value->Sequence_0 == *items);
                assert(decreases_to!(*items => items[i as int]));
                let item = duplicate_value(&items[i]);
                out.push(item);
                i += 1;
            }
            let r = YamlValue::Sequence(out);
            assert(r@->Sequence_0 =~= value@->Sequence_0);
            r
        },
        YamlValue::Mapping(items) => {
            let n = items.len();
            let mut out: Vec<YamlValue> = Vec::new();
            let mut i: usize = 0;
            while i < n
                invariant
                    i <= n,
                    n == items.len(),
                    out.len() == i,
                    *value == YamlValue::Mapping(*items),
                    forall|k: int| 0 <= k < i ==> (#[trigger] out@[k])@ == items@[k]@,
                decreases n - i,
            {
                assert(value->Mapping_0 == *items);
                assert(decreases_to!(*items => items[i as int]));
                let item = duplicate_value(&items[i]);
                out.push(item);
                i += 1;
            }
            let r = YamlValue::Mapping(out);
            assert(r@->Mapping_0 =~= value@->Mapping_0);
            r
        },
        YamlValue::Tagged => YamlValue::Tagged,
    }
}

/// Whether a value is tagged, or holds a tagged value: as an item of a
/// sequence, or as a key or a value of a mapping, at any depth.
pub open spec fn holds_tag(v: YamlNode) -> bool
    decreases v,
{
    match v {
        YamlNode::Tagged => true,
        YamlNode::Sequence(items) => exists|i: int|
            0 <= i < items.len() && holds_tag(#[trigger] items[i]),
        YamlNode::Mapping(items) => exists|i: int|
            0 <= i < items.len() && holds_tag(#[trigger] items[i]),
        _ => false,
    }
}

/// A sequence or a mapping holds a tagged value where one of its items does.
proof fn lemma_item_holds_tag(items: Seq<YamlNode>, i: int)
    requires
        0 <= i < items.len(),
        holds_tag(items[i]),
    ensures
        holds_tag(YamlNode::Sequence(items)),
        holds_tag(YamlNode::Mapping(items)),
{
    assert(YamlNode::Sequence(items)->Sequence_0 == items);
    assert(YamlNode::Mapping(items)->Mapping_0 == items);
}

/// Whether a value is tagged, or holds a tagged value.
pub fn value_holds_tag(value: &YamlValue) -> (r: bool)
    ensures
        r == holds_tag(value@),
    decreases value,
{
    match value {
        YamlValue::Tagged => true,
        YamlValue::Sequence(items) => {
            let n = items.len();
            let mut i: usize = 0;
            let ghost nodes = value@->Sequence_0;
            while i < n
                invariant
                    i <= n,
                    n == items.len(),
                    *value == YamlValue::Sequence(*items),
                    value@ == YamlNode::Sequence(nodes),
                    nodes.len() == n,
                    forall|k: int| 0 <= k < n ==> nodes[k] == (#[trigger] items@[k])@,
                    forall|k: int| 0 <= k < i ==> !holds_tag(#[trigger] nodes[k]),
                decreases n - i,
            {
                assert(value->Sequence_0 == *items);
                assert(decreases_to!(*items => items[i as int]));
                if value_holds_tag(&items[i]) {
                    assert(nodes[i as int] == items@[i as int]@);
                    proof {
                        lemma_item_holds_tag(nodes, i as int);
                    }
                    return true;
                }
                i += 1;
            }
            false
        },
        YamlValue::Mapping(items) => {
            let n = items.len();
            let mut i: usize = 0;
            let ghost nodes = value@->Mapping_0;
            while i < n
                invariant
                    i <= n,
                    n == items.len(),
                    *value == YamlValue::Mapping(*items),
                    value@ == YamlNode::Mapping(nodes),
                    nodes.len() == n,
                    forall|k: int| 0 <= k < n ==> nodes[k] == (#[trigger] items@[k])@,
                    forall|k: int| 0 <= k < i ==> !holds_tag(#[trigger] nodes[k]),
                decreases n - i,
            {
                assert(value->Mapping_0 == *items);
                assert(decreases_to!(*items => items[i as int]));
                if value_holds_tag(&items[i]) {
                    assert(nodes[i as int] == items@[i as int]@);
                    proof {
                        lemma_item_holds_tag(nodes, i as int);
                    }
                    return true;
                }
                i += 1;
            }
            false
        },
        _ => false,
    }
}

/// A sequence holds what one of its items holds.
proof fn lemma_sequence_contains(items: Seq<YamlNode>, i: int, pat: Seq<char>)
    requires
        0 <= i < items.len(),
        node_contains(items[i], pat),
    ensures
        node_contains(YamlNode::Sequence(items), pat),
{
    assert(YamlNode::Sequence(items)->Sequence_0 == items);
}

/// Whether a value holds the pattern, which is taken as it is.
pub fn value_contains(value: &YamlValue, pat: &Vec<char>) -> (r: bool)
    ensures
        r == node_contains(value@, pat@),
    decreases value,
{
    match value {
        YamlValue::String(s) => {
            let text = chars_of(s.as_str());
            contains_ignoring_case(&text, pat)
        },
        YamlValue::Number(n) => {
            let text = chars_of(n.as_str());
            contains_ignoring_case(&text, pat)
        },
        YamlValue::Bool(b) => {
            let text = if *b {
                chars_of("true")
            } else {
                chars_of("false")
            };
            contains_ignoring_case(&text, pat)
        },
        YamlValue::Sequence(items) => {
            let n = items.len();
            let mut i: usize = 0;
            let ghost nodes = value@->Sequence_0;
            while i < n
                invariant
                    i <= n,
                    n == items.len(),
                    *value == YamlValue::Sequence(*items),
                    value@ == YamlNode::Sequence(nodes),
                    nodes.len() == n,
                    forall|k: int| 0 <= k < n ==> nodes[k] == (#[trigger] items@[k])@,
                    forall|k: int| 0 <= k < i ==> !node_contains(#[trigger] nodes[k], pat@),
                decreases n - i,
            {
                assert(decreases_to!(*items => items[i as int]));
                if value_contains(&items[i], pat) {
                    assert(nodes[i as int] == items@[i as int]@);
                    assert(node_contains(nodes[i as int], pat@));
                    proof {
                        lemma_sequence_contains(nodes, i as int, pat@);
                    }
                    return true;
                }
                i += 1;
            }
            false
        },
        _ => false,
    }
}

/// Whether a value holds the pattern: in a string, a number or a boolean, a
/// case-insensitive search of its text; in a sequence, of each item's.
pub fn yaml_value_contains(value: &YamlValue, pattern_lower: &str) -> (r: bool)
    ensures
        r == node_contains(value@, pattern_lower@),
{
    let pat = chars_of(pattern_lower);
    value_contains(value, &pat)
}

} // verus!
