//! YAML documents as plain data, read with `serde_yaml`.

use serde_yaml::Value;
use vstd::prelude::*;
use crate::text::{same_text, texts};

verus! {

/// `serde_yaml::Value`, a parsed YAML document. It is only passed on.
#[verifier::external_type_specification]
#[verifier::external_body]
pub struct ExYamlValue(serde_yaml::Value);

/// A YAML value as plain data.
///
/// A number is kept as the text that `serde_yaml` prints for it; the entries
/// of a mapping stand in the order of the document.
#[derive(Debug, PartialEq, Eq)]
pub enum YamlNode {
    Null,
    Bool(bool),
    Number(String),
    Text(String),
    Sequence(Vec<YamlNode>),
    Mapping(Vec<(YamlNode, YamlNode)>),
    Tagged(String, Box<YamlNode>),
}

/// What a `YamlNode` holds, as mathematical values.
pub enum YamlTree {
    Null,
    Bool(bool),
    Number(Seq<char>),
    Text(Seq<char>),
    Sequence(Seq<YamlTree>),
    Mapping(Seq<(YamlTree, YamlTree)>),
    Tagged(Seq<char>, Box<YamlTree>),
}

impl View for YamlNode {
    type V = YamlTree;

    open spec fn view(&self) -> YamlTree
        decreases self,
    {
        match self {
            YamlNode::Null => YamlTree::Null,
            YamlNode::Bool(b) => YamlTree::Bool(*b),
            YamlNode::Number(n) => YamlTree::Number(n@),
            YamlNode::Text(s) => YamlTree::Text(s@),
            YamlNode::Sequence(items) => YamlTree::Sequence(
                Seq::new(
                    items@.len(),
                    |i: int|
                        if 0 <= i < items@.len() {
                            items@[i]@
                        } else {
                            YamlTree::Null
                        },
                ),
            ),
            YamlNode::Mapping(entries) => YamlTree::Mapping(
                Seq::new(
                    entries@.len(),
                    |i: int|
                        if 0 <= i < entries@.len() {
                            (entries@[i].0@, entries@[i].1@)
                        } else {
                            (YamlTree::Null, YamlTree::Null)
                        },
                ),
            ),
            YamlNode::Tagged(tag, inner) => YamlTree::Tagged(tag@, Box::new((**inner)@)),
        }
    }
}

/// What `serde_yaml::from_str` makes of a text: the document it holds, or the
/// message of the error that the text is refused with.
pub uninterp spec fn yaml_document(text: Seq<char>) -> Result<YamlTree, Seq<char>>;

/// Rewrites a `serde_yaml::Value` as a `YamlNode`, variant by variant.
/// Nothing is claimed of the result.
#[verifier::external_body]
fn node_of(value: Value) -> YamlNode {
    match value {
        Value::Null => YamlNode::Null,
        Value::Bool(b) => YamlNode::Bool(b),
        Value::Number(n) => YamlNode::Number(n.to_string()),
        Value::String(s) => YamlNode::Text(s),
        Value::Sequence(items) => YamlNode::Sequence(items.into_iter().map(node_of).collect()),
        Value::Mapping(entries) => YamlNode::Mapping(
            entries.into_iter().map(|(k, v)| (node_of(k), node_of(v))).collect(),
        ),
        Value::Tagged(t) => YamlNode::Tagged(t.tag.to_string(), Box::new(node_of(t.value))),
    }
}

/// Parses a text with `serde_yaml::from_str`. The contract claims only that
/// the outcome is the one that this parser gives for this text, every time:
/// the document as plain data, or the message of the parser's error.
#[verifier::external_body]
pub(crate) fn load_yaml(text: &str) -> (r: Result<YamlNode, String>)
    ensures
        match r {
            Ok(node) => yaml_document(text@) == Ok::<YamlTree, Seq<char>>(node@),
            Err(message) => yaml_document(text@) == Err::<YamlTree, Seq<char>>(message@),
        },
{
    match serde_yaml::from_str::<Value>(text) {
        Ok(value) => Ok(node_of(value)),
        Err(e) => Err(e.to_string()),
    }
}

/// The texts of `items` when every one of them is a string.
pub open spec fn text_items(items: Seq<YamlTree>) -> Option<Seq<Seq<char>>> {
    if forall|i: int| 0 <= i < items.len() ==> (#[trigger] items[i]) is Text {
        Some(Seq::new(items.len(), |i: int| items[i]->Text_0))
    } else {
        None
    }
}

/// The position of the first entry of a mapping at or after `from` whose key
/// is the string `key`, or the number of entries.
pub open spec fn entry_at(entries: Seq<(YamlTree, YamlTree)>, key: Seq<char>, from: int) -> int
    decreases entries.len() - from,
{
    if from < 0 || from >= entries.len() {
        entries.len() as int
    } else if entries[from].0 == YamlTree::Text(key) {
        from
    } else {
        entry_at(entries, key, from + 1)
    }
}

/// The value that a mapping gives for the string `key`, if it has the key.
pub open spec fn field(entries: Seq<(YamlTree, YamlTree)>, key: Seq<char>) -> Option<YamlTree> {
    let at = entry_at(entries, key, 0);
    if at < entries.len() {
        Some(entries[at].1)
    } else {
        None
    }
}

/// A field read as a list of strings: a missing field and a null give no
/// list, a sequence of strings gives its items, anything else is malformed.
pub open spec fn string_list(value: Option<YamlTree>) -> Result<Option<Seq<Seq<char>>>, ()> {
    match value {
        None => Ok(None),
        Some(YamlTree::Null) => Ok(None),
        Some(YamlTree::Sequence(items)) => match text_items(items) {
            Some(list) => Ok(Some(list)),
            None => Err(()),
        },
        Some(_) => Err(()),
    }
}

/// The tree behind an optional reference to a node.
pub open spec fn opt_tree(value: Option<&YamlNode>) -> Option<YamlTree> {
    match value {
        Some(node) => Some(node@),
        None => None,
    }
}

/// The entries of a mapping, where the node is one.
pub open spec fn entries_of(tree: YamlTree) -> Seq<(YamlTree, YamlTree)> {
    match tree {
        YamlTree::Mapping(entries) => entries,
        _ => Seq::empty(),
    }
}

/// The value of the first entry of a mapping whose key is the string `key`.
pub fn lookup<'a>(entries: &'a Vec<(YamlNode, YamlNode)>, key: &str) -> (found: Option<
    &'a YamlNode,
>)
    ensures
        opt_tree(found) == field(entries_of(YamlNode::Mapping(*entries)@), key@),
{
    let ghost trees = entries_of(YamlNode::Mapping(*entries)@);
    let mut i: usize = 0;
    proof {
        reveal_with_fuel(<YamlNode as View>::view, 2);
    }
    while i < entries.len()
        invariant
            i <= entries.len(),
            trees == entries_of(YamlNode::Mapping(*entries)@),
            trees.len() == entries.len(),
            forall|k: int|
                0 <= k < entries.len() ==> #[trigger] trees[k] == (entries@[k].0@, entries@[k].1@),
            entry_at(trees, key@, 0) == entry_at(trees, key@, i as int),
        decreases entries.len() - i,
    {
        match &entries[i].0 {
            YamlNode::Text(name) => {
                if same_text(name.as_str(), key) {
                    return Some(&entries[i].1);
                }
            },
            _ => {},
        }
        i += 1;
    }
    None
}

/// The strings of `items`, when every item is a string.
pub fn read_text_items(items: &Vec<YamlNode>) -> (r: Option<Vec<String>>)
    ensures
        match r {
            Some(list) => text_items(YamlNode::Sequence(*items)@->Sequence_0) == Some(texts(list@)),
            None => text_items(YamlNode::Sequence(*items)@->Sequence_0) is None,
        },
{
    let ghost trees = YamlNode::Sequence(*items)@->Sequence_0;
    let mut list: Vec<String> = Vec::new();
    let mut i: usize = 0;
    proof {
        reveal_with_fuel(<YamlNode as View>::view, 2);
    }
    while i < items.len()
        invariant
            i <= items.len(),
            list.len() == i,
            trees == YamlNode::Sequence(*items)@->Sequence_0,
            trees.len() == items.len(),
            forall|k: int| 0 <= k < items.len() ==> #[trigger] trees[k] == items@[k]@,
            forall|k: int| 0 <= k < i ==> (#[trigger] trees[k]) is Text,
            forall|k: int| 0 <= k < i ==> (#[trigger] list@[k])@ == trees[k]->Text_0,
        decreases items.len() - i,
    {
        match &items[i] {
            YamlNode::Text(s) => {
                list.push(s.clone());
            },
            _ => {
                assert(!(trees[i as int] is Text));
                return None;
            },
        }
        i += 1;
    }
    assert(texts(list@) =~= text_items(trees)->Some_0);
    Some(list)
}

/// Reads an optional field as a list of strings.
pub fn read_string_list(value: Option<&YamlNode>) -> (r: Result<Option<Vec<String>>, ()>)
    ensures
        match r {
            Ok(Some(list)) => string_list(opt_tree(value)) == Ok::<_, ()>(Some(texts(list@))),
            Ok(None) => string_list(opt_tree(value)) == Ok::<Option<Seq<Seq<char>>>, ()>(None),
            Err(_) => string_list(opt_tree(value)) is Err,
        },
{
    match value {
        None => Ok(None),
        Some(YamlNode::Null) => Ok(None),
        Some(YamlNode::Sequence(items)) => match read_text_items(items) {
            Some(list) => Ok(Some(list)),
            None => Err(()),
        },
        Some(_) => Err(()),
    }
}

} // verus!
