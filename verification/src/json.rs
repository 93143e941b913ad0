//! JSON documents as trees of plain values, parsed by `serde_json`.

use vstd::prelude::*;

use crate::text::same_text;

verus! {

/// A JSON document, as a mathematical tree. Numbers are kept as the text they
/// are shown as, object entries in document order.
pub ghost enum JsonTree {
    Null,
    Bool(bool),
    Number(Seq<char>),
    Text(Seq<char>),
    List(Seq<JsonTree>),
    Object(Seq<(Seq<char>, JsonTree)>),
}

/// A JSON document.
#[derive(Debug)]
pub enum Json {
    Null,
    Bool(bool),
    /// The number as it is shown.
    Number(String),
    Text(String),
    List(Vec<Json>),
    Object(Vec<(String, Json)>),
}

impl Json {
    /// The tree that the document is.
    pub open spec fn tree(self) -> JsonTree
        decreases self,
    {
        match self {
            Json::Null => JsonTree::Null,
            Json::Bool(b) => JsonTree::Bool(b),
            Json::Number(n) => JsonTree::Number(n@),
            Json::Text(s) => JsonTree::Text(s@),
            Json::List(items) => JsonTree::List(
                Seq::new(
                    items@.len(),
                    |i: int|
                        if 0 <= i < items@.len() {
                            items@[i].tree()
                        } else {
                            JsonTree::Null
                        },
                ),
            ),
            Json::Object(entries) => JsonTree::Object(
                Seq::new(
                    entries@.len(),
                    |i: int|
                        if 0 <= i < entries@.len() {
                            (entries@[i].0@, entries@[i].1.tree())
                        } else {
                            (Seq::empty(), JsonTree::Null)
                        },
                ),
            ),
        }
    }
}

impl View for Json {
    type V = JsonTree;

    open spec fn view(&self) -> JsonTree {
        self.tree()
    }
}

/// What a tree holds at its top level that is neither a list nor an object, as
/// it is shown: texts without quotes, the rest as JSON writes it.
pub open spec fn leaf_text(leaf: JsonTree) -> Seq<char> {
    match leaf {
        JsonTree::Null => "null"@,
        JsonTree::Bool(true) => "true"@,
        JsonTree::Bool(false) => "false"@,
        JsonTree::Number(n) => n,
        JsonTree::Text(s) => s,
        _ => Seq::empty(),
    }
}

/// The index of the entry with this key from `from` on, or the number of
/// entries where there is none.
pub open spec fn entry_at(entries: Seq<(Seq<char>, JsonTree)>, key: Seq<char>, from: int) -> int
    decreases entries.len() - from,
{
    if from >= entries.len() {
        entries.len() as int
    } else if entries[from].0 == key {
        from
    } else {
        entry_at(entries, key, from + 1)
    }
}

impl Json {
    /// The text of a leaf: texts without quotes, the rest as JSON writes it.
    pub fn leaf(&self) -> (shown: String)
        ensures
            shown@ == leaf_text(self@),
    {
        match self {
            Json::Null => "null".to_owned(),
            Json::Bool(b) => if *b {
                "true".to_owned()
            } else {
                "false".to_owned()
            },
            Json::Number(n) => n.clone(),
            Json::Text(s) => s.clone(),
            _ => String::new(),
        }
    }

    /// The value under a key of an object. Nothing for another key or for
    /// anything but an object.
    pub fn get(&self, key: &str) -> (found: Option<&Json>)
        ensures
            match self@ {
                JsonTree::Object(entries) => {
                    let at = entry_at(entries, key@, 0);
                    match found {
                        Some(value) => at < entries.len() && value@ == entries[at].1,
                        None => at == entries.len(),
                    }
                },
                _ => found is None,
            },
    {
        if let Json::Object(entries) = self {
            let ghost all = self@->Object_0;
            let mut at: usize = 0;
            while at < entries.len()
                invariant
                    at <= entries@.len(),
                    self@ == JsonTree::Object(all),
                    *self == Json::Object(*entries),
                    all.len() == entries@.len(),
                    forall|i: int| 0 <= i < entries@.len() ==> all[i] == (
                        (#[trigger] entries@[i]).0@,
                        entries@[i].1@,
                    ),
                    entry_at(all, key@, 0) == entry_at(all, key@, at as int),
                decreases entries@.len() - at,
            {
                if same_text(entries[at].0.as_str(), key) {
                    return Some(&entries[at].1);
                }
                at = at + 1;
            }
        }
        None
    }
}

// ---------------------------------------------------------------------------
// Parsing
// ---------------------------------------------------------------------------

/// Declares `serde_json::Value`, whose variants are told apart in
/// [`open_value`] only.
#[verifier::external_type_specification]
#[verifier::external_body]
pub struct ExValue(serde_json::Value);

/// What a `serde_json::Value` holds.
pub uninterp spec fn tree_of(value: serde_json::Value) -> JsonTree;

/// What a text is as a JSON document, where it is one.
pub uninterp spec fn parsed_json(text: Seq<char>) -> Option<JsonTree>;

/// Calls `serde_json::from_str`. Which texts it accepts and what they hold is
/// only named, as a function of the text.
#[verifier::external_body]
fn parse_value(text: &str) -> (value: Option<serde_json::Value>)
    ensures
        parsed_json(text@) == (match value {
            Some(value) => Some(tree_of(value)),
            None => None,
        }),
{
    serde_json::from_str::<serde_json::Value>(text).ok()
}

/// The top level of a `serde_json::Value`.
enum Layer {
    Null,
    Bool(bool),
    Number(String),
    Text(String),
    List(Vec<serde_json::Value>),
    Object(Vec<(String, serde_json::Value)>),
}

impl Layer {
    /// The tree whose top level this is.
    spec fn tree(self) -> JsonTree {
        match self {
            Layer::Null => JsonTree::Null,
            Layer::Bool(b) => JsonTree::Bool(b),
            Layer::Number(n) => JsonTree::Number(n@),
            Layer::Text(s) => JsonTree::Text(s@),
            Layer::List(items) => JsonTree::List(
                items@.map_values(|item: serde_json::Value| tree_of(item)),
            ),
            Layer::Object(entries) => JsonTree::Object(
                entries@.map_values(|entry: (String, serde_json::Value)|
                    (entry.0@, tree_of(entry.1))),
            ),
        }
    }
}

/// Tells the variants of a `serde_json::Value` apart. The tree that it holds is
/// named, so this says what the name means one level down: each variant is the
/// tree of that kind over what its parts hold. A number is taken as the text
/// that `serde_json::Number` shows, an object as its entries in the order in
/// which `serde_json::Map` walks them.
#[verifier::external_body]
fn open_value(value: serde_json::Value) -> (layer: Layer)
    ensures
        layer.tree() == tree_of(value),
{
    match value {
        serde_json::Value::Null => Layer::Null,
        serde_json::Value::Bool(b) => Layer::Bool(b),
        serde_json::Value::Number(n) => Layer::Number(n.to_string()),
        serde_json::Value::String(s) => Layer::Text(s),
        serde_json::Value::Array(items) => Layer::List(items),
        serde_json::Value::Object(map) => Layer::Object(map.into_iter().collect()),
    }
}

#[verifier::loop_isolation(false)]
fn json_of(value: serde_json::Value) -> (json: Json)
    ensures
        json@ == tree_of(value),
    decreases tree_of(value),
{
    let ghost tree = tree_of(value);
    match open_value(value) {
        Layer::Null => Json::Null,
        Layer::Bool(b) => Json::Bool(b),
        Layer::Number(n) => Json::Number(n),
        Layer::Text(s) => Json::Text(s),
        Layer::List(items) => {
            let ghost all = items@;
            let ghost trees = all.map_values(|item: serde_json::Value| tree_of(item));
            let mut list: Vec<Json> = Vec::new();
            for item in it: items
                invariant
                    it.seq() == all,
                    tree == JsonTree::List(trees),
                    trees == all.map_values(|item: serde_json::Value| tree_of(item)),
                    list@.len() == it.index(),
                    forall|i: int| 0 <= i < list@.len() ==> (#[trigger] list@[i])@ == trees[i],
            {
                assert(decreases_to!(tree => tree->List_0[it.index() as int]));
                list.push(json_of(item));
            }
            let json = Json::List(list);
            assert(json@->List_0 =~= trees);
            json
        },
        Layer::Object(entries) => {
            let ghost all = entries@;
            let ghost trees = all.map_values(|entry: (String, serde_json::Value)|
                (entry.0@, tree_of(entry.1)));
            let mut list: Vec<(String, Json)> = Vec::new();
            for entry in it: entries
                invariant
                    it.seq() == all,
                    tree == JsonTree::Object(trees),
                    trees == all.map_values(|entry: (String, serde_json::Value)|
                        (entry.0@, tree_of(entry.1))),
                    list@.len() == it.index(),
                    forall|i: int|
                        0 <= i < list@.len() ==> trees[i] == (
                            (#[trigger] list@[i]).0@,
                            list@[i].1@,
                        ),
            {
                let (key, item) = entry;
                assert(decreases_to!(tree => tree->Object_0[it.index() as int].1));
                list.push((key, json_of(item)));
            }
            let json = Json::Object(list);
            assert(json@->Object_0 =~= trees);
            json
        },
    }
}

/// A text as a JSON document, where it is one.
pub fn parse_json(text: &str) -> (json: Option<Json>)
    ensures
        parsed_json(text@) == (match json {
            Some(json) => Some(json@),
            None => None,
        }),
{
    match parse_value(text) {
        Some(value) => Some(json_of(value)),
        None => None,
    }
}

} // verus!
