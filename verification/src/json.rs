//! JSON documents as the server sends them: parsed by `serde_json`, held as plain values.
use vstd::prelude::*;

use crate::text::same_str;

verus! {

/// A parsed document of `serde_json`, known by `tree_of` alone.
#[verifier::external_type_specification]
#[verifier::external_body]
pub struct ExValue(serde_json::Value);

/// What a JSON document says, as far as anything here reads it.
#[verifier::ext_equal]
pub enum JsonTree {
    Null,
    /// A number that is an `i64`.
    Int(i64),
    Text(Seq<char>),
    List(Seq<JsonTree>),
    /// The entries of an object, in the order in which they are walked.
    Fields(Seq<(Seq<char>, JsonTree)>),
    /// A truth value, or a number that is no `i64`.
    Other,
}

/// What a document of `serde_json` says.
pub uninterp spec fn tree_of(v: serde_json::Value) -> JsonTree;

/// What `serde_json` reads out of some bytes: a document, or the text of its error.
pub uninterp spec fn json_outcome(bytes: Seq<u8>) -> Result<JsonTree, Seq<char>>;

/// `serde_json::from_slice`: parsing is a function of the bytes alone, named `json_outcome`.
#[verifier::external_body]
fn from_slice(bytes: &[u8]) -> (r: Result<serde_json::Value, String>)
    ensures
        match r {
            Ok(v) => json_outcome(bytes@) == Ok::<JsonTree, Seq<char>>(tree_of(v)),
            Err(e) => json_outcome(bytes@) == Err::<JsonTree, Seq<char>>(e@),
        },
{
    match serde_json::from_slice::<serde_json::Value>(bytes) {
        Ok(v) => Ok(v),
        Err(e) => Err(e.to_string()),
    }
}

/// `serde_json::Value::is_null`: whether the document is null.
#[verifier::external_body]
fn is_null(v: &serde_json::Value) -> (r: bool)
    ensures
        r == (tree_of(*v) is Null),
{
    v.is_null()
}

/// `serde_json::Value::as_i64`: the number, where the document is one that is an `i64`.
#[verifier::external_body]
fn as_i64(v: &serde_json::Value) -> (r: Option<i64>)
    ensures
        match tree_of(*v) {
            JsonTree::Int(n) => r == Some(n),
            _ => r is None,
        },
{
    v.as_i64()
}

/// `serde_json::Value::as_str`: the text, where the document is a string.
#[verifier::external_body]
fn as_str(v: &serde_json::Value) -> (r: Option<&str>)
    ensures
        match tree_of(*v) {
            JsonTree::Text(s) => r is Some && r->0@ == s,
            _ => r is None,
        },
{
    v.as_str()
}

/// `serde_json::Value::as_array`: the items in order, where the document is an array.
#[verifier::external_body]
fn as_array(v: &serde_json::Value) -> (r: Option<&Vec<serde_json::Value>>)
    ensures
        match tree_of(*v) {
            JsonTree::List(items) => r is Some && items == Seq::new(
                r->0@.len(),
                |i: int| tree_of(r->0@[i]),
            ),
            _ => r is None,
        },
{
    v.as_array()
}

/// `serde_json::Value::as_object`: the entries, where the document is an object, in the order
/// in which `serde_json::Map::iter` walks them.
#[verifier::external_body]
fn as_object(v: &serde_json::Value) -> (r: Option<Vec<(&String, &serde_json::Value)>>)
    ensures
        match tree_of(*v) {
            JsonTree::Fields(entries) => r is Some && entries == Seq::new(
                r->0@.len(),
                |i: int| (r->0@[i].0@, tree_of(*r->0@[i].1)),
            ),
            _ => r is None,
        },
{
    match v.as_object() {
        Some(map) => Some(map.iter().collect()),
        None => None,
    }
}

/// A JSON document, as far as anything here reads it.
#[derive(Debug)]
pub enum Json {
    Null,
    /// A number that is an `i64`.
    Int(i64),
    Text(String),
    List(Vec<Json>),
    /// The entries of an object, in the order in which they are walked.
    Fields(Vec<(String, Json)>),
    /// A truth value, or a number that is no `i64`.
    Other,
}

impl Json {
    /// What the document says.
    pub open spec fn tree(self) -> JsonTree
        decreases self,
    {
        match self {
            Json::Null => JsonTree::Null,
            Json::Int(n) => JsonTree::Int(n),
            Json::Text(s) => JsonTree::Text(s@),
            Json::List(items) => JsonTree::List(trees(items@)),
            Json::Fields(entries) => JsonTree::Fields(field_trees(entries@)),
            Json::Other => JsonTree::Other,
        }
    }
}

/// What the documents of a list say.
pub open spec fn trees(items: Seq<Json>) -> Seq<JsonTree>
    decreases items,
{
    if items.len() == 0 {
        Seq::empty()
    } else {
        trees(items.drop_last()).push(items.last().tree())
    }
}

/// What the entries of an object say.
pub open spec fn field_trees(entries: Seq<(String, Json)>) -> Seq<(Seq<char>, JsonTree)>
    decreases entries,
{
    if entries.len() == 0 {
        Seq::empty()
    } else {
        field_trees(entries.drop_last()).push((entries.last().0@, entries.last().1.tree()))
    }
}

/// `trees` goes item by item.
pub proof fn lemma_trees(items: Seq<Json>)
    ensures
        trees(items) == Seq::new(items.len(), |i: int| items[i].tree()),
    decreases items.len(),
{
    if items.len() > 0 {
        lemma_trees(items.drop_last());
    }
    assert(trees(items) =~= Seq::new(items.len(), |i: int| items[i].tree()));
}

/// `field_trees` goes entry by entry.
pub proof fn lemma_field_trees(entries: Seq<(String, Json)>)
    ensures
        field_trees(entries) == Seq::new(
            entries.len(),
            |i: int| (entries[i].0@, entries[i].1.tree()),
        ),
    decreases entries.len(),
{
    if entries.len() > 0 {
        lemma_field_trees(entries.drop_last());
    }
    assert(field_trees(entries) =~= Seq::new(
        entries.len(),
        |i: int| (entries[i].0@, entries[i].1.tree()),
    ));
}

/// The value of the first entry called `key`, where the document is an object that has one.
pub open spec fn field(tree: JsonTree, key: Seq<char>) -> Option<JsonTree> {
    match tree {
        JsonTree::Fields(entries) => find_field(entries, key),
        _ => None,
    }
}

/// The value of the first entry called `key`.
pub open spec fn find_field(entries: Seq<(Seq<char>, JsonTree)>, key: Seq<char>) -> Option<
    JsonTree,
>
    decreases entries.len(),
{
    if entries.len() == 0 {
        None
    } else if entries[0].0 == key {
        Some(entries[0].1)
    } else {
        find_field(entries.drop_first(), key)
    }
}

impl Json {
    /// Takes over a document of `serde_json`.
    fn read(v: &serde_json::Value) -> (r: Json)
        ensures
            r.tree() == tree_of(*v),
        decreases tree_of(*v),
    {
        if is_null(v) {
            return Json::Null;
        }
        if let Some(n) = as_i64(v) {
            return Json::Int(n);
        }
        if let Some(s) = as_str(v) {
            return Json::Text(s.to_string());
        }
        if let Some(items) = as_array(v) {
            let mut out: Vec<Json> = Vec::new();
            let ghost all = tree_of(*v)->List_0;
            for i in 0..items.len()
                invariant
                    tree_of(*v) == JsonTree::List(all),
                    all == Seq::new(items@.len(), |j: int| tree_of(items@[j])),
                    trees(out@) == all.take(i as int),
            {
                assert(all[i as int] == tree_of(items@[i as int]));
                let ghost was = out@;
                assert(decreases_to!(tree_of(*v) => tree_of(*v)->List_0));
                assert(decreases_to!(all => all[i as int]));
                out.push(Json::read(&items[i]));
                assert(out@.drop_last() =~= was);
                assert(trees(out@) =~= all.take(i + 1));
            }
            assert(all.take(all.len() as int) =~= all);
            return Json::List(out);
        }
        if let Some(entries) = as_object(v) {
            let mut out: Vec<(String, Json)> = Vec::new();
            let ghost all = tree_of(*v)->Fields_0;
            for i in 0..entries.len()
                invariant
                    tree_of(*v) == JsonTree::Fields(all),
                    all == Seq::new(
                        entries@.len(),
                        |j: int| (entries@[j].0@, tree_of(*entries@[j].1)),
                    ),
                    field_trees(out@) == all.take(i as int),
            {
                assert(all[i as int] == (entries@[i as int].0@, tree_of(*entries@[i as int].1)));
                let ghost was = out@;
                let entry = entries[i];
                assert(decreases_to!(tree_of(*v) => tree_of(*v)->Fields_0));
                assert(decreases_to!(all => all[i as int]));
                assert(decreases_to!(all[i as int] => all[i as int].1));
                out.push((entry.0.clone(), Json::read(entry.1)));
                assert(out@.drop_last() =~= was);
                assert(field_trees(out@) =~= all.take(i + 1));
            }
            assert(all.take(all.len() as int) =~= all);
            return Json::Fields(out);
        }
        Json::Other
    }

    /// Parses a document; the error is the text that `serde_json` gives for it.
    pub fn parse(bytes: &[u8]) -> (r: Result<Json, String>)
        ensures
            match r {
                Ok(doc) => json_outcome(bytes@) == Ok::<JsonTree, Seq<char>>(doc.tree()),
                Err(e) => json_outcome(bytes@) == Err::<JsonTree, Seq<char>>(e@),
            },
    {
        match from_slice(bytes) {
            Ok(v) => Ok(Json::read(&v)),
            Err(e) => Err(e),
        }
    }

    /// The value of the field called `key`, where the document is an object that has one.
    pub fn get(&self, key: &str) -> (r: Option<&Json>)
        ensures
            match field(self.tree(), key@) {
                Some(t) => r is Some && r->0.tree() == t,
                None => r is None,
            },
    {
        let entries = match self {
            Json::Fields(entries) => entries,
            _ => {
                return None;
            },
        };
        let ghost all = field_trees(entries@);
        proof {
            lemma_field_trees(entries@);
        }
        assert(all.skip(0) =~= all);
        for i in 0..entries.len()
            invariant
                all == Seq::new(entries@.len(), |j: int| (entries@[j].0@, entries@[j].1.tree())),
                find_field(all, key@) == find_field(all.skip(i as int), key@),
                self.tree() == JsonTree::Fields(all),
        {
            assert(all[i as int] == (entries@[i as int].0@, entries@[i as int].1.tree()));
            if same_str(entries[i].0.as_str(), key) {
                return Some(&entries[i].1);
            }
            assert(all.skip(i as int).drop_first() =~= all.skip(i + 1));
        }
        None
    }
}

} // verus!
