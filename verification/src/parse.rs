//! JSON text read into values.

use vstd::prelude::*;

use crate::json::{Json, Node};
#[allow(unused_imports)]
use crate::json::{Doc, DocNode};

verus! {

/// What a value is by itself, without its parts.
pub enum Kind {
    Null,
    Bool(bool),
    Number(Option<u64>),
    Text(String),
    List,
    Members,
}

/// The contents of a kind.
pub ghost enum KindView {
    Null,
    Bool(bool),
    Number(Option<u64>),
    Text(Seq<char>),
    List,
    Members,
}

/// The contents of `k`.
pub open spec fn kind_view(k: Kind) -> KindView {
    match k {
        Kind::Null => KindView::Null,
        Kind::Bool(b) => KindView::Bool(b),
        Kind::Number(n) => KindView::Number(n),
        Kind::Text(s) => KindView::Text(s@),
        Kind::List => KindView::List,
        Kind::Members => KindView::Members,
    }
}

/// A value that `serde_json` has parsed.
#[verifier::external_type_specification]
#[verifier::external_body]
pub struct ExValue(serde_json::Value);

/// What `serde_json` reads in `b`; `None` when that is no JSON.
pub uninterp spec fn doc_of(b: Seq<u8>) -> Option<Doc>;

/// What a parsed value holds: its compact text, and its parts.
pub uninterp spec fn held(v: serde_json::Value) -> Doc;

/// The kind of a value with these parts.
pub open spec fn kind_of(node: DocNode) -> KindView {
    match node {
        DocNode::Null => KindView::Null,
        DocNode::Bool(b) => KindView::Bool(b),
        DocNode::Number(n) => KindView::Number(n),
        DocNode::Text(s) => KindView::Text(s),
        DocNode::List(_) => KindView::List,
        DocNode::Members(_) => KindView::Members,
    }
}

/// `serde_json::from_slice` to a value. What it gives depends on the bytes
/// alone; nothing more is claimed of it.
#[verifier::external_body]
fn parse_value(b: &[u8]) -> (r: Option<serde_json::Value>)
    ensures
        match r {
            Some(v) => doc_of(b@) == Some(held(v)),
            None => doc_of(b@) is None,
        },
{
    serde_json::from_slice::<serde_json::Value>(b).ok()
}

/// `Value::to_string`: the value's compact text.
#[verifier::external_body]
fn value_text(v: &serde_json::Value) -> (s: String)
    ensures
        s@ == held(*v).text,
{
    v.to_string()
}

/// The variant of a value, with what it holds where that is no other value; of a
/// number, what `Number::as_u64` gives.
#[verifier::external_body]
fn value_kind(v: &serde_json::Value) -> (k: Kind)
    ensures
        kind_view(k) == kind_of(held(*v).node),
{
    match v {
        serde_json::Value::Null => Kind::Null,
        serde_json::Value::Bool(x) => Kind::Bool(*x),
        serde_json::Value::Number(n) => Kind::Number(n.as_u64()),
        serde_json::Value::String(s) => Kind::Text(s.clone()),
        serde_json::Value::Array(_) => Kind::List,
        serde_json::Value::Object(_) => Kind::Members,
    }
}

/// `Value::as_array`: the items of a list, in order; `None` for anything else.
#[verifier::external_body]
fn list_items(v: &serde_json::Value) -> (r: Option<Vec<&serde_json::Value>>)
    ensures
        match (r, held(*v).node) {
            (Some(items), DocNode::List(docs)) => {
                &&& items@.len() == docs.len()
                &&& forall|i: int| 0 <= i < docs.len() ==> held(*#[trigger] items@[i]) == docs[i]
            },
            (Some(_), _) => false,
            (None, node) => !(node is List),
        },
{
    v.as_array().map(|a| a.iter().collect())
}

/// `Value::as_object`: the names and values of a map, in the order of the names;
/// `None` for anything else. That they are in order is not claimed.
#[verifier::external_body]
fn map_members(v: &serde_json::Value) -> (r: Option<Vec<(String, &serde_json::Value)>>)
    ensures
        match (r, held(*v).node) {
            (Some(members), DocNode::Members(docs)) => {
                &&& members@.len() == docs.len()
                &&& forall|i: int|
                    0 <= i < docs.len() ==> (#[trigger] members@[i]).0@ == docs[i].0 && held(
                        *members@[i].1,
                    ) == docs[i].1
            },
            (Some(_), _) => false,
            (None, node) => !(node is Members),
        },
{
    v.as_object().map(|m| m.iter().map(|(k, x)| (k.clone(), x)).collect())
}

/// Puts a value together from its compact text, its kind, and its items or its
/// members where it has them.
pub fn assemble(
    text: String,
    kind: Kind,
    items: Option<Vec<Json>>,
    members: Option<Vec<(String, Json)>>,
) -> (j: Json)
    ensures
        j.text == text,
        j.node == (match (items, members, kind) {
            (Some(v), _, _) => Node::List(v),
            (None, Some(m), _) => Node::Members(m),
            (None, None, Kind::Bool(x)) => Node::Bool(x),
            (None, None, Kind::Number(n)) => Node::Number(n),
            (None, None, Kind::Text(s)) => Node::Text(s),
            _ => Node::Null,
        }),
{
    let node: Node = match (items, members) {
        (Some(v), _) => Node::List(v),
        (None, Some(m)) => Node::Members(m),
        (None, None) => match kind {
            Kind::Bool(x) => Node::Bool(x),
            Kind::Number(n) => Node::Number(n),
            Kind::Text(s) => Node::Text(s),
            _ => Node::Null,
        },
    };
    Json { text, node }
}

/// Takes a parsed value over, all the way down.
fn take_over(v: &serde_json::Value) -> (j: Json)
    ensures
        j@ == held(*v),
    decreases held(*v),
{
    let text: String = value_text(v);
    let kind: Kind = value_kind(v);
    let ghost node = held(*v).node;
    if let Some(items) = list_items(v) {
        let mut list: Vec<Json> = Vec::new();
        let mut i: usize = 0;
        while i < items.len()
            invariant
                i <= items@.len(),
                node == held(*v).node,
                node is List,
                items@.len() == node->List_0.len(),
                forall|k: int|
                    0 <= k < items@.len() ==> held(*#[trigger] items@[k]) == node->List_0[k],
                list@.len() == i,
                forall|k: int| 0 <= k < i ==> (#[trigger] list@[k])@ == node->List_0[k],
            decreases items@.len() - i,
        {
            assert(held(*items@[i as int]) == node->List_0[i as int]);
            list.push(take_over(items[i]));
            i += 1;
        }
        let j: Json = assemble(text, kind, Some(list), None);
        assert(j@.node->List_0 =~= node->List_0);
        return j;
    }
    if let Some(found) = map_members(v) {
        let mut members: Vec<(String, Json)> = Vec::new();
        let mut i: usize = 0;
        while i < found.len()
            invariant
                i <= found@.len(),
                node == held(*v).node,
                node is Members,
                found@.len() == node->Members_0.len(),
                forall|k: int|
                    0 <= k < found@.len() ==> (#[trigger] found@[k]).0@ == node->Members_0[k].0
                        && held(*found@[k].1) == node->Members_0[k].1,
                members@.len() == i,
                forall|k: int|
                    0 <= k < i ==> (#[trigger] members@[k]).0@ == node->Members_0[k].0
                        && members@[k].1@ == node->Members_0[k].1,
            decreases found@.len() - i,
        {
            assert(held(*found@[i as int].1) == node->Members_0[i as int].1);
            let value: Json = take_over(found[i].1);
            members.push((found[i].0.clone(), value));
            i += 1;
        }
        let j: Json = assemble(text, kind, None, Some(members));
        assert(j@.node->Members_0 =~= node->Members_0);
        return j;
    }
    assemble(text, kind, None, None)
}

/// Reads a JSON text, whatever it holds.
pub fn read_json(b: &[u8]) -> (r: Option<Json>)
    ensures
        match r {
            Some(j) => doc_of(b@) == Some(j@),
            None => doc_of(b@) is None,
        },
{
    match parse_value(b) {
        Some(v) => Some(take_over(&v)),
        None => None,
    }
}

} // verus!
