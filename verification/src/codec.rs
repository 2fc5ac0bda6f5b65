//! Reading and writing JSON text with `serde_json`.

use crate::json::{Json, JsonValue};
use crate::table::Table;
use vstd::prelude::*;

verus! {

/// A document of `serde_json`.
#[verifier::external_type_specification]
#[verifier::external_body]
pub struct ExDocument(serde_json::Value);

/// The error of `serde_json`.
#[verifier::external_type_specification]
#[verifier::external_body]
pub struct ExParseError(serde_json::Error);

/// What a document of `serde_json` holds.
pub uninterp spec fn document(v: serde_json::Value) -> Json;

/// The document that `serde_json::from_str` reads out of a text, if it is JSON.
pub uninterp spec fn parsed(text: Seq<char>) -> Option<Json>;

/// The text in which `serde_json` displays a document.
pub uninterp spec fn rendered(v: Json) -> Seq<char>;

/// The outermost layer of a document of `serde_json`.
pub(crate) enum Layer {
    Null,
    Bool(bool),
    Num(serde_json::Number),
    Text(String),
    Array(Vec<serde_json::Value>),
    Object(Vec<(String, serde_json::Value)>),
}

/// What a layer says, given what the documents in it hold.
pub(crate) open spec fn layer_json(layer: Layer) -> Json {
    match layer {
        Layer::Null => Json::Null,
        Layer::Bool(b) => Json::Bool(b),
        Layer::Num(n) => Json::Num(n),
        Layer::Text(s) => Json::Text(s@),
        Layer::Array(a) => Json::Array(a@.map_values(|v: serde_json::Value| document(v))),
        Layer::Object(rows) => Json::Object(
            crate::table::as_map(row_names(rows@), row_items(rows@)),
        ),
    }
}

/// The names in a list of rows.
pub(crate) open spec fn row_names(rows: Seq<(String, serde_json::Value)>) -> Seq<Seq<char>> {
    rows.map_values(|row: (String, serde_json::Value)| row.0@)
}

/// What the documents in a list of rows hold.
pub(crate) open spec fn row_items(rows: Seq<(String, serde_json::Value)>) -> Seq<Json> {
    rows.map_values(|row: (String, serde_json::Value)| document(row.1))
}

/// Takes a `serde_json::Value` apart by its variants; the rows of an object
/// come out of its `serde_json::Map`, in which no name stands twice.
#[verifier::external_body]
fn open_layer(v: serde_json::Value) -> (r: Layer)
    ensures
        document(v) == layer_json(r),
        r matches Layer::Object(rows) ==> crate::table::distinct(row_names(rows@)),
{
    match v {
        serde_json::Value::Null => Layer::Null,
        serde_json::Value::Bool(b) => Layer::Bool(b),
        serde_json::Value::Number(n) => Layer::Num(n),
        serde_json::Value::String(s) => Layer::Text(s),
        serde_json::Value::Array(a) => Layer::Array(a),
        serde_json::Value::Object(m) => Layer::Object(m.into_iter().collect()),
    }
}

/// Puts a `serde_json::Value` together from its parts.
#[verifier::external_body]
fn close_layer(layer: Layer) -> (r: serde_json::Value)
    requires
        layer matches Layer::Object(rows) ==> crate::table::distinct(row_names(rows@)),
    ensures
        document(r) == layer_json(layer),
{
    match layer {
        Layer::Null => serde_json::Value::Null,
        Layer::Bool(b) => serde_json::Value::Bool(b),
        Layer::Num(n) => serde_json::Value::Number(n),
        Layer::Text(s) => serde_json::Value::String(s),
        Layer::Array(a) => serde_json::Value::Array(a),
        Layer::Object(rows) => serde_json::Value::Object(rows.into_iter().collect()),
    }
}

/// `serde_json::from_str` into a `serde_json::Value`.
#[verifier::external_body]
fn read_document(text: &str) -> (r: Result<serde_json::Value, serde_json::Error>)
    ensures
        match r {
            Ok(v) => parsed(text@) == Some(document(v)),
            Err(_) => parsed(text@) is None,
        },
{
    serde_json::from_str::<serde_json::Value>(text)
}

/// `Display` of `serde_json::Value`, the compact form. It is JSON, so it is
/// never the sign `[DONE]`, which is none.
#[verifier::external_body]
fn write_document(v: &serde_json::Value) -> (r: String)
    ensures
        r@ == rendered(document(*v)),
        r@ != "[DONE]"@,
{
    v.to_string()
}

/// A document of `serde_json` as a value of this library.
pub fn from_document(v: serde_json::Value) -> (r: JsonValue)
    ensures
        r@ == document(v),
    decreases document(v),
{
    match open_layer(v) {
        Layer::Null => JsonValue::Null,
        Layer::Bool(b) => JsonValue::Bool(b),
        Layer::Num(n) => JsonValue::Num(n),
        Layer::Text(s) => JsonValue::Text(s),
        Layer::Array(a) => {
            let ghost all = a@;
            let mut items: Vec<JsonValue> = Vec::new();
            for x in it: a
                invariant
                    it.seq() == all,
                    document(v) == Json::Array(all.map_values(|v: serde_json::Value| document(v))),
                    items@.len() == it.index(),
                    forall|j: int| 0 <= j < items@.len() ==> #[trigger] items@[j]@ == document(all[j]),
            {
                proof {
                    assert(decreases_to!(document(v) => document(v)->Array_0));
                    assert(decreases_to!(document(v)->Array_0 => document(v)->Array_0[it.index() as int]));
                }
                let item = from_document(x);
                items.push(item);
            }
            proof {
                crate::json::lemma_all_json(items@);
                assert(crate::json::all_json(items@) =~= document(v)->Array_0);
            }
            JsonValue::Array(items)
        },
        Layer::Object(rows) => {
            let ghost all = rows@;
            let ghost names = row_names(all);
            let ghost docs = row_items(all);
            let mut t: Table<JsonValue> = Table::new();
            for row in it: rows
                invariant
                    it.seq() == all,
                    names == row_names(all),
                    docs == row_items(all),
                    document(v) == Json::Object(crate::table::as_map(names, docs)),
                    crate::table::distinct(names),
                    t.names() == names.take(it.index() as int),
                    t.items().len() == it.index(),
                    forall|j: int| 0 <= j < it.index() ==> #[trigger] t.items()[j]@ == docs[j],
            {
                proof {
                    let i = it.index() as int;
                    crate::table::lemma_index_of(names, i);
                    let m = document(v)->Object_0;
                    assert(decreases_to!(document(v) => document(v)->Object_0));
                    assert(m.contains_key(names[i]) && m[names[i]] == docs[i]);
                    crate::table::lemma_finite(names, docs);
                    assert(decreases_to!(m => m[names[i]]));
                    if t@.contains_key(names[i]) {
                        let j = t.names().index_of(names[i]);
                        assert(names[j] == names[i]);
                    }
                }
                let item = from_document(row.1);
                t.insert(row.0, item);
                assert(t.names() =~= names.take(it.index() as int + 1));
            }
            proof {
                crate::json::lemma_all_json(t.items());
                assert(t.names() =~= names);
                assert(crate::json::all_json(t.items()) =~= docs);
            }
            JsonValue::Object(t)
        },
    }
}

/// A value of this library as a document of `serde_json`.
pub fn to_document(v: &JsonValue) -> (r: serde_json::Value)
    ensures
        document(r) == v@,
    decreases v,
{
    match v {
        JsonValue::Null => close_layer(Layer::Null),
        JsonValue::Bool(b) => close_layer(Layer::Bool(*b)),
        JsonValue::Num(n) => close_layer(Layer::Num(n.clone())),
        JsonValue::Text(s) => close_layer(Layer::Text(s.clone())),
        JsonValue::Array(a) => {
            let mut docs: Vec<serde_json::Value> = Vec::new();
            let mut i: usize = 0;
            while i < a.len()
                invariant
                    i <= a@.len(),
                    v == JsonValue::Array(*a),
                    docs@.len() == i,
                    forall|j: int| 0 <= j < i ==> document(#[trigger] docs@[j]) == a@[j]@,
                decreases a@.len() - i,
            {
                proof {
                    assert(decreases_to!(v => v->Array_0));
                    assert(decreases_to!(a => a@));
                    assert(decreases_to!(a@ => a@[i as int]));
                }
                let doc = to_document(&a[i]);
                docs.push(doc);
                i += 1;
            }
            proof {
                crate::json::lemma_all_json(a@);
                assert(docs@.map_values(|v: serde_json::Value| document(v))
                    =~= crate::json::all_json(a@));
            }
            close_layer(Layer::Array(docs))
        },
        JsonValue::Object(t) => {
            let mut rows: Vec<(String, serde_json::Value)> = Vec::new();
            let mut i: usize = 0;
            let n = t.len();
            while i < n
                invariant
                    i <= n,
                    n == t.names().len(),
                    t.wf(),
                    v == JsonValue::Object(*t),
                    rows@.len() == i,
                    forall|j: int|
                        0 <= j < i ==> (#[trigger] rows@[j]).0@ == t.names()[j] && document(rows@[j].1)
                            == t.items()[j]@,
                decreases n - i,
            {
                proof {
                    assert(decreases_to!(v => v->Object_0));
                    t.lemma_items_decrease();
                    assert(decreases_to!(t.items() => t.items()[i as int]));
                }
                let doc = to_document(t.item_at(i));
                rows.push((t.name_at(i).clone(), doc));
                i += 1;
            }
            proof {
                crate::json::lemma_all_json(t.items());
                assert(row_names(rows@) =~= t.names());
                assert(row_items(rows@) =~= crate::json::all_json(t.items()));
            }
            close_layer(Layer::Object(rows))
        },
    }
}

/// Reads a JSON text.
pub fn parse(text: &str) -> (r: Option<JsonValue>)
    ensures
        match r {
            Some(v) => parsed(text@) == Some(v@),
            None => parsed(text@) is None,
        },
{
    match read_document(text) {
        Ok(v) => Some(from_document(v)),
        Err(_) => None,
    }
}

/// Writes a value as compact JSON text.
pub fn render(v: &JsonValue) -> (r: String)
    ensures
        r@ == rendered(v@),
        r@ != "[DONE]"@,
{
    write_document(&to_document(v))
}

} // verus!
