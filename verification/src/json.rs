//! JSON values: what the replies of the gateway and the lines of a session log hold.
//! Parsing and printing are serde_json's; the values are read here.

use vstd::prelude::*;

use crate::text;

verus! {

/// serde_json's value, carried from its parser to `json_of`.
#[verifier::external_type_specification]
#[verifier::external_body]
pub struct ExValue(serde_json::Value);

/// What a JSON value is. A number is known by its text, and by its value where that is a
/// `u64` written as an integer.
pub enum JsonView {
    Null,
    Bool(bool),
    Number(Option<u64>, Seq<char>),
    Str(Seq<char>),
    Array(Seq<JsonView>),
    Object(Seq<(Seq<char>, JsonView)>),
}

/// A JSON value.
pub enum Json {
    Null,
    Bool(bool),
    Number(Option<u64>, String),
    Str(String),
    Array(Vec<Json>),
    Object(Vec<(String, Json)>),
}

impl View for Json {
    type V = JsonView;

    open spec fn view(&self) -> JsonView
        decreases self,
    {
        match self {
            Json::Null => JsonView::Null,
            Json::Bool(b) => JsonView::Bool(*b),
            Json::Number(n, s) => JsonView::Number(*n, s@),
            Json::Str(s) => JsonView::Str(s@),
            Json::Array(v) => JsonView::Array(
                Seq::new(
                    v@.len(),
                    |i: int|
                        if 0 <= i < v@.len() {
                            v@[i].view()
                        } else {
                            JsonView::Null
                        },
                ),
            ),
            Json::Object(v) => JsonView::Object(
                Seq::new(
                    v@.len(),
                    |i: int|
                        if 0 <= i < v@.len() {
                            (v@[i].0@, v@[i].1.view())
                        } else {
                            (Seq::empty(), JsonView::Null)
                        },
                ),
            ),
        }
    }
}

/// The outermost level of a value.
pub enum JsonNode {
    Null,
    Bool(bool),
    Number(Option<u64>, String),
    Str(String),
    Array(Vec<serde_json::Value>),
    Object(Vec<(String, serde_json::Value)>),
}

/// What a value of serde_json holds.
pub uninterp spec fn json_tree(v: serde_json::Value) -> JsonView;

/// The value that serde_json's `from_str` reads out of a text, nothing where it reports
/// an error.
pub uninterp spec fn json_text(text: Seq<char>) -> Option<JsonView>;

/// The compact text in which serde_json shows a value.
pub uninterp spec fn json_print(v: JsonView) -> Seq<char>;

pub open spec fn node_tree(n: JsonNode) -> JsonView {
    match n {
        JsonNode::Null => JsonView::Null,
        JsonNode::Bool(b) => JsonView::Bool(b),
        JsonNode::Number(x, s) => JsonView::Number(x, s@),
        JsonNode::Str(s) => JsonView::Str(s@),
        JsonNode::Array(v) => JsonView::Array(
            v@.map_values(|x: serde_json::Value| json_tree(x)),
        ),
        JsonNode::Object(v) => JsonView::Object(
            v@.map_values(|x: (String, serde_json::Value)| (x.0@, json_tree(x.1))),
        ),
    }
}

/// Opens the outermost level of a `serde_json::Value`: its variant with what that holds,
/// a number by `Number::as_u64` and its text, an object by its entries in the order of
/// the map.
#[verifier::external_body]
fn json_node(v: serde_json::Value) -> (r: JsonNode)
    ensures
        node_tree(r) == json_tree(v),
{
    match v {
        serde_json::Value::Null => JsonNode::Null,
        serde_json::Value::Bool(b) => JsonNode::Bool(b),
        serde_json::Value::Number(n) => JsonNode::Number(n.as_u64(), n.to_string()),
        serde_json::Value::String(s) => JsonNode::Str(s),
        serde_json::Value::Array(items) => JsonNode::Array(items),
        serde_json::Value::Object(map) => JsonNode::Object(map.into_iter().collect()),
    }
}

/// Calls `serde_json::from_str` for a `Value`. Its outcome is a function of the text
/// alone; which texts are JSON and what they hold is not stated here.
#[verifier::external_body]
fn json_parse(text: &str) -> (r: Option<serde_json::Value>)
    ensures
        match r {
            Some(v) => json_text(text@) == Some(json_tree(v)),
            None => json_text(text@) is None,
        },
{
    serde_json::from_str::<serde_json::Value>(text).ok()
}

/// Calls `to_string` on a `serde_json::Value`. The text is a function of what the value
/// holds.
#[verifier::external_body]
fn json_show(v: &serde_json::Value) -> (r: String)
    ensures
        r@ == json_print(json_tree(*v)),
{
    v.to_string()
}

/// Makes a `serde_json::Value::String`, which holds the text.
#[verifier::external_body]
fn json_string(s: String) -> (r: serde_json::Value)
    ensures
        json_tree(r) == JsonView::Str(s@),
{
    serde_json::Value::String(s)
}

/// Makes a `serde_json::Value::Null`, which holds nothing.
#[verifier::external_body]
fn json_null() -> (r: serde_json::Value)
    ensures
        json_tree(r) == JsonView::Null,
{
    serde_json::Value::Null
}

/// The items of `v`, as values of this library.
fn json_items(items: Vec<serde_json::Value>, Ghost(whole): Ghost<JsonView>) -> (r: Vec<Json>)
    requires
        whole == JsonView::Array(items@.map_values(|x: serde_json::Value| json_tree(x))),
    ensures
        Json::Array(r)@ == whole,
    decreases whole, 0nat,
{
    let ghost all = items@;
    let ghost trees = all.map_values(|x: serde_json::Value| json_tree(x));
    let mut out: Vec<Json> = Vec::new();
    for x in it: items
        invariant
            it.seq() == all,
            trees == all.map_values(|x: serde_json::Value| json_tree(x)),
            whole == JsonView::Array(trees),
            out.len() == it.index(),
            forall|i: int| 0 <= i < out.len() ==> (#[trigger] out@[i])@ == trees[i],
    {
        proof {
            assert(trees[it.index() as int] == json_tree(x));
            assert(decreases_to!(whole => whole->Array_0));
            assert(decreases_to!(whole->Array_0 => whole->Array_0[it.index() as int]));
        }
        out.push(json_of(x));
    }
    assert(Json::Array(out)@->Array_0 == trees);
    out
}

/// The entries of an object, as values of this library.
fn json_entries(
    entries: Vec<(String, serde_json::Value)>,
    Ghost(whole): Ghost<JsonView>,
) -> (r: Vec<(String, Json)>)
    requires
        whole == JsonView::Object(
            entries@.map_values(|x: (String, serde_json::Value)| (x.0@, json_tree(x.1))),
        ),
    ensures
        Json::Object(r)@ == whole,
    decreases whole, 0nat,
{
    let ghost all = entries@;
    let ghost trees = all.map_values(|x: (String, serde_json::Value)| (x.0@, json_tree(x.1)));
    let mut out: Vec<(String, Json)> = Vec::new();
    for x in it: entries
        invariant
            it.seq() == all,
            trees == all.map_values(|x: (String, serde_json::Value)| (x.0@, json_tree(x.1))),
            whole == JsonView::Object(trees),
            out.len() == it.index(),
            forall|i: int|
                0 <= i < out.len() ==> (#[trigger] out@[i]).0@ == trees[i].0 && out@[i].1@
                    == trees[i].1,
    {
        proof {
            let i = it.index() as int;
            assert(trees[i] == (x.0@, json_tree(x.1)));
            assert(decreases_to!(whole => whole->Object_0));
            assert(decreases_to!(whole->Object_0 => whole->Object_0[i]));
            assert(decreases_to!(whole->Object_0[i] => whole->Object_0[i].1));
        }
        out.push((x.0, json_of(x.1)));
    }
    assert(Json::Object(out)@->Object_0 == trees);
    out
}

/// `v` as a value of this library.
fn json_of(v: serde_json::Value) -> (r: Json)
    ensures
        r@ == json_tree(v),
    decreases json_tree(v), 1nat,
{
    let ghost whole = json_tree(v);
    match json_node(v) {
        JsonNode::Null => Json::Null,
        JsonNode::Bool(b) => Json::Bool(b),
        JsonNode::Number(n, s) => Json::Number(n, s),
        JsonNode::Str(s) => Json::Str(s),
        JsonNode::Array(items) => Json::Array(json_items(items, Ghost(whole))),
        JsonNode::Object(entries) => Json::Object(json_entries(entries, Ghost(whole))),
    }
}

/// The value that a text holds, nothing where it is no JSON.
pub fn parse(text: &str) -> (r: Option<Json>)
    ensures
        match r {
            Some(v) => json_text(text@) == Some(v@),
            None => json_text(text@) is None,
        },
{
    match json_parse(text) {
        Some(v) => Some(json_of(v)),
        None => None,
    }
}

/// The position of the first entry under `key`; the number of entries where there is
/// none.
pub open spec fn entry_at(entries: Seq<(Seq<char>, JsonView)>, key: Seq<char>) -> int
    decreases entries.len(),
{
    if entries.len() == 0 || entries[0].0 == key {
        0
    } else {
        1 + entry_at(entries.skip(1), key)
    }
}

/// What stands under `key` in an object.
pub open spec fn field(v: JsonView, key: Seq<char>) -> Option<JsonView> {
    match v {
        JsonView::Object(entries) => {
            let n = entry_at(entries, key);
            if n < entries.len() {
                Some(entries[n].1)
            } else {
                None
            }
        },
        _ => None,
    }
}

/// What stands under `key` in what `v` is, where it is something.
pub open spec fn field_of(v: Option<JsonView>, key: Seq<char>) -> Option<JsonView> {
    match v {
        Some(x) => field(x, key),
        None => None,
    }
}

/// The first item of an array.
pub open spec fn first_of(v: Option<JsonView>) -> Option<JsonView> {
    match v {
        Some(JsonView::Array(items)) => if items.len() > 0 {
            Some(items[0])
        } else {
            None
        },
        _ => None,
    }
}

/// The items of an array.
pub open spec fn items_of(v: Option<JsonView>) -> Option<Seq<JsonView>> {
    match v {
        Some(JsonView::Array(items)) => Some(items),
        _ => None,
    }
}

/// The text that a value is.
pub open spec fn str_of(v: Option<JsonView>) -> Option<Seq<char>> {
    match v {
        Some(JsonView::Str(s)) => Some(s),
        _ => None,
    }
}

/// The truth value that a value is.
pub open spec fn bool_of(v: Option<JsonView>) -> Option<bool> {
    match v {
        Some(JsonView::Bool(b)) => Some(b),
        _ => None,
    }
}

/// The `u64` that a value is.
pub open spec fn u64_of(v: Option<JsonView>) -> Option<u64> {
    match v {
        Some(JsonView::Number(n, _)) => n,
        _ => None,
    }
}

pub proof fn lemma_array(v: Json)
    requires
        v is Array,
    ensures
        v@ is Array,
        v@->Array_0 == v->Array_0@.map_values(|x: Json| x@),
{
    reveal_with_fuel(<Json as View>::view, 2);
    let items = v->Array_0;
    let all = v@->Array_0;
    assert forall|i: int| 0 <= i < items@.len() implies #[trigger] all[i] == items@[i]@ by {}
    assert(all.len() == items@.len());
    assert(all == items@.map_values(|x: Json| x@));
}

pub proof fn lemma_object(v: Json)
    requires
        v is Object,
    ensures
        v@ is Object,
        v@->Object_0 == v->Object_0@.map_values(|x: (String, Json)| (x.0@, x.1@)),
{
    reveal_with_fuel(<Json as View>::view, 2);
    let entries = v->Object_0;
    let all = v@->Object_0;
    assert forall|i: int| 0 <= i < entries@.len() implies #[trigger] all[i] == (
        entries@[i].0@,
        entries@[i].1@,
    ) by {}
    assert(all.len() == entries@.len());
    assert(all == entries@.map_values(|x: (String, Json)| (x.0@, x.1@)));
}

/// What a reference holds.
pub open spec fn viewed(v: Option<&Json>) -> Option<JsonView> {
    match v {
        Some(x) => Some(x@),
        None => None,
    }
}

/// What stands under `key` in an object.
pub fn get<'a>(v: Option<&'a Json>, key: &str) -> (r: Option<&'a Json>)
    ensures
        viewed(r) == field_of(viewed(v), key@),
{
    match v {
        Some(Json::Object(entries)) => {
            let ghost all = v->0@->Object_0;
            proof {
                lemma_object(*v->0);
            }
            let mut i: usize = 0;
            assert(all.skip(0) == all);
            while i < entries.len()
                invariant
                    i <= entries.len(),
                    all == entries@.map_values(|x: (String, Json)| (x.0@, x.1@)),
                    viewed(v) == Some(JsonView::Object(all)),
                    entry_at(all, key@) == i + entry_at(all.skip(i as int), key@),
                decreases entries.len() - i,
            {
                proof {
                    assert(all.skip(i as int)[0] == all[i as int]);
                    assert(all.skip(i as int).skip(1) == all.skip(i + 1));
                    assert(all[i as int] == (entries@[i as int].0@, entries@[i as int].1@));
                }
                if text::same_text(entries[i].0.as_str(), key) {
                    return Some(&entries[i].1);
                }
                i += 1;
            }
            assert(all.skip(i as int).len() == 0);
            None
        },
        _ => None,
    }
}

/// The first item of an array.
pub fn first<'a>(v: Option<&'a Json>) -> (r: Option<&'a Json>)
    ensures
        viewed(r) == first_of(viewed(v)),
{
    match v {
        Some(Json::Array(items)) => {
            proof {
                lemma_array(*v->0);
            }
            if items.len() > 0 {
                Some(&items[0])
            } else {
                None
            }
        },
        _ => None,
    }
}

/// The items of an array.
pub fn as_array<'a>(v: Option<&'a Json>) -> (r: Option<&'a Vec<Json>>)
    ensures
        match r {
            Some(items) => items_of(viewed(v)) == Some(
                items@.map_values(|x: Json| x@),
            ),
            None => items_of(viewed(v)) is None,
        },
{
    match v {
        Some(Json::Array(items)) => {
            proof {
                lemma_array(*v->0);
            }
            Some(items)
        },
        _ => None,
    }
}

/// The text that a value is.
pub fn as_str<'a>(v: Option<&'a Json>) -> (r: Option<&'a str>)
    ensures
        match r {
            Some(s) => str_of(viewed(v)) == Some(s@),
            None => str_of(viewed(v)) is None,
        },
{
    match v {
        Some(Json::Str(s)) => Some(s.as_str()),
        _ => None,
    }
}

/// The truth value that a value is.
pub fn as_bool(v: Option<&Json>) -> (r: Option<bool>)
    ensures
        r == bool_of(viewed(v)),
{
    match v {
        Some(Json::Bool(b)) => Some(*b),
        _ => None,
    }
}

/// The `u64` that a value is.
pub fn as_u64(v: Option<&Json>) -> (r: Option<u64>)
    ensures
        r == u64_of(viewed(v)),
{
    match v {
        Some(Json::Number(n, _)) => *n,
        _ => None,
    }
}

/// A reply to a request: its status, and its body with the text that shows it.
pub struct JsonReply {
    pub status: u32,
    pub json: Json,
    pub shown: String,
}

/// What a body holds: nothing where it is blank, its first 400 chars as text where it is
/// no JSON.
pub open spec fn body_json(body: Seq<char>) -> JsonView {
    if text::blank(body) {
        JsonView::Null
    } else {
        match json_text(body) {
            Some(v) => v,
            None => JsonView::Str(text::first_chars(body, 400)),
        }
    }
}

/// The reply that a status and a body are.
pub fn parse_json_body(status: u32, body: &str) -> (r: JsonReply)
    ensures
        r.status == status,
        r.json@ == body_json(body@),
        r.shown@ == json_print(body_json(body@)),
{
    let v = if text::is_blank(body) {
        json_null()
    } else {
        match json_parse(body) {
            Some(v) => v,
            None => json_string(text::take_chars(body, 400)),
        }
    };
    let shown = json_show(&v);
    JsonReply { status, json: json_of(v), shown }
}

} // verus!
