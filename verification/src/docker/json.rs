//! JSON values, as far as they are looked into.

use vstd::prelude::*;

verus! {

#[verifier::external_type_specification]
#[verifier::external_body]
pub struct ExValue(serde_json::Value);

/// A step into a JSON value: to the member of an object, or to an item of a list.
pub enum Step {
    Key(Seq<char>),
    At(int),
}

/// The strings that a JSON value holds, each by the steps that lead to it.
pub uninterp spec fn json_texts(v: serde_json::Value) -> Map<Seq<Step>, Seq<char>>;

/// The whole numbers of 64 bits that a JSON value holds, each by the steps that lead to it.
pub uninterp spec fn json_ints(v: serde_json::Value) -> Map<Seq<Step>, int>;

/// What a JSON value holds.
pub struct JsonView {
    pub texts: Map<Seq<Step>, Seq<char>>,
    pub ints: Map<Seq<Step>, int>,
}

pub open spec fn json_view(v: serde_json::Value) -> JsonView {
    JsonView { texts: json_texts(v), ints: json_ints(v) }
}

pub open spec fn jsons_view(v: Seq<serde_json::Value>) -> Seq<JsonView> {
    v.map_values(|x: serde_json::Value| json_view(x))
}

pub open spec fn opt_json(o: Option<serde_json::Value>) -> Option<JsonView> {
    match o {
        Some(v) => Some(json_view(v)),
        None => None,
    }
}

pub open spec fn opt_jsons(o: Option<Vec<serde_json::Value>>) -> Option<Seq<JsonView>> {
    match o {
        Some(v) => Some(jsons_view(v@)),
        None => None,
    }
}

/// The value that a text is, if it is JSON.
pub uninterp spec fn json_value(s: Seq<char>) -> Option<JsonView>;

/// The values of the list that a text is, if it is a JSON list.
pub uninterp spec fn json_list(s: Seq<char>) -> Option<Seq<JsonView>>;

/// The values of the list that the bytes are, if they are a JSON list.
pub uninterp spec fn json_list_bytes(b: Seq<u8>) -> Option<Seq<JsonView>>;

/// `serde_json::from_str::<Value>`: reads a JSON value. Whether there is one, and
/// what it holds, depends on the text alone.
#[verifier::external_body]
pub(crate) fn read_value(s: &str) -> (r: Option<serde_json::Value>)
    ensures
        opt_json(r) == json_value(s@),
{
    serde_json::from_str::<serde_json::Value>(s).ok()
}

/// `serde_json::from_str::<Vec<Value>>`: reads a JSON list. Whether there is one,
/// and what its values hold, depends on the text alone.
#[verifier::external_body]
pub(crate) fn read_list(s: &str) -> (r: Option<Vec<serde_json::Value>>)
    ensures
        opt_jsons(r) == json_list(s@),
{
    serde_json::from_str::<Vec<serde_json::Value>>(s).ok()
}

/// `serde_json::from_slice::<Vec<Value>>`: reads a JSON list out of bytes. Whether
/// there is one, and what its values hold, depends on the bytes alone.
#[verifier::external_body]
pub(crate) fn read_list_bytes(b: &[u8]) -> (r: Option<Vec<serde_json::Value>>)
    ensures
        opt_jsons(r) == json_list_bytes(b@),
{
    serde_json::from_slice::<Vec<serde_json::Value>>(b).ok()
}

/// The string that the steps lead to, if they lead to one.
pub open spec fn text_in(m: Map<Seq<Step>, Seq<char>>, path: Seq<Step>) -> Option<Seq<char>> {
    if m.contains_key(path) {
        Some(m[path])
    } else {
        None
    }
}

/// The number that the steps lead to, if they lead to one.
pub open spec fn number_in(m: Map<Seq<Step>, int>, path: Seq<Step>) -> Option<int> {
    if m.contains_key(path) {
        Some(m[path])
    } else {
        None
    }
}

impl JsonView {
    pub open spec fn text(self, path: Seq<Step>) -> Option<Seq<char>> {
        text_in(self.texts, path)
    }

    pub open spec fn number(self, path: Seq<Step>) -> Option<int> {
        number_in(self.ints, path)
    }
}

/// What an optional text holds.
pub open spec fn opt_text(o: Option<String>) -> Option<Seq<char>> {
    match o {
        Some(s) => Some(s@),
        None => None,
    }
}

/// `serde_json::Value` indexed by one key and `Value::as_str`: the string there, if there is one.
#[verifier::external_body]
pub(crate) fn text_at(v: &serde_json::Value, a: &str) -> (r: Option<String>)
    ensures
        opt_text(r) == text_in(json_texts(*v), seq![Step::Key(a@)]),
{
    v[a].as_str().map(|s| s.to_string())
}

/// `serde_json::Value` indexed by a key and the number zero, and `Value::as_str`:
/// the string that is the first item there, if there is one.
#[verifier::external_body]
pub(crate) fn first_text_at(v: &serde_json::Value, a: &str) -> (r: Option<String>)
    ensures
        opt_text(r) == text_in(json_texts(*v), seq![Step::Key(a@), Step::At(0)]),
{
    v[a][0].as_str().map(|s| s.to_string())
}

/// `serde_json::Value` indexed by two keys and `Value::as_str`: the string there, if there is one.
#[verifier::external_body]
pub(crate) fn text_at2(v: &serde_json::Value, a: &str, b: &str) -> (r: Option<String>)
    ensures
        opt_text(r) == text_in(json_texts(*v), seq![Step::Key(a@), Step::Key(b@)]),
{
    v[a][b].as_str().map(|s| s.to_string())
}

/// `serde_json::Value` indexed by three keys and `Value::as_str`: the string there, if there is one.
#[verifier::external_body]
pub(crate) fn text_at3(v: &serde_json::Value, a: &str, b: &str, c: &str) -> (r: Option<String>)
    ensures
        opt_text(r) == text_in(json_texts(*v), seq![Step::Key(a@), Step::Key(b@), Step::Key(c@)]),
{
    v[a][b][c].as_str().map(|s| s.to_string())
}

/// What an optional number is.
pub open spec fn opt_int(o: Option<i64>) -> Option<int> {
    match o {
        Some(n) => Some(n as int),
        None => None,
    }
}

/// `serde_json::Value` indexed by one key and `Value::as_i64`: the whole number of
/// 64 bits there, if there is one.
#[verifier::external_body]
pub(crate) fn int_at(v: &serde_json::Value, a: &str) -> (r: Option<i64>)
    ensures
        opt_int(r) == number_in(json_ints(*v), seq![Step::Key(a@)]),
{
    v[a].as_i64()
}

} // verus!
