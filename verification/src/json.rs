//! JSON values.

use crate::number;
use crate::order;
use crate::text;
use vstd::prelude::*;

verus! {

/// A JSON value.
#[derive(Debug)]
pub enum Json {
    Null,
    Bool(bool),
    /// An integer that fits into 64 bits with a sign.
    Int(i64),
    /// Any other number, as it is written.
    Number(String),
    Str(String),
    Array(Vec<Json>),
    Object(Vec<JsonEntry>),
}

/// A member of an object.
#[derive(Debug)]
pub struct JsonEntry {
    pub key: String,
    pub value: Json,
}

/// What a [`Json`] says.
pub enum JsonView {
    Null,
    Bool(bool),
    Int(i64),
    Number(Seq<char>),
    Str(Seq<char>),
    Array(Seq<JsonView>),
    Object(Seq<(Seq<char>, JsonView)>),
}

/// What a value says.
pub open spec fn json_view(j: Json) -> JsonView
    decreases j,
{
    match j {
        Json::Null => JsonView::Null,
        Json::Bool(b) => JsonView::Bool(b),
        Json::Int(n) => JsonView::Int(n),
        Json::Number(n) => JsonView::Number(n@),
        Json::Str(s) => JsonView::Str(s@),
        Json::Array(list) => JsonView::Array(
            Seq::new(
                list@.len(),
                |i: int|
                    if 0 <= i < list@.len() {
                        json_view(list@[i])
                    } else {
                        JsonView::Null
                    },
            ),
        ),
        Json::Object(entries) => JsonView::Object(
            Seq::new(
                entries@.len(),
                |i: int|
                    if 0 <= i < entries@.len() {
                        (entries@[i].key@, json_view(entries@[i].value))
                    } else {
                        (Seq::empty(), JsonView::Null)
                    },
            ),
        ),
    }
}

impl View for Json {
    type V = JsonView;

    open spec fn view(&self) -> JsonView {
        json_view(*self)
    }
}

/// The members of an object in memory.
pub open spec fn entry_views(entries: Seq<JsonEntry>) -> Seq<(Seq<char>, JsonView)> {
    entries.map_values(|e: JsonEntry| (e.key@, e.value@))
}

/// The values of a list in memory.
pub open spec fn value_views(list: Seq<Json>) -> Seq<JsonView> {
    list.map_values(|j: Json| j@)
}

/// The place of the first member with a key, from place `i` on; the number of
/// members where there is none.
pub open spec fn member_place(entries: Seq<(Seq<char>, JsonView)>, key: Seq<char>, i: int) -> int
    decreases entries.len() - i,
{
    if i < 0 || i >= entries.len() {
        entries.len() as int
    } else if entries[i].0 == key {
        i
    } else {
        member_place(entries, key, i + 1)
    }
}

/// The member of an object with a key, where there is one.
pub open spec fn member(v: JsonView, key: Seq<char>) -> Option<JsonView> {
    match v {
        JsonView::Object(entries) => {
            let p = member_place(entries, key, 0);
            if p < entries.len() {
                Some(entries[p].1)
            } else {
                None
            }
        },
        _ => None,
    }
}

/// The value of an array at a place, where there is one.
pub open spec fn element(v: JsonView, i: int) -> Option<JsonView> {
    match v {
        JsonView::Array(list) => if 0 <= i < list.len() {
            Some(list[i])
        } else {
            None
        },
        _ => None,
    }
}

/// What a value says, where there is one.
pub open spec fn opt_json(j: Option<&Json>) -> Option<JsonView> {
    match j {
        Some(j) => Some(j@),
        None => None,
    }
}

impl Json {
    /// The member of an object with a key.
    pub fn get(&self, key: &str) -> (r: Option<&Json>)
        ensures
            opt_json(r) == member(self@, key@),
    {
        match self {
            Json::Object(entries) => {
                let ghost all = self@->Object_0;
                let mut i: usize = 0;
                while i < entries.len()
                    invariant
                        i <= entries@.len(),
                        *self == Json::Object(*entries),
                        all == self@->Object_0,
                        all.len() == entries@.len(),
                        member_place(all, key@, 0) == member_place(all, key@, i as int),
                    decreases entries@.len() - i,
                {
                    assert(all[i as int] == (entries@[i as int].key@, entries@[i as int].value@));
                    if text::same(entries[i].key.as_str(), key) {
                        return Some(&entries[i].value);
                    }
                    i = i + 1;
                }
                None
            },
            _ => None,
        }
    }

    /// The value of an array at a place.
    pub fn at(&self, i: usize) -> (r: Option<&Json>)
        ensures
            opt_json(r) == element(self@, i as int),
    {
        match self {
            Json::Array(list) => {
                if i < list.len() {
                    Some(&list[i])
                } else {
                    None
                }
            },
            _ => None,
        }
    }
}

/// Makes an object out of its members.
pub fn object(entries: Vec<JsonEntry>) -> (r: Json)
    ensures
        r@ == JsonView::Object(entry_views(entries@)),
{
    let ghost all = entry_views(entries@);
    let r = Json::Object(entries);
    assert(r@->Object_0 =~= all);
    r
}

/// Makes an array out of its values.
pub fn array(list: Vec<Json>) -> (r: Json)
    ensures
        r@ == JsonView::Array(value_views(list@)),
{
    let ghost all = value_views(list@);
    let r = Json::Array(list);
    assert(r@->Array_0 =~= all);
    r
}

/// Makes a string.
pub fn string(s: &str) -> (r: Json)
    ensures
        r@ == JsonView::Str(s@),
{
    Json::Str(String::from_str(s))
}

/// Puts a member at the end of a list of members.
pub fn put(entries: &mut Vec<JsonEntry>, key: &str, value: Json)
    ensures
        entry_views(final(entries)@) == entry_views(old(entries)@).push((key@, value@)),
{
    let ghost before = entry_views(entries@);
    entries.push(JsonEntry { key: String::from_str(key), value });
    assert(entry_views(entries@) =~= before.push((key@, value@)));
}

/// Whether a value is an object of strings and integers, with its keys in
/// strictly increasing order.
pub open spec fn is_flat(v: JsonView) -> bool {
    &&& v is Object
    &&& forall|i: int|
        0 <= i < v->Object_0.len() ==> (#[trigger] v->Object_0[i]).1 is Str || v->Object_0[i].1
            is Int
    &&& forall|i: int, j: int|
        0 <= i < j < v->Object_0.len() ==> order::precedes(
            (#[trigger] v->Object_0[i]).0,
            (#[trigger] v->Object_0[j]).0,
        )
}

/// `serde_json::Value`, the value that `serde_json` reads and writes.
#[verifier::external_type_specification]
#[verifier::external_body]
pub struct ExJsonValue(serde_json::Value);

/// The text that `serde_json` writes for a value, without white space.
pub uninterp spec fn json_text(v: JsonView) -> Seq<char>;

/// The text that `serde_json` writes for a value, over several lines.
pub uninterp spec fn pretty_json_text(v: JsonView) -> Seq<char>;

/// The value in a text, as `serde_json::from_str` reads it; nothing where the
/// text is not JSON.
pub uninterp spec fn parsed_json(s: Seq<char>) -> Option<JsonView>;

/// Takes over a `serde_json::Value` part by part. A number that does not fit
/// into 64 bits with a sign is taken by the text that `serde_json` writes for it.
/// Nothing is claimed of the result.
#[verifier::external_body]
fn json_of(v: serde_json::Value) -> Json {
    match v {
        serde_json::Value::Null => Json::Null,
        serde_json::Value::Bool(b) => Json::Bool(b),
        serde_json::Value::Number(n) => {
            n.as_i64().map_or_else(|| Json::Number(n.to_string()), Json::Int)
        },
        serde_json::Value::String(s) => Json::Str(s),
        serde_json::Value::Array(l) => Json::Array(l.into_iter().map(json_of).collect()),
        serde_json::Value::Object(m) => Json::Object(
            m.into_iter().map(|(key, v)| JsonEntry { key, value: json_of(v) }).collect(),
        ),
    }
}

/// Hands a value over to `serde_json` part by part. Nothing is claimed of the
/// result.
#[verifier::external_body]
fn value_of(j: &Json) -> serde_json::Value {
    match j {
        Json::Null => serde_json::Value::Null,
        Json::Bool(b) => serde_json::Value::Bool(*b),
        Json::Int(n) => serde_json::Value::from(*n),
        Json::Number(n) => serde_json::from_str(n).unwrap_or_default(),
        Json::Str(s) => serde_json::Value::String(s.clone()),
        Json::Array(l) => serde_json::Value::Array(l.iter().map(value_of).collect()),
        Json::Object(m) => serde_json::Value::Object(
            m.iter().map(|e| (e.key.clone(), value_of(&e.value))).collect(),
        ),
    }
}

/// `serde_json::from_str` reads a text as one JSON value. What comes out is a
/// function of the text, which [`parsed_json`] names; how JSON is read is not
/// stated.
#[verifier::external_body]
pub(crate) fn parse_json(s: &str) -> (r: Option<Json>)
    ensures
        match r {
            Some(j) => parsed_json(s@) == Some(j@),
            None => parsed_json(s@) is None,
        },
{
    serde_json::from_str::<serde_json::Value>(s).ok().map(json_of)
}

/// The `Display` of `serde_json::Value` writes a value without white space. The
/// text is a function of the value, which [`json_text`] names. A boolean is
/// written as its word and an integer in decimal; and an object of strings and
/// integers, with its keys in order, is read back as it was.
#[verifier::external_body]
pub(crate) fn write_json(j: &Json) -> (r: String)
    ensures
        r@ == json_text(j@),
        j@ matches JsonView::Bool(b) ==> r@ == if b {
            "true"@
        } else {
            "false"@
        },
        j@ matches JsonView::Int(n) ==> r@ == number::decimal_int(n as int),
        is_flat(j@) ==> parsed_json(r@) == Some(j@),
{
    value_of(j).to_string()
}

/// `serde_json::to_string_pretty` writes a value over several lines. The text is
/// a function of the value, which [`pretty_json_text`] names; how it is laid out
/// is not stated.
#[verifier::external_body]
pub(crate) fn write_json_pretty(j: &Json) -> (r: String)
    ensures
        r@ == pretty_json_text(j@),
{
    serde_json::to_string_pretty(&value_of(j)).unwrap_or_default()
}

/// The member of an object with a key is the first that has the key; there is none where no
/// member has it, or the value is no object.
pub proof fn lemma_first_member(
    before: Seq<(Seq<char>, JsonView)>,
    key: Seq<char>,
    value: JsonView,
    after: Seq<(Seq<char>, JsonView)>,
    v: JsonView,
)
    requires
        forall|i: int| 0 <= i < before.len() ==> (#[trigger] before[i]).0 != key,
    ensures
        member(JsonView::Object(before.push((key, value)) + after), key) == Some(value),
        member(JsonView::Object(before), key) is None,
        !(v is Object) ==> member(v, key) is None,
{
    let entries = before.push((key, value)) + after;
    lemma_place_is(entries, key, 0, before.len() as int);
    lemma_place_is(before, key, 0, before.len() as int);
    assert(entries[before.len() as int] == (key, value));
}

proof fn lemma_place_is(entries: Seq<(Seq<char>, JsonView)>, key: Seq<char>, i: int, p: int)
    requires
        0 <= i <= p <= entries.len(),
        forall|j: int| i <= j < p ==> (#[trigger] entries[j]).0 != key,
        p < entries.len() ==> entries[p].0 == key,
    ensures
        member_place(entries, key, i) == p,
    decreases p - i,
{
    if i < p {
        assert(entries[i].0 != key);
        lemma_place_is(entries, key, i + 1, p);
    }
}

/// The elements of an array are counted from zero.
pub proof fn lemma_element(before: Seq<JsonView>, value: JsonView, after: Seq<JsonView>, v: JsonView)
    ensures
        element(JsonView::Array(before.push(value) + after), before.len() as int) == Some(value),
        element(JsonView::Array(before), before.len() as int) is None,
        !(v is Array) ==> element(v, before.len() as int) is None,
{
}

} // verus!
