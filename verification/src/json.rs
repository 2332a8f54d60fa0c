//! JSON values, as `serde_json` holds, reads and writes them.

use serde_json::Value;
use vstd::prelude::*;

verus! {

/// A JSON value. A number that is held as an integer is an `Int`; one that is
/// held as a double, such as 3.0, is a `Real`, by the bits of that double.
pub enum JsonView {
    Null,
    Bool(bool),
    Int(int),
    Real(u64),
    Text(Seq<char>),
    List(Seq<JsonView>),
    Object(Map<Seq<char>, JsonView>),
}

impl JsonView {
    /// Holds no number with a fraction, and lists and objects within one another
    /// no more than `depth` times.
    pub open spec fn plain(self, depth: nat) -> bool
        decreases depth,
    {
        match self {
            JsonView::Real(_) => false,
            JsonView::List(items) => depth > 0 && forall|i: int|
                0 <= i < items.len() ==> (#[trigger] items[i]).plain((depth - 1) as nat),
            JsonView::Object(members) => depth > 0 && forall|key: Seq<char>| #[trigger]
                members.contains_key(key) ==> members[key].plain((depth - 1) as nat),
            _ => true,
        }
    }

    /// The member `key` of an object, and null for anything else.
    pub open spec fn member(self, key: Seq<char>) -> JsonView {
        match self {
            JsonView::Object(members) if members.contains_key(key) => members[key],
            _ => JsonView::Null,
        }
    }

    /// The text that a string holds.
    pub open spec fn text(self) -> Option<Seq<char>> {
        match self {
            JsonView::Text(text) => Some(text),
            _ => None,
        }
    }
}

/// How many lists and objects within one another `serde_json` reads.
pub const READ_DEPTH: u8 = 127;

#[verifier::external_type_specification]
#[verifier::external_body]
pub struct ExValue(Value);

/// What a `serde_json::Value` holds.
pub uninterp spec fn json_view(value: Value) -> JsonView;

/// What `serde_json::from_str` makes of a text: the value that it spells, or
/// the message of the error.
pub uninterp spec fn json_read(text: Seq<char>) -> Result<JsonView, Seq<char>>;

/// The compact text of a value, as `serde_json` displays it.
pub uninterp spec fn json_text(value: JsonView) -> Seq<char>;

/// The indented text of a value, as `serde_json::to_string_pretty` writes it.
pub uninterp spec fn json_pretty_text(value: JsonView) -> Seq<char>;

/// What each of `values` holds.
pub open spec fn json_views(values: Seq<Value>) -> Seq<JsonView> {
    Seq::new(values.len(), |i: int| json_view(values[i]))
}

/// The text reads as the value.
pub open spec fn reads_as(text: Seq<char>, value: JsonView) -> bool {
    json_read(text) matches Ok(view) && view == value
}

/// The text begins with an opening and ends with a closing brace.
pub open spec fn in_braces(text: Seq<char>) -> bool {
    text.len() >= 2 && text.first() == '{' && text.last() == '}'
}

/// `serde_json::from_str` for a `serde_json::Value`: the value that the text
/// spells, or the error's message. What the message says is not stated.
#[verifier::external_body]
pub(crate) fn read_json(text: &str) -> (r: Result<Value, String>)
    ensures
        match (r, json_read(text@)) {
            (Ok(value), Ok(view)) => json_view(value) == view,
            (Err(message), Err(expected)) => message@ == expected,
            _ => false,
        },
{
    serde_json::from_str::<Value>(text).map_err(|error| error.to_string())
}

/// `to_string` of a `serde_json::Value`, the compact text. It holds no line
/// feed, since control characters are written as escapes; an object's text
/// stands between braces; and a value without fractions reads back from its
/// text, if its lists and objects are nested no deeper than the reader follows.
#[verifier::external_body]
pub(crate) fn json_line(value: &Value) -> (r: String)
    ensures
        r@ == json_text(json_view(*value)),
        !r@.contains('\n'),
        json_view(*value) is Object ==> in_braces(r@),
        json_view(*value).plain(READ_DEPTH as nat) ==> reads_as(r@, json_view(*value)),
{
    value.to_string()
}

/// `serde_json::to_string_pretty` of a value, which cannot fail: every key of
/// a `serde_json::Value` is a string.
#[verifier::external_body]
pub(crate) fn json_pretty(value: &Value) -> (r: String)
    ensures
        r@ == json_pretty_text(json_view(*value)),
{
    serde_json::to_string_pretty(value).unwrap_or_default()
}

/// `Value::String`.
#[verifier::external_body]
pub(crate) fn json_string(text: &str) -> (r: Value)
    ensures
        json_view(r) == JsonView::Text(text@),
{
    Value::String(text.to_string())
}

/// `Value::from` for a signed number.
#[verifier::external_body]
pub(crate) fn json_int(n: i64) -> (r: Value)
    ensures
        json_view(r) == JsonView::Int(n as int),
{
    Value::from(n)
}

/// `Value::from` for an unsigned number.
#[verifier::external_body]
pub(crate) fn json_uint(n: u64) -> (r: Value)
    ensures
        json_view(r) == JsonView::Int(n as int),
{
    Value::from(n)
}

/// `Value::Bool`.
#[verifier::external_body]
pub(crate) fn json_bool(b: bool) -> (r: Value)
    ensures
        json_view(r) == JsonView::Bool(b),
{
    Value::Bool(b)
}

/// `Value::Array`.
#[verifier::external_body]
pub(crate) fn json_list(items: Vec<Value>) -> (r: Value)
    ensures
        json_view(r) == JsonView::List(json_views(items@)),
{
    Value::Array(items)
}

/// `Value::Object` of an empty `serde_json::Map`.
#[verifier::external_body]
pub(crate) fn json_object() -> (r: Value)
    ensures
        json_view(r) == JsonView::Object(Map::empty()),
{
    Value::Object(serde_json::Map::new())
}

/// `serde_json::Map::insert` on the members of an object, reached with
/// `Value::as_object_mut`: the key gets the value, in place of any that it
/// had. A value that is no object stays as it is.
#[verifier::external_body]
pub(crate) fn json_insert(target: &mut Value, key: &str, value: Value)
    ensures
        json_view(*final(target)) == match json_view(*old(target)) {
            JsonView::Object(members) => JsonView::Object(members.insert(key@, json_view(value))),
            other => other,
        },
{
    if let Some(members) = target.as_object_mut() {
        members.insert(key.to_string(), value);
    }
}

/// Indexing a `serde_json::Value` with a key: the object's member, and null
/// where there is none or where the value is no object.
#[verifier::external_body]
pub(crate) fn json_member<'a>(value: &'a Value, key: &str) -> (r: &'a Value)
    ensures
        json_view(*r) == json_view(*value).member(key@),
{
    &value[key]
}

/// `Value::get` with a position: the list's item, if it is long enough.
#[verifier::external_body]
pub(crate) fn json_item(value: &Value, at: usize) -> (r: Option<&Value>)
    ensures
        match json_view(*value) {
            JsonView::List(items) if at < items.len() => r is Some && json_view(*r->0)
                == items[at as int],
            _ => r is None,
        },
{
    value.get(at)
}

/// `Value::as_str`.
#[verifier::external_body]
pub(crate) fn json_as_str(value: &Value) -> (r: Option<&str>)
    ensures
        match (r, json_view(*value).text()) {
            (Some(text), Some(view)) => text@ == view,
            (None, None) => true,
            _ => false,
        },
{
    value.as_str()
}

/// `Value::as_array`.
#[verifier::external_body]
pub(crate) fn json_as_list(value: &Value) -> (r: Option<&Vec<Value>>)
    ensures
        match json_view(*value) {
            JsonView::List(items) => r is Some && json_views(r->0@) == items,
            _ => r is None,
        },
{
    value.as_array()
}

/// `Value::clone`.
#[verifier::external_body]
pub(crate) fn json_copy(value: &Value) -> (r: Value)
    ensures
        json_view(r) == json_view(*value),
{
    value.clone()
}

/// An object's member is the value under its key; what has no such member gives
/// null, and only a string gives a text.
pub proof fn lemma_members(members: Map<Seq<char>, JsonView>, key: Seq<char>, value: JsonView)
    ensures
        members.contains_key(key) ==> JsonView::Object(members).member(key) == members[key],
        !members.contains_key(key) ==> JsonView::Object(members).member(key) == JsonView::Null,
        !(value is Object) ==> value.member(key) == JsonView::Null,
        JsonView::Text(key).text() == Some(key),
        !(value is Text) ==> value.text() is None,
{
}

/// A value is plain where it has no fraction, however deep, and its lists and
/// objects are nested no deeper than is said.
pub proof fn lemma_plain_values(value: JsonView, depth: nat)
    ensures
        value is Real ==> !value.plain(depth),
        value is Null || value is Bool || value is Int || value is Text ==> value.plain(depth),
        value is List || value is Object ==> !value.plain(0),
        value matches JsonView::List(items) ==> (value.plain(depth + 1) <==> forall|i: int|
            0 <= i < items.len() ==> (#[trigger] items[i]).plain(depth)),
        value matches JsonView::Object(members) ==> (value.plain(depth + 1)
            <==> forall|key: Seq<char>| #[trigger]
            members.contains_key(key) ==> members[key].plain(depth)),
{
    if let JsonView::List(items) = value {
        if value.plain(depth + 1) {
            assert forall|i: int| 0 <= i < items.len() implies (#[trigger] items[i]).plain(depth) by {
                assert(items[i].plain((depth + 1 - 1) as nat));
            }
        }
    }
}

/// A text reads as one value at most, and stands in braces where it begins and
/// ends with one.
pub proof fn lemma_texts_read_once(text: Seq<char>, value: JsonView, other: JsonView)
    ensures
        reads_as(text, value) <==> json_read(text) == Ok::<JsonView, Seq<char>>(value),
        reads_as(text, value) && reads_as(text, other) ==> value == other,
        in_braces(text) <==> text.len() >= 2 && text[0] == '{' && text[text.len() - 1] == '}',
{
}

/// What contracts say of a list of values is what each of them holds, in order.
pub proof fn lemma_values_seen_whole(values: Seq<Value>, i: int)
    ensures
        json_views(values).len() == values.len(),
        0 <= i < values.len() ==> json_views(values)[i] == json_view(values[i]),
{
}

} // verus!
