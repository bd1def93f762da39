//! JSON documents as plain values, and reading and writing them.
use vstd::prelude::*;

use crate::split::{split, split_at_char};
use crate::text::{same_text, views};

verus! {

/// A JSON value. Of a number only its value as an unsigned integer is kept.
#[derive(Debug, PartialEq, Eq)]
pub enum Json {
    Null,
    Bool(bool),
    Number(Option<u64>),
    Text(String),
    List(Vec<Json>),
    Object(Vec<(String, Json)>),
}

/// What a JSON value says.
pub enum JsonView {
    Null,
    Bool(bool),
    Number(Option<u64>),
    Text(Seq<char>),
    List(Seq<JsonView>),
    Object(Seq<(Seq<char>, JsonView)>),
}

/// What a JSON value says.
pub open spec fn json_view(value: Json) -> JsonView
    decreases value,
{
    match value {
        Json::Null => JsonView::Null,
        Json::Bool(b) => JsonView::Bool(b),
        Json::Number(n) => JsonView::Number(n),
        Json::Text(t) => JsonView::Text(t@),
        Json::List(items) => JsonView::List(
            Seq::new(
                items@.len(),
                |i: int|
                    if 0 <= i < items@.len() {
                        json_view(items@[i])
                    } else {
                        JsonView::Null
                    },
            ),
        ),
        Json::Object(fields) => JsonView::Object(
            Seq::new(
                fields@.len(),
                |i: int|
                    if 0 <= i < fields@.len() {
                        (fields@[i].0@, json_view(fields@[i].1))
                    } else {
                        (Seq::empty(), JsonView::Null)
                    },
            ),
        ),
    }
}

impl View for Json {
    type V = JsonView;

    open spec fn view(&self) -> JsonView {
        json_view(*self)
    }
}

/// What the field `key` of an object holds: the first of that name.
pub open spec fn field_of(fields: Seq<(Seq<char>, JsonView)>, key: Seq<char>) -> Option<JsonView>
    decreases fields.len(),
{
    if fields.len() == 0 {
        None
    } else if fields[0].0 == key {
        Some(fields[0].1)
    } else {
        field_of(fields.skip(1), key)
    }
}

impl JsonView {
    /// The field `key`, if this is an object that has it.
    pub open spec fn get(self, key: Seq<char>) -> Option<JsonView> {
        match self {
            JsonView::Object(fields) => field_of(fields, key),
            _ => None,
        }
    }

    /// The text, if this is one.
    pub open spec fn text(self) -> Option<Seq<char>> {
        match self {
            JsonView::Text(t) => Some(t),
            _ => None,
        }
    }

    /// The unsigned integer, if this is one.
    pub open spec fn unsigned(self) -> Option<u64> {
        match self {
            JsonView::Number(n) => n,
            _ => None,
        }
    }

    /// The truth value, if this is one.
    pub open spec fn truth(self) -> Option<bool> {
        match self {
            JsonView::Bool(b) => Some(b),
            _ => None,
        }
    }

    /// The items, if this is a list.
    pub open spec fn items(self) -> Option<Seq<JsonView>> {
        match self {
            JsonView::List(s) => Some(s),
            _ => None,
        }
    }
}

/// The value at the end of a path of fields.
pub open spec fn at_path(v: JsonView, path: Seq<Seq<char>>) -> Option<JsonView>
    decreases path.len(),
{
    if path.len() == 0 {
        Some(v)
    } else {
        match at_path(v, path.drop_last()) {
            Some(inner) => inner.get(path.last()),
            None => None,
        }
    }
}

/// The value at the end of a path written with a full stop between its fields.
pub open spec fn at_dotted(v: JsonView, path: Seq<char>) -> Option<JsonView> {
    at_path(v, split_at_char(path, '.'))
}

/// The text at the end of a dotted path.
pub open spec fn text_at(v: JsonView, path: Seq<char>) -> Option<Seq<char>> {
    match at_dotted(v, path) {
        Some(inner) => inner.text(),
        None => None,
    }
}

/// The unsigned integer at the end of a dotted path.
pub open spec fn unsigned_at(v: JsonView, path: Seq<char>) -> Option<u64> {
    match at_dotted(v, path) {
        Some(inner) => inner.unsigned(),
        None => None,
    }
}

/// The truth value at the end of a dotted path.
pub open spec fn truth_at(v: JsonView, path: Seq<char>) -> Option<bool> {
    match at_dotted(v, path) {
        Some(inner) => inner.truth(),
        None => None,
    }
}

/// The list at the end of a dotted path.
pub open spec fn items_at(v: JsonView, path: Seq<char>) -> Option<Seq<JsonView>> {
    match at_dotted(v, path) {
        Some(inner) => inner.items(),
        None => None,
    }
}

/// The view of an optional reference to a value.
pub open spec fn opt_json_view(v: Option<&Json>) -> Option<JsonView> {
    match v {
        Some(j) => Some(j@),
        None => None,
    }
}

/// What a list of values says.
pub open spec fn json_views(s: Seq<Json>) -> Seq<JsonView> {
    s.map_values(|j: Json| j@)
}

impl Json {
    /// The field `key`, if this is an object that has it.
    pub fn get(&self, key: &str) -> (r: Option<&Json>)
        ensures
            opt_json_view(r) == self@.get(key@),
    {
        match self {
            Json::Object(fields) => {
                let ghost all = self@->Object_0;
                let mut i: usize = 0;
                proof {
                    assert(all.skip(0) =~= all);
                }
                while i < fields.len()
                    invariant
                        i <= fields@.len(),
                        *self == Json::Object(*fields),
                        all == self@->Object_0,
                        all.len() == fields@.len(),
                        field_of(all, key@) == field_of(all.skip(i as int), key@),
                    decreases fields@.len() - i,
                {
                    proof {
                        assert(all.skip(i as int)[0] == all[i as int]);
                        assert(all[i as int] == (fields@[i as int].0@, fields@[i as int].1@));
                        assert(all.skip(i as int).skip(1) =~= all.skip(i + 1));
                    }
                    if same_text(fields[i].0.as_str(), key) {
                        return Some(&fields[i].1);
                    }
                    i += 1;
                }
                None
            },
            _ => None,
        }
    }

    /// The text, if this is one.
    pub fn as_str(&self) -> (r: Option<&str>)
        ensures
            match r {
                Some(t) => self@.text() == Some(t@),
                None => self@.text() is None,
            },
    {
        match self {
            Json::Text(t) => Some(t.as_str()),
            _ => None,
        }
    }

    /// The unsigned integer, if this is one.
    pub fn as_u64(&self) -> (r: Option<u64>)
        ensures
            r == self@.unsigned(),
    {
        match self {
            Json::Number(n) => *n,
            _ => None,
        }
    }

    /// The truth value, if this is one.
    pub fn as_bool(&self) -> (r: Option<bool>)
        ensures
            r == self@.truth(),
    {
        match self {
            Json::Bool(b) => Some(*b),
            _ => None,
        }
    }

    /// The items, if this is a list.
    pub fn as_list(&self) -> (r: Option<&Vec<Json>>)
        ensures
            match r {
                Some(items) => self@.items() == Some(json_views(items@)),
                None => self@.items() is None,
            },
    {
        match self {
            Json::List(items) => {
                proof {
                    assert(json_views(items@) =~= self@->List_0);
                }
                Some(items)
            },
            _ => None,
        }
    }

    /// The value at the end of a dotted path.
    pub fn at(&self, path: &str) -> (r: Option<&Json>)
        ensures
            opt_json_view(r) == at_dotted(self@, path@),
    {
        let steps = split(path, '.');
        let ghost all = views(steps@);
        let mut here = self;
        let mut i: usize = 0;
        proof {
            assert(all.take(0) =~= Seq::empty());
        }
        while i < steps.len()
            invariant
                i <= steps@.len(),
                all == views(steps@),
                all == split_at_char(path@, '.'),
                at_path(self@, all.take(i as int)) == Some(here@),
            decreases steps@.len() - i,
        {
            proof {
                assert(all.take(i + 1).drop_last() =~= all.take(i as int));
                assert(all.take(i + 1).last() == steps@[i as int]@);
            }
            match here.get(steps[i].as_str()) {
                Some(inner) => {
                    here = inner;
                },
                None => {
                    proof {
                        lemma_no_path(self@, all, i + 1);
                    }
                    return None;
                },
            }
            i += 1;
        }
        proof {
            assert(all.take(all.len() as int) =~= all);
        }
        Some(here)
    }

    /// The text at the end of a dotted path.
    pub fn text_at(&self, path: &str) -> (r: Option<&str>)
        ensures
            match r {
                Some(t) => text_at(self@, path@) == Some(t@),
                None => text_at(self@, path@) is None,
            },
    {
        match self.at(path) {
            Some(v) => v.as_str(),
            None => None,
        }
    }

    /// The unsigned integer at the end of a dotted path.
    pub fn u64_at(&self, path: &str) -> (r: Option<u64>)
        ensures
            r == unsigned_at(self@, path@),
    {
        match self.at(path) {
            Some(v) => v.as_u64(),
            None => None,
        }
    }

    /// The truth value at the end of a dotted path.
    pub fn bool_at(&self, path: &str) -> (r: Option<bool>)
        ensures
            r == truth_at(self@, path@),
    {
        match self.at(path) {
            Some(v) => v.as_bool(),
            None => None,
        }
    }

    /// The list at the end of a dotted path.
    pub fn list_at(&self, path: &str) -> (r: Option<&Vec<Json>>)
        ensures
            match r {
                Some(items) => items_at(self@, path@) == Some(json_views(items@)),
                None => items_at(self@, path@) is None,
            },
    {
        match self.at(path) {
            Some(v) => v.as_list(),
            None => None,
        }
    }
}

proof fn lemma_no_path(v: JsonView, path: Seq<Seq<char>>, n: int)
    requires
        0 <= n <= path.len(),
        at_path(v, path.take(n)) is None,
    ensures
        at_path(v, path) is None,
    decreases path.len() - n,
{
    if n < path.len() {
        assert(path.take(n + 1).drop_last() =~= path.take(n));
        lemma_no_path(v, path, n + 1);
    } else {
        assert(path.take(n) =~= path);
    }
}

// ---------------------------------------------------------------------------
// Reading and writing
// ---------------------------------------------------------------------------

/// The value that a JSON document stands for, or none where the text is no JSON
/// document.
pub uninterp spec fn json_document(text: Seq<char>) -> Option<JsonView>;

/// The compact text of a JSON value.
pub uninterp spec fn json_compact(value: JsonView) -> Seq<char>;

/// The text of a JSON value with one field or item on each line.
pub uninterp spec fn json_indented(value: JsonView) -> Seq<char>;

/// A `serde_json::Value` with its texts, truth values, lists and objects moved into
/// a `Json`, object fields in the order of the map. Of a number, what
/// `serde_json::Number::as_u64` gives.
#[verifier::external_body]
fn json_from_value(value: serde_json::Value) -> (r: Json) {
    match value {
        serde_json::Value::Null => Json::Null,
        serde_json::Value::Bool(b) => Json::Bool(b),
        serde_json::Value::Number(n) => Json::Number(n.as_u64()),
        serde_json::Value::String(t) => Json::Text(t),
        serde_json::Value::Array(items) => Json::List(
            items.into_iter().map(json_from_value).collect(),
        ),
        serde_json::Value::Object(map) => Json::Object(
            map.into_iter().map(|(k, v)| (k, json_from_value(v))).collect(),
        ),
    }
}

#[verifier::external_type_specification]
#[verifier::external_body]
pub struct ExValue(serde_json::Value);

/// Trusted: `serde_json::from_str` into a `serde_json::Value`. The value, or that
/// there is none, depends on the text alone.
#[verifier::external_body]
pub(crate) fn read_json(text: &str) -> (r: Option<Json>)
    ensures
        match r {
            Some(v) => json_document(text@) == Some(v@),
            None => json_document(text@) is None,
        },
{
    serde_json::from_str::<serde_json::Value>(text).ok().map(json_from_value)
}

/// A `Json` as a `serde_json::Value`, built by the `From` impls of that type: an
/// unsigned integer as a number, and a number that is none as `null`.
#[verifier::external_body]
fn value_from_json(value: &Json) -> (r: serde_json::Value) {
    match value {
        Json::Null => serde_json::Value::Null,
        Json::Bool(b) => serde_json::Value::from(*b),
        Json::Number(n) => serde_json::Value::from(*n),
        Json::Text(t) => serde_json::Value::from(t.as_str()),
        Json::List(items) => serde_json::Value::Array(items.iter().map(value_from_json).collect()),
        Json::Object(fields) => serde_json::Value::Object(
            fields.iter().map(|(k, v)| (k.clone(), value_from_json(v))).collect(),
        ),
    }
}

/// Trusted: the `Display` impl of `serde_json::Value`, which writes compact JSON. The
/// text depends on the value alone.
#[verifier::external_body]
pub(crate) fn write_json(value: &Json) -> (r: String)
    ensures
        r@ == json_compact(value@),
{
    value_from_json(value).to_string()
}

/// Trusted: the alternate form of the `Display` impl of `serde_json::Value`, which
/// writes indented JSON. The text depends on the value alone.
#[verifier::external_body]
pub(crate) fn write_indented_json(value: &Json) -> (r: String)
    ensures
        r@ == json_indented(value@),
{
    format!("{:#}", value_from_json(value))
}

/// An object field.
pub fn field(key: &str, value: Json) -> (r: (String, Json))
    ensures
        r.0@ == key@,
        r.1@ == value@,
{
    (key.to_owned(), value)
}

/// What object fields say.
pub open spec fn field_views(s: Seq<(String, Json)>) -> Seq<(Seq<char>, JsonView)> {
    s.map_values(|f: (String, Json)| (f.0@, f.1@))
}

/// A JSON object with these fields.
pub fn json_object(fields: Vec<(String, Json)>) -> (r: Json)
    ensures
        r@ == JsonView::Object(field_views(fields@)),
{
    let ghost all = field_views(fields@);
    let r = Json::Object(fields);
    proof {
        assert(r@->Object_0 =~= all);
    }
    r
}

/// A JSON list with these items.
pub fn json_list(items: Vec<Json>) -> (r: Json)
    ensures
        r@ == JsonView::List(json_views(items@)),
{
    let ghost all = json_views(items@);
    let r = Json::List(items);
    proof {
        assert(r@->List_0 =~= all);
    }
    r
}

/// A JSON number.
pub fn json_number(n: u64) -> (r: Json)
    ensures
        r@ == JsonView::Number(Some(n)),
{
    Json::Number(Some(n))
}

/// A JSON truth value.
pub fn json_bool(b: bool) -> (r: Json)
    ensures
        r@ == JsonView::Bool(b),
{
    Json::Bool(b)
}

/// A JSON text.
pub fn json_text(t: &str) -> (r: Json)
    ensures
        r@ == JsonView::Text(t@),
{
    Json::Text(t.to_owned())
}

/// The JSON value that a document stands for.
pub fn parse_json(text: &str) -> (r: Option<Json>)
    ensures
        match r {
            Some(v) => json_document(text@) == Some(v@),
            None => json_document(text@) is None,
        },
{
    read_json(text)
}

// ---------------------------------------------------------------------------
// What holds of it
// ---------------------------------------------------------------------------

/// The value of a field is that of the first with its name.
pub proof fn law_the_first_field_stands(
    key: Seq<char>,
    other: Seq<char>,
    value: JsonView,
    rest: Seq<(Seq<char>, JsonView)>,
)
    ensures
        JsonView::Object(seq![(key, value)] + rest).get(key) == Some(value),
        other != key ==> JsonView::Object(seq![(other, value)] + rest).get(key)
            == JsonView::Object(rest).get(key),
        JsonView::Object(Seq::empty()).get(key) is None,
{
    assert((seq![(key, value)] + rest)[0] == (key, value));
    assert((seq![(other, value)] + rest)[0] == (other, value));
    assert((seq![(other, value)] + rest).skip(1) =~= rest);
}

/// A path leads from field to field; where one is missing, it leads nowhere.
pub proof fn law_paths_lead_from_field_to_field(v: JsonView, path: Seq<Seq<char>>, key: Seq<char>)
    ensures
        at_path(v, Seq::empty()) == Some(v),
        at_path(v, path) matches Some(inner) ==> at_path(v, path.push(key)) == inner.get(key),
        at_path(v, path) is None ==> at_path(v, path.push(key)) is None,
        !key.contains('.') ==> at_dotted(v, key) == v.get(key),
{
    assert(path.push(key).drop_last() =~= path);
    if !key.contains('.') {
        crate::split::law_fields(key, Seq::empty(), '.');
        assert(seq![key].drop_last() =~= Seq::empty());
        reveal_with_fuel(at_path, 2);
    }
}

/// A value is read only as what it is.
pub proof fn law_values_are_read_as_what_they_are(t: Seq<char>, n: u64, b: bool, s: Seq<JsonView>)
    ensures
        JsonView::Text(t).text() == Some(t),
        JsonView::Number(Some(n)).unsigned() == Some(n),
        JsonView::Bool(b).truth() == Some(b),
        JsonView::List(s).items() == Some(s),
        JsonView::Null.text() is None && JsonView::Number(Some(n)).text() is None
            && JsonView::Bool(b).text() is None,
        JsonView::Text(t).unsigned() is None && JsonView::Text(t).truth() is None
            && JsonView::Text(t).items() is None,
{
}

} // verus!
