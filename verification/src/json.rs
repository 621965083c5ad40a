//! JSON values as `gh` prints them, and the lookups that the rest of the library
//! makes in them.
use crate::error::{Error, ErrorView};
use crate::text::same_text;
use vstd::prelude::*;
use vstd::string::*;

verus! {

/// A JSON value. A number is kept as the integer that it is, where it is one
/// that fits in `i64`; every other number reads as `None`.
#[derive(Debug)]
pub enum Json {
    Null,
    Bool(bool),
    Number(Option<i64>),
    Text(String),
    Array(Vec<Json>),
    Object(Vec<(String, Json)>),
}

/// A JSON value over mathematical sequences.
pub enum JsonView {
    Null,
    Bool(bool),
    Number(Option<i64>),
    Text(Seq<char>),
    Array(Seq<JsonView>),
    Object(Seq<(Seq<char>, JsonView)>),
}

pub open spec fn json_view(value: Json) -> JsonView
    decreases value,
{
    match value {
        Json::Null => JsonView::Null,
        Json::Bool(b) => JsonView::Bool(b),
        Json::Number(n) => JsonView::Number(n),
        Json::Text(s) => JsonView::Text(s@),
        Json::Array(items) => JsonView::Array(
            Seq::new(
                items@.len(),
                |i: int|
                    if 0 <= i < items@.len() {
                        json_view(items@[i])
                    } else {
                        JsonView::Null
                    },
            ),
        ),
        Json::Object(fields) => JsonView::Object(
            Seq::new(
                fields@.len(),
                |i: int|
                    if 0 <= i < fields@.len() {
                        (fields@[i].0@, json_view(fields@[i].1))
                    } else {
                        (Seq::empty(), JsonView::Null)
                    },
            ),
        ),
    }
}

impl DeepView for Json {
    type V = JsonView;

    open spec fn deep_view(&self) -> JsonView {
        json_view(*self)
    }
}

/// The value of the last field with that name.
pub open spec fn field_of(fields: Seq<(Seq<char>, JsonView)>, key: Seq<char>) -> Option<JsonView>
    decreases fields.len(),
{
    if fields.len() == 0 {
        None
    } else if fields.last().0 == key {
        Some(fields.last().1)
    } else {
        field_of(fields.drop_last(), key)
    }
}

impl JsonView {
    /// The field `key` of an object; nothing for any other value.
    pub open spec fn field(self, key: Seq<char>) -> Option<JsonView> {
        match self {
            JsonView::Object(fields) => field_of(fields, key),
            _ => None,
        }
    }

    pub open spec fn text(self) -> Option<Seq<char>> {
        match self {
            JsonView::Text(s) => Some(s),
            _ => None,
        }
    }

    /// The text in the field `key`.
    pub open spec fn text_at(self, key: Seq<char>) -> Option<Seq<char>> {
        match self.field(key) {
            Some(v) => v.text(),
            None => None,
        }
    }

    /// The text in the field `key` of the object in the field `outer`.
    pub open spec fn text_within(self, outer: Seq<char>, key: Seq<char>) -> Option<Seq<char>> {
        match self.field(outer) {
            Some(v) => v.text_at(key),
            None => None,
        }
    }

    pub open spec fn integer_at(self, key: Seq<char>) -> Option<i64> {
        match self.field(key) {
            Some(JsonView::Number(n)) => n,
            _ => None,
        }
    }

    pub open spec fn bool_at(self, key: Seq<char>) -> Option<bool> {
        match self.field(key) {
            Some(JsonView::Bool(b)) => Some(b),
            _ => None,
        }
    }

    pub open spec fn array_at(self, key: Seq<char>) -> Option<Seq<JsonView>> {
        match self.field(key) {
            Some(JsonView::Array(items)) => Some(items),
            _ => None,
        }
    }
}

impl Json {
    /// The field `key` of an object; nothing for any other value.
    pub fn get(&self, key: &str) -> (r: Option<&Json>)
        ensures
            match r {
                Some(v) => self.deep_view().field(key@) == Some(v.deep_view()),
                None => self.deep_view().field(key@) is None,
            },
    {
        match self {
            Json::Object(fields) => {
                let ghost shown = self.deep_view()->Object_0;
                let mut i: usize = fields.len();
                assert(shown.take(shown.len() as int) =~= shown);
                while 0 < i
                    invariant
                        i <= fields@.len(),
                        self.deep_view() == JsonView::Object(shown),
                        shown.len() == fields@.len(),
                        forall|k: int|
                            0 <= k < shown.len() ==> #[trigger] shown[k] == (
                                fields@[k].0@,
                                json_view(fields@[k].1),
                            ),
                        field_of(shown, key@) == field_of(shown.take(i as int), key@),
                    decreases i,
                {
                    i -= 1;
                    let ghost head = shown.take(i + 1);
                    assert(head.last() == shown[i as int]);
                    if same_text(fields[i].0.as_str(), key) {
                        return Some(&fields[i].1);
                    }
                    assert(head.drop_last() =~= shown.take(i as int));
                }
                None
            },
            _ => None,
        }
    }

    pub fn as_str(&self) -> (r: Option<&str>)
        ensures
            match r {
                Some(s) => self.deep_view().text() == Some(s@),
                None => self.deep_view().text() is None,
            },
    {
        match self {
            Json::Text(s) => Some(s.as_str()),
            _ => None,
        }
    }

    /// The text in the field `key`.
    pub fn str_at(&self, key: &str) -> (r: Option<&str>)
        ensures
            match r {
                Some(s) => self.deep_view().text_at(key@) == Some(s@),
                None => self.deep_view().text_at(key@) is None,
            },
    {
        match self.get(key) {
            Some(v) => v.as_str(),
            None => None,
        }
    }

    /// The text in the field `key` of the object in the field `outer`.
    pub fn str_within(&self, outer: &str, key: &str) -> (r: Option<&str>)
        ensures
            match r {
                Some(s) => self.deep_view().text_within(outer@, key@) == Some(s@),
                None => self.deep_view().text_within(outer@, key@) is None,
            },
    {
        match self.get(outer) {
            Some(v) => v.str_at(key),
            None => None,
        }
    }

    /// An owned copy of the text in the field `key`.
    pub fn string_at(&self, key: &str) -> (r: Option<String>)
        ensures
            r.deep_view() == self.deep_view().text_at(key@),
    {
        match self.str_at(key) {
            Some(s) => Some(s.to_owned()),
            None => None,
        }
    }

    /// The integer in the field `key`.
    pub fn integer_at(&self, key: &str) -> (r: Option<i64>)
        ensures
            r == self.deep_view().integer_at(key@),
    {
        match self.get(key) {
            Some(Json::Number(n)) => *n,
            _ => None,
        }
    }

    /// The truth value in the field `key`.
    pub fn bool_at(&self, key: &str) -> (r: Option<bool>)
        ensures
            r == self.deep_view().bool_at(key@),
    {
        match self.get(key) {
            Some(Json::Bool(b)) => Some(*b),
            _ => None,
        }
    }

    /// The items of the array in the field `key`.
    pub fn array_at(&self, key: &str) -> (r: Option<&Vec<Json>>)
        ensures
            match r {
                Some(items) => self.deep_view().array_at(key@) == Some(items.deep_view()),
                None => self.deep_view().array_at(key@) is None,
            },
    {
        match self.get(key) {
            Some(Json::Array(items)) => {
                assert(json_view(Json::Array(*items))->Array_0 =~= items.deep_view());
                Some(items)
            },
            _ => None,
        }
    }

    /// A value with the same contents.
    pub fn copy(&self) -> (r: Json)
        ensures
            r.deep_view() == self.deep_view(),
        decreases self,
    {
        match self {
            Json::Null => Json::Null,
            Json::Bool(b) => Json::Bool(*b),
            Json::Number(n) => Json::Number(*n),
            Json::Text(s) => Json::Text(s.clone()),
            Json::Array(items) => {
                let mut out: Vec<Json> = Vec::new();
                let mut i: usize = 0;
                while i < items.len()
                    invariant
                        i <= items@.len(),
                        out@.len() == i,
                        *self == Json::Array(*items),
                        forall|k: int|
                            0 <= k < i ==> json_view(#[trigger] out@[k]) == json_view(items@[k]),
                    decreases items@.len() - i,
                {
                    assert(decreases_to!(*self => self->Array_0));
                    assert(decreases_to!(items => items@));
                    assert(decreases_to!(items@ => items@[i as int]));
                    let one = items[i].copy();
                    out.push(one);
                    i += 1;
                }
                let r = Json::Array(out);
                assert(json_view(r)->Array_0 =~= json_view(*self)->Array_0);
                r
            },
            Json::Object(fields) => {
                let mut out: Vec<(String, Json)> = Vec::new();
                let mut i: usize = 0;
                while i < fields.len()
                    invariant
                        i <= fields@.len(),
                        out@.len() == i,
                        *self == Json::Object(*fields),
                        forall|k: int|
                            0 <= k < i ==> (#[trigger] out@[k]).0@ == fields@[k].0@ && json_view(
                                out@[k].1,
                            ) == json_view(fields@[k].1),
                    decreases fields@.len() - i,
                {
                    assert(decreases_to!(*self => self->Object_0));
                    assert(decreases_to!(fields => fields@));
                    assert(decreases_to!(fields@ => fields@[i as int]));
                    assert(decreases_to!(fields@[i as int] => fields@[i as int].1));
                    let one = fields[i].1.copy();
                    out.push((fields[i].0.clone(), one));
                    i += 1;
                }
                let r = Json::Object(out);
                assert(json_view(r)->Object_0 =~= json_view(*self)->Object_0);
                r
            },
        }
    }
}

/// Values with the same contents.
pub fn copy_all(values: &Vec<Json>) -> (r: Vec<Json>)
    ensures
        r.deep_view() == values.deep_view(),
{
    let mut out: Vec<Json> = Vec::new();
    let mut i: usize = 0;
    while i < values.len()
        invariant
            i <= values@.len(),
            out@.len() == i,
            forall|k: int|
                0 <= k < i ==> json_view(#[trigger] out@[k]) == json_view(values@[k]),
        decreases values@.len() - i,
    {
        let one = values[i].copy();
        out.push(one);
        i += 1;
    }
    assert(out.deep_view() =~= values.deep_view());
    out
}

// ----------------------------------------------------------------------------
// Reading JSON text
// ----------------------------------------------------------------------------

/// Makes `serde_json::Value` known to the verifier, with nothing said of what is
/// inside one.
#[verifier::external_type_specification]
#[verifier::external_body]
pub struct ExValue(serde_json::Value);

/// What a `serde_json::Value` holds.
pub uninterp spec fn value_contents(value: serde_json::Value) -> JsonView;

/// What `serde_json::from_slice` reads from `raw` when it is asked for an array
/// of values: their contents, or the message of its error.
pub uninterp spec fn decoded(raw: Seq<u8>) -> Result<Seq<JsonView>, Seq<char>>;

/// The outermost layer of a `serde_json::Value`.
enum Layer {
    Null,
    Bool(bool),
    Number(Option<i64>),
    Text(String),
    Array(Vec<serde_json::Value>),
    Object(Vec<(String, serde_json::Value)>),
}

spec fn layer_contents(layer: Layer) -> JsonView {
    match layer {
        Layer::Null => JsonView::Null,
        Layer::Bool(b) => JsonView::Bool(b),
        Layer::Number(n) => JsonView::Number(n),
        Layer::Text(s) => JsonView::Text(s@),
        Layer::Array(items) => JsonView::Array(
            Seq::new(items@.len(), |i: int| value_contents(items@[i])),
        ),
        Layer::Object(fields) => JsonView::Object(
            Seq::new(fields@.len(), |i: int| (fields@[i].0@, value_contents(fields@[i].1))),
        ),
    }
}

/// `serde_json::from_slice`, asked for an array of values. What it returns is a
/// function of the bytes alone: the contents of the values, or the text of the
/// error.
#[verifier::external_body]
fn decode(raw: &[u8]) -> (r: Result<Vec<serde_json::Value>, String>)
    ensures
        match r {
            Ok(values) => decoded(raw@) == Ok::<Seq<JsonView>, Seq<char>>(
                Seq::new(values@.len(), |i: int| value_contents(values@[i])),
            ),
            Err(message) => decoded(raw@) == Err::<Seq<JsonView>, Seq<char>>(message@),
        },
{
    match serde_json::from_slice::<Vec<serde_json::Value>>(raw) {
        Ok(values) => Ok(values),
        Err(e) => Err(e.to_string()),
    }
}

/// Takes a `serde_json::Value` apart by its variant: a number by
/// `Number::as_i64`, an array and an object into what they hold.
#[verifier::external_body]
fn peel(value: serde_json::Value) -> (layer: Layer)
    ensures
        layer_contents(layer) == value_contents(value),
{
    match value {
        serde_json::Value::Null => Layer::Null,
        serde_json::Value::Bool(b) => Layer::Bool(b),
        serde_json::Value::Number(n) => Layer::Number(n.as_i64()),
        serde_json::Value::String(s) => Layer::Text(s),
        serde_json::Value::Array(items) => Layer::Array(items),
        serde_json::Value::Object(fields) => Layer::Object(fields.into_iter().collect()),
    }
}

fn from_value(value: serde_json::Value) -> (json: Json)
    ensures
        json.deep_view() == value_contents(value),
    decreases value_contents(value),
{
    match peel(value) {
        Layer::Null => Json::Null,
        Layer::Bool(b) => Json::Bool(b),
        Layer::Number(n) => Json::Number(n),
        Layer::Text(s) => Json::Text(s),
        Layer::Array(items) => {
            let ghost parts = value_contents(value)->Array_0;
            let mut out: Vec<Json> = Vec::new();
            for item in it: items
                invariant
                    value_contents(value) == JsonView::Array(parts),
                    it.seq() == items@,
                    parts.len() == items@.len(),
                    forall|k: int|
                        0 <= k < parts.len() ==> #[trigger] parts[k] == value_contents(items@[k]),
                    out@.len() == it.index(),
                    forall|k: int| 0 <= k < out@.len() ==> json_view(#[trigger] out@[k]) == parts[k],
            {
                assert(parts[it.index()] == value_contents(item));
                assert(decreases_to!(value_contents(value) => value_contents(value)->Array_0));
                assert(decreases_to!(parts => parts[it.index()]));
                let one = from_value(item);
                out.push(one);
            }
            let json = Json::Array(out);
            assert(json_view(json)->Array_0 =~= parts);
            json
        },
        Layer::Object(fields) => {
            let ghost parts = value_contents(value)->Object_0;
            let mut out: Vec<(String, Json)> = Vec::new();
            for field in it: fields
                invariant
                    value_contents(value) == JsonView::Object(parts),
                    it.seq() == fields@,
                    parts.len() == fields@.len(),
                    forall|k: int|
                        0 <= k < parts.len() ==> #[trigger] parts[k] == (
                            fields@[k].0@,
                            value_contents(fields@[k].1),
                        ),
                    out@.len() == it.index(),
                    forall|k: int|
                        0 <= k < out@.len() ==> (
                            (#[trigger] out@[k]).0@,
                            json_view(out@[k].1),
                        ) == parts[k],
            {
                assert(parts[it.index()] == (field.0@, value_contents(field.1)));
                assert(decreases_to!(value_contents(value) => value_contents(value)->Object_0));
                assert(decreases_to!(parts => parts[it.index()]));
                assert(decreases_to!(parts[it.index()] => parts[it.index()].1));
                let (key, inner) = field;
                let one = from_value(inner);
                out.push((key, one));
            }
            let json = Json::Object(out);
            assert(json_view(json)->Object_0 =~= parts);
            json
        },
    }
}

/// An array of values, or why it could not be had.
pub open spec fn values_view(r: Result<Vec<Json>, Error>) -> Result<Seq<JsonView>, ErrorView> {
    match r {
        Ok(values) => Ok(values.deep_view()),
        Err(e) => Err(e.deep_view()),
    }
}

/// What reading `gh` output as an array of values comes to.
pub open spec fn read_array(raw: Seq<u8>) -> Result<Seq<JsonView>, ErrorView> {
    match decoded(raw) {
        Ok(values) => Ok(values),
        Err(message) => Err(ErrorView::Api("parse gh output: "@ + message)),
    }
}

/// Reads `gh` output as an array of values.
pub fn parse_values(raw: &[u8]) -> (r: Result<Vec<Json>, Error>)
    ensures
        values_view(r) == read_array(raw@),
{
    match decode(raw) {
        Ok(values) => {
            let mut out: Vec<Json> = Vec::new();
            for value in it: values
                invariant
                    it.seq() == values@,
                    out@.len() == it.index(),
                    forall|k: int|
                        0 <= k < out@.len() ==> json_view(#[trigger] out@[k]) == value_contents(
                            values@[k],
                        ),
            {
                let one = from_value(value);
                out.push(one);
            }
            proof {
                assert(out.deep_view() =~= Seq::new(
                    values@.len(),
                    |i: int| value_contents(values@[i]),
                ));
            }
            Ok(out)
        },
        Err(message) => {
            let mut text: String = "parse gh output: ".to_owned();
            text.append(message.as_str());
            Err(Error::Api(text))
        },
    }
}

}
