//! What lookups in a JSON value come to, in terms of the fields that the value lists.
use crate::error::ErrorView;
use crate::json::{decoded, field_of, read_array, JsonView};
use vstd::prelude::*;

verus! {

/// Whether place `i` is the last one at which `key` is listed.
pub open spec fn last_named(fields: Seq<(Seq<char>, JsonView)>, key: Seq<char>, i: int) -> bool {
    &&& 0 <= i < fields.len()
    &&& fields[i].0 == key
    &&& forall|j: int| i < j < fields.len() ==> (#[trigger] fields[j]).0 != key
}

/// Whether a value is an object that lists `value` under `key`, and nothing else under
/// it further on.
pub open spec fn states(v: JsonView, key: Seq<char>, value: JsonView) -> bool {
    match v {
        JsonView::Object(fields) => exists|i: int| #[trigger]
            last_named(fields, key, i) && fields[i].1 == value,
        _ => false,
    }
}

pub open spec fn states_text(v: JsonView, key: Seq<char>, s: Seq<char>) -> bool {
    states(v, key, JsonView::Text(s))
}

/// Whether a value states, under `outer`, an object that states the text under `key`.
pub open spec fn states_within(
    v: JsonView,
    outer: Seq<char>,
    key: Seq<char>,
    s: Seq<char>,
) -> bool {
    exists|inner: JsonView| #[trigger] states(v, outer, inner) && states_text(inner, key, s)
}

/// A field is what the object lists under its name, the last of several; no other
/// value, and no other name, has one.
pub proof fn fields_are_what_is_listed(v: JsonView, key: Seq<char>, value: JsonView)
    ensures
        v.field(key) == Some(value) <==> states(v, key, value),
{
    if let JsonView::Object(fields) = v {
        lemma_last_named(fields, key);
        match field_of(fields, key) {
            Some(found) => {
                let i = choose|i: int| #[trigger]
                    last_named(fields, key, i) && fields[i].1 == found;
                if states(v, key, value) {
                    let j = choose|j: int| #[trigger]
                        last_named(fields, key, j) && fields[j].1 == value;
                    assert(i == j);
                }
            },
            None => {},
        }
    }
}

proof fn lemma_last_named(fields: Seq<(Seq<char>, JsonView)>, key: Seq<char>)
    ensures
        match field_of(fields, key) {
            Some(found) => exists|i: int| #[trigger]
                last_named(fields, key, i) && fields[i].1 == found,
            None => forall|i: int| 0 <= i < fields.len() ==> (#[trigger] fields[i]).0 != key,
        },
    decreases fields.len(),
{
    if fields.len() > 0 {
        let end = fields.len() - 1;
        if fields[end].0 == key {
            assert(last_named(fields, key, end));
        } else {
            let front = fields.drop_last();
            lemma_last_named(front, key);
            assert(forall|i: int| 0 <= i < end ==> #[trigger] fields[i] == front[i]);
            if let Some(found) = field_of(front, key) {
                let i = choose|i: int| #[trigger]
                    last_named(front, key, i) && front[i].1 == found;
                assert(last_named(fields, key, i));
            }
        }
    }
}

/// A text is read from a field exactly where the field holds that text.
pub proof fn texts_are_what_is_stated(v: JsonView, key: Seq<char>, s: Seq<char>)
    ensures
        v.text_at(key) == Some(s) <==> states_text(v, key, s),
{
    fields_are_what_is_listed(v, key, JsonView::Text(s));
    if let Some(found) = v.field(key) {
        fields_are_what_is_listed(v, key, found);
    }
}

/// A text is read from an inner object exactly where that object holds it.
pub proof fn inner_texts_are_what_is_stated(
    v: JsonView,
    outer: Seq<char>,
    key: Seq<char>,
    s: Seq<char>,
)
    ensures
        v.text_within(outer, key) == Some(s) <==> states_within(v, outer, key, s),
{
    if let Some(inner) = v.field(outer) {
        fields_are_what_is_listed(v, outer, inner);
        texts_are_what_is_stated(inner, key, s);
    }
    if states_within(v, outer, key, s) {
        let inner = choose|inner: JsonView| #[trigger]
            states(v, outer, inner) && states_text(inner, key, s);
        fields_are_what_is_listed(v, outer, inner);
    }
}

/// An integer, a truth value or an array is read from a field exactly where the field
/// holds it. A number that is no integer is read as none.
pub proof fn other_values_are_what_is_stated(
    v: JsonView,
    key: Seq<char>,
    n: i64,
    b: bool,
    items: Seq<JsonView>,
)
    ensures
        v.integer_at(key) == Some(n) <==> states(v, key, JsonView::Number(Some(n))),
        v.bool_at(key) == Some(b) <==> states(v, key, JsonView::Bool(b)),
        v.array_at(key) == Some(items) <==> states(v, key, JsonView::Array(items)),
{
    fields_are_what_is_listed(v, key, JsonView::Number(Some(n)));
    fields_are_what_is_listed(v, key, JsonView::Bool(b));
    fields_are_what_is_listed(v, key, JsonView::Array(items));
    if let Some(found) = v.field(key) {
        fields_are_what_is_listed(v, key, found);
    }
}

/// Output is read as the values that it holds; where it holds no array of values, the
/// error gives the reason behind a fixed lead.
pub proof fn output_is_read_as_it_stands(raw: Seq<u8>)
    ensures
        forall|values: Seq<JsonView>|
            decoded(raw) == Ok::<Seq<JsonView>, Seq<char>>(values) <==> #[trigger] read_array(raw)
                == Ok::<Seq<JsonView>, ErrorView>(values),
        decoded(raw) matches Err(reason) ==> {
            &&& read_array(raw) matches Err(ErrorView::Api(text))
            &&& text.len() == 17 + reason.len()
            &&& text.skip(17) == reason
            &&& text.take(17) == "parse gh output: "@
        },
{
    reveal_strlit("parse gh output: ");
    if let Err(reason) = decoded(raw) {
        let text = "parse gh output: "@ + reason;
        assert(text.skip(17) =~= reason);
        assert(text.take(17) =~= "parse gh output: "@);
    }
}

}
