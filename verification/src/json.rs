//! JSON documents.

use crate::text::same_text;
use vstd::prelude::*;

verus! {

/// A JSON document.
#[derive(Debug)]
pub enum Json {
    Null,
    Bool(bool),
    /// A number, as it is written.
    Number(String),
    Text(String),
    List(Vec<Json>),
    Record(Vec<(String, Json)>),
}

/// The model of a [`Json`].
#[verifier::ext_equal]
pub enum JsonView {
    Null,
    Bool(bool),
    Number(Seq<char>),
    Text(Seq<char>),
    List(Seq<JsonView>),
    Record(Seq<(Seq<char>, JsonView)>),
}

impl Json {
    pub open spec fn view(&self) -> JsonView
        decreases self,
    {
        match self {
            Json::Null => JsonView::Null,
            Json::Bool(b) => JsonView::Bool(*b),
            Json::Number(n) => JsonView::Number(n@),
            Json::Text(t) => JsonView::Text(t@),
            Json::List(items) => JsonView::List(
                Seq::new(
                    items@.len(),
                    |i: int|
                        if 0 <= i < items@.len() {
                            items@[i].view()
                        } else {
                            JsonView::Null
                        },
                ),
            ),
            Json::Record(fields) => JsonView::Record(
                Seq::new(
                    fields@.len(),
                    |i: int|
                        if 0 <= i < fields@.len() {
                            (fields@[i].0@, fields@[i].1.view())
                        } else {
                            (seq![], JsonView::Null)
                        },
                ),
            ),
        }
    }
}

// ---------------------------------------------------------------------- reading

/// The value behind the first field called `key`.
pub open spec fn lookup(fields: Seq<(Seq<char>, JsonView)>, key: Seq<char>) -> Option<JsonView>
    decreases fields.len(),
{
    if fields.len() == 0 {
        None
    } else if fields[0].0 == key {
        Some(fields[0].1)
    } else {
        lookup(fields.drop_first(), key)
    }
}

/// The field `key` of a record; nothing in any other document.
pub open spec fn field(v: JsonView, key: Seq<char>) -> Option<JsonView> {
    match v {
        JsonView::Record(fields) => lookup(fields, key),
        _ => None,
    }
}

/// The field `key`, or null where there is none.
pub open spec fn at(v: JsonView, key: Seq<char>) -> JsonView {
    match field(v, key) {
        Some(x) => x,
        None => JsonView::Null,
    }
}

/// The item `i` of a list, or null where there is none.
pub open spec fn item(v: JsonView, i: int) -> JsonView {
    match v {
        JsonView::List(items) => if 0 <= i < items.len() {
            items[i]
        } else {
            JsonView::Null
        },
        _ => JsonView::Null,
    }
}

/// The characters of a text; nothing in any other document.
pub open spec fn text_in(v: JsonView) -> Option<Seq<char>> {
    match v {
        JsonView::Text(t) => Some(t),
        _ => None,
    }
}

impl Json {
    /// The field `key` of a record.
    pub fn get(&self, key: &str) -> (r: Option<&Json>)
        ensures
            match r {
                Some(j) => field(self@, key@) == Some(j@),
                None => field(self@, key@) is None,
            },
    {
        match self {
            Json::Record(fields) => {
                let n: usize = fields.len();
                let mut i: usize = 0;
                let ghost all = self@->Record_0;
                assert(all.skip(0) =~= all);
                while i < n
                    invariant
                        n == fields@.len(),
                        i <= n,
                        *self == Json::Record(*fields),
                        self@ == JsonView::Record(all),
                        all.len() == n,
                        lookup(all, key@) == lookup(all.skip(i as int), key@),
                    decreases n - i,
                {
                    assert(all.skip(i as int)[0] == (fields@[i as int].0@, fields@[i as int].1@));
                    assert(all.skip(i as int).drop_first() =~= all.skip(i + 1));
                    if same_text(fields[i].0.as_str(), key) {
                        return Some(&fields[i].1);
                    }
                    i = i + 1;
                }
                None
            },
            _ => None,
        }
    }

    /// The item `i` of a list.
    pub fn get_item(&self, i: usize) -> (r: Option<&Json>)
        ensures
            match r {
                Some(j) => item(self@, i as int) == j@,
                None => item(self@, i as int) == JsonView::Null,
            },
    {
        match self {
            Json::List(items) => if i < items.len() {
                Some(&items[i])
            } else {
                None
            },
            _ => None,
        }
    }

    /// The characters of a text.
    pub fn as_str(&self) -> (r: Option<&str>)
        ensures
            match r {
                Some(t) => text_in(self@) == Some(t@),
                None => text_in(self@) is None,
            },
    {
        match self {
            Json::Text(t) => Some(t.as_str()),
            _ => None,
        }
    }

    /// Whether this is a record.
    pub fn is_record(&self) -> (b: bool)
        ensures
            b == (self@ is Record),
    {
        match self {
            Json::Record(_) => true,
            _ => false,
        }
    }
}

// ---------------------------------------------------------------------- parsing

#[verifier::external_type_specification]
#[verifier::external_body]
pub struct ExValue(serde_json::Value);

#[verifier::external_type_specification]
#[verifier::external_body]
pub struct ExJsonError(serde_json::Error);

/// The document that a `serde_json::Value` holds.
pub uninterp spec fn value_contents(v: serde_json::Value) -> JsonView;

/// The document that `serde_json::from_str` reads from a text, if it reads one.
pub uninterp spec fn json_document(text: Seq<char>) -> Option<JsonView>;

/// A `serde_json::Value` with its outermost layer taken off.
pub enum Opened {
    Null,
    Bool(bool),
    Number(String),
    Text(String),
    List(Vec<serde_json::Value>),
    Record(Vec<(String, serde_json::Value)>),
}

/// `serde_json::from_str` reads a `serde_json::Value`. The document read and the refusal depend on
/// the text alone and are named by [`json_document`].
#[verifier::external_body]
fn read_value(text: &str) -> (r: Result<serde_json::Value, serde_json::Error>)
    ensures
        match r {
            Ok(v) => json_document(text@) == Some(value_contents(v)),
            Err(_) => json_document(text@) is None,
        },
{
    serde_json::from_str(text)
}

/// The variant of a `serde_json::Value` and what it carries: a number as it is displayed, the
/// items of an array in order, the entries of an object in the order of its iterator.
#[verifier::external_body]
fn open_value(v: serde_json::Value) -> (r: Opened)
    ensures
        match r {
            Opened::Null => value_contents(v) == JsonView::Null,
            Opened::Bool(b) => value_contents(v) == JsonView::Bool(b),
            Opened::Number(n) => value_contents(v) == JsonView::Number(n@),
            Opened::Text(t) => value_contents(v) == JsonView::Text(t@),
            Opened::List(items) => value_contents(v) == JsonView::List(
                Seq::new(items@.len(), |i: int| value_contents(items@[i])),
            ),
            Opened::Record(fields) => value_contents(v) == JsonView::Record(
                Seq::new(fields@.len(), |i: int| (fields@[i].0@, value_contents(fields@[i].1))),
            ),
        },
{
    match v {
        serde_json::Value::Null => Opened::Null,
        serde_json::Value::Bool(b) => Opened::Bool(b),
        serde_json::Value::Number(n) => Opened::Number(n.to_string()),
        serde_json::Value::String(s) => Opened::Text(s),
        serde_json::Value::Array(items) => Opened::List(items),
        serde_json::Value::Object(fields) => Opened::Record(fields.into_iter().collect()),
    }
}

/// The document of a `serde_json::Value`.
fn json_of(v: serde_json::Value) -> (r: Json)
    ensures
        r@ == value_contents(v),
    decreases value_contents(v),
{
    match open_value(v) {
        Opened::Null => Json::Null,
        Opened::Bool(b) => Json::Bool(b),
        Opened::Number(n) => Json::Number(n),
        Opened::Text(t) => Json::Text(t),
        Opened::List(items) => {
            let ghost given = items@;
            let ghost parts = Seq::new(given.len(), |i: int| value_contents(given[i]));
            let mut out: Vec<Json> = Vec::new();
            for x in it: items
                invariant
                    it.seq() == given,
                    out@.len() == it.index(),
                    parts == Seq::new(given.len(), |i: int| value_contents(given[i])),
                    value_contents(v) == JsonView::List(parts),
                    forall|i: int| 0 <= i < out@.len() ==> (#[trigger] out@[i])@ == parts[i],
            {
                assert(decreases_to!(value_contents(v) => value_contents(v)->List_0[it.index() as int]));
                out.push(json_of(x));
            }
            let r = Json::List(out);
            assert(r@->List_0 =~= parts);
            r
        },
        Opened::Record(fields) => {
            let ghost given = fields@;
            let ghost parts = Seq::new(
                given.len(),
                |i: int| (given[i].0@, value_contents(given[i].1)),
            );
            let mut out: Vec<(String, Json)> = Vec::new();
            for x in it: fields
                invariant
                    it.seq() == given,
                    out@.len() == it.index(),
                    parts == Seq::new(
                        given.len(),
                        |i: int| (given[i].0@, value_contents(given[i].1)),
                    ),
                    value_contents(v) == JsonView::Record(parts),
                    forall|i: int|
                        0 <= i < out@.len() ==> (#[trigger] out@[i]).0@ == parts[i].0 && out@[i].1@
                            == parts[i].1,
            {
                assert(decreases_to!(value_contents(v) => value_contents(v)->Record_0[it.index() as int]));
                assert(decreases_to!(value_contents(v)->Record_0[it.index() as int] => value_contents(v)->Record_0[it.index() as int].1));
                let (key, value) = x;
                out.push((key, json_of(value)));
            }
            let r = Json::Record(out);
            assert(r@->Record_0 =~= parts);
            r
        },
    }
}

/// The document written in `text`.
pub fn parse_json(text: &str) -> (r: Option<Json>)
    ensures
        match r {
            Some(j) => json_document(text@) == Some(j@),
            None => json_document(text@) is None,
        },
{
    match read_value(text) {
        Ok(v) => Some(json_of(v)),
        Err(_) => None,
    }
}

// ------------------------------------------------------------------------- laws

/// A field is found by its name, whatever stands around it: the first field of that name counts.
pub proof fn law_fields_are_found_by_name(
    before: Seq<(Seq<char>, JsonView)>,
    key: Seq<char>,
    v: JsonView,
    after: Seq<(Seq<char>, JsonView)>,
)
    requires
        forall|i: int| 0 <= i < before.len() ==> (#[trigger] before[i]).0 != key,
    ensures
        field(JsonView::Record(before.push((key, v)) + after), key) == Some(v),
        at(JsonView::Record(before.push((key, v)) + after), key) == v,
    decreases before.len(),
{
    let fields = before.push((key, v)) + after;
    if before.len() == 0 {
        assert(fields[0] == (key, v));
    } else {
        assert(fields[0] == before[0]);
        assert(before[0].0 != key);
        let rest = before.drop_first();
        assert forall|i: int| 0 <= i < rest.len() implies (#[trigger] rest[i]).0 != key by {
            assert(rest[i] == before[i + 1]);
        }
        law_fields_are_found_by_name(rest, key, v, after);
        assert(fields.drop_first() =~= rest.push((key, v)) + after);
    }
}

/// A field that no entry names is not there, and reads as null.
pub proof fn law_missing_fields_are_null(fields: Seq<(Seq<char>, JsonView)>, key: Seq<char>)
    requires
        forall|i: int| 0 <= i < fields.len() ==> (#[trigger] fields[i]).0 != key,
    ensures
        field(JsonView::Record(fields), key) is None,
        at(JsonView::Record(fields), key) == JsonView::Null,
    decreases fields.len(),
{
    if fields.len() > 0 {
        assert(fields[0].0 != key);
        let rest = fields.drop_first();
        assert forall|i: int| 0 <= i < rest.len() implies (#[trigger] rest[i]).0 != key by {
            assert(rest[i] == fields[i + 1]);
        }
        law_missing_fields_are_null(rest, key);
    }
}

/// Items are counted from zero; behind the last one, and in a document that is no list, there is
/// only null. Only a text reads as text.
pub proof fn law_items_and_texts(items: Seq<JsonView>, i: int, t: Seq<char>, v: JsonView)
    ensures
        0 <= i < items.len() ==> item(JsonView::List(items), i) == items[i],
        i >= items.len() ==> item(JsonView::List(items), i) == JsonView::Null,
        !(v is List) ==> item(v, i) == JsonView::Null,
        text_in(JsonView::Text(t)) == Some(t),
        !(v is Text) ==> text_in(v) is None,
        !(v is Record) ==> field(v, t) is None && at(v, t) == JsonView::Null,
{
}

} // verus!
