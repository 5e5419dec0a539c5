//! JSON documents, and how values go to and come from them.

use crate::floats::{float_of, parse_float_text};
use crate::formats::{
    datetime_of_text, format_timestamp, format_timestamp_tz, format_uuid, instant_of_rfc3339,
    join_timestamp, parse_datetime, parse_rfc3339, timestamp_format, timestamp_of,
    timestamp_text, timestamp_tz_text, uuid_text,
};
use crate::text::{chars_of, integer_of, integer_text, parse_integer, signed_decimal};
use crate::value::{inserted, Value, ValueMap, ValueView};
use vstd::prelude::*;

verus! {

/// A JSON document. A number is held by its text, as JSON writes it.
#[derive(Debug, PartialEq)]
pub enum JsonValue {
    Null,
    Bool(bool),
    Number(String),
    String(String),
    Array(Vec<JsonValue>),
    /// The members of an object, in their order.
    Object(Vec<(String, JsonValue)>),
}

/// The mathematical content of a [`JsonValue`].
pub enum JsonView {
    Null,
    Bool(bool),
    Number(Seq<char>),
    String(Seq<char>),
    Array(Seq<JsonView>),
    Object(Seq<(Seq<char>, JsonView)>),
}

/// The content of a document.
pub open spec fn json_view(j: JsonValue) -> JsonView
    decreases j,
{
    match j {
        JsonValue::Null => JsonView::Null,
        JsonValue::Bool(b) => JsonView::Bool(b),
        JsonValue::Number(t) => JsonView::Number(t@),
        JsonValue::String(s) => JsonView::String(s@),
        JsonValue::Array(a) => JsonView::Array(
            Seq::new(
                a@.len(),
                |i: int|
                    if 0 <= i < a@.len() {
                        json_view(a@[i])
                    } else {
                        JsonView::Null
                    },
            ),
        ),
        JsonValue::Object(o) => JsonView::Object(
            Seq::new(
                o@.len(),
                |i: int|
                    if 0 <= i < o@.len() {
                        (o@[i].0@, json_view(o@[i].1))
                    } else {
                        (Seq::empty(), JsonView::Null)
                    },
            ),
        ),
    }
}

impl View for JsonValue {
    type V = JsonView;

    open spec fn view(&self) -> JsonView {
        json_view(*self)
    }
}

/// Turns a `serde_json::Value` into a document, variant by variant; a
/// `serde_json::Number` becomes the text it displays as.
#[verifier::external_body]
fn json_import(j: serde_json::Value) -> JsonValue {
    match j {
        serde_json::Value::Null => JsonValue::Null,
        serde_json::Value::Bool(b) => JsonValue::Bool(b),
        serde_json::Value::Number(n) => JsonValue::Number(n.to_string()),
        serde_json::Value::String(s) => JsonValue::String(s),
        serde_json::Value::Array(a) => JsonValue::Array(a.into_iter().map(json_import).collect()),
        serde_json::Value::Object(o) => JsonValue::Object(
            o.into_iter().map(|(k, v)| (k, json_import(v))).collect(),
        ),
    }
}

/// Turns a document into a `serde_json::Value`, variant by variant; a number
/// is read from its text by `serde_json::Number`, and where one cannot be
/// read there is no result.
#[verifier::external_body]
fn json_export(j: &JsonValue) -> Option<serde_json::Value> {
    Some(
        match j {
            JsonValue::Null => serde_json::Value::Null,
            JsonValue::Bool(b) => serde_json::Value::Bool(*b),
            JsonValue::Number(t) => serde_json::Value::Number(t.parse().ok()?),
            JsonValue::String(s) => serde_json::Value::String(s.clone()),
            JsonValue::Array(a) => serde_json::Value::Array(
                a.iter().map(json_export).collect::<Option<_>>()?,
            ),
            JsonValue::Object(o) => serde_json::Value::Object(
                o.iter().map(|(k, v)| Some((k.clone(), json_export(v)?))).collect::<Option<_>>()?,
            ),
        },
    )
}

/// What `serde_json::from_str` makes of a text: the document, or the error's
/// message.
pub uninterp spec fn json_of_text(s: Seq<char>) -> Result<JsonView, Seq<char>>;

/// Reads a JSON text with `serde_json::from_str`; a failure comes as the
/// error's message.
#[verifier::external_body]
fn parse_json(s: &str) -> (r: Result<JsonValue, String>)
    ensures
        match r {
            Ok(j) => json_of_text(s@) == Ok::<JsonView, Seq<char>>(j@),
            Err(e) => json_of_text(s@) == Err::<JsonView, Seq<char>>(e@),
        },
{
    match serde_json::from_str::<serde_json::Value>(s) {
        Ok(j) => Ok(json_import(j)),
        Err(e) => Err(e.to_string()),
    }
}

/// The compact text that `serde_json::to_string` writes for a document;
/// `None` for a document that holds a number whose text `serde_json` cannot
/// read.
pub uninterp spec fn json_text(j: JsonView) -> Option<Seq<char>>;

/// Writes a document with `serde_json::to_string`.
#[verifier::external_body]
fn encode_json(j: &JsonValue) -> (r: Option<String>)
    ensures
        match r {
            Some(t) => json_text(j@) == Some(t@),
            None => json_text(j@) is None,
        },
{
    serde_json::to_string(&json_export(j)?).ok()
}

/// What `serde_json::Number` reads from a text and then displays: the number
/// in the form JSON gives it; `None` where the text is no JSON number.
pub uninterp spec fn number_of_text(s: Seq<char>) -> Option<Seq<char>>;

/// Reads a number with `serde_json::Number`'s `FromStr` and writes it back as
/// `serde_json::Number` displays it.
#[verifier::external_body]
pub(crate) fn normalize_number(s: &str) -> (r: Option<String>)
    ensures
        match r {
            Some(t) => number_of_text(s@) == Some(t@),
            None => number_of_text(s@) is None,
        },
{
    match s.parse::<serde_json::Number>() {
        Ok(n) => Some(n.to_string()),
        Err(_) => None,
    }
}

impl JsonValue {
    /// Reads a JSON text.
    pub fn parse(text: &str) -> (r: Result<JsonValue, String>)
        ensures
            match r {
                Ok(j) => json_of_text(text@) == Ok::<JsonView, Seq<char>>(j@),
                Err(e) => json_of_text(text@) == Err::<JsonView, Seq<char>>(e@),
            },
    {
        parse_json(text)
    }

    /// The compact JSON text of the document, if it has one.
    pub fn encode(&self) -> (r: Option<String>)
        ensures
            match r {
                Some(t) => json_text(self@) == Some(t@),
                None => json_text(self@) is None,
            },
    {
        encode_json(self)
    }
}

/// The document that stands for a value: a UUID and a timestamp become their
/// text, an interval its seconds. A float whose text means no float has no
/// document, nor has a timestamp that cannot be written, nor a list or a
/// mapping that holds a value without one.
pub open spec fn json_of_value(v: ValueView) -> Option<JsonView>
    decreases v,
{
    match v {
        ValueView::Uuid(u) => Some(JsonView::String(uuid_text(u))),
        ValueView::String(s) => Some(JsonView::String(s)),
        ValueView::Timestamp(t) => match timestamp_text(t) {
            Some(text) => Some(JsonView::String(text)),
            None => None,
        },
        ValueView::TimestampTz(t) => match timestamp_tz_text(t) {
            Some(text) => Some(JsonView::String(text)),
            None => None,
        },
        ValueView::Interval(i) => Some(JsonView::Number(signed_decimal(i as int))),
        ValueView::Integer(i) => Some(JsonView::Number(signed_decimal(i as int))),
        ValueView::Float(t) => match float_of(t) {
            Some(n) => Some(JsonView::Number(n)),
            None => None,
        },
        ValueView::Boolean(b) => Some(JsonView::Bool(b)),
        ValueView::List(l) => if forall|i: int|
            0 <= i < l.len() ==> json_of_value(#[trigger] l[i]) is Some {
            Some(
                JsonView::Array(
                    Seq::new(
                        l.len(),
                        |i: int|
                            if 0 <= i < l.len() {
                                json_of_value(l[i])->0
                            } else {
                                JsonView::Null
                            },
                    ),
                ),
            )
        } else {
            None
        },
        ValueView::Mapping(m) => if forall|i: int|
            0 <= i < m.len() ==> json_of_value((#[trigger] m[i]).1) is Some {
            Some(
                JsonView::Object(
                    Seq::new(
                        m.len(),
                        |i: int|
                            if 0 <= i < m.len() {
                                (m[i].0, json_of_value(m[i].1)->0)
                            } else {
                                (Seq::empty(), JsonView::Null)
                            },
                    ),
                ),
            )
        } else {
            None
        },
        ValueView::Null => Some(JsonView::Null),
    }
}

/// A list with an item that has no document has none.
pub proof fn lemma_list_without_json(l: Seq<ValueView>, i: int)
    requires
        0 <= i < l.len(),
        json_of_value(l[i]) is None,
    ensures
        json_of_value(ValueView::List(l)) is None,
{
}

/// A list whose items have the documents `items` has the array of them.
pub proof fn lemma_list_with_json(l: Seq<ValueView>, items: Seq<JsonView>)
    requires
        items.len() == l.len(),
        forall|k: int| 0 <= k < l.len() ==> json_of_value(#[trigger] l[k]) == Some(items[k]),
    ensures
        json_of_value(ValueView::List(l)) == Some(JsonView::Array(items)),
{
    assert(json_of_value(ValueView::List(l))->0->Array_0 =~= items);
}

/// A mapping with a value that has no document has none.
pub proof fn lemma_mapping_without_json(m: Seq<(Seq<char>, ValueView)>, i: int)
    requires
        0 <= i < m.len(),
        json_of_value(m[i].1) is None,
    ensures
        json_of_value(ValueView::Mapping(m)) is None,
{
}

/// A mapping whose values have documents has the object of them, under the
/// same names and in the same order.
pub proof fn lemma_mapping_with_json(
    m: Seq<(Seq<char>, ValueView)>,
    members: Seq<(Seq<char>, JsonView)>,
)
    requires
        members.len() == m.len(),
        forall|k: int|
            0 <= k < m.len() ==> (#[trigger] m[k]).0 == members[k].0 && json_of_value(m[k].1)
                == Some(members[k].1),
    ensures
        json_of_value(ValueView::Mapping(m)) == Some(JsonView::Object(members)),
{
    assert(json_of_value(ValueView::Mapping(m))->0->Object_0 =~= members);
}

/// The value that a JSON string stands for: a timestamp where the text is
/// one in the timestamp format, an instant where it is RFC 3339, else the
/// string itself.
pub open spec fn value_of_json_string(s: Seq<char>) -> ValueView {
    match datetime_of_text(s, timestamp_format()) {
        Ok(p) => ValueView::Timestamp(timestamp_of(p)),
        Err(_) => match instant_of_rfc3339(s) {
            Ok(p) => ValueView::TimestampTz(timestamp_of(p)),
            Err(_) => ValueView::String(s),
        },
    }
}

/// The value that a JSON number stands for: an integer where its text is one
/// that fits in 64 bits, else a float.
pub open spec fn value_of_json_number(t: Seq<char>) -> ValueView {
    match integer_of(t) {
        Some(i) => ValueView::Integer(i),
        None => ValueView::Float(t),
    }
}

/// The value that a document stands for.
pub open spec fn value_of_json(j: JsonView) -> ValueView
    decreases j, 1nat, 0nat,
{
    match j {
        JsonView::Null => ValueView::Null,
        JsonView::Bool(b) => ValueView::Boolean(b),
        JsonView::Number(t) => value_of_json_number(t),
        JsonView::String(s) => value_of_json_string(s),
        JsonView::Array(a) => ValueView::List(
            Seq::new(
                a.len(),
                |i: int|
                    if 0 <= i < a.len() {
                        value_of_json(a[i])
                    } else {
                        ValueView::Null
                    },
            ),
        ),
        JsonView::Object(o) => ValueView::Mapping(members_of_json(j, o.len())),
    }
}

/// The entries that the first `n` members of the object `j` make, each
/// inserted in turn: a later member with the same name takes the earlier
/// one's place.
pub open spec fn members_of_json(j: JsonView, n: nat) -> Seq<(Seq<char>, ValueView)>
    decreases j, 0nat, n,
{
    if j is Object && 0 < n <= j->Object_0.len() {
        inserted(
            members_of_json(j, (n - 1) as nat),
            j->Object_0[n - 1].0,
            value_of_json(j->Object_0[n - 1].1),
        )
    } else {
        Seq::empty()
    }
}

impl Value {
    /// The JSON document that stands for the value; none where the value
    /// holds a float whose text means no float.
    pub fn to_json(&self) -> (r: Option<JsonValue>)
        ensures
            match r {
                Some(j) => json_of_value(self@) == Some(j@),
                None => json_of_value(self@) is None,
            },
        decreases self@,
    {
        match self {
            Value::Uuid(u) => Some(JsonValue::String(format_uuid(*u))),
            Value::String(s) => Some(JsonValue::String(s.clone())),
            Value::Timestamp(t) => match format_timestamp(*t) {
                Some(text) => Some(JsonValue::String(text)),
                None => None,
            },
            Value::TimestampTz(t) => match format_timestamp_tz(*t) {
                Some(text) => Some(JsonValue::String(text)),
                None => None,
            },
            Value::Interval(i) => Some(JsonValue::Number(integer_text(*i))),
            Value::Integer(i) => Some(JsonValue::Number(integer_text(*i))),
            Value::Float(t) => match parse_float_text(t) {
                Some(n) => Some(JsonValue::Number(n)),
                None => None,
            },
            Value::Boolean(b) => Some(JsonValue::Bool(*b)),
            Value::List(l) => {
                proof {
                    crate::value::lemma_list_view(*self);
                }
                let mut out: Vec<JsonValue> = Vec::new();
                let mut i: usize = 0;
                while i < l.len()
                    invariant
                        self is List,
                        self->List_0 == *l,
                        self@ is List,
                        self@->List_0.len() == l@.len(),
                        forall|k: int| 0 <= k < l@.len() ==> self@->List_0[k] == (#[trigger] l@[k])@,
                        i <= l.len(),
                        out.len() == i,
                        forall|k: int|
                            0 <= k < i ==> json_of_value(l@[k]@) == Some((#[trigger] out@[k])@),
                    decreases l.len() - i,
                {
                    assert(self@->List_0[i as int] == l@[i as int]@);
                    match l[i].to_json() {
                        Some(item) => {
                            out.push(item);
                        },
                        None => {
                            proof {
                                lemma_list_without_json(self@->List_0, i as int);
                            }
                            return None;
                        },
                    }
                    i += 1;
                }
                let j = JsonValue::Array(out);
                proof {
                    let items = Seq::new(out@.len(), |k: int| out@[k]@);
                    assert(j@ == JsonView::Array(items)) by {
                        assert(j@->Array_0 =~= items);
                    }
                    lemma_list_with_json(self@->List_0, items);
                }
                Some(j)
            },
            Value::Mapping(m) => {
                let mut out: Vec<(String, JsonValue)> = Vec::new();
                let mut i: usize = 0;
                let n = m.len();
                while i < n
                    invariant
                        self is Mapping,
                        self->Mapping_0 == *m,
                        n == m@.len(),
                        i <= n,
                        out.len() == i,
                        forall|k: int|
                            0 <= k < i ==> (#[trigger] out@[k]).0@ == m@[k].0 && json_of_value(
                                m@[k].1,
                            ) == Some(out@[k].1@),
                    decreases n - i,
                {
                    match m.get_index(i) {
                        Some((key, value)) => {
                            assert(self@->Mapping_0[i as int].1 == value@);
                            match value.to_json() {
                                Some(item) => {
                                    out.push((key.clone(), item));
                                },
                                None => {
                                    proof {
                                        lemma_mapping_without_json(self@->Mapping_0, i as int);
                                    }
                                    return None;
                                },
                            }
                        },
                        None => {
                            assert(false);
                        },
                    }
                    i += 1;
                }
                let j = JsonValue::Object(out);
                proof {
                    let members = Seq::new(out@.len(), |k: int| (out@[k].0@, out@[k].1@));
                    assert(j@ == JsonView::Object(members)) by {
                        assert(j@->Object_0 =~= members);
                    }
                    lemma_mapping_with_json(self@->Mapping_0, members);
                }
                Some(j)
            },
            Value::Null => Some(JsonValue::Null),
        }
    }

    /// The value that a JSON document stands for.
    pub fn from_json(value: &JsonValue) -> (v: Self)
        ensures
            v@ == value_of_json(value@),
        decreases value,
    {
        match value {
            JsonValue::Null => Value::Null,
            JsonValue::Bool(b) => Value::Boolean(*b),
            JsonValue::Number(t) => {
                let chars = chars_of(t.as_str());
                match parse_integer(&chars) {
                    Some(i) => Value::Integer(i),
                    None => Value::Float(t.clone()),
                }
            },
            JsonValue::String(s) => value_from_json_string(s),
            JsonValue::Array(a) => {
                let mut out: Vec<Value> = Vec::new();
                let mut i: usize = 0;
                while i < a.len()
                    invariant
                        value is Array,
                        value->Array_0 == *a,
                        i <= a.len(),
                        out.len() == i,
                        forall|k: int|
                            0 <= k < i ==> (#[trigger] out@[k])@ == value_of_json(a@[k]@),
                    decreases a.len() - i,
                {
                    out.push(Value::from_json(&a[i]));
                    i += 1;
                }
                let v = Value::List(out);
                proof {
                    crate::value::lemma_list_view(v);
                    assert(v@->List_0 =~= value_of_json(value@)->List_0);
                }
                v
            },
            JsonValue::Object(o) => {
                let mut out = ValueMap::new();
                let mut i: usize = 0;
                assert(members_of_json(value@, 0) == Seq::<(Seq<char>, ValueView)>::empty());
                while i < o.len()
                    invariant
                        value is Object,
                        value->Object_0 == *o,
                        value@ is Object,
                        value@->Object_0.len() == o@.len(),
                        i <= o.len(),
                        out@ == members_of_json(value@, i as nat),
                    decreases o.len() - i,
                {
                    let member = &o[i];
                    assert(value@->Object_0[i as int] == (member.0@, member.1@));
                    out.insert(member.0.clone(), Value::from_json(&member.1));
                    i += 1;
                }
                Value::Mapping(out)
            },
        }
    }
}

/// The value that a JSON string stands for.
fn value_from_json_string(s: &String) -> (v: Value)
    ensures
        v@ == value_of_json_string(s@),
{
    match parse_datetime(s.as_str(), "%Y-%m-%d %H:%M:%S") {
        Ok((seconds, nanos)) => {
            return Value::Timestamp(join_timestamp(seconds, nanos));
        },
        Err(_) => {},
    }
    match parse_rfc3339(s.as_str()) {
        Ok((seconds, nanos)) => Value::TimestampTz(join_timestamp(seconds, nanos)),
        Err(_) => Value::String(s.clone()),
    }
}

} // verus!
