//! How a value is written for a reader.

use crate::formats::{
    format_timestamp, format_timestamp_tz, format_uuid, timestamp_text, timestamp_tz_text,
    uuid_text,
};
use crate::text::{decimal, decimal_text_of, integer_text, signed_decimal};
use crate::value::{lemma_list_view, Value, ValueView};
use vstd::prelude::*;
use vstd::string::StringExecFns;

verus! {

/// A count with its unit behind it; nothing for a count of zero.
pub open spec fn part(n: int, unit: Seq<char>) -> Seq<char> {
    if n > 0 {
        decimal(n as nat) + unit
    } else {
        Seq::empty()
    }
}

/// An interval of `seconds` seconds in days, hours, minutes and seconds,
/// such as `1d 2h 3m 4s`, a unit that counts zero left out. An interval
/// that is not positive is written as nothing.
pub open spec fn interval_text(seconds: i64) -> Seq<char> {
    if seconds <= 0 {
        Seq::empty()
    } else {
        part(seconds as int / 86400, "d "@) + part((seconds as int / 3600) % 24, "h "@) + part(
            (seconds as int / 60) % 60,
            "m "@,
        ) + part(seconds as int % 60, "s"@)
    }
}

/// The first `n` items of the list `v`, written with `, ` between them.
pub open spec fn items_text(v: ValueView, n: nat) -> Seq<char>
    decreases v, 0nat, n,
{
    if v is List && 0 < n <= v->List_0.len() {
        (if n > 1 {
            items_text(v, (n - 1) as nat) + ", "@
        } else {
            Seq::empty()
        }) + display_of(v->List_0[n - 1])
    } else {
        Seq::empty()
    }
}

/// The first `n` entries of the mapping `v`, each as `key: value`, written
/// with `, ` between them.
pub open spec fn entries_text(v: ValueView, n: nat) -> Seq<char>
    decreases v, 0nat, n,
{
    if v is Mapping && 0 < n <= v->Mapping_0.len() {
        (if n > 1 {
            entries_text(v, (n - 1) as nat) + ", "@
        } else {
            Seq::empty()
        }) + v->Mapping_0[n - 1].0 + ": "@ + display_of(v->Mapping_0[n - 1].1)
    } else {
        Seq::empty()
    }
}

/// The text, where there is one; nothing where there is none.
pub open spec fn text_or_nothing(text: Option<Seq<char>>) -> Seq<char> {
    match text {
        Some(t) => t,
        None => Seq::empty(),
    }
}

/// A value as it is written for a reader. A timestamp that cannot be
/// written is shown as nothing.
pub open spec fn display_of(v: ValueView) -> Seq<char>
    decreases v, 1nat, 0nat,
{
    match v {
        ValueView::Uuid(u) => uuid_text(u),
        ValueView::String(s) => s,
        ValueView::Timestamp(t) => text_or_nothing(timestamp_text(t)),
        ValueView::TimestampTz(t) => text_or_nothing(timestamp_tz_text(t)),
        ValueView::Interval(i) => interval_text(i),
        ValueView::Integer(i) => signed_decimal(i as int),
        ValueView::Float(t) => t,
        ValueView::Boolean(b) => if b {
            "true"@
        } else {
            "false"@
        },
        ValueView::List(l) => "["@ + items_text(v, l.len()) + "]"@,
        ValueView::Mapping(m) => "{"@ + entries_text(v, m.len()) + "}"@,
        ValueView::Null => "None"@,
    }
}

fn append_part(out: &mut String, n: u64, unit: &str)
    ensures
        final(out)@ == old(out)@ + part(n as int, unit@),
{
    if n > 0 {
        let digits = decimal_text_of(n);
        out.append(digits.as_str());
        out.append(unit);
        assert(out@ == old(out)@ + (digits@ + unit@));
    } else {
        assert(out@ == old(out)@ + Seq::<char>::empty());
    }
}

/// Writes an interval.
pub fn format_interval(seconds: i64) -> (r: String)
    ensures
        r@ == interval_text(seconds),
{
    let mut out = String::new();
    if seconds > 0 {
        let s: u64 = seconds as u64;
        append_part(&mut out, s / 86400, "d ");
        append_part(&mut out, (s / 3600) % 24, "h ");
        append_part(&mut out, (s / 60) % 60, "m ");
        append_part(&mut out, s % 60, "s");
        assert(out@ == interval_text(seconds));
    }
    out
}

impl Value {
    /// The value as it is written for a reader.
    pub fn to_string(&self) -> (r: String)
        ensures
            r@ == display_of(self@),
        decreases self@,
    {
        match self {
            Value::Uuid(u) => format_uuid(*u),
            Value::String(s) => s.clone(),
            Value::Timestamp(t) => match format_timestamp(*t) {
                Some(text) => text,
                None => String::new(),
            },
            Value::TimestampTz(t) => match format_timestamp_tz(*t) {
                Some(text) => text,
                None => String::new(),
            },
            Value::Interval(i) => format_interval(*i),
            Value::Integer(i) => integer_text(*i),
            Value::Float(t) => t.clone(),
            Value::Boolean(b) => if *b {
                "true".to_owned()
            } else {
                "false".to_owned()
            },
            Value::List(l) => {
                proof {
                    lemma_list_view(*self);
                }
                let mut out = "[".to_owned();
                let mut i: usize = 0;
                while i < l.len()
                    invariant
                        self is List,
                        self->List_0 == *l,
                        self@ is List,
                        self@->List_0.len() == l@.len(),
                        forall|k: int| 0 <= k < l@.len() ==> self@->List_0[k] == (#[trigger] l@[k])@,
                        i <= l.len(),
                        out@ == "["@ + items_text(self@, i as nat),
                    decreases l.len() - i,
                {
                    let ghost before = out@;
                    if i > 0 {
                        out.append(", ");
                    }
                    assert(self@->List_0[i as int] == l@[i as int]@);
                    let item = l[i].to_string();
                    out.append(item.as_str());
                    i += 1;
                    assert(out@ == "["@ + items_text(self@, i as nat)) by {
                        let head = if i > 1 {
                            items_text(self@, (i - 1) as nat) + ", "@
                        } else {
                            Seq::<char>::empty()
                        };
                        assert(items_text(self@, i as nat) == head + item@);
                        assert(out@ == ("["@ + head) + item@);
                        assert(("["@ + head) + item@ == "["@ + (head + item@));
                    }
                }
                out.append("]");
                out
            },
            Value::Mapping(m) => {
                let mut out = "{".to_owned();
                let mut i: usize = 0;
                let n = m.len();
                while i < n
                    invariant
                        self is Mapping,
                        self->Mapping_0 == *m,
                        n == m@.len(),
                        i <= n,
                        out@ == "{"@ + entries_text(self@, i as nat),
                    decreases n - i,
                {
                    if i > 0 {
                        out.append(", ");
                    }
                    match m.get_index(i) {
                        Some((key, value)) => {
                            assert(self@->Mapping_0[i as int] == (key@, value@));
                            assert(self@->Mapping_0[i as int].1 == value@);
                            let item = value.to_string();
                            out.append(key.as_str());
                            out.append(": ");
                            out.append(item.as_str());
                            assert(out@ == "{"@ + entries_text(self@, (i + 1) as nat)) by {
                                let head = if i > 0 {
                                    entries_text(self@, i as nat) + ", "@
                                } else {
                                    Seq::<char>::empty()
                                };
                                assert(entries_text(self@, (i + 1) as nat) == head + key@ + ": "@
                                    + item@);
                                assert(out@ == ((("{"@ + head) + key@) + ": "@) + item@);
                                assert(((("{"@ + head) + key@) + ": "@) + item@ == "{"@ + (head
                                    + key@ + ": "@ + item@));
                            }
                        },
                        None => {
                            assert(false);
                        },
                    }
                    i += 1;
                }
                out.append("}");
                out
            },
            Value::Null => "None".to_owned(),
        }
    }
}

} // verus!
