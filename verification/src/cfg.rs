//! The validation engine: what a value becomes under a column's type.

use crate::error::{
    check_error, new_check_error, new_type_error, type_error, Check, SettingsError,
    SettingsErrorView, TypeName,
};
use crate::formats::{
    datetime_of_text, format_uuid, instant_of_rfc3339, interval_of, join_timestamp,
    parse_datetime, parse_interval, parse_rfc3339, parse_uuid, timestamp_format, timestamp_of,
    uuid_of_text, uuid_text,
};
use crate::floats::{float_of, parse_float_text};
use crate::json::{json_of_text, json_of_value, json_text, value_of_json, JsonValue};
use crate::text::{
    boolean_of, byte_len, chars_of, contains_text, decimal, decimal_text, integer_of,
    join_texts, joined, parse_boolean, parse_integer, string_of, texts,
};
use crate::types::{flag_entries, flag_lookup, flags_of, ColumnType, InnerColumnType};
use crate::value::{lookup, Value, ValueView};
use vstd::prelude::*;
use vstd::string::StringExecFns;

verus! {

/// What validation yields: the value in its canonical form, or the error.
pub type Outcome = Result<ValueView, SettingsErrorView>;

/// The name of a value's kind.
pub open spec fn kind_of(v: ValueView) -> TypeName {
    match v {
        ValueView::Uuid(_) => TypeName::Uuid,
        ValueView::String(_) => TypeName::String,
        ValueView::Timestamp(_) => TypeName::Timestamp,
        ValueView::TimestampTz(_) => TypeName::TimestampTz,
        ValueView::Interval(_) => TypeName::Interval,
        ValueView::Integer(_) => TypeName::Integer,
        ValueView::Float(_) => TypeName::Float,
        ValueView::Boolean(_) => TypeName::Boolean,
        ValueView::List(_) => TypeName::List,
        ValueView::Mapping(_) => TypeName::Mapping,
        ValueView::Null => TypeName::Null,
    }
}

/// What a check with a fixed rule accepts, in words.
pub open spec fn accepted(check: Check) -> Seq<char> {
    match check {
        Check::IntegerSyntax => "a base-10 signed 64-bit integer"@,
        Check::FloatSyntax => "a decimal number within the range of a 64-bit float"@,
        Check::BooleanSyntax => "true or false"@,
        Check::BitFlagSyntax => "an integer, or declared flag names separated by ; or ,"@,
        Check::BitFlagDefault => "at least one declared flag"@,
        Check::UuidSyntax => "a UUID"@,
        Check::TimestampSyntax => "%Y-%m-%d %H:%M:%S"@,
        Check::TimestampTzSyntax => "an RFC 3339 date and time"@,
        Check::IntervalSyntax => "a number followed by a unit of time"@,
        Check::JsonSyntax => "a JSON document"@,
        Check::JsonEncoding => "a value that has a JSON text"@,
        _ => Seq::empty(),
    }
}

/// The error of a check with a fixed rule.
pub open spec fn rule_error(column: Seq<char>, check: Check, detail: Seq<char>)
    -> SettingsErrorView {
    check_error(column, check, accepted(check), detail)
}

fn accepted_text(check: Check) -> (r: String)
    ensures
        r@ == accepted(check),
{
    match check {
        Check::IntegerSyntax => "a base-10 signed 64-bit integer".to_owned(),
        Check::FloatSyntax => "a decimal number within the range of a 64-bit float".to_owned(),
        Check::BooleanSyntax => "true or false".to_owned(),
        Check::BitFlagSyntax => "an integer, or declared flag names separated by ; or ,".to_owned(),
        Check::BitFlagDefault => "at least one declared flag".to_owned(),
        Check::UuidSyntax => "a UUID".to_owned(),
        Check::TimestampSyntax => "%Y-%m-%d %H:%M:%S".to_owned(),
        Check::TimestampTzSyntax => "an RFC 3339 date and time".to_owned(),
        Check::IntervalSyntax => "a number followed by a unit of time".to_owned(),
        Check::JsonSyntax => "a JSON document".to_owned(),
        Check::JsonEncoding => "a value that has a JSON text".to_owned(),
        _ => String::new(),
    }
}

fn new_rule_error(column: &str, check: Check, detail: String) -> (e: SettingsError)
    ensures
        e@ == rule_error(column@, check, detail@),
{
    new_check_error(column, check, accepted_text(check), detail)
}

impl Value {
    /// The name of the value's kind.
    pub fn kind(&self) -> (r: TypeName)
        ensures
            r == kind_of(self@),
    {
        match self {
            Value::Uuid(_) => TypeName::Uuid,
            Value::String(_) => TypeName::String,
            Value::Timestamp(_) => TypeName::Timestamp,
            Value::TimestampTz(_) => TypeName::TimestampTz,
            Value::Interval(_) => TypeName::Interval,
            Value::Integer(_) => TypeName::Integer,
            Value::Float(_) => TypeName::Float,
            Value::Boolean(_) => TypeName::Boolean,
            Value::List(_) => TypeName::List,
            Value::Mapping(_) => TypeName::Mapping,
            Value::Null => TypeName::Null,
        }
    }
}

/// A text under the constraints of a string column: its length in bytes
/// within the bounds, and the text among the allowed values if there are any.
pub open spec fn checked_string(
    s: Seq<char>,
    min_length: Option<usize>,
    max_length: Option<usize>,
    allowed: Seq<Seq<char>>,
    column: Seq<char>,
) -> Outcome {
    if min_length is Some && byte_len(s) < min_length->0 {
        Err(
            check_error(
                column,
                Check::MinLength,
                decimal(min_length->0 as nat),
                decimal(byte_len(s)),
            ),
        )
    } else if max_length is Some && byte_len(s) > max_length->0 {
        Err(
            check_error(
                column,
                Check::MaxLength,
                decimal(max_length->0 as nat),
                decimal(byte_len(s)),
            ),
        )
    } else if allowed.len() > 0 && !allowed.contains(s) {
        Err(check_error(column, Check::AllowedValues, joined(allowed), s))
    } else {
        Ok(ValueView::String(s))
    }
}

fn check_string(
    s: String,
    min_length: &Option<usize>,
    max_length: &Option<usize>,
    allowed_values: &Vec<String>,
    column_id: &str,
) -> (r: Result<Value, SettingsError>)
    ensures
        agrees(
            r,
            checked_string(s@, *min_length, *max_length, texts(allowed_values@), column_id@),
        ),
{
    let length = s.as_str().as_bytes().len();
    if let Some(min) = min_length {
        if length < *min {
            return Err(
                new_check_error(
                    column_id,
                    Check::MinLength,
                    decimal_text(*min),
                    decimal_text(length),
                ),
            );
        }
    }
    if let Some(max) = max_length {
        if length > *max {
            return Err(
                new_check_error(
                    column_id,
                    Check::MaxLength,
                    decimal_text(*max),
                    decimal_text(length),
                ),
            );
        }
    }
    if allowed_values.len() > 0 && !contains_text(allowed_values, &s) {
        return Err(
            new_check_error(column_id, Check::AllowedValues, join_texts(allowed_values), s),
        );
    }
    Ok(Value::String(s))
}

/// Whether a result is the given outcome.
pub open spec fn agrees(r: Result<Value, SettingsError>, outcome: Outcome) -> bool {
    match r {
        Ok(v) => outcome == Ok::<ValueView, SettingsErrorView>(v@),
        Err(e) => outcome == Err::<ValueView, SettingsErrorView>(e@),
    }
}

/// A value under a string column: a string, or a UUID by its text.
pub open spec fn validated_string(
    v: ValueView,
    min_length: Option<usize>,
    max_length: Option<usize>,
    allowed: Seq<Seq<char>>,
    column: Seq<char>,
) -> Outcome {
    match v {
        ValueView::String(s) => checked_string(s, min_length, max_length, allowed, column),
        ValueView::Uuid(u) => checked_string(
            uuid_text(u),
            min_length,
            max_length,
            allowed,
            column,
        ),
        _ => Err(type_error(column, TypeName::String, kind_of(v))),
    }
}

/// A value under an integer column: an integer, or the text of one.
pub open spec fn validated_integer(v: ValueView, column: Seq<char>) -> Outcome {
    match v {
        ValueView::Integer(_) => Ok(v),
        ValueView::String(s) => match integer_of(s) {
            Some(i) => Ok(ValueView::Integer(i)),
            None => Err(rule_error(column, Check::IntegerSyntax, s)),
        },
        _ => Err(type_error(column, TypeName::Integer, kind_of(v))),
    }
}

/// A value under a boolean column: a boolean, or `true` or `false` as text.
pub open spec fn validated_boolean(v: ValueView, column: Seq<char>) -> Outcome {
    match v {
        ValueView::Boolean(_) => Ok(v),
        ValueView::String(s) => match boolean_of(s) {
            Some(b) => Ok(ValueView::Boolean(b)),
            None => Err(rule_error(column, Check::BooleanSyntax, s)),
        },
        _ => Err(type_error(column, TypeName::Boolean, kind_of(v))),
    }
}

/// A value under a UUID column: a UUID, or the text of one.
pub open spec fn validated_uuid(v: ValueView, column: Seq<char>) -> Outcome {
    match v {
        ValueView::Uuid(_) => Ok(v),
        ValueView::String(s) => match uuid_of_text(s) {
            Ok(u) => Ok(ValueView::Uuid(u)),
            Err(e) => Err(rule_error(column, Check::UuidSyntax, e)),
        },
        _ => Err(type_error(column, TypeName::Uuid, kind_of(v))),
    }
}

/// What a parsed date becomes: its nanoseconds since the epoch, or the
/// parser's error.
pub open spec fn dated(parsed: Result<(i64, u32), Seq<char>>, syntax: Check, column: Seq<char>)
    -> Result<i128, SettingsErrorView> {
    match parsed {
        Ok(p) => Ok(timestamp_of(p)),
        Err(e) => Err(rule_error(column, syntax, e)),
    }
}

/// A value under a timestamp column: a timestamp, an instant taken at UTC,
/// or a text in the timestamp format.
pub open spec fn validated_timestamp(v: ValueView, column: Seq<char>) -> Outcome {
    match v {
        ValueView::Timestamp(_) => Ok(v),
        ValueView::TimestampTz(t) => Ok(ValueView::Timestamp(t)),
        ValueView::String(s) => match dated(
            datetime_of_text(s, timestamp_format()),
            Check::TimestampSyntax,
            column,
        ) {
            Ok(n) => Ok(ValueView::Timestamp(n)),
            Err(e) => Err(e),
        },
        _ => Err(type_error(column, TypeName::Timestamp, kind_of(v))),
    }
}

/// A value under an instant column: an instant, a timestamp taken as UTC, or
/// an RFC 3339 text.
pub open spec fn validated_timestamp_tz(v: ValueView, column: Seq<char>) -> Outcome {
    match v {
        ValueView::TimestampTz(_) => Ok(v),
        ValueView::Timestamp(t) => Ok(ValueView::TimestampTz(t)),
        ValueView::String(s) => match dated(
            instant_of_rfc3339(s),
            Check::TimestampTzSyntax,
            column,
        ) {
            Ok(n) => Ok(ValueView::TimestampTz(n)),
            Err(e) => Err(e),
        },
        _ => Err(type_error(column, TypeName::TimestampTz, kind_of(v))),
    }
}

/// A value under an interval column: an interval, or the text of one.
pub open spec fn validated_interval(v: ValueView, column: Seq<char>) -> Outcome {
    match v {
        ValueView::Interval(_) => Ok(v),
        ValueView::String(s) => match interval_of(s) {
            Some(i) => Ok(ValueView::Interval(i)),
            None => Err(rule_error(column, Check::IntervalSyntax, s)),
        },
        _ => Err(type_error(column, TypeName::Interval, kind_of(v))),
    }
}

fn validate_string(
    v: Value,
    min_length: &Option<usize>,
    max_length: &Option<usize>,
    allowed_values: &Vec<String>,
    column_id: &str,
) -> (r: Result<Value, SettingsError>)
    ensures
        agrees(
            r,
            validated_string(v@, *min_length, *max_length, texts(allowed_values@), column_id@),
        ),
{
    match v {
        Value::String(s) => check_string(s, min_length, max_length, allowed_values, column_id),
        Value::Uuid(u) => check_string(
            format_uuid(u),
            min_length,
            max_length,
            allowed_values,
            column_id,
        ),
        other => Err(new_type_error(column_id, TypeName::String, other.kind())),
    }
}

fn validate_integer(v: Value, column_id: &str) -> (r: Result<Value, SettingsError>)
    ensures
        agrees(r, validated_integer(v@, column_id@)),
{
    match v {
        Value::Integer(i) => Ok(Value::Integer(i)),
        Value::String(s) => {
            let chars = chars_of(s.as_str());
            match parse_integer(&chars) {
                Some(i) => Ok(Value::Integer(i)),
                None => Err(new_rule_error(column_id, Check::IntegerSyntax, s)),
            }
        },
        other => Err(new_type_error(column_id, TypeName::Integer, other.kind())),
    }
}

fn validate_boolean(v: Value, column_id: &str) -> (r: Result<Value, SettingsError>)
    ensures
        agrees(r, validated_boolean(v@, column_id@)),
{
    match v {
        Value::Boolean(b) => Ok(Value::Boolean(b)),
        Value::String(s) => {
            let chars = chars_of(s.as_str());
            match parse_boolean(&chars) {
                Some(b) => Ok(Value::Boolean(b)),
                None => Err(new_rule_error(column_id, Check::BooleanSyntax, s)),
            }
        },
        other => Err(new_type_error(column_id, TypeName::Boolean, other.kind())),
    }
}

fn validate_uuid(v: Value, column_id: &str) -> (r: Result<Value, SettingsError>)
    ensures
        agrees(r, validated_uuid(v@, column_id@)),
{
    match v {
        Value::Uuid(u) => Ok(Value::Uuid(u)),
        Value::String(s) => match parse_uuid(s.as_str()) {
            Ok(u) => Ok(Value::Uuid(u)),
            Err(e) => Err(new_rule_error(column_id, Check::UuidSyntax, e)),
        },
        other => Err(new_type_error(column_id, TypeName::Uuid, other.kind())),
    }
}

/// What a parsed date becomes.
fn date_outcome(parsed: Result<(i64, u32), String>, syntax: Check, column_id: &str) -> (r: Result<
    i128,
    SettingsError,
>)
    ensures
        match r {
            Ok(n) => dated(parsed_view(parsed), syntax, column_id@) == Ok::<
                i128,
                SettingsErrorView,
            >(n),
            Err(e) => dated(parsed_view(parsed), syntax, column_id@) == Err::<
                i128,
                SettingsErrorView,
            >(e@),
        },
{
    match parsed {
        Ok((seconds, nanos)) => Ok(join_timestamp(seconds, nanos)),
        Err(e) => Err(new_rule_error(column_id, syntax, e)),
    }
}

/// The content of a parser's answer.
pub open spec fn parsed_view(parsed: Result<(i64, u32), String>) -> Result<
    (i64, u32),
    Seq<char>,
> {
    match parsed {
        Ok(p) => Ok(p),
        Err(e) => Err(e@),
    }
}

fn validate_timestamp(v: Value, column_id: &str) -> (r: Result<Value, SettingsError>)
    ensures
        agrees(r, validated_timestamp(v@, column_id@)),
{
    match v {
        Value::Timestamp(t) => Ok(Value::Timestamp(t)),
        Value::TimestampTz(t) => Ok(Value::Timestamp(t)),
        Value::String(s) => {
            let parsed = parse_datetime(s.as_str(), "%Y-%m-%d %H:%M:%S");
            match date_outcome(parsed, Check::TimestampSyntax, column_id) {
                Ok(n) => Ok(Value::Timestamp(n)),
                Err(e) => Err(e),
            }
        },
        other => Err(new_type_error(column_id, TypeName::Timestamp, other.kind())),
    }
}

fn validate_timestamp_tz(v: Value, column_id: &str) -> (r: Result<Value, SettingsError>)
    ensures
        agrees(r, validated_timestamp_tz(v@, column_id@)),
{
    match v {
        Value::TimestampTz(t) => Ok(Value::TimestampTz(t)),
        Value::Timestamp(t) => Ok(Value::TimestampTz(t)),
        Value::String(s) => {
            let parsed = parse_rfc3339(s.as_str());
            match date_outcome(parsed, Check::TimestampTzSyntax, column_id) {
                Ok(n) => Ok(Value::TimestampTz(n)),
                Err(e) => Err(e),
            }
        },
        other => Err(new_type_error(column_id, TypeName::TimestampTz, other.kind())),
    }
}

fn validate_interval(v: Value, column_id: &str) -> (r: Result<Value, SettingsError>)
    ensures
        agrees(r, validated_interval(v@, column_id@)),
{
    match v {
        Value::Interval(i) => Ok(Value::Interval(i)),
        Value::String(s) => {
            let chars = chars_of(s.as_str());
            match parse_interval(&chars) {
                Some(i) => Ok(Value::Interval(i)),
                None => Err(new_rule_error(column_id, Check::IntervalSyntax, s)),
            }
        },
        other => Err(new_type_error(column_id, TypeName::Interval, other.kind())),
    }
}


/// A value under a float column: a float, or the text of a number.
pub open spec fn validated_float(v: ValueView, column: Seq<char>) -> Outcome {
    match v {
        ValueView::Float(t) => floated(t, column),
        ValueView::String(t) => floated(t, column),
        _ => Err(type_error(column, TypeName::Float, kind_of(v))),
    }
}

/// The float that a text means, or the error that it means none.
pub open spec fn floated(t: Seq<char>, column: Seq<char>) -> Outcome {
    match float_of(t) {
        Some(c) => Ok(ValueView::Float(c)),
        None => Err(rule_error(column, Check::FloatSyntax, t)),
    }
}

fn validate_float(v: Value, column_id: &str) -> (r: Result<Value, SettingsError>)
    ensures
        agrees(r, validated_float(v@, column_id@)),
{
    match v {
        Value::Float(t) => match parse_float_text(&t) {
            Some(c) => Ok(Value::Float(c)),
            None => Err(new_rule_error(column_id, Check::FloatSyntax, t)),
        },
        Value::String(t) => match parse_float_text(&t) {
            Some(c) => Ok(Value::Float(c)),
            None => Err(new_rule_error(column_id, Check::FloatSyntax, t)),
        },
        other => Err(new_type_error(column_id, TypeName::Float, other.kind())),
    }
}

/// The declared flags that `input` has all bits of, or-ed together. Bits of
/// `input` that belong to no declared flag are left out.
pub open spec fn masked(flags: Seq<(Seq<char>, i64)>, input: i64) -> i64
    decreases flags.len(),
{
    if flags.len() == 0 {
        0
    } else {
        let rest = masked(flags.drop_last(), input);
        let bit = flags.last().1;
        if bit & input == bit {
            rest | bit
        } else {
            rest
        }
    }
}

/// The canonical form of a bit-flag input: its declared flags, or the first
/// declared flag where it has none. Without any declared flag there is none.
pub open spec fn canonical_flags(flags: Seq<(Seq<char>, i64)>, input: i64) -> Option<i64> {
    if masked(flags, input) != 0 {
        Some(masked(flags, input))
    } else if flags.len() > 0 {
        Some(flags[0].1)
    } else {
        None
    }
}

/// Whether a character separates two flag names.
pub open spec fn is_separator(c: char) -> bool {
    c == ';' || c == ','
}

/// How many characters stand before the first separator of `s`.
pub open spec fn name_run(s: Seq<char>) -> int
    decreases s.len(),
{
    if s.len() > 0 && !is_separator(s[0]) {
        1 + name_run(s.drop_first())
    } else {
        0
    }
}

/// The bits of both or-ed together, where both are there.
pub open spec fn both(a: Option<i64>, b: Option<i64>) -> Option<i64> {
    match (a, b) {
        (Some(x), Some(y)) => Some(x | y),
        _ => None,
    }
}

/// The bits of a list of flag names separated by `;` or `,`, or-ed together;
/// `None` where a name is not declared.
pub open spec fn named_bits(flags: Seq<(Seq<char>, i64)>, s: Seq<char>) -> Option<i64>
    decreases s.len(),
{
    let n = name_run(s);
    let here = lookup(flags, s.subrange(0, n));
    if n < 0 || n >= s.len() {
        here
    } else {
        both(here, named_bits(flags, s.subrange(n + 1, s.len() as int)))
    }
}

/// The canonical bit-flag value of `input`, or the error that the column
/// declares no flag.
pub open spec fn flagged(flags: Seq<(Seq<char>, i64)>, input: i64, column: Seq<char>) -> Outcome {
    match canonical_flags(flags, input) {
        Some(c) => Ok(ValueView::Integer(c)),
        None => Err(rule_error(column, Check::BitFlagDefault, Seq::empty())),
    }
}

/// A value under a bit-flag column: an integer, the text of one, or a list
/// of declared flag names.
pub open spec fn validated_bitflag(v: ValueView, flags: Seq<(Seq<char>, i64)>, column: Seq<char>)
    -> Outcome {
    match v {
        ValueView::Integer(i) => flagged(flags, i, column),
        ValueView::String(s) => match integer_of(s) {
            Some(i) => flagged(flags, i, column),
            None => match named_bits(flags, s) {
                Some(b) => flagged(flags, b, column),
                None => Err(rule_error(column, Check::BitFlagSyntax, s)),
            },
        },
        _ => Err(type_error(column, TypeName::BitFlag, kind_of(v))),
    }
}

/// A run of characters that ends at the first separator is the name that
/// `s` starts with.
pub proof fn lemma_name_run(s: Seq<char>, i: int)
    requires
        0 <= i <= s.len(),
        forall|k: int| 0 <= k < i ==> !is_separator(#[trigger] s[k]),
        i == s.len() || is_separator(s[i]),
    ensures
        name_run(s) == i,
    decreases s.len(),
{
    if i > 0 {
        let rest = s.drop_first();
        assert forall|k: int| 0 <= k < i - 1 implies !is_separator(#[trigger] rest[k]) by {
            assert(rest[k] == s[k + 1]);
        }
        lemma_name_run(rest, i - 1);
    }
}

fn canonical_bits(values: &indexmap::IndexMap<String, i64>, input: i64, column_id: &str) -> (r:
    Result<Value, SettingsError>)
    ensures
        agrees(r, flagged(flags_of(*values), input, column_id@)),
{
    let bits = flag_entries(values);
    let ghost flags = flags_of(*values);
    let mut acc: i64 = 0;
    let mut i: usize = 0;
    while i < bits.len()
        invariant
            i <= bits.len(),
            bits@.len() == flags.len(),
            forall|k: int| 0 <= k < bits@.len() ==> (#[trigger] bits@[k]).1 == flags[k].1,
            acc == masked(flags.subrange(0, i as int), input),
        decreases bits.len() - i,
    {
        let bit = bits[i].1;
        proof {
            let longer = flags.subrange(0, i as int + 1);
            assert(longer.drop_last() == flags.subrange(0, i as int));
            assert(longer.last() == flags[i as int]);
        }
        if bit & input == bit {
            acc = acc | bit;
        }
        i += 1;
    }
    assert(flags.subrange(0, flags.len() as int) == flags);
    if acc != 0 {
        Ok(Value::Integer(acc))
    } else if bits.len() > 0 {
        Ok(Value::Integer(bits[0].1))
    } else {
        Err(new_rule_error(column_id, Check::BitFlagDefault, String::new()))
    }
}

fn bits_of_names(values: &indexmap::IndexMap<String, i64>, chars: &Vec<char>) -> (r: Option<i64>)
    ensures
        r == named_bits(flags_of(*values), chars@),
{
    let ghost flags = flags_of(*values);
    let n = chars.len();
    let mut acc: i64 = 0;
    let mut start: usize = 0;
    proof {
        assert(chars@.subrange(0, n as int) == chars@);
        let whole = named_bits(flags, chars@);
        if whole is Some {
            let y = whole->0;
            assert(0i64 | y == y) by (bit_vector);
        }
    }
    loop
        invariant
            start <= n,
            n == chars.len(),
            flags == flags_of(*values),
            named_bits(flags, chars@) == both(
                Some(acc),
                named_bits(flags, chars@.subrange(start as int, n as int)),
            ),
        decreases n - start,
    {
        let ghost rest = chars@.subrange(start as int, n as int);
        let mut end: usize = start;
        while end < n && !(chars[end] == ';' || chars[end] == ',')
            invariant
                start <= end <= n,
                n == chars.len(),
                rest == chars@.subrange(start as int, n as int),
                forall|k: int| 0 <= k < end - start ==> !is_separator(#[trigger] rest[k]),
            decreases n - end,
        {
            end += 1;
        }
        proof {
            lemma_name_run(rest, end - start);
            assert(rest.subrange(0, end - start) == chars@.subrange(start as int, end as int));
        }
        let name = string_of(chars, start, end);
        match flag_lookup(values, name.as_str()) {
            None => {
                return None;
            },
            Some(bit) => {
                if end == n {
                    return Some(acc | bit);
                }
                proof {
                    assert(rest.subrange(end - start + 1, rest.len() as int) == chars@.subrange(
                        end as int + 1,
                        n as int,
                    ));
                    let after = named_bits(flags, chars@.subrange(end as int + 1, n as int));
                    if after is Some {
                        let y = after->0;
                        assert(acc | (bit | y) == (acc | bit) | y) by (bit_vector);
                    }
                }
                acc = acc | bit;
                start = end + 1;
            },
        }
    }
}

fn validate_bitflag(v: Value, values: &indexmap::IndexMap<String, i64>, column_id: &str) -> (r:
    Result<Value, SettingsError>)
    ensures
        agrees(r, validated_bitflag(v@, flags_of(*values), column_id@)),
{
    match v {
        Value::Integer(i) => canonical_bits(values, i, column_id),
        Value::String(s) => {
            let chars = chars_of(s.as_str());
            match parse_integer(&chars) {
                Some(i) => canonical_bits(values, i, column_id),
                None => match bits_of_names(values, &chars) {
                    Some(b) => canonical_bits(values, b, column_id),
                    None => Err(new_rule_error(column_id, Check::BitFlagSyntax, s)),
                },
            }
        },
        other => Err(new_type_error(column_id, TypeName::BitFlag, other.kind())),
    }
}

/// Whether a text is taken as a JSON document to read: it starts with `[`
/// or `{`.
pub open spec fn opens_document(s: Seq<char>) -> bool {
    s.len() > 0 && (s[0] == '[' || s[0] == '{')
}

/// What a value is under a JSON column, before its size is looked at: a text
/// that opens a document is read as JSON, any other value stands for itself.
pub open spec fn json_reading(v: ValueView, column: Seq<char>) -> Outcome {
    match v {
        ValueView::String(s) => if opens_document(s) {
            match json_of_text(s) {
                Ok(j) => Ok(value_of_json(j)),
                Err(e) => Err(rule_error(column, Check::JsonSyntax, e)),
            }
        } else {
            Ok(v)
        },
        _ => Ok(v),
    }
}

/// A value under a JSON column's demands on its document: the value has to
/// have one, and where the column limits the bytes of the document's text,
/// the text has to be within the limit.
pub open spec fn json_sized(v: ValueView, max_bytes: Option<usize>, column: Seq<char>) -> Outcome {
    match json_of_value(v) {
        None => Err(rule_error(column, Check::JsonEncoding, Seq::empty())),
        Some(document) => match max_bytes {
            None => Ok(v),
            Some(max) => match json_text(document) {
                None => Err(rule_error(column, Check::JsonEncoding, Seq::empty())),
                Some(t) => if byte_len(t) > max {
                    Err(
                        check_error(
                            column,
                            Check::MaxBytes,
                            decimal(max as nat),
                            decimal(byte_len(t)),
                        ),
                    )
                } else {
                    Ok(v)
                },
            },
        },
    }
}

/// A value under a JSON column.
pub open spec fn validated_json(v: ValueView, max_bytes: Option<usize>, column: Seq<char>)
    -> Outcome {
    match json_reading(v, column) {
        Ok(read) => json_sized(read, max_bytes, column),
        Err(e) => Err(e),
    }
}

fn read_json(v: Value, column_id: &str) -> (r: Result<Value, SettingsError>)
    ensures
        agrees(r, json_reading(v@, column_id@)),
{
    match v {
        Value::String(s) => {
            let chars = chars_of(s.as_str());
            if chars.len() > 0 && (chars[0] == '[' || chars[0] == '{') {
                match JsonValue::parse(s.as_str()) {
                    Ok(j) => Ok(Value::from_json(&j)),
                    Err(e) => Err(new_rule_error(column_id, Check::JsonSyntax, e)),
                }
            } else {
                Ok(Value::String(s))
            }
        },
        other => Ok(other),
    }
}

/// Holds a value against a JSON column's demands on its document.
pub fn check_json_size(v: Value, max_bytes: &Option<usize>, column_id: &str) -> (r: Result<
    Value,
    SettingsError,
>)
    ensures
        agrees(r, json_sized(v@, *max_bytes, column_id@)),
{
    let document = match v.to_json() {
        Some(document) => document,
        None => {
            return Err(new_rule_error(column_id, Check::JsonEncoding, String::new()));
        },
    };
    match max_bytes {
        None => Ok(v),
        Some(max) => match document.encode() {
            None => Err(new_rule_error(column_id, Check::JsonEncoding, String::new())),
            Some(t) => {
                let length = t.as_str().as_bytes().len();
                if length > *max {
                    Err(
                        new_check_error(
                            column_id,
                            Check::MaxBytes,
                            decimal_text(*max),
                            decimal_text(length),
                        ),
                    )
                } else {
                    Ok(v)
                }
            },
        },
    }
}

fn validate_json(v: Value, max_bytes: &Option<usize>, column_id: &str) -> (r: Result<
    Value,
    SettingsError,
>)
    ensures
        agrees(r, validated_json(v@, *max_bytes, column_id@)),
{
    match read_json(v, column_id) {
        Ok(read) => check_json_size(read, max_bytes, column_id),
        Err(e) => Err(e),
    }
}

/// A value other than the absent one under an element type.
pub open spec fn validated_scalar(v: ValueView, inner: InnerColumnType, column: Seq<char>)
    -> Outcome {
    match inner {
        InnerColumnType::String { min_length, max_length, allowed_values, kind } => {
            validated_string(v, min_length, max_length, texts(allowed_values@), column)
        },
        InnerColumnType::Integer { } => validated_integer(v, column),
        InnerColumnType::Float { } => validated_float(v, column),
        InnerColumnType::BitFlag { values } => validated_bitflag(v, flags_of(values), column),
        InnerColumnType::Boolean { } => validated_boolean(v, column),
        InnerColumnType::Uuid { } => validated_uuid(v, column),
        InnerColumnType::Timestamp { } => validated_timestamp(v, column),
        InnerColumnType::TimestampTz { } => validated_timestamp_tz(v, column),
        InnerColumnType::Interval { } => validated_interval(v, column),
        InnerColumnType::Json { kind, max_bytes } => validated_json(v, max_bytes, column),
    }
}

/// The error of an absent value in a column that is not nullable.
pub open spec fn null_error(column: Seq<char>) -> SettingsErrorView {
    SettingsErrorView::SchemaNullValueValidationError { column }
}

/// One value under an element type: the absent value stays where the
/// column is nullable and is an error where it is not.
pub open spec fn validated_item(
    v: ValueView,
    inner: InnerColumnType,
    column: Seq<char>,
    nullable: bool,
) -> Outcome {
    if v is Null {
        if nullable {
            Ok(ValueView::Null)
        } else {
            Err(null_error(column))
        }
    } else {
        validated_scalar(v, inner, column)
    }
}

/// The items of a list, each under the element type, in their order; the
/// error of the first item that has one.
pub open spec fn validated_items(
    items: Seq<ValueView>,
    inner: InnerColumnType,
    column: Seq<char>,
    nullable: bool,
) -> Result<Seq<ValueView>, SettingsErrorView>
    decreases items.len(),
{
    if items.len() == 0 {
        Ok(Seq::empty())
    } else {
        match validated_item(items[0], inner, column, nullable) {
            Err(e) => Err(e),
            Ok(first) => after(first, validated_items(items.drop_first(), inner, column, nullable)),
        }
    }
}

/// The item `first`, then what `rest` gives.
pub open spec fn after(
    first: ValueView,
    rest: Result<Seq<ValueView>, SettingsErrorView>,
) -> Result<Seq<ValueView>, SettingsErrorView> {
    match rest {
        Ok(items) => Ok(seq![first] + items),
        Err(e) => Err(e),
    }
}

/// What `v` becomes under the column type `column_type` in the column
/// `column`.
///
/// The absent value stays where the column is nullable and is an error
/// where it is not. Under an array type the value has to be a list, and each
/// item is validated under the element type with the same nullability.
/// Under a scalar type the value is validated under the element type.
pub open spec fn validated(
    v: ValueView,
    column_type: ColumnType,
    column: Seq<char>,
    nullable: bool,
) -> Outcome {
    match column_type {
        ColumnType::Scalar { inner } => validated_item(v, inner, column, nullable),
        ColumnType::Array { inner } => match v {
            ValueView::Null => validated_item(v, inner, column, nullable),
            ValueView::List(items) => listed(validated_items(items, inner, column, nullable)),
            _ => Err(type_error(column, TypeName::List, kind_of(v))),
        },
    }
}

fn validate_scalar(v: Value, inner: &InnerColumnType, column_id: &str) -> (r: Result<
    Value,
    SettingsError,
>)
    ensures
        agrees(r, validated_scalar(v@, *inner, column_id@)),
{
    match inner {
        InnerColumnType::String { min_length, max_length, allowed_values, kind } => {
            validate_string(v, min_length, max_length, allowed_values, column_id)
        },
        InnerColumnType::Integer { } => validate_integer(v, column_id),
        InnerColumnType::Float { } => validate_float(v, column_id),
        InnerColumnType::BitFlag { values } => validate_bitflag(v, values, column_id),
        InnerColumnType::Boolean { } => validate_boolean(v, column_id),
        InnerColumnType::Uuid { } => validate_uuid(v, column_id),
        InnerColumnType::Timestamp { } => validate_timestamp(v, column_id),
        InnerColumnType::TimestampTz { } => validate_timestamp_tz(v, column_id),
        InnerColumnType::Interval { } => validate_interval(v, column_id),
        InnerColumnType::Json { kind, max_bytes } => validate_json(v, max_bytes, column_id),
    }
}

fn validate_item(v: Value, inner: &InnerColumnType, column_id: &str, nullable: bool) -> (r: Result<
    Value,
    SettingsError,
>)
    ensures
        agrees(r, validated_item(v@, *inner, column_id@, nullable)),
{
    match v {
        Value::Null => {
            if nullable {
                Ok(Value::Null)
            } else {
                Err(SettingsError::SchemaNullValueValidationError { column: column_id.to_owned() })
            }
        },
        other => validate_scalar(other, inner, column_id),
    }
}

/// Validates `v` against the column type `column_type` of the column
/// `column_id` and gives its canonical form.
pub fn validate_value(v: Value, column_type: &ColumnType, column_id: &str, nullable: bool) -> (r:
    Result<Value, SettingsError>)
    ensures
        agrees(r, validated(v@, *column_type, column_id@, nullable)),
{
    let ghost target = validated(v@, *column_type, column_id@, nullable);
    match column_type {
        ColumnType::Scalar { inner } => validate_item(v, inner, column_id, nullable),
        ColumnType::Array { inner } => match v {
            Value::Null => validate_item(Value::Null, inner, column_id, nullable),
            Value::List(items) => {
                let ghost list = Value::List(items);
                proof {
                    crate::value::lemma_list_view(list);
                }
                let ghost all = list@->List_0;
                let mut out: Vec<Value> = Vec::new();
                let mut i: usize = 0;
                proof {
                    assert(target == listed(validated_items(all, *inner, column_id@, nullable)));
                    assert(all.subrange(0, all.len() as int) == all);
                    let whole = validated_items(all, *inner, column_id@, nullable);
                    let none = Seq::new(0nat, |k: int| out@[k]@);
                    if whole is Ok {
                        assert(none + whole->Ok_0 == whole->Ok_0);
                    }
                }
                while i < items.len()
                    invariant
                        i <= items.len(),
                        target == validated(v@, *column_type, column_id@, nullable),
                        target == listed(validated_items(all, *inner, column_id@, nullable)),
                        all.len() == items@.len(),
                        forall|k: int| 0 <= k < items@.len() ==> all[k] == (#[trigger] items@[k])@,
                        out.len() == i,
                        validated_items(all, *inner, column_id@, nullable) == prefixed(
                            Seq::new(i as nat, |k: int| out@[k]@),
                            validated_items(
                                all.subrange(i as int, all.len() as int),
                                *inner,
                                column_id@,
                                nullable,
                            ),
                        ),
                    decreases items.len() - i,
                {
                    let ghost rest = all.subrange(i as int, all.len() as int);
                    let ghost done = Seq::new(i as nat, |k: int| out@[k]@);
                    proof {
                        assert(rest[0] == items@[i as int]@);
                        assert(rest.drop_first() == all.subrange(i as int + 1, all.len() as int));
                        assert(validated_items(rest, *inner, column_id@, nullable) == match validated_item(
                            rest[0],
                            *inner,
                            column_id@,
                            nullable,
                        ) {
                            Err(e) => Err(e),
                            Ok(first) => after(
                                first,
                                validated_items(rest.drop_first(), *inner, column_id@, nullable),
                            ),
                        });
                    }
                    match validate_item(items[i].clone(), inner, column_id, nullable) {
                        Err(e) => {
                            return Err(e);
                        },
                        Ok(item) => {
                            out.push(item);
                            proof {
                                let longer = Seq::new((i + 1) as nat, |k: int| out@[k]@);
                                assert(longer == done.push(item@));
                                let tail = validated_items(
                                    rest.drop_first(),
                                    *inner,
                                    column_id@,
                                    nullable,
                                );
                                if tail is Ok {
                                    assert(done + (seq![item@] + tail->Ok_0) == longer
                                        + tail->Ok_0);
                                }
                            }
                        },
                    }
                    i += 1;
                }
                let r = Value::List(out);
                proof {
                    crate::value::lemma_list_view(r);
                    assert(all.subrange(all.len() as int, all.len() as int) == Seq::<
                        ValueView,
                    >::empty());
                    let done = Seq::new(i as nat, |k: int| out@[k]@);
                    assert(done + Seq::<ValueView>::empty() == done);
                    assert(r@->List_0 == done);
                }
                Ok(r)
            },
            other => Err(new_type_error(column_id, TypeName::List, other.kind())),
        },
    }
}

/// The list of the items, where there was no error.
pub open spec fn listed(items: Result<Seq<ValueView>, SettingsErrorView>) -> Outcome {
    match items {
        Ok(done) => Ok(ValueView::List(done)),
        Err(e) => Err(e),
    }
}

/// The items `done`, then what `rest` gives.
pub open spec fn prefixed(
    done: Seq<ValueView>,
    rest: Result<Seq<ValueView>, SettingsErrorView>,
) -> Result<Seq<ValueView>, SettingsErrorView> {
    match rest {
        Ok(items) => Ok(done + items),
        Err(e) => Err(e),
    }
}

} // verus!
