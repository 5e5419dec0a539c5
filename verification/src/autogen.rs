//! From a chat command to the fields of an operation, and from a setting to
//! the shape of its commands.

use crate::cfg::{is_separator, lemma_name_run, name_run};
use crate::floats::{float_of, parse_float_text};
use crate::error::{SettingsError, SettingsErrorView};
use crate::text::{
    chars_of, decimal, decimal_text_of, integer_of, integer_text, join_by, joined_by,
    parse_integer, same_text, shorten, shortened, signed_decimal, string_of, texts,
};
use crate::types::{
    flag_lookup, flags_of, Column, ColumnType, Entries, InnerColumnType, OperationType,
};
use crate::value::{
    inserted, lemma_list_view, lemma_position_is, lookup, Value, ValueMap, ValueView,
};
use crate::words::{
    char_is_numeric, contains_chars, is_numeric_char, matches_at, occurs, occurs_at,
    split_input_to_string, split_items,
};
use vstd::prelude::*;
use vstd::string::StringExecFns;

verus! {

/// `s` with each place where `from` stands, taken from left to right and
/// without overlap, turned into `to`. An empty `from` stands before each
/// character and at the end.
pub open spec fn replaced(s: Seq<char>, from: Seq<char>, to: Seq<char>) -> Seq<char>
    decreases s.len(),
{
    if s.len() == 0 {
        if from.len() == 0 {
            to
        } else {
            Seq::empty()
        }
    } else if from.len() == 0 {
        to + seq![s[0]] + replaced(s.drop_first(), from, to)
    } else if occurs_at(s, 0, from) {
        to + replaced(s.subrange(from.len() as int, s.len() as int), from, to)
    } else {
        seq![s[0]] + replaced(s.drop_first(), from, to)
    }
}

/// `s` after each of the pairs was applied in turn as `replaced` does.
pub open spec fn replaced_all(s: Seq<char>, pairs: Seq<(Seq<char>, Seq<char>)>) -> Seq<char>
    decreases pairs.len(),
{
    if pairs.len() == 0 {
        s
    } else {
        replaced(replaced_all(s, pairs.drop_last()), pairs.last().0, pairs.last().1)
    }
}

fn push_all(out: &mut Vec<char>, chars: &Vec<char>)
    ensures
        final(out)@ == old(out)@ + chars@,
{
    let mut i: usize = 0;
    while i < chars.len()
        invariant
            i <= chars.len(),
            out@ == old(out)@ + chars@.subrange(0, i as int),
        decreases chars.len() - i,
    {
        out.push(chars[i]);
        i += 1;
        assert(old(out)@ + chars@.subrange(0, i as int) == (old(out)@ + chars@.subrange(
            0,
            i as int - 1,
        )).push(chars@[i as int - 1]));
    }
    assert(chars@.subrange(0, chars@.len() as int) == chars@);
}

/// Replaces `from` by `to` in `chars`.
pub fn replace_chars(chars: &Vec<char>, from: &Vec<char>, to: &Vec<char>) -> (r: Vec<char>)
    ensures
        r@ == replaced(chars@, from@, to@),
{
    let n = chars.len();
    let mut out: Vec<char> = Vec::new();
    let mut i: usize = 0;
    proof {
        assert(chars@.subrange(0, n as int) == chars@);
        assert(out@ + replaced(chars@, from@, to@) == replaced(chars@, from@, to@));
    }
    while i < n
        invariant
            i <= n,
            n == chars.len(),
            replaced(chars@, from@, to@) == out@ + replaced(
                chars@.subrange(i as int, n as int),
                from@,
                to@,
            ),
        decreases n - i,
    {
        let ghost rest = chars@.subrange(i as int, n as int);
        let ghost before = out@;
        if from.len() == 0 {
            push_all(&mut out, to);
            out.push(chars[i]);
            proof {
                assert(rest.drop_first() == chars@.subrange(i as int + 1, n as int));
                let tail = replaced(rest.drop_first(), from@, to@);
                assert(before + (to@ + seq![rest[0]] + tail) == (before + to@).push(rest[0])
                    + tail);
            }
            i += 1;
        } else if matches_at(chars, i, from) {
            push_all(&mut out, to);
            proof {
                assert(rest.subrange(0, from@.len() as int) == chars@.subrange(
                    i as int,
                    i + from@.len(),
                ));
                assert(rest.subrange(from@.len() as int, rest.len() as int) == chars@.subrange(
                    i + from@.len(),
                    n as int,
                ));
                let tail = replaced(
                    rest.subrange(from@.len() as int, rest.len() as int),
                    from@,
                    to@,
                );
                assert(before + (to@ + tail) == (before + to@) + tail);
            }
            i += from.len();
        } else {
            out.push(chars[i]);
            proof {
                if occurs_at(rest, 0, from@) {
                    assert(rest.subrange(0, from@.len() as int) == chars@.subrange(
                        i as int,
                        i + from@.len(),
                    ));
                }
                assert(rest.drop_first() == chars@.subrange(i as int + 1, n as int));
                let tail = replaced(rest.drop_first(), from@, to@);
                assert(before + (seq![rest[0]] + tail) == before.push(rest[0]) + tail);
            }
            i += 1;
        }
    }
    proof {
        assert(chars@.subrange(n as int, n as int) == Seq::<char>::empty());
    }
    if from.len() == 0 {
        push_all(&mut out, to);
    } else {
        assert(out@ + Seq::<char>::empty() == out@);
    }
    out
}

/// The contents of the pairs of a replacement.
pub open spec fn pairs_view(pairs: Seq<(&'static str, &'static str)>) -> Seq<
    (Seq<char>, Seq<char>),
> {
    Seq::new(pairs.len(), |i: int| (pairs[i].0@, pairs[i].1@))
}

fn replace_all(number: Vec<char>, replace: &[(&'static str, &'static str)]) -> (r: Vec<char>)
    ensures
        r@ == replaced_all(number@, pairs_view(replace@)),
{
    let mut out = number;
    let mut i: usize = 0;
    while i < replace.len()
        invariant
            i <= replace.len(),
            out@ == replaced_all(number@, pairs_view(replace@).subrange(0, i as int)),
        decreases replace.len() - i,
    {
        let from = chars_of(replace[i].0);
        let to = chars_of(replace[i].1);
        proof {
            let longer = pairs_view(replace@).subrange(0, i as int + 1);
            assert(longer.drop_last() == pairs_view(replace@).subrange(0, i as int));
            assert(longer.last() == (from@, to@));
        }
        out = replace_chars(&out, &from, &to);
        i += 1;
    }
    assert(pairs_view(replace@).subrange(0, replace@.len() as int) == pairs_view(replace@));
    out
}

/// The numbers that stand in `s`, each a longest run of numeric
/// characters, in their order. `number` is the run that is open at the
/// start. A run that another character ends goes through the replacements;
/// the run that the end of the text ends does not.
pub open spec fn number_runs(s: Seq<char>, number: Seq<char>, pairs: Seq<(Seq<char>, Seq<char>)>)
    -> Seq<Seq<char>>
    decreases s.len(),
{
    if s.len() == 0 {
        if number.len() > 0 {
            seq![number]
        } else {
            Seq::empty()
        }
    } else if is_numeric_char(s[0]) {
        number_runs(s.drop_first(), number.push(s[0]), pairs)
    } else if number.len() > 0 {
        seq![replaced_all(number, pairs)] + number_runs(s.drop_first(), Seq::empty(), pairs)
    } else {
        number_runs(s.drop_first(), number, pairs)
    }
}

/// The numbers that stand in `s`, as their texts.
pub fn numeric_runs(s: &str, replace: &[(&'static str, &'static str)]) -> (r: Vec<String>)
    ensures
        texts(r@) == number_runs(s@, Seq::empty(), pairs_view(replace@)),
{
    let chars = chars_of(s);
    let n = chars.len();
    let ghost pairs = pairs_view(replace@);
    let mut out: Vec<String> = Vec::new();
    let mut number: Vec<char> = Vec::new();
    let mut i: usize = 0;
    proof {
        assert(chars@.subrange(0, n as int) == chars@);
        assert(texts(out@) + number_runs(chars@, number@, pairs) == number_runs(
            chars@,
            number@,
            pairs,
        ));
    }
    while i < n
        invariant
            i <= n,
            n == chars.len(),
            chars@ == s@,
            pairs == pairs_view(replace@),
            number_runs(s@, Seq::empty(), pairs) == texts(out@) + number_runs(
                chars@.subrange(i as int, n as int),
                number@,
                pairs,
            ),
        decreases n - i,
    {
        let ghost rest = chars@.subrange(i as int, n as int);
        let ghost before = texts(out@);
        proof {
            assert(rest.drop_first() == chars@.subrange(i as int + 1, n as int));
        }
        let c = chars[i];
        if char_is_numeric(c) {
            number.push(c);
        } else if number.len() > 0 {
            let done = replace_all(number, replace);
            let item = string_of(&done, 0, done.len());
            assert(done@.subrange(0, done@.len() as int) == done@);
            out.push(item);
            number = Vec::new();
            proof {
                assert(texts(out@) == before + seq![done@]);
                let tail = number_runs(rest.drop_first(), Seq::empty(), pairs);
                assert(before + (seq![done@] + tail) == (before + seq![done@]) + tail);
            }
        }
        i += 1;
    }
    proof {
        assert(chars@.subrange(n as int, n as int) == Seq::<char>::empty());
    }
    if number.len() > 0 {
        let ghost before = texts(out@);
        let item = string_of(&number, 0, number.len());
        assert(number@.subrange(0, number@.len() as int) == number@);
        out.push(item);
        assert(texts(out@) == before + seq![number@]);
    } else {
        assert(texts(out@) + Seq::<Seq<char>>::empty() == texts(out@));
    }
    out
}

/// The integers that the number texts mean, or the first text that means
/// none.
pub open spec fn integers_of(runs: Seq<Seq<char>>) -> Result<Seq<i64>, Seq<char>>
    decreases runs.len(),
{
    if runs.len() == 0 {
        Ok(Seq::empty())
    } else {
        match integer_of(runs[0]) {
            None => Err(runs[0]),
            Some(v) => match integers_of(runs.drop_first()) {
                Ok(rest) => Ok(seq![v] + rest),
                Err(e) => Err(e),
            },
        }
    }
}

/// Reads the integers that stand in a text, whatever separates them. A
/// number that is no 64-bit integer is an error that carries its text.
pub fn parse_numeric_list(s: &str, replace: &[(&'static str, &'static str)]) -> (r: Result<
    Vec<i64>,
    String,
>)
    ensures
        match r {
            Ok(v) => integers_of(number_runs(s@, Seq::empty(), pairs_view(replace@))) == Ok::<
                Seq<i64>,
                Seq<char>,
            >(v@),
            Err(e) => integers_of(number_runs(s@, Seq::empty(), pairs_view(replace@))) == Err::<
                Seq<i64>,
                Seq<char>,
            >(e@),
        },
{
    let runs = numeric_runs(s, replace);
    let ghost all = texts(runs@);
    let ghost target = integers_of(all);
    let mut out: Vec<i64> = Vec::new();
    let mut i: usize = 0;
    proof {
        assert(all.subrange(0, all.len() as int) == all);
        if target is Ok {
            assert(out@ + target->Ok_0 == target->Ok_0);
        }
    }
    while i < runs.len()
        invariant
            i <= runs.len(),
            all == texts(runs@),
            target == integers_of(number_runs(s@, Seq::empty(), pairs_view(replace@))),
            target == match integers_of(all.subrange(i as int, all.len() as int)) {
                Ok(rest) => Ok::<Seq<i64>, Seq<char>>(out@ + rest),
                Err(e) => Err(e),
            },
        decreases runs.len() - i,
    {
        let ghost rest = all.subrange(i as int, all.len() as int);
        let ghost before = out@;
        proof {
            assert(rest[0] == runs@[i as int]@);
            assert(rest.drop_first() == all.subrange(i as int + 1, all.len() as int));
        }
        let chars = chars_of(runs[i].as_str());
        match parse_integer(&chars) {
            None => {
                return Err(runs[i].clone());
            },
            Some(v) => {
                out.push(v);
                proof {
                    let tail = integers_of(rest.drop_first());
                    if tail is Ok {
                        assert(before + (seq![v] + tail->Ok_0) == before.push(v) + tail->Ok_0);
                    }
                }
            },
        }
        i += 1;
    }
    proof {
        assert(all.subrange(all.len() as int, all.len() as int) == Seq::<Seq<char>>::empty());
        assert(out@ + Seq::<i64>::empty() == out@);
    }
    Ok(out)
}

/// The bits of those names that are declared flags, or-ed together; a name
/// that is no declared flag counts for nothing.
pub open spec fn known_bits(flags: Seq<(Seq<char>, i64)>, names: Seq<Seq<char>>) -> i64
    decreases names.len(),
{
    if names.len() == 0 {
        0
    } else {
        let rest = known_bits(flags, names.drop_last());
        match lookup(flags, names.last()) {
            Some(bit) => rest | bit,
            None => rest,
        }
    }
}

/// The pieces that `;` and `,` cut `s` into, the empty ones too.
pub open spec fn flag_names(s: Seq<char>) -> Seq<Seq<char>>
    decreases s.len(),
{
    let n = name_run(s);
    if n < 0 || n >= s.len() {
        seq![s]
    } else {
        seq![s.subrange(0, n)] + flag_names(s.subrange(n + 1, s.len() as int))
    }
}

/// The bit-flag value of a text of flag names separated by `;` or `,`: the
/// bits of the declared names or-ed together. No text gives the absent
/// value.
pub open spec fn bitflags_of(flags: Seq<(Seq<char>, i64)>, input: Option<Seq<char>>)
    -> ValueView {
    match input {
        Some(s) => ValueView::Integer(known_bits(flags, flag_names(s))),
        None => ValueView::Null,
    }
}

/// Given the declared flags and a text of flag names, the bit-flag value.
pub fn convert_bitflags_string_to_value(
    values: &indexmap::IndexMap<String, i64>,
    input: Option<String>,
) -> (r: Value)
    ensures
        r@ == bitflags_of(
            flags_of(*values),
            match input {
                Some(s) => Some(s@),
                None => None,
            },
        ),
{
    match input {
        None => Value::Null,
        Some(text) => {
            let chars = chars_of(text.as_str());
            let n = chars.len();
            let ghost flags = flags_of(*values);
            let ghost mut seen: Seq<Seq<char>> = Seq::empty();
            let mut bits: i64 = 0;
            let mut start: usize = 0;
            proof {
                assert(chars@.subrange(0, n as int) == chars@);
                assert(seen + flag_names(chars@) == flag_names(chars@));
            }
            loop
                invariant
                    start <= n,
                    n == chars.len(),
                    chars@ == text@,
                    input is Some && input->0@ == text@,
                    flags == flags_of(*values),
                    flag_names(text@) == seen + flag_names(chars@.subrange(start as int, n as int)),
                    bits == known_bits(flags, seen),
                decreases n - start,
            {
                let ghost rest = chars@.subrange(start as int, n as int);
                let mut end: usize = start;
                while end < n && !(chars[end] == ';' || chars[end] == ',')
                    invariant
                        start <= end <= n,
                        n == chars.len(),
                        rest == chars@.subrange(start as int, n as int),
                        forall|j: int| 0 <= j < end - start ==> !is_separator(#[trigger] rest[j]),
                    decreases n - end,
                {
                    end += 1;
                }
                proof {
                    lemma_name_run(rest, end - start);
                    assert(rest.subrange(0, end - start) == chars@.subrange(
                        start as int,
                        end as int,
                    ));
                }
                let name = string_of(&chars, start, end);
                proof {
                    let longer = seen.push(name@);
                    assert(longer.drop_last() == seen);
                    assert(longer.last() == name@);
                }
                match flag_lookup(values, name.as_str()) {
                    Some(bit) => {
                        bits = bits | bit;
                    },
                    None => {},
                }
                if end == n {
                    proof {
                        assert(rest.subrange(0, end - start) == rest);
                        assert(flag_names(text@) == seen.push(name@));
                    }
                    return Value::Integer(bits);
                }
                proof {
                    let after = rest.subrange(end - start + 1, rest.len() as int);
                    assert(after == chars@.subrange(end as int + 1, n as int));
                    assert(seen + (seq![name@] + flag_names(after)) == seen.push(name@)
                        + flag_names(after));
                    seen = seen.push(name@);
                }
                start = end + 1;
            }
        },
    }
}


/// An argument of a command that the platform could not resolve.
#[derive(Debug, Clone, PartialEq)]
pub enum Unresolved {
    Attachment(u64),
    Channel(u64),
    Mentionable(u64),
    RoleId(u64),
    User(u64),
    Unknown(u8),
}

/// An argument of a command as the platform hands it over. An entity is
/// held by its id, an attachment by its address, a number by its text.
#[derive(Debug, Clone, PartialEq)]
pub enum ResolvedValue {
    Autocomplete(String),
    Boolean(bool),
    Integer(i64),
    Number(String),
    String(String),
    SubCommand,
    SubCommandGroup,
    Attachment { proxy_url: String },
    Channel { id: u64 },
    Role { id: u64 },
    User { id: u64 },
    Unresolved(Unresolved),
}

/// An error that carries a message only.
pub open spec fn generic_error(message: Seq<char>) -> SettingsErrorView {
    SettingsErrorView::Generic { message }
}

fn new_generic_error(message: String) -> (e: SettingsError)
    ensures
        e@ == generic_error(message@),
{
    SettingsError::Generic { message }
}

/// The text that an argument is taken by where its column asks for text;
/// none for an argument that is no value.
pub open spec fn potential_text(rv: ResolvedValue) -> Option<Seq<char>> {
    match rv {
        ResolvedValue::Boolean(b) => Some(
            if b {
                "true"@
            } else {
                "false"@
            },
        ),
        ResolvedValue::Integer(v) => Some(signed_decimal(v as int)),
        ResolvedValue::Number(t) => Some(t@),
        ResolvedValue::String(s) => Some(s@),
        ResolvedValue::Attachment { proxy_url } => Some(proxy_url@),
        ResolvedValue::Channel { id } => Some(decimal(id as nat)),
        ResolvedValue::Role { id } => Some(decimal(id as nat)),
        ResolvedValue::User { id } => Some(decimal(id as nat)),
        _ => None,
    }
}

/// The list of the integers.
pub open spec fn integer_list(items: Seq<i64>) -> ValueView {
    ValueView::List(Seq::new(items.len(), |i: int| ValueView::Integer(items[i])))
}

/// The list of the strings.
pub open spec fn string_list(items: Seq<Seq<char>>) -> ValueView {
    ValueView::List(Seq::new(items.len(), |i: int| ValueView::String(items[i])))
}

/// The floats that the number texts mean, as a list, or the error of the
/// first text that means none.
pub open spec fn floats_of(runs: Seq<Seq<char>>) -> Result<Seq<ValueView>, Seq<char>>
    decreases runs.len(),
{
    if runs.len() == 0 {
        Ok(Seq::empty())
    } else {
        match float_of(runs[0]) {
            None => Err(runs[0]),
            Some(c) => match floats_of(runs.drop_first()) {
                Ok(rest) => Ok(seq![ValueView::Float(c)] + rest),
                Err(e) => Err(e),
            },
        }
    }
}

/// What an argument that is text, or is taken by its text, becomes without
/// regard to the column's element type: the pieces between commas for an
/// array, the text itself for a scalar.
pub open spec fn text_value(text: Seq<char>, is_array: bool) -> ValueView {
    if is_array {
        string_list(split_items(text, ","@))
    } else {
        ValueView::String(text)
    }
}

/// What an argument with the text `text` becomes under a column type.
pub open spec fn converted_text(rv: ResolvedValue, text: Seq<char>, column_type: ColumnType)
    -> Result<ValueView, SettingsErrorView> {
    let is_array = column_type is Array;
    let runs = number_runs(text, Seq::empty(), Seq::empty());
    match column_type.inner() {
        InnerColumnType::Integer { } => if is_array {
            match integers_of(runs) {
                Ok(items) => Ok(integer_list(items)),
                Err(e) => Err(generic_error(e)),
            }
        } else {
            match rv {
                ResolvedValue::Integer(v) => Ok(ValueView::Integer(v)),
                _ => Err(generic_error("Expected integer, got something else"@)),
            }
        },
        InnerColumnType::Float { } => if is_array {
            match floats_of(runs) {
                Ok(items) => Ok(ValueView::List(items)),
                Err(e) => Err(generic_error(e)),
            }
        } else {
            match rv {
                ResolvedValue::Number(t) => match float_of(t@) {
                    Some(c) => Ok(ValueView::Float(c)),
                    None => Err(generic_error(t@)),
                },
                _ => Err(generic_error("Expected float, got something else"@)),
            }
        },
        InnerColumnType::Boolean { } => if is_array {
            if runs.len() == 0 {
                Ok(ValueView::List(Seq::empty()))
            } else {
                Err(generic_error(runs[0]))
            }
        } else {
            match rv {
                ResolvedValue::Boolean(b) => Ok(ValueView::Boolean(b)),
                _ => Err(generic_error("Expected boolean, got something else"@)),
            }
        },
        InnerColumnType::String { .. } => if is_array {
            Ok(text_value(text, true))
        } else {
            match rv {
                ResolvedValue::String(s) => Ok(ValueView::String(s@)),
                ResolvedValue::Role { id } => Ok(ValueView::String(decimal(id as nat))),
                ResolvedValue::Channel { id } => Ok(ValueView::String(decimal(id as nat))),
                _ => Err(generic_error("Expected string, got something else"@)),
            }
        },
        InnerColumnType::BitFlag { values } => if is_array {
            Err(generic_error("Array bitflags are not supported yet"@))
        } else {
            match rv {
                ResolvedValue::String(s) => Ok(bitflags_of(flags_of(values), Some(s@))),
                _ => Err(generic_error("Expected string, got something else"@)),
            }
        },
        _ => Ok(text_value(text, is_array)),
    }
}

/// What an argument of a command becomes under a column type. An entity
/// that the platform could not resolve becomes its id as text, an unknown
/// argument the absent value.
pub open spec fn converted(rv: ResolvedValue, column_type: ColumnType) -> Result<
    ValueView,
    SettingsErrorView,
> {
    match rv {
        ResolvedValue::Unresolved(Unresolved::Unknown(_)) => Ok(ValueView::Null),
        ResolvedValue::Unresolved(Unresolved::Attachment(id)) => Ok(
            ValueView::String(decimal(id as nat)),
        ),
        ResolvedValue::Unresolved(Unresolved::Channel(id)) => Ok(
            ValueView::String(decimal(id as nat)),
        ),
        ResolvedValue::Unresolved(Unresolved::Mentionable(id)) => Ok(
            ValueView::String(decimal(id as nat)),
        ),
        ResolvedValue::Unresolved(Unresolved::RoleId(id)) => Ok(
            ValueView::String(decimal(id as nat)),
        ),
        ResolvedValue::Unresolved(Unresolved::User(id)) => Ok(
            ValueView::String(decimal(id as nat)),
        ),
        _ => match potential_text(rv) {
            Some(text) => converted_text(rv, text, column_type),
            None => Err(generic_error("Unsupported kind of argument"@)),
        },
    }
}

/// Whether a result is the given value or error.
pub open spec fn yields(r: Result<Value, SettingsError>, outcome: Result<
    ValueView,
    SettingsErrorView,
>) -> bool {
    match r {
        Ok(v) => outcome == Ok::<ValueView, SettingsErrorView>(v@),
        Err(e) => outcome == Err::<ValueView, SettingsErrorView>(e@),
    }
}

fn id_value(id: u64) -> (r: Value)
    ensures
        r@ == ValueView::String(decimal(id as nat)),
{
    Value::String(decimal_text_of(id))
}

fn integers_value(items: Vec<i64>) -> (r: Value)
    ensures
        r@ == integer_list(items@),
{
    let mut out: Vec<Value> = Vec::new();
    let mut i: usize = 0;
    while i < items.len()
        invariant
            i <= items.len(),
            out.len() == i,
            forall|k: int| 0 <= k < i ==> (#[trigger] out@[k])@ == ValueView::Integer(items@[k]),
        decreases items.len() - i,
    {
        out.push(Value::Integer(items[i]));
        i += 1;
    }
    let r = Value::List(out);
    proof {
        lemma_list_view(r);
        assert(r@->List_0 =~= integer_list(items@)->List_0);
    }
    r
}

fn strings_value(items: Vec<String>) -> (r: Value)
    ensures
        r@ == string_list(texts(items@)),
{
    let mut out: Vec<Value> = Vec::new();
    let mut i: usize = 0;
    while i < items.len()
        invariant
            i <= items.len(),
            out.len() == i,
            forall|k: int| 0 <= k < i ==> (#[trigger] out@[k])@ == ValueView::String(items@[k]@),
        decreases items.len() - i,
    {
        out.push(Value::String(items[i].clone()));
        i += 1;
    }
    let r = Value::List(out);
    proof {
        lemma_list_view(r);
        assert(r@->List_0 =~= string_list(texts(items@))->List_0);
    }
    r
}

fn floats_value(runs: Vec<String>) -> (r: Result<Value, SettingsError>)
    ensures
        yields(
            r,
            match floats_of(texts(runs@)) {
                Ok(items) => Ok(ValueView::List(items)),
                Err(e) => Err(generic_error(e)),
            },
        ),
{
    let ghost all = texts(runs@);
    let ghost target = floats_of(all);
    let mut out: Vec<Value> = Vec::new();
    let mut i: usize = 0;
    proof {
        assert(all.subrange(0, all.len() as int) == all);
        if target is Ok {
            assert(Seq::new(0nat, |k: int| out@[k]@) + target->Ok_0 == target->Ok_0);
        }
    }
    while i < runs.len()
        invariant
            i <= runs.len(),
            out.len() == i,
            all == texts(runs@),
            target == floats_of(all),
            target == match floats_of(all.subrange(i as int, all.len() as int)) {
                Ok(rest) => Ok::<Seq<ValueView>, Seq<char>>(
                    Seq::new(i as nat, |k: int| out@[k]@) + rest,
                ),
                Err(e) => Err(e),
            },
        decreases runs.len() - i,
    {
        let ghost rest = all.subrange(i as int, all.len() as int);
        let ghost done = Seq::new(i as nat, |k: int| out@[k]@);
        proof {
            assert(rest[0] == runs@[i as int]@);
            assert(rest.drop_first() == all.subrange(i as int + 1, all.len() as int));
        }
        match parse_float_text(&runs[i]) {
            None => {
                return Err(new_generic_error(runs[i].clone()));
            },
            Some(c) => {
                let item = Value::Float(c);
                out.push(item);
                proof {
                    let longer = Seq::new((i + 1) as nat, |k: int| out@[k]@);
                    assert(longer == done.push(item@));
                    let tail = floats_of(rest.drop_first());
                    if tail is Ok {
                        assert(done + (seq![item@] + tail->Ok_0) == longer + tail->Ok_0);
                    }
                }
            },
        }
        i += 1;
    }
    let r = Value::List(out);
    proof {
        lemma_list_view(r);
        assert(all.subrange(all.len() as int, all.len() as int) == Seq::<Seq<char>>::empty());
        let done = Seq::new(i as nat, |k: int| out@[k]@);
        assert(done + Seq::<ValueView>::empty() == done);
        assert(r@->List_0 == done);
    }
    Ok(r)
}

fn text_of_argument(rv: &ResolvedValue) -> (r: Option<String>)
    ensures
        match r {
            Some(t) => potential_text(*rv) == Some(t@),
            None => potential_text(*rv) is None,
        },
{
    match rv {
        ResolvedValue::Boolean(b) => Some(
            if *b {
                "true".to_owned()
            } else {
                "false".to_owned()
            },
        ),
        ResolvedValue::Integer(v) => Some(integer_text(*v)),
        ResolvedValue::Number(t) => Some(t.clone()),
        ResolvedValue::String(s) => Some(s.clone()),
        ResolvedValue::Attachment { proxy_url } => Some(proxy_url.clone()),
        ResolvedValue::Channel { id } => Some(decimal_text_of(*id)),
        ResolvedValue::Role { id } => Some(decimal_text_of(*id)),
        ResolvedValue::User { id } => Some(decimal_text_of(*id)),
        _ => None,
    }
}

fn value_of_text(text: String, is_array: bool) -> (r: Value)
    ensures
        r@ == text_value(text@, is_array),
{
    if is_array {
        strings_value(split_input_to_string(text.as_str(), ","))
    } else {
        Value::String(text)
    }
}

fn convert_text(rv: &ResolvedValue, text: String, column_type: &ColumnType) -> (r: Result<
    Value,
    SettingsError,
>)
    ensures
        yields(r, converted_text(*rv, text@, *column_type)),
{
    let (is_array, inner) = match column_type {
        ColumnType::Scalar { inner } => (false, inner),
        ColumnType::Array { inner } => (true, inner),
    };
    assert(*inner == column_type.inner());
    let no_pairs: [(&'static str, &'static str); 0] = [];
    assert(pairs_view(no_pairs@) == Seq::<(Seq<char>, Seq<char>)>::empty());
    match inner {
        InnerColumnType::Integer { } => {
            if is_array {
                match parse_numeric_list(text.as_str(), &no_pairs) {
                    Ok(items) => Ok(integers_value(items)),
                    Err(e) => Err(new_generic_error(e)),
                }
            } else {
                match rv {
                    ResolvedValue::Integer(v) => Ok(Value::Integer(*v)),
                    _ => Err(
                        new_generic_error("Expected integer, got something else".to_owned()),
                    ),
                }
            }
        },
        InnerColumnType::Float { } => {
            if is_array {
                floats_value(numeric_runs(text.as_str(), &no_pairs))
            } else {
                match rv {
                    ResolvedValue::Number(t) => match parse_float_text(t) {
                        Some(c) => Ok(Value::Float(c)),
                        None => Err(new_generic_error(t.clone())),
                    },
                    _ => Err(new_generic_error("Expected float, got something else".to_owned())),
                }
            }
        },
        InnerColumnType::Boolean { } => {
            if is_array {
                let runs = numeric_runs(text.as_str(), &no_pairs);
                if runs.len() == 0 {
                    let r = Value::List(Vec::new());
                    proof {
                        lemma_list_view(r);
                        assert(r@->List_0 =~= Seq::<ValueView>::empty());
                    }
                    Ok(r)
                } else {
                    Err(new_generic_error(runs[0].clone()))
                }
            } else {
                match rv {
                    ResolvedValue::Boolean(b) => Ok(Value::Boolean(*b)),
                    _ => Err(
                        new_generic_error("Expected boolean, got something else".to_owned()),
                    ),
                }
            }
        },
        InnerColumnType::String { .. } => {
            if is_array {
                Ok(value_of_text(text, true))
            } else {
                match rv {
                    ResolvedValue::String(s) => Ok(Value::String(s.clone())),
                    ResolvedValue::Role { id } => Ok(id_value(*id)),
                    ResolvedValue::Channel { id } => Ok(id_value(*id)),
                    _ => Err(new_generic_error("Expected string, got something else".to_owned())),
                }
            }
        },
        InnerColumnType::BitFlag { values } => {
            if is_array {
                Err(new_generic_error("Array bitflags are not supported yet".to_owned()))
            } else {
                match rv {
                    ResolvedValue::String(s) => Ok(
                        convert_bitflags_string_to_value(values, Some(s.clone())),
                    ),
                    _ => Err(new_generic_error("Expected string, got something else".to_owned())),
                }
            }
        },
        _ => Ok(value_of_text(text, is_array)),
    }
}

/// Takes an argument of a command and a column type and gives the value
/// that the argument stands for.
pub fn resolved_value_to_value(rv: &ResolvedValue, column_type: &ColumnType) -> (r: Result<
    Value,
    SettingsError,
>)
    ensures
        yields(r, converted(*rv, *column_type)),
{
    match rv {
        ResolvedValue::Unresolved(Unresolved::Unknown(_)) => Ok(Value::Null),
        ResolvedValue::Unresolved(Unresolved::Attachment(id)) => Ok(id_value(*id)),
        ResolvedValue::Unresolved(Unresolved::Channel(id)) => Ok(id_value(*id)),
        ResolvedValue::Unresolved(Unresolved::Mentionable(id)) => Ok(id_value(*id)),
        ResolvedValue::Unresolved(Unresolved::RoleId(id)) => Ok(id_value(*id)),
        ResolvedValue::Unresolved(Unresolved::User(id)) => Ok(id_value(*id)),
        _ => match text_of_argument(rv) {
            Some(text) => convert_text(rv, text, column_type),
            None => Err(new_generic_error("Unsupported kind of argument".to_owned())),
        },
    }
}


/// The arguments of a command by their names.
pub open spec fn arguments(args: Seq<(String, ResolvedValue)>) -> Seq<(Seq<char>, ResolvedValue)> {
    Seq::new(args.len(), |i: int| (args[i].0@, args[i].1))
}

/// The message of an error that carries a message only.
pub open spec fn message_of(e: SettingsErrorView) -> Seq<char> {
    match e {
        SettingsErrorView::Generic { message } => message,
        _ => Seq::empty(),
    }
}

/// The error of an argument that could not be converted, naming its column.
pub open spec fn column_error(column: Seq<char>, e: SettingsErrorView) -> SettingsErrorView {
    generic_error("Column `"@ + column + "`: "@ + message_of(e))
}

/// The fields that the arguments give to the first `n` columns: each
/// column that has an argument of its name gets the argument's value, in
/// the order of the columns.
pub open spec fn collected(columns: Seq<Column>, args: Seq<(String, ResolvedValue)>, n: nat)
    -> Result<Entries, SettingsErrorView>
    decreases n,
{
    if n == 0 || n > columns.len() {
        Ok(Seq::empty())
    } else {
        match collected(columns, args, (n - 1) as nat) {
            Err(e) => Err(e),
            Ok(state) => {
                let column = columns[n - 1];
                match lookup(arguments(args), column.id@) {
                    None => Ok(state),
                    Some(rv) => match converted(rv, column.column_type) {
                        Ok(v) => Ok(inserted(state, column.id@, v)),
                        Err(e) => Err(column_error(column.id@, e)),
                    },
                }
            },
        }
    }
}

proof fn lemma_collected_fails(columns: Seq<Column>, args: Seq<(String, ResolvedValue)>, n: nat, m: nat)
    requires
        collected(columns, args, n) is Err,
        n <= m <= columns.len(),
    ensures
        collected(columns, args, m) == collected(columns, args, n),
    decreases m - n,
{
    if n < m {
        lemma_collected_fails(columns, args, n, (m - 1) as nat);
    }
}

fn find_argument<'a>(args: &'a Vec<(String, ResolvedValue)>, name: &String) -> (r: Option<
    &'a ResolvedValue,
>)
    ensures
        match r {
            Some(rv) => lookup(arguments(args@), name@) == Some(*rv),
            None => lookup(arguments(args@), name@) is None,
        },
{
    let ghost named = arguments(args@);
    let mut i: usize = 0;
    while i < args.len()
        invariant
            i <= args.len(),
            named == arguments(args@),
            forall|j: int| 0 <= j < i ==> (#[trigger] named[j]).0 != name@,
        decreases args.len() - i,
    {
        if args[i].0 == *name {
            proof {
                assert(named[i as int].0 == name@);
                lemma_position_is(named, name@, i as int);
            }
            return Some(&args[i].1);
        }
        i += 1;
    }
    proof {
        lemma_position_is(named, name@, i as int);
    }
    None
}

fn wrap_column_error(column_id: &String, e: SettingsError) -> (r: SettingsError)
    ensures
        r@ == column_error(column_id@, e@),
{
    let mut message = "Column `".to_owned();
    message.append(column_id.as_str());
    message.append("`: ");
    match e {
        SettingsError::Generic { message: inner } => {
            message.append(inner.as_str());
        },
        _ => {
            assert(message@ + Seq::<char>::empty() == message@);
        },
    }
    SettingsError::Generic { message }
}

/// Gets the fields of an operation from the arguments of a command.
pub fn getvalues(columns: &Vec<Column>, args: &Vec<(String, ResolvedValue)>) -> (r: Result<
    ValueMap,
    SettingsError,
>)
    ensures
        crate::operations::gives(r, collected(columns@, args@, columns@.len())),
{
    let mut map = ValueMap::new();
    let mut i: usize = 0;
    while i < columns.len()
        invariant
            i <= columns.len(),
            collected(columns@, args@, i as nat) == Ok::<Entries, SettingsErrorView>(map@),
        decreases columns.len() - i,
    {
        let column = &columns[i];
        match find_argument(args, &column.id) {
            None => {},
            Some(rv) => match resolved_value_to_value(rv, &column.column_type) {
                Ok(v) => {
                    map.insert(column.id.clone(), v);
                },
                Err(e) => {
                    let wrapped = wrap_column_error(&column.id, e);
                    proof {
                        assert(collected(columns@, args@, (i + 1) as nat) == Err::<
                            Entries,
                            SettingsErrorView,
                        >(wrapped@));
                        lemma_collected_fails(columns@, args@, (i + 1) as nat, columns@.len());
                    }
                    return Err(wrapped);
                },
            },
        }
        i += 1;
    }
    Ok(map)
}

/// Whether a command has to be given a value for the column: a column that
/// is not nullable, and for an update only a key column at that.
pub open spec fn required_for(column: Column, operation: OperationType) -> bool {
    if operation == OperationType::Update && !column.primary_key {
        false
    } else {
        !column.nullable
    }
}

/// Whether a command has to be given a value for the column.
pub fn is_column_required_for_operation_type(column: &Column, operation_type: OperationType) -> (r:
    bool)
    ensures
        r == required_for(*column, operation_type),
{
    if operation_type == OperationType::Update && !column.primary_key {
        return false;
    }
    !column.nullable
}

/// The allowed values of a column of strings; none for any other column.
pub open spec fn allowed_of(column_type: ColumnType) -> Option<Seq<Seq<char>>> {
    match column_type.inner() {
        InnerColumnType::String { allowed_values, .. } => Some(texts(allowed_values@)),
        _ => None,
    }
}

/// Whether the values of a column are offered while the user types: a
/// scalar of strings with more than 25 allowed values, or an array of
/// strings with allowed values.
pub open spec fn autocompletes(column_type: ColumnType) -> bool {
    match allowed_of(column_type) {
        Some(allowed) => if column_type is Scalar {
            allowed.len() > 25
        } else {
            allowed.len() > 0
        },
        None => false,
    }
}

/// Whether the values of a column are offered while the user types.
pub fn field_supports_autocomplete(field: &Column) -> (r: bool)
    ensures
        r == autocompletes(field.column_type),
{
    match &field.column_type {
        ColumnType::Scalar { inner } => match inner {
            InnerColumnType::String { allowed_values, .. } => allowed_values.len() > 25,
            _ => false,
        },
        ColumnType::Array { inner } => match inner {
            InnerColumnType::String { allowed_values, .. } => allowed_values.len() > 0,
            _ => false,
        },
    }
}

/// The values that a command offers as fixed choices: the allowed values of
/// a scalar of strings that has some and at most 25.
pub open spec fn choices_of(column_type: ColumnType) -> Option<Seq<Seq<char>>> {
    match allowed_of(column_type) {
        Some(allowed) => if column_type is Scalar && 0 < allowed.len() <= 25 {
            Some(allowed)
        } else {
            None
        },
        None => None,
    }
}

fn copy_texts(items: &Vec<String>) -> (r: Vec<String>)
    ensures
        texts(r@) == texts(items@),
{
    let mut out: Vec<String> = Vec::new();
    let mut i: usize = 0;
    while i < items.len()
        invariant
            i <= items.len(),
            out.len() == i,
            forall|k: int| 0 <= k < i ==> (#[trigger] out@[k])@ == items@[k]@,
        decreases items.len() - i,
    {
        out.push(items[i].clone());
        i += 1;
    }
    assert(texts(out@) =~= texts(items@));
    out
}

/// The values that a command offers as fixed choices for a column.
pub fn get_string_choices_for_column(column: &Column) -> (r: Option<Vec<String>>)
    ensures
        match r {
            Some(choices) => choices_of(column.column_type) == Some(texts(choices@)),
            None => choices_of(column.column_type) is None,
        },
{
    match &column.column_type {
        ColumnType::Scalar { inner } => match inner {
            InnerColumnType::String { allowed_values, .. } => {
                if allowed_values.len() == 0 || allowed_values.len() > 25 {
                    None
                } else {
                    Some(copy_texts(allowed_values))
                }
            },
            _ => None,
        },
        _ => None,
    }
}

/// The kind of argument that a command takes for a column.
#[derive(Debug, Clone, Copy, PartialEq, Eq, Structural)]
pub enum CommandOptionKind {
    String,
    Integer,
    Number,
    Boolean,
    Channel,
    User,
    Role,
}

/// The kind of argument for a column type: a scalar integer, float or
/// boolean by its own kind, a scalar string that stands for a channel, a
/// user or a role by that entity, anything else as a string.
pub open spec fn option_kind_of(column_type: ColumnType) -> CommandOptionKind {
    match column_type {
        ColumnType::Scalar { inner } => match inner {
            InnerColumnType::Integer { } => CommandOptionKind::Integer,
            InnerColumnType::Float { } => CommandOptionKind::Number,
            InnerColumnType::Boolean { } => CommandOptionKind::Boolean,
            InnerColumnType::String { kind, .. } => if kind@ == "channel"@ {
                CommandOptionKind::Channel
            } else if kind@ == "user"@ {
                CommandOptionKind::User
            } else if kind@ == "role"@ {
                CommandOptionKind::Role
            } else {
                CommandOptionKind::String
            },
            _ => CommandOptionKind::String,
        },
        _ => CommandOptionKind::String,
    }
}

/// The kind of argument that a command takes for a column type.
pub fn option_kind(column_type: &ColumnType) -> (r: CommandOptionKind)
    ensures
        r == option_kind_of(*column_type),
{
    match column_type {
        ColumnType::Scalar { inner } => match inner {
            InnerColumnType::Integer { } => CommandOptionKind::Integer,
            InnerColumnType::Float { } => CommandOptionKind::Number,
            InnerColumnType::Boolean { } => CommandOptionKind::Boolean,
            InnerColumnType::String { kind, .. } => {
                if same_text(kind.as_str(), "channel") {
                    CommandOptionKind::Channel
                } else if same_text(kind.as_str(), "user") {
                    CommandOptionKind::User
                } else if same_text(kind.as_str(), "role") {
                    CommandOptionKind::Role
                } else {
                    CommandOptionKind::String
                }
            },
            _ => CommandOptionKind::String,
        },
        _ => CommandOptionKind::String,
    }
}

/// One argument of a subcommand.
#[derive(Debug, Clone, PartialEq)]
pub struct CommandOption {
    pub kind: CommandOptionKind,
    pub name: String,
    pub description: String,
    pub required: bool,
    pub autocomplete: bool,
    /// The fixed choices, if the argument has any.
    pub choices: Vec<String>,
}

/// The subcommand of one operation.
#[derive(Debug, Clone, PartialEq)]
pub struct SubCommand {
    pub operation: OperationType,
    pub name: String,
    pub description: String,
    pub options: Vec<CommandOption>,
}

/// A group of subcommands within a command.
#[derive(Debug, Clone, PartialEq)]
pub struct CommandGroup {
    pub name: String,
    pub description: String,
    pub subcommands: Vec<SubCommand>,
}

/// A command.
#[derive(Debug, Clone, PartialEq)]
pub struct Command {
    pub name: String,
    pub description: String,
    pub subcommands: Vec<SubCommand>,
    /// The groups of subcommands that were added to the command.
    pub groups: Vec<CommandGroup>,
}

/// The columns that an operation takes arguments for, before those that the
/// operation ignores are left out, in the order of their arguments: a delete
/// takes the key columns only; a required column goes to the front, any
/// other to the back.
pub open spec fn argument_order(columns: Seq<Column>, operation: OperationType, n: nat) -> Seq<
    usize,
>
    decreases n,
{
    if n == 0 || n > columns.len() {
        Seq::empty()
    } else {
        let before = argument_order(columns, operation, (n - 1) as nat);
        let column = columns[n - 1];
        if operation == OperationType::Delete && !column.primary_key {
            before
        } else if required_for(column, operation) {
            seq![(n - 1) as usize] + before
        } else {
            before.push((n - 1) as usize)
        }
    }
}

/// The first `m` places of an order without the columns that the operation
/// ignores.
pub open spec fn asked(columns: Seq<Column>, operation: OperationType, order: Seq<usize>, m: nat)
    -> Seq<usize>
    decreases m,
{
    if m == 0 || m > order.len() {
        Seq::empty()
    } else {
        let before = asked(columns, operation, order, (m - 1) as nat);
        let index = order[m - 1];
        if index < columns.len() && !columns[index as int].ignores(operation) {
            before.push(index)
        } else {
            before
        }
    }
}

/// The columns that a subcommand has an argument for, in the order of the
/// arguments.
pub open spec fn argument_columns(columns: Seq<Column>, operation: OperationType) -> Seq<usize> {
    if operation == OperationType::View {
        Seq::empty()
    } else {
        let order = argument_order(columns, operation, columns.len());
        asked(columns, operation, order, order.len())
    }
}

/// Whether an argument is the one that a subcommand of `operation` has for
/// `column`.
pub open spec fn is_option_for(option: CommandOption, column: Column, operation: OperationType)
    -> bool {
    &&& option.kind == option_kind_of(column.column_type)
    &&& option.name@ == column.id@
    &&& option.description@ == shortened(column.description@, 100)
    &&& option.required == required_for(column, operation)
    &&& option.autocomplete == autocompletes(column.column_type)
    &&& texts(option.choices@) == match choices_of(column.column_type) {
        Some(choices) => choices,
        None => Seq::empty(),
    }
}

/// The name of the subcommand of an operation.
pub open spec fn subcommand_name(operation: OperationType) -> Seq<char> {
    match operation {
        OperationType::View => "view"@,
        OperationType::Create => "create"@,
        OperationType::Update => "update"@,
        OperationType::Delete => "delete"@,
    }
}

/// Whether a subcommand is the one of `operation` for a setting with these
/// columns and this description.
pub open spec fn is_subcommand_for(
    command: SubCommand,
    columns: Seq<Column>,
    description: Seq<char>,
    operation: OperationType,
) -> bool {
    &&& command.operation == operation
    &&& command.name@ == subcommand_name(operation)
    &&& command.description@ == shortened(description, 50)
    &&& are_options_for(
        command.options@,
        columns,
        argument_columns(columns, operation),
        operation,
    )
}

/// Whether the arguments are those for the columns at `places`, one for
/// each in the same order.
pub open spec fn are_options_for(
    options: Seq<CommandOption>,
    columns: Seq<Column>,
    places: Seq<usize>,
    operation: OperationType,
) -> bool {
    &&& options.len() == places.len()
    &&& forall|i: int|
        0 <= i < options.len() ==> places[i] < columns.len() && is_option_for(
            #[trigger] options[i],
            columns[places[i] as int],
            operation,
        )
}

fn option_for(column: &Column, operation: OperationType) -> (r: CommandOption)
    ensures
        is_option_for(r, *column, operation),
{
    let choices = match get_string_choices_for_column(column) {
        Some(choices) => choices,
        None => {
            let none: Vec<String> = Vec::new();
            assert(texts(none@) =~= Seq::<Seq<char>>::empty());
            none
        },
    };
    CommandOption {
        kind: option_kind(&column.column_type),
        name: column.id.clone(),
        description: shorten(column.description.as_str(), 100),
        required: is_column_required_for_operation_type(column, operation),
        autocomplete: field_supports_autocomplete(column),
        choices,
    }
}

/// The subcommand of an operation: a view takes no argument; any other
/// operation takes one for each column that it does not ignore, required
/// ones first.
pub fn create_command_for_operation_type(
    columns: &Vec<Column>,
    description: &str,
    operation_type: OperationType,
) -> (r: SubCommand)
    ensures
        is_subcommand_for(r, columns@, description@, operation_type),
{
    let mut options: Vec<CommandOption> = Vec::new();
    if operation_type == OperationType::View {
        return SubCommand {
            operation: operation_type,
            name: name_of_subcommand(operation_type),
            description: shorten(description, 50),
            options,
        };
    }
    let mut order: Vec<usize> = Vec::new();
    let mut idx: usize = 0;
    while idx < columns.len()
        invariant
            idx <= columns.len(),
            order@ == argument_order(columns@, operation_type, idx as nat),
            forall|k: int| 0 <= k < order@.len() ==> #[trigger] order@[k] < columns@.len(),
        decreases columns.len() - idx,
    {
        let column = &columns[idx];
        if !(operation_type == OperationType::Delete && !column.primary_key) {
            if !is_column_required_for_operation_type(column, operation_type) {
                order.push(idx);
            } else {
                order.insert(0, idx);
                assert(order@ == seq![idx] + argument_order(
                    columns@,
                    operation_type,
                    idx as nat,
                ));
            }
        }
        idx += 1;
    }
    let mut i: usize = 0;
    while i < order.len()
        invariant
            i <= order.len(),
            operation_type != OperationType::View,
            order@ == argument_order(columns@, operation_type, columns@.len()),
            forall|k: int| 0 <= k < order@.len() ==> #[trigger] order@[k] < columns@.len(),
            are_options_for(
                options@,
                columns@,
                asked(columns@, operation_type, order@, i as nat),
                operation_type,
            ),
        decreases order.len() - i,
    {
        let column = &columns[order[i]];
        let ghost before = asked(columns@, operation_type, order@, i as nat);
        let ghost had = options@;
        let ghost now = asked(columns@, operation_type, order@, (i + 1) as nat);
        assert(order@[i as int] < columns@.len());
        if !column.is_ignored_for(operation_type) {
            let option = option_for(column, operation_type);
            options.push(option);
            assert(now == before.push(order@[i as int]));
        } else {
            assert(now == before);
        }
        i += 1;
        proof {
            assert(now == asked(columns@, operation_type, order@, i as nat));
            assert forall|k: int| 0 <= k < options@.len() implies now[k] < columns@.len()
                && is_option_for(
                #[trigger] options@[k],
                columns@[now[k] as int],
                operation_type,
            ) by {
                if k < had.len() {
                    assert(options@[k] == had[k]);
                    assert(now[k] == before[k]);
                } else {
                    assert(now[k] == order@[i as int - 1]);
                }
            }
            assert(are_options_for(options@, columns@, now, operation_type));
        }
    }
    SubCommand {
        operation: operation_type,
        name: name_of_subcommand(operation_type),
        description: shorten(description, 50),
        options,
    }
}

fn name_of_subcommand(operation: OperationType) -> (r: String)
    ensures
        r@ == subcommand_name(operation),
{
    match operation {
        OperationType::View => "view".to_owned(),
        OperationType::Create => "create".to_owned(),
        OperationType::Update => "update".to_owned(),
        OperationType::Delete => "delete".to_owned(),
    }
}

/// The subcommands of a setting: one for each operation that the setting
/// supports, in the order view, create, update, delete.
pub fn create_subcommands_from_setting<V, C, U, D>(config_opt: &crate::types::Setting<V, C, U, D>)
    -> (r: Vec<SubCommand>)
    ensures
        r@.len() == crate::types::supported_operations(
            config_opt.operations.view is Some,
            config_opt.operations.create is Some,
            config_opt.operations.update is Some,
            config_opt.operations.delete is Some,
        ).len(),
        forall|i: int|
            0 <= i < r@.len() ==> is_subcommand_for(
                #[trigger] r@[i],
                config_opt.columns@,
                config_opt.description@,
                crate::types::supported_operations(
                    config_opt.operations.view is Some,
                    config_opt.operations.create is Some,
                    config_opt.operations.update is Some,
                    config_opt.operations.delete is Some,
                )[i],
            ),
{
    let operations = config_opt.operations.supported();
    let mut out: Vec<SubCommand> = Vec::new();
    let mut i: usize = 0;
    while i < operations.len()
        invariant
            i <= operations.len(),
            out@.len() == i,
            forall|k: int|
                0 <= k < i ==> is_subcommand_for(
                    #[trigger] out@[k],
                    config_opt.columns@,
                    config_opt.description@,
                    operations@[k],
                ),
        decreases operations.len() - i,
    {
        out.push(
            create_command_for_operation_type(
                &config_opt.columns,
                config_opt.description.as_str(),
                operations[i],
            ),
        );
        i += 1;
    }
    out
}

/// The command of a setting: named by the setting's id, with the setting's
/// subcommands.
pub fn create_commands_from_setting<V, C, U, D>(setting: &crate::types::Setting<V, C, U, D>) -> (r:
    Command)
    ensures
        r.name@ == setting.id@,
        r.description@ == shortened(setting.description@, 100),
        r.groups@.len() == 0,
        r.subcommands@.len() == crate::types::supported_operations(
            setting.operations.view is Some,
            setting.operations.create is Some,
            setting.operations.update is Some,
            setting.operations.delete is Some,
        ).len(),
        forall|i: int|
            0 <= i < r.subcommands@.len() ==> is_subcommand_for(
                #[trigger] r.subcommands@[i],
                setting.columns@,
                setting.description@,
                crate::types::supported_operations(
                    setting.operations.view is Some,
                    setting.operations.create is Some,
                    setting.operations.update is Some,
                    setting.operations.delete is Some,
                )[i],
            ),
{
    Command {
        name: setting.id.clone(),
        description: shorten(setting.description.as_str(), 100),
        subcommands: create_subcommands_from_setting(setting),
        groups: Vec::new(),
    }
}

/// Adds the command of a setting to the command `root` as a group of
/// subcommands, after the groups that `root` has.
pub fn create_commands_from_setting_with_root<V, C, U, D>(
    setting: &crate::types::Setting<V, C, U, D>,
    root: Command,
) -> (r: Command)
    ensures
        r.name == root.name,
        r.description == root.description,
        r.subcommands == root.subcommands,
        r.groups@.len() == root.groups@.len() + 1,
        r.groups@.subrange(0, root.groups@.len() as int) == root.groups@,
        r.groups@.last().name@ == setting.id@,
        r.groups@.last().description@ == shortened(setting.description@, 50),
        r.groups@.last().subcommands@.len() == crate::types::supported_operations(
            setting.operations.view is Some,
            setting.operations.create is Some,
            setting.operations.update is Some,
            setting.operations.delete is Some,
        ).len(),
        forall|i: int|
            0 <= i < r.groups@.last().subcommands@.len() ==> is_subcommand_for(
                #[trigger] r.groups@.last().subcommands@[i],
                setting.columns@,
                setting.description@,
                crate::types::supported_operations(
                    setting.operations.view is Some,
                    setting.operations.create is Some,
                    setting.operations.update is Some,
                    setting.operations.delete is Some,
                )[i],
            ),
{
    let group = CommandGroup {
        name: setting.id.clone(),
        description: shorten(setting.description.as_str(), 50),
        subcommands: create_subcommands_from_setting(setting),
    };
    let mut root = root;
    let ghost before = root.groups@;
    root.groups.push(group);
    assert(root.groups@.subrange(0, before.len() as int) == before);
    root
}


/// Those of the first `n` allowed values in which `pattern` stands.
pub open spec fn matching(allowed: Seq<Seq<char>>, pattern: Seq<char>, n: nat) -> Seq<Seq<char>>
    decreases n,
{
    if n == 0 || n > allowed.len() {
        Seq::empty()
    } else {
        let before = matching(allowed, pattern, (n - 1) as nat);
        if occurs(allowed[n - 1], pattern) {
            before.push(allowed[n - 1])
        } else {
            before
        }
    }
}

/// Each of the values behind `prefix` and a comma.
pub open spec fn continued(prefix: Seq<char>, values: Seq<Seq<char>>) -> Seq<Seq<char>> {
    Seq::new(values.len(), |i: int| prefix + ","@ + values[i])
}

/// At most the first 25 of the choices.
pub open spec fn capped(choices: Seq<Seq<char>>) -> Seq<Seq<char>> {
    if choices.len() > 25 {
        choices.subrange(0, 25)
    } else {
        choices
    }
}

/// What is offered to a user who has typed `typed` for a column of strings
/// with allowed values: for a scalar the allowed values that hold what was
/// typed; for an array those that hold the last item typed, each behind the
/// items typed before it. At most 25 are offered. A column of another type
/// offers nothing.
pub open spec fn offered(column_type: ColumnType, typed: Seq<char>) -> Option<Seq<Seq<char>>> {
    match allowed_of(column_type) {
        None => None,
        Some(allowed) => if column_type is Scalar {
            Some(capped(matching(allowed, typed, allowed.len())))
        } else {
            let items = split_items(typed, ","@);
            let last = if items.len() > 0 {
                items.last()
            } else {
                Seq::empty()
            };
            let found = matching(allowed, last, allowed.len());
            if items.len() <= 1 {
                Some(capped(found))
            } else {
                Some(capped(continued(joined_by(items.drop_last(), ","@), found)))
            }
        },
    }
}

fn matching_values(allowed: &Vec<String>, pattern: &str) -> (r: Vec<String>)
    ensures
        texts(r@) == matching(texts(allowed@), pattern@, allowed@.len()),
{
    let needle = chars_of(pattern);
    let mut out: Vec<String> = Vec::new();
    let mut i: usize = 0;
    assert(texts(out@) =~= Seq::<Seq<char>>::empty());
    while i < allowed.len()
        invariant
            i <= allowed.len(),
            needle@ == pattern@,
            texts(out@) == matching(texts(allowed@), pattern@, i as nat),
        decreases allowed.len() - i,
    {
        let ghost before = texts(out@);
        let chars = chars_of(allowed[i].as_str());
        if contains_chars(&chars, &needle) {
            out.push(allowed[i].clone());
            assert(texts(out@) =~= before.push(allowed@[i as int]@));
        }
        i += 1;
    }
    out
}

fn cap(choices: Vec<String>) -> (r: Vec<String>)
    ensures
        texts(r@) == capped(texts(choices@)),
{
    if choices.len() > 25 {
        let mut out: Vec<String> = Vec::new();
        let mut i: usize = 0;
        while i < 25
            invariant
                i <= 25 < choices.len(),
                out.len() == i,
                forall|k: int| 0 <= k < i ==> (#[trigger] out@[k])@ == choices@[k]@,
            decreases 25 - i,
        {
            out.push(choices[i].clone());
            i += 1;
        }
        assert(texts(out@) =~= texts(choices@).subrange(0, 25));
        out
    } else {
        choices
    }
}

/// What is offered to a user who has typed `typed` for a column.
pub fn autocomplete_choices(column_type: &ColumnType, typed: &str) -> (r: Option<Vec<String>>)
    ensures
        match r {
            Some(choices) => offered(*column_type, typed@) == Some(texts(choices@)),
            None => offered(*column_type, typed@) is None,
        },
{
    match column_type {
        ColumnType::Scalar { inner } => match inner {
            InnerColumnType::String { allowed_values, .. } => Some(
                cap(matching_values(allowed_values, typed)),
            ),
            _ => None,
        },
        ColumnType::Array { inner } => match inner {
            InnerColumnType::String { allowed_values, .. } => {
                let items = split_input_to_string(typed, ",");
                let found = if items.len() > 0 {
                    assert(texts(items@).last() == items@[items@.len() - 1]@);
                    matching_values(allowed_values, items[items.len() - 1].as_str())
                } else {
                    let nothing = String::new();
                    matching_values(allowed_values, nothing.as_str())
                };
                if items.len() <= 1 {
                    Some(cap(found))
                } else {
                    let prefix = join_by(&items, items.len() - 1, ",");
                    assert(texts(items@).subrange(0, items@.len() - 1) == texts(
                        items@,
                    ).drop_last());
                    let mut out: Vec<String> = Vec::new();
                    let mut i: usize = 0;
                    while i < found.len()
                        invariant
                            i <= found.len(),
                            out.len() == i,
                            forall|k: int|
                                0 <= k < i ==> (#[trigger] out@[k])@ == prefix@ + ","@
                                    + found@[k]@,
                        decreases found.len() - i,
                    {
                        let mut choice = prefix.clone();
                        choice.append(",");
                        choice.append(found[i].as_str());
                        out.push(choice);
                        i += 1;
                    }
                    assert(texts(out@) =~= continued(prefix@, texts(found@)));
                    Some(cap(out))
                }
            },
            _ => None,
        },
    }
}

/// The key that an update goes by, taken from the fields that were given:
/// the fields of the key columns. A key column without a field is an error.
pub open spec fn update_key(columns: Seq<Column>, entry: Entries, n: nat) -> Result<
    Entries,
    SettingsErrorView,
>
    decreases n,
{
    if n == 0 || n > columns.len() {
        Ok(Seq::empty())
    } else {
        match update_key(columns, entry, (n - 1) as nat) {
            Err(e) => Err(e),
            Ok(key) => {
                let column = columns[n - 1];
                if !column.primary_key {
                    Ok(key)
                } else {
                    match lookup(entry, column.id@) {
                        Some(v) => Ok(inserted(key, column.id@, v)),
                        None => Err(
                            generic_error("An input for `"@ + column.id@ + "` is required"@),
                        ),
                    }
                }
            },
        }
    }
}

proof fn lemma_update_key_fails(columns: Seq<Column>, entry: Entries, n: nat, m: nat)
    requires
        update_key(columns, entry, n) is Err,
        n <= m <= columns.len(),
    ensures
        update_key(columns, entry, m) == update_key(columns, entry, n),
    decreases m - n,
{
    if n < m {
        lemma_update_key_fails(columns, entry, n, (m - 1) as nat);
    }
}

/// The key that an update goes by.
pub fn key_of_update(columns: &Vec<Column>, entry: &ValueMap) -> (r: Result<
    ValueMap,
    SettingsError,
>)
    ensures
        crate::operations::gives(r, update_key(columns@, entry@, columns@.len())),
{
    let mut key = ValueMap::new();
    let mut i: usize = 0;
    while i < columns.len()
        invariant
            i <= columns.len(),
            update_key(columns@, entry@, i as nat) == Ok::<Entries, SettingsErrorView>(key@),
        decreases columns.len() - i,
    {
        let column = &columns[i];
        if column.primary_key {
            match entry.get(column.id.as_str()) {
                Some(v) => {
                    key.insert(column.id.clone(), v.clone());
                },
                None => {
                    let mut message = "An input for `".to_owned();
                    message.append(column.id.as_str());
                    message.append("` is required");
                    proof {
                        assert(update_key(columns@, entry@, (i + 1) as nat) == Err::<
                            Entries,
                            SettingsErrorView,
                        >(generic_error(message@)));
                        lemma_update_key_fails(columns@, entry@, (i + 1) as nat, columns@.len());
                    }
                    return Err(SettingsError::Generic { message });
                },
            }
        }
        i += 1;
    }
    Ok(key)
}

/// The fields of an update filled up from the first `n` fields of a stored
/// row: a field that the update does not have is taken from the row.
pub open spec fn filled(entry: Entries, row: Entries, n: nat) -> Entries
    decreases n,
{
    if n == 0 || n > row.len() {
        entry
    } else {
        let before = filled(entry, row, (n - 1) as nat);
        if crate::value::has_key(before, row[n - 1].0) {
            before
        } else {
            inserted(before, row[n - 1].0, row[n - 1].1)
        }
    }
}

/// Fills the fields of an update up from a stored row.
pub fn autofill(entry: ValueMap, row: &ValueMap) -> (r: ValueMap)
    ensures
        r@ == filled(entry@, row@, row@.len()),
{
    let mut out = entry;
    let n = row.len();
    let mut i: usize = 0;
    while i < n
        invariant
            i <= n,
            n == row@.len(),
            out@ == filled(entry@, row@, i as nat),
        decreases n - i,
    {
        match row.get_index(i) {
            Some((key, value)) => {
                if !out.contains_key(key.as_str()) {
                    out.insert(key.clone(), value.clone());
                }
            },
            None => {
                assert(false);
            },
        }
        i += 1;
    }
    out
}

} // verus!
