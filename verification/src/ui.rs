//! Where a request came from and where its answer goes, for any chat
//! platform: the platform's own types are parameters.

use crate::autogen::{replace_chars, replaced};
use crate::display::display_of;
use crate::text::{
    chars_of, decimal, decimal_text, integer_of, integer_text, joined, parse_integer, same_text,
    shorten, shortened, signed_decimal, string_of, texts,
};
use crate::types::{flag_entries, flags_of, Column, ColumnType, Entries, InnerColumnType};
use crate::value::{lemma_list_view, lookup, Value, ValueMap, ValueView};
use vstd::prelude::*;
use vstd::string::StringExecFns;

verus! {

/// The source of a request: an interaction `I` or a message `M`, with the
/// platform's context `C` and the id of the author.
pub enum Src<'a, I, M, C> {
    Interaction((&'a I, &'a C, u64)),
    Message((&'a M, &'a C, u64)),
}

/// What was answered: a message that was sent, or the interaction that got
/// its response.
pub enum SrcResponse<'a, I, M, C> {
    Message((M, &'a C)),
    Interaction((&'a I, &'a C)),
}

impl<'a, I, M, C> SrcResponse<'a, I, M, C> {
    /// The platform's context.
    pub fn ctx(&self) -> (r: &'a C)
        ensures
            r == match *self {
                SrcResponse::Message((_, ctx)) => ctx,
                SrcResponse::Interaction((_, ctx)) => ctx,
            },
    {
        match self {
            Self::Message((_, ctx)) => ctx,
            Self::Interaction((_, ctx)) => ctx,
        }
    }
}

impl<'a, I, M, C> Src<'a, I, M, C> {
    /// The platform's context.
    pub fn ctx(&self) -> (r: &'a C)
        ensures
            r == match *self {
                Src::Interaction((_, ctx, _)) => ctx,
                Src::Message((_, ctx, _)) => ctx,
            },
    {
        match self {
            Self::Interaction((_, ctx, _)) => ctx,
            Self::Message((_, ctx, _)) => ctx,
        }
    }

    /// The id of the user who made the request.
    pub fn author(&self) -> (r: u64)
        ensures
            r == match *self {
                Src::Interaction((_, _, author)) => author,
                Src::Message((_, _, author)) => author,
            },
    {
        match self {
            Self::Interaction((_, _, author)) => *author,
            Self::Message((_, _, author)) => *author,
        }
    }
}


/// A text set off as code: each backquote in it escaped, and the whole
/// within backquotes. A text of more than 1024 characters is cut to 1021; a
/// text of several lines stands in a block.
pub open spec fn fenced(text: Seq<char>) -> Seq<char> {
    let v = replaced(text, "`"@, "\\`"@);
    if v.len() > 1024 {
        "```"@ + v.subrange(0, 1021) + "```"@
    } else if v.contains('\n') {
        "```\n"@ + v + "```"@
    } else {
        "``"@ + v + "``"@
    }
}

/// The first `n` declared flags that `value` has all bits of, each as
/// `` `name` (bits) ``.
pub open spec fn set_flags(flags: Seq<(Seq<char>, i64)>, value: i64, n: nat) -> Seq<Seq<char>>
    decreases n,
{
    if n == 0 || n > flags.len() {
        Seq::empty()
    } else {
        let before = set_flags(flags, value, (n - 1) as nat);
        let (name, bits) = flags[n - 1];
        if value & bits == bits {
            before.push("`"@ + name + "` ("@ + signed_decimal(bits as int) + ")"@)
        } else {
            before
        }
    }
}

/// How a value that is no list is shown under an element type: a text that
/// stands for a channel, a role or a user as a mention of it, any other
/// text set off as code, a bit-flag value as the flags that are set in it,
/// anything else as it is written.
pub open spec fn shown_scalar(inner: InnerColumnType, value: ValueView) -> Seq<char> {
    match inner {
        InnerColumnType::String { kind, .. } => {
            let text = display_of(value);
            if kind@ == "channel"@ {
                "<#"@ + text + ">"@
            } else if kind@ == "role"@ {
                "<@&"@ + text + ">"@
            } else if kind@ == "user"@ {
                "<@"@ + text + ">"@
            } else {
                fenced(text)
            }
        },
        InnerColumnType::BitFlag { values } => {
            let flags = flags_of(values);
            match value {
                ValueView::Integer(v) => joined(set_flags(flags, v, flags.len())),
                ValueView::String(s) => match integer_of(s) {
                    Some(v) => joined(set_flags(flags, v, flags.len())),
                    None => s,
                },
                _ => display_of(value),
            }
        },
        _ => display_of(value),
    }
}

/// How a value is shown under a column type: under an array type the items
/// of a list, each as a scalar, with `, ` between them.
pub open spec fn shown(column_type: ColumnType, value: ValueView) -> Seq<char> {
    match column_type {
        ColumnType::Scalar { inner } => shown_scalar(inner, value),
        ColumnType::Array { inner } => match value {
            ValueView::List(items) => joined(
                Seq::new(items.len(), |i: int| shown_scalar(inner, items[i])),
            ),
            _ => shown_scalar(inner, value),
        },
    }
}

fn fence(text: &str) -> (r: String)
    ensures
        r@ == fenced(text@),
{
    let chars = chars_of(text);
    let from = chars_of("`");
    let to = chars_of("\\`");
    let v = replace_chars(&chars, &from, &to);
    if v.len() > 1024 {
        let mut out = "```".to_owned();
        let head = string_of(&v, 0, 1021);
        out.append(head.as_str());
        out.append("```");
        return out;
    }
    let mut lines = false;
    let mut i: usize = 0;
    while i < v.len()
        invariant
            i <= v.len(),
            lines <==> exists|k: int| 0 <= k < i && v@[k] == '\n',
        decreases v.len() - i,
    {
        if v[i] == '\n' {
            lines = true;
        }
        i += 1;
    }
    let body = string_of(&v, 0, v.len());
    assert(v@.subrange(0, v@.len() as int) == v@);
    let mut out = if lines {
        "```\n".to_owned()
    } else {
        "``".to_owned()
    };
    out.append(body.as_str());
    if lines {
        out.append("```");
    } else {
        out.append("``");
    }
    out
}

fn flags_shown(values: &indexmap::IndexMap<String, i64>, value: i64) -> (r: String)
    ensures
        r@ == joined(set_flags(flags_of(*values), value, flags_of(*values).len())),
{
    let entries = flag_entries(values);
    let ghost flags = flags_of(*values);
    let mut out: Vec<String> = Vec::new();
    let mut i: usize = 0;
    assert(texts(out@) =~= Seq::<Seq<char>>::empty());
    while i < entries.len()
        invariant
            i <= entries.len(),
            entries@.len() == flags.len(),
            forall|k: int|
                0 <= k < entries@.len() ==> (#[trigger] entries@[k]).0@ == flags[k].0
                    && entries@[k].1 == flags[k].1,
            texts(out@) == set_flags(flags, value, i as nat),
        decreases entries.len() - i,
    {
        let ghost before = texts(out@);
        let bits = entries[i].1;
        assert(entries@[i as int].0@ == flags[i as int].0);
        if value & bits == bits {
            let mut item = "`".to_owned();
            item.append(entries[i].0.as_str());
            item.append("` (");
            let number = integer_text(bits);
            item.append(number.as_str());
            item.append(")");
            out.push(item);
            assert(texts(out@) =~= before.push(item@));
        }
        i += 1;
    }
    crate::text::join_texts(&out)
}

fn show_scalar(inner: &InnerColumnType, value: &Value) -> (r: String)
    ensures
        r@ == shown_scalar(*inner, value@),
{
    match inner {
        InnerColumnType::String { kind, .. } => {
            let text = value.to_string();
            if same_text(kind.as_str(), "channel") {
                let mut out = "<#".to_owned();
                out.append(text.as_str());
                out.append(">");
                out
            } else if same_text(kind.as_str(), "role") {
                let mut out = "<@&".to_owned();
                out.append(text.as_str());
                out.append(">");
                out
            } else if same_text(kind.as_str(), "user") {
                let mut out = "<@".to_owned();
                out.append(text.as_str());
                out.append(">");
                out
            } else {
                fence(text.as_str())
            }
        },
        InnerColumnType::BitFlag { values } => match value {
            Value::Integer(v) => flags_shown(values, *v),
            Value::String(s) => {
                let chars = chars_of(s.as_str());
                match parse_integer(&chars) {
                    Some(v) => flags_shown(values, v),
                    None => s.clone(),
                }
            },
            _ => value.to_string(),
        },
        _ => value.to_string(),
    }
}

/// How a value is shown under a column type.
pub fn get_display_value(column_type: &ColumnType, value: &Value) -> (r: String)
    ensures
        r@ == shown(*column_type, value@),
{
    match column_type {
        ColumnType::Scalar { inner } => show_scalar(inner, value),
        ColumnType::Array { inner } => match value {
            Value::List(items) => {
                proof {
                    lemma_list_view(*value);
                }
                let mut out: Vec<String> = Vec::new();
                let mut i: usize = 0;
                while i < items.len()
                    invariant
                        i <= items.len(),
                        out.len() == i,
                        forall|k: int|
                            0 <= k < i ==> (#[trigger] out@[k])@ == shown_scalar(
                                *inner,
                                items@[k]@,
                            ),
                    decreases items.len() - i,
                {
                    out.push(show_scalar(inner, &items[i]));
                    i += 1;
                }
                assert(texts(out@) =~= Seq::new(
                    value@->List_0.len(),
                    |i: int| shown_scalar(*inner, value@->List_0[i]),
                ));
                crate::text::join_texts(&out)
            },
            _ => show_scalar(inner, value),
        },
    }
}

/// The fields under which a row is shown: for each of the first `n`
/// columns that the row has a field of, the column's name and the field as
/// it is shown, cut to 1024 characters.
pub open spec fn shown_fields(columns: Seq<Column>, row: Entries, n: nat) -> Seq<
    (Seq<char>, Seq<char>),
>
    decreases n,
{
    if n == 0 || n > columns.len() {
        Seq::empty()
    } else {
        let before = shown_fields(columns, row, (n - 1) as nat);
        let column = columns[n - 1];
        match lookup(row, column.id@) {
            Some(value) => before.push(
                (column.name@, shortened(shown(column.column_type, value), 1024)),
            ),
            None => before,
        }
    }
}

/// The contents of a list of fields.
pub open spec fn fields_view(fields: Seq<(String, String)>) -> Seq<(Seq<char>, Seq<char>)> {
    Seq::new(fields.len(), |i: int| (fields[i].0@, fields[i].1@))
}

/// The fields under which a row is shown.
pub fn embed_fields(columns: &Vec<Column>, row: &ValueMap) -> (r: Vec<(String, String)>)
    ensures
        fields_view(r@) == shown_fields(columns@, row@, columns@.len()),
{
    let mut out: Vec<(String, String)> = Vec::new();
    let mut i: usize = 0;
    assert(fields_view(out@) =~= Seq::<(Seq<char>, Seq<char>)>::empty());
    while i < columns.len()
        invariant
            i <= columns.len(),
            fields_view(out@) == shown_fields(columns@, row@, i as nat),
        decreases columns.len() - i,
    {
        let column = &columns[i];
        let ghost before = fields_view(out@);
        match row.get(column.id.as_str()) {
            Some(value) => {
                let text = get_display_value(&column.column_type, value);
                let cut = shorten(text.as_str(), 1024);
                let field = (column.name.clone(), cut);
                out.push(field);
                assert(fields_view(out@) =~= before.push((field.0@, field.1@)));
            },
            None => {},
        }
        i += 1;
    }
    out
}

/// What the reader of a paged view asked for.
#[derive(Debug, Clone, Copy, PartialEq, Eq, Structural)]
pub enum PageAction {
    Previous,
    Next,
    First,
    Close,
    Other,
}

/// The action that a button stands for, by the button's id.
pub open spec fn action_of(id: Seq<char>) -> PageAction {
    if id == "previous"@ {
        PageAction::Previous
    } else if id == "next"@ {
        PageAction::Next
    } else if id == "first"@ {
        PageAction::First
    } else if id == "close"@ {
        PageAction::Close
    } else {
        PageAction::Other
    }
}

/// The action that a button stands for, by the button's id.
pub fn page_action(id: &str) -> (r: PageAction)
    ensures
        r == action_of(id@),
{
    if same_text(id, "previous") {
        PageAction::Previous
    } else if same_text(id, "next") {
        PageAction::Next
    } else if same_text(id, "first") {
        PageAction::First
    } else if same_text(id, "close") {
        PageAction::Close
    } else {
        PageAction::Other
    }
}

/// The page that is shown after an action on page `index` of `total`, the
/// first page being page 0; none where the view is closed. The page never
/// leaves the range of the pages.
pub open spec fn turned(index: usize, total: usize, action: PageAction) -> Option<usize> {
    match action {
        PageAction::Previous => Some(
            if index > 0 {
                (index - 1) as usize
            } else {
                0
            },
        ),
        PageAction::Next => Some(
            if index + 1 < total {
                (index + 1) as usize
            } else {
                (total - 1) as usize
            },
        ),
        PageAction::First => Some(0),
        PageAction::Close => None,
        PageAction::Other => Some(index),
    }
}

/// Turns the page of a paged view.
pub fn turn_page(index: usize, total: usize, action: PageAction) -> (r: Option<usize>)
    requires
        index < total,
    ensures
        r == turned(index, total, action),
        r matches Some(i) ==> i < total,
{
    match action {
        PageAction::Previous => Some(
            if index > 0 {
                index - 1
            } else {
                0
            },
        ),
        PageAction::Next => Some(
            if index + 1 < total {
                index + 1
            } else {
                total - 1
            },
        ),
        PageAction::First => Some(0),
        PageAction::Close => None,
        PageAction::Other => Some(index),
    }
}

/// Shows page 0 of a view with `total` rows, if it has any.
pub fn first_page(total: usize) -> (r: Option<usize>)
    ensures
        r == if total > 0 {
            Some(0usize)
        } else {
            None
        },
{
    if total > 0 {
        Some(0)
    } else {
        None
    }
}

/// The buttons of a paged view that cannot be used on page `index` of
/// `total`: the one to the page before on the first page, the one to the
/// next page on the last.
pub fn disabled_buttons(index: usize, total: usize) -> (r: (bool, bool))
    requires
        index < total,
    ensures
        r.0 == (index == 0),
        r.1 == (index + 1 == total),
{
    (index == 0, index >= total - 1)
}

/// The title of a page: the setting's name and where the page stands.
pub open spec fn title_of(name: Seq<char>, index: usize, total: usize) -> Seq<char> {
    name + " ("@ + decimal((index + 1) as nat) + " of "@ + decimal(total as nat) + ")"@
}

/// The title of a page.
pub fn page_title(name: &str, index: usize, total: usize) -> (r: String)
    requires
        index < total,
    ensures
        r@ == title_of(name@, index, total),
{
    let mut out = name.to_owned();
    out.append(" (");
    let place = decimal_text(index + 1);
    out.append(place.as_str());
    out.append(" of ");
    let count = decimal_text(total);
    out.append(count.as_str());
    out.append(")");
    out
}

/// The key of a row as it is named when the row was deleted: for each of
/// the first `n` key columns that has a field, the column's name and the
/// field as it is written.
pub open spec fn named_key(columns: Seq<Column>, fields: Entries, n: nat) -> Seq<Seq<char>>
    decreases n,
{
    if n == 0 || n > columns.len() {
        Seq::empty()
    } else {
        let before = named_key(columns, fields, (n - 1) as nat);
        let column = columns[n - 1];
        if column.primary_key {
            match lookup(fields, column.id@) {
                Some(value) => before.push(column.name@ + ": "@ + display_of(value)),
                None => before,
            }
        } else {
            before
        }
    }
}

/// The key of a row as it is named when the row was deleted.
pub fn deleted_key_text(columns: &Vec<Column>, fields: &ValueMap) -> (r: String)
    ensures
        r@ == joined(named_key(columns@, fields@, columns@.len())),
{
    let mut out: Vec<String> = Vec::new();
    let mut i: usize = 0;
    assert(texts(out@) =~= Seq::<Seq<char>>::empty());
    while i < columns.len()
        invariant
            i <= columns.len(),
            texts(out@) == named_key(columns@, fields@, i as nat),
        decreases columns.len() - i,
    {
        let column = &columns[i];
        let ghost before = texts(out@);
        if column.primary_key {
            match fields.get(column.id.as_str()) {
                Some(value) => {
                    let mut item = column.name.clone();
                    item.append(": ");
                    let text = value.to_string();
                    item.append(text.as_str());
                    out.push(item);
                    assert(texts(out@) =~= before.push(item@));
                },
                None => {},
            }
        }
        i += 1;
    }
    crate::text::join_texts(&out)
}

} // verus!
