//! Columns that many settings have.

use crate::types::{Column, ColumnSuggestion, ColumnType, InnerColumnType, OperationType};
use vstd::prelude::*;

verus! {

/// What the standard columns have in common: a required text of the kind
/// `kind` that is shown, but neither asked for nor checked when a row is
/// created or updated.
pub open spec fn is_standard(column: Column, id: Seq<char>, name: Seq<char>, description: Seq<
    char,
>, kind: Seq<char>) -> bool {
    &&& column.id@ == id
    &&& column.name@ == name
    &&& column.description@ == description
    &&& column.column_type matches ColumnType::Scalar {
        inner: InnerColumnType::String { min_length, max_length, allowed_values, kind: k },
    }
    &&& min_length is None
    &&& max_length is None
    &&& allowed_values@.len() == 0
    &&& k@ == kind
    &&& !column.primary_key
    &&& !column.nullable
    &&& !column.secret
    &&& column.suggestions is Nothing
    &&& column.ignored_for@ == seq![OperationType::Create, OperationType::Update]
}

fn standard(id: &str, name: &str, description: &str, kind: &str) -> (column: Column)
    ensures
        is_standard(column, id@, name@, description@, kind@),
{
    let mut ignored_for: Vec<OperationType> = Vec::new();
    ignored_for.push(OperationType::Create);
    ignored_for.push(OperationType::Update);
    assert(ignored_for@ =~= seq![OperationType::Create, OperationType::Update]);
    Column {
        id: id.to_owned(),
        name: name.to_owned(),
        description: description.to_owned(),
        column_type: ColumnType::new_scalar(
            InnerColumnType::String {
                min_length: None,
                max_length: None,
                allowed_values: Vec::new(),
                kind: kind.to_owned(),
            },
        ),
        primary_key: false,
        nullable: false,
        suggestions: ColumnSuggestion::Nothing {  },
        secret: false,
        ignored_for,
    }
}

/// Standard created_at column.
pub fn created_at() -> (column: Column)
    ensures
        is_standard(
            column,
            "created_at"@,
            "Created At"@,
            "The time the record was created."@,
            "timestamp"@,
        ),
{
    standard("created_at", "Created At", "The time the record was created.", "timestamp")
}

/// Standard created_by column.
pub fn created_by() -> (column: Column)
    ensures
        is_standard(
            column,
            "created_by"@,
            "Created By"@,
            "The user who created the record."@,
            "user"@,
        ),
{
    standard("created_by", "Created By", "The user who created the record.", "user")
}

/// Standard last_updated_at column.
pub fn last_updated_at() -> (column: Column)
    ensures
        is_standard(
            column,
            "last_updated_at"@,
            "Last Updated At"@,
            "The time the record was last updated."@,
            "timestamp"@,
        ),
{
    standard(
        "last_updated_at",
        "Last Updated At",
        "The time the record was last updated.",
        "timestamp",
    )
}

/// Standard last_updated_by column.
pub fn last_updated_by() -> (column: Column)
    ensures
        is_standard(
            column,
            "last_updated_by"@,
            "Last Updated By"@,
            "The user who last updated the record."@,
            "user"@,
        ),
{
    standard(
        "last_updated_by",
        "Last Updated By",
        "The user who last updated the record.",
        "user",
    )
}

/// The column of the guild that a row belongs to.
pub fn guild_id(id: &'static str, name: &'static str, description: &'static str) -> (column:
    Column)
    ensures
        is_standard(column, id@, name@, description@, "guild_id"@),
{
    standard(id, name, description, "guild_id")
}

} // verus!
