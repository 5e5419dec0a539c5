//! The structured errors of validation and of the four operations.

use crate::types::OperationType;
use vstd::prelude::*;

verus! {

/// The name of a value's kind or of a column's type.
#[derive(Debug, Clone, Copy, PartialEq, Eq, Hash, Structural)]
pub enum TypeName {
    Uuid,
    String,
    Timestamp,
    TimestampTz,
    Interval,
    Integer,
    Float,
    Boolean,
    BitFlag,
    Json,
    List,
    Mapping,
    Null,
}

/// The constraint that a value of the right shape failed.
#[derive(Debug, Clone, Copy, PartialEq, Eq, Hash, Structural)]
pub enum Check {
    /// The text is shorter than the column's minimum length.
    MinLength,
    /// The text is longer than the column's maximum length.
    MaxLength,
    /// The text is not one of the column's allowed values.
    AllowedValues,
    /// The text is no base-10 signed 64-bit integer.
    IntegerSyntax,
    /// The text is no decimal number, or one beyond the range of a float.
    FloatSyntax,
    /// The text is neither `true` nor `false`.
    BooleanSyntax,
    /// The text is neither an integer nor a list of declared flag names.
    BitFlagSyntax,
    /// No flag is set and the column declares no flag to fall back on.
    BitFlagDefault,
    /// The text is no UUID.
    UuidSyntax,
    /// The text is no `%Y-%m-%d %H:%M:%S` date and time.
    TimestampSyntax,
    /// The text is no RFC 3339 date and time.
    TimestampTzSyntax,
    /// The text is no interval.
    IntervalSyntax,
    /// The text is no JSON document.
    JsonSyntax,
    /// The value has no JSON text.
    JsonEncoding,
    /// The JSON text is longer than the column's maximum.
    MaxBytes,
}

/// An error of validation or of an operation.
#[derive(Debug, Clone, PartialEq)]
pub enum SettingsError {
    /// The setting has no backend for the operation.
    OperationNotSupported { operation: OperationType },
    /// The value's shape does not match the column's type.
    SchemaTypeValidationError { column: String, expected_type: TypeName, got_type: TypeName },
    /// The value's shape matched but a constraint failed.
    SchemaCheckValidationError {
        column: String,
        check: Check,
        /// What the constraint accepts.
        accepted_range: String,
        /// What was found instead.
        detail: String,
    },
    /// A column that is not nullable got the absent value.
    SchemaNullValueValidationError { column: String },
    /// A required field is absent.
    MissingOrInvalidField { field: String },
    /// An invariant of the engine was broken.
    Generic { message: String },
    /// Raised by a backend: the row exists already.
    RowExists { column_id: String, count: i64 },
    /// Raised by a backend: there is no such row.
    RowDoesNotExist { column_id: String },
    /// Raised by a backend: no more rows may be created.
    MaximumCountReached { max: usize, current: usize },
}

/// The mathematical content of a [`SettingsError`].
pub enum SettingsErrorView {
    OperationNotSupported { operation: OperationType },
    SchemaTypeValidationError { column: Seq<char>, expected_type: TypeName, got_type: TypeName },
    SchemaCheckValidationError {
        column: Seq<char>,
        check: Check,
        accepted_range: Seq<char>,
        detail: Seq<char>,
    },
    SchemaNullValueValidationError { column: Seq<char> },
    MissingOrInvalidField { field: Seq<char> },
    Generic { message: Seq<char> },
    RowExists { column_id: Seq<char>, count: i64 },
    RowDoesNotExist { column_id: Seq<char> },
    MaximumCountReached { max: usize, current: usize },
}

impl View for SettingsError {
    type V = SettingsErrorView;

    open spec fn view(&self) -> SettingsErrorView {
        match self {
            SettingsError::OperationNotSupported { operation } => {
                SettingsErrorView::OperationNotSupported { operation: *operation }
            },
            SettingsError::SchemaTypeValidationError { column, expected_type, got_type } => {
                SettingsErrorView::SchemaTypeValidationError {
                    column: column@,
                    expected_type: *expected_type,
                    got_type: *got_type,
                }
            },
            SettingsError::SchemaCheckValidationError { column, check, accepted_range, detail } => {
                SettingsErrorView::SchemaCheckValidationError {
                    column: column@,
                    check: *check,
                    accepted_range: accepted_range@,
                    detail: detail@,
                }
            },
            SettingsError::SchemaNullValueValidationError { column } => {
                SettingsErrorView::SchemaNullValueValidationError { column: column@ }
            },
            SettingsError::MissingOrInvalidField { field } => {
                SettingsErrorView::MissingOrInvalidField { field: field@ }
            },
            SettingsError::Generic { message } => SettingsErrorView::Generic { message: message@ },
            SettingsError::RowExists { column_id, count } => {
                SettingsErrorView::RowExists { column_id: column_id@, count: *count }
            },
            SettingsError::RowDoesNotExist { column_id } => {
                SettingsErrorView::RowDoesNotExist { column_id: column_id@ }
            },
            SettingsError::MaximumCountReached { max, current } => {
                SettingsErrorView::MaximumCountReached { max: *max, current: *current }
            },
        }
    }
}

/// A type mismatch in `column`.
pub open spec fn type_error(column: Seq<char>, expected: TypeName, got: TypeName)
    -> SettingsErrorView {
    SettingsErrorView::SchemaTypeValidationError { column, expected_type: expected, got_type: got }
}

/// A failed check in `column`.
pub open spec fn check_error(
    column: Seq<char>,
    check: Check,
    accepted_range: Seq<char>,
    detail: Seq<char>,
) -> SettingsErrorView {
    SettingsErrorView::SchemaCheckValidationError { column, check, accepted_range, detail }
}

/// A type mismatch in `column`.
pub fn new_type_error(column: &str, expected: TypeName, got: TypeName) -> (e: SettingsError)
    ensures
        e@ == type_error(column@, expected, got),
{
    SettingsError::SchemaTypeValidationError {
        column: column.to_owned(),
        expected_type: expected,
        got_type: got,
    }
}

/// A failed check in `column`.
pub fn new_check_error(column: &str, check: Check, accepted_range: String, detail: String) -> (e:
    SettingsError)
    ensures
        e@ == check_error(column@, check, accepted_range@, detail@),
{
    SettingsError::SchemaCheckValidationError {
        column: column.to_owned(),
        check,
        accepted_range,
        detail,
    }
}

} // verus!
