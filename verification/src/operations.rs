//! The four operations on a setting: what each makes of its input before
//! the backend is asked, and of the backend's answer after.

use crate::cfg::{validate_value, validated, Outcome};
use crate::error::{SettingsError, SettingsErrorView};
use crate::types::{
    not_supported, Column, Entries, OperationType, Setting, SettingCreator, SettingDeleter,
    SettingUpdater, SettingView,
};
use crate::value::{
    has_key, inserted, lemma_inserted_keys, lemma_swap_removed_keeps, lemma_swap_removed_keys,
    lookup, swap_removed, Value, ValueMap, ValueView,
};
use vstd::prelude::*;

verus! {

/// The value of a field, the absent value where the field is not there.
pub open spec fn entry_or_null(state: Entries, key: Seq<char>) -> ValueView {
    match lookup(state, key) {
        Some(v) => v,
        None => ValueView::Null,
    }
}

/// The state after the field `key` was taken out and came back validated, as
/// the last entry; the error where validation gave one.
pub open spec fn reinserted(state: Entries, key: Seq<char>, outcome: Outcome) -> Result<
    Entries,
    SettingsErrorView,
> {
    match outcome {
        Ok(v) => Ok(inserted(swap_removed(state, key), key, v)),
        Err(e) => Err(e),
    }
}

/// Whether a column is taken out of what an operation hands on: a column
/// that the operation ignores, and for a view a secret column too.
pub open spec fn leaves(column: Column, operation: OperationType) -> bool {
    column.ignores(operation) || (operation == OperationType::View && column.secret)
}

/// The state after the first `n` columns were looked at and those that
/// leave the operation were taken out.
pub open spec fn stripped(columns: Seq<Column>, state: Entries, operation: OperationType, n: nat)
    -> Entries
    decreases n,
{
    if n == 0 || n > columns.len() {
        state
    } else {
        let before = stripped(columns, state, operation, (n - 1) as nat);
        if leaves(columns[n - 1], operation) {
            swap_removed(before, columns[n - 1].id@)
        } else {
            before
        }
    }
}

/// A row that a view backend gave, after the first `n` columns were each
/// validated under its type and nullability, a field that is not there
/// counting as absent.
pub open spec fn coerced_row(columns: Seq<Column>, row: Entries, n: nat) -> Result<
    Entries,
    SettingsErrorView,
>
    decreases n,
{
    if n == 0 || n > columns.len() {
        Ok(row)
    } else {
        match coerced_row(columns, row, (n - 1) as nat) {
            Err(e) => Err(e),
            Ok(state) => {
                let column = columns[n - 1];
                reinserted(
                    state,
                    column.id@,
                    validated(
                        entry_or_null(state, column.id@),
                        column.column_type,
                        column.id@,
                        column.nullable,
                    ),
                )
            },
        }
    }
}

/// What a view returns for one row of the backend: every column validated,
/// then the secret columns and those ignored for a view taken out.
pub open spec fn viewed_row(columns: Seq<Column>, row: Entries) -> Result<
    Entries,
    SettingsErrorView,
> {
    match coerced_row(columns, row, columns.len()) {
        Ok(state) => Ok(stripped(columns, state, OperationType::View, columns.len())),
        Err(e) => Err(e),
    }
}

/// What a view returns for the rows of the backend, in their order; the
/// error of the first row that has one.
pub open spec fn viewed_rows(columns: Seq<Column>, rows: Seq<Entries>) -> Result<
    Seq<Entries>,
    SettingsErrorView,
>
    decreases rows.len(),
{
    if rows.len() == 0 {
        Ok(Seq::empty())
    } else {
        match viewed_row(columns, rows[0]) {
            Err(e) => Err(e),
            Ok(first) => match viewed_rows(columns, rows.drop_first()) {
                Ok(rest) => Ok(seq![first] + rest),
                Err(e) => Err(e),
            },
        }
    }
}

/// What a field becomes before a row is written: the absent value stays,
/// any other value is validated under the column's type.
pub open spec fn coerced_field(v: ValueView, column: Column) -> Outcome {
    if v is Null {
        Ok(ValueView::Null)
    } else {
        validated(v, column.column_type, column.id@, column.nullable)
    }
}

/// The fields after each of the first `n` columns that the operation does
/// not ignore was taken out, a field that is not there counting as absent,
/// and put back in its canonical form.
pub open spec fn parsed_fields(
    columns: Seq<Column>,
    fields: Entries,
    operation: OperationType,
    n: nat,
) -> Result<Entries, SettingsErrorView>
    decreases n,
{
    if n == 0 || n > columns.len() {
        Ok(fields)
    } else {
        match parsed_fields(columns, fields, operation, (n - 1) as nat) {
            Err(e) => Err(e),
            Ok(state) => {
                let column = columns[n - 1];
                if column.ignores(operation) {
                    Ok(state)
                } else {
                    reinserted(
                        state,
                        column.id@,
                        coerced_field(entry_or_null(state, column.id@), column),
                    )
                }
            },
        }
    }
}

/// The error of a required field that is absent.
pub open spec fn missing_error(field: Seq<char>) -> SettingsErrorView {
    SettingsErrorView::MissingOrInvalidField { field }
}

/// The first of the first `n` columns that the operation does not ignore,
/// that is not nullable and whose field is absent.
pub open spec fn first_missing(
    columns: Seq<Column>,
    state: Entries,
    operation: OperationType,
    n: nat,
) -> Option<Seq<char>>
    decreases n,
{
    if n == 0 || n > columns.len() {
        None
    } else {
        match first_missing(columns, state, operation, (n - 1) as nat) {
            Some(field) => Some(field),
            None => {
                let column = columns[n - 1];
                if !column.ignores(operation) && !column.nullable && entry_or_null(
                    state,
                    column.id@,
                ) is Null {
                    Some(column.id@)
                } else {
                    None
                }
            },
        }
    }
}

/// The row that a create or an update hands to its backend: the fields in
/// canonical form, none of a required column absent, and without the
/// columns that the operation ignores.
pub open spec fn written(columns: Seq<Column>, fields: Entries, operation: OperationType) -> Result<
    Entries,
    SettingsErrorView,
> {
    match parsed_fields(columns, fields, operation, columns.len()) {
        Err(e) => Err(e),
        Ok(state) => match first_missing(columns, state, operation, columns.len()) {
            Some(field) => Err(missing_error(field)),
            None => Ok(stripped(columns, state, operation, columns.len())),
        },
    }
}

/// Whether a column is part of the key that a delete goes by.
pub open spec fn keyed(column: Column) -> bool {
    column.primary_key && !column.ignores(OperationType::Delete)
}

/// The fields that are left and the key collected so far, after each key
/// column among the first `n` was taken from the fields, validated and put
/// into the key. A key column without a field is an error.
pub open spec fn key_fields(columns: Seq<Column>, fields: Entries, n: nat) -> Result<
    (Entries, Entries),
    SettingsErrorView,
>
    decreases n,
{
    if n == 0 || n > columns.len() {
        Ok((fields, Seq::empty()))
    } else {
        match key_fields(columns, fields, (n - 1) as nat) {
            Err(e) => Err(e),
            Ok((left, key)) => {
                let column = columns[n - 1];
                if !keyed(column) {
                    Ok((left, key))
                } else {
                    match lookup(left, column.id@) {
                        None => Err(missing_error(column.id@)),
                        Some(v) => match validated(
                            v,
                            column.column_type,
                            column.id@,
                            column.nullable,
                        ) {
                            Err(e) => Err(e),
                            Ok(x) => Ok(
                                (swap_removed(left, column.id@), inserted(key, column.id@, x)),
                            ),
                        },
                    }
                }
            },
        }
    }
}

/// The key that a delete hands to its backend.
pub open spec fn deleted_key(columns: Seq<Column>, fields: Entries) -> Result<
    Entries,
    SettingsErrorView,
> {
    match key_fields(columns, fields, columns.len()) {
        Ok((left, key)) => Ok(key),
        Err(e) => Err(e),
    }
}

/// Whether a result is the given mapping or error.
pub open spec fn gives(r: Result<ValueMap, SettingsError>, outcome: Result<
    Entries,
    SettingsErrorView,
>) -> bool {
    match r {
        Ok(m) => outcome == Ok::<Entries, SettingsErrorView>(m@),
        Err(e) => outcome == Err::<Entries, SettingsErrorView>(e@),
    }
}

/// The contents of the rows.
pub open spec fn rows_view(rows: Seq<ValueMap>) -> Seq<Entries> {
    Seq::new(rows.len(), |i: int| rows[i]@)
}

/// Whether a result is the given rows or error.
pub open spec fn gives_rows(r: Result<Vec<ValueMap>, SettingsError>, outcome: Result<
    Seq<Entries>,
    SettingsErrorView,
>) -> bool {
    match r {
        Ok(rows) => outcome == Ok::<Seq<Entries>, SettingsErrorView>(rows_view(rows@)),
        Err(e) => outcome == Err::<Seq<Entries>, SettingsErrorView>(e@),
    }
}

/// Takes the columns that leave `operation` out of `state`.
fn strip(columns: &Vec<Column>, state: &mut ValueMap, operation: OperationType)
    ensures
        final(state)@ == stripped(columns@, old(state)@, operation, columns@.len()),
        forall|k: int|
            0 <= k < columns@.len() && leaves(#[trigger] columns@[k], operation) ==> !has_key(
                final(state)@,
                columns@[k].id@,
            ),
{
    let ghost start = state@;
    let mut i: usize = 0;
    while i < columns.len()
        invariant
            i <= columns.len(),
            state@ == stripped(columns@, start, operation, i as nat),
            forall|k: int|
                0 <= k < i && leaves(#[trigger] columns@[k], operation) ==> !has_key(
                    state@,
                    columns@[k].id@,
                ),
        decreases columns.len() - i,
    {
        let column = &columns[i];
        let secret = column.secret && operation == OperationType::View;
        if secret || column.is_ignored_for(operation) {
            let ghost before = state@;
            state.swap_remove(column.id.as_str());
            proof {
                assert forall|k: int|
                    0 <= k < i && leaves(#[trigger] columns@[k], operation) implies !has_key(
                    state@,
                    columns@[k].id@,
                ) by {
                    lemma_swap_removed_keys(before, column.id@, columns@[k].id@);
                }
            }
        }
        i += 1;
    }
}

/// Validates a row that a view backend gave and takes out what a view does
/// not show.
pub fn view_row(columns: &Vec<Column>, row: ValueMap) -> (r: Result<ValueMap, SettingsError>)
    ensures
        gives(r, viewed_row(columns@, row@)),
        r is Ok ==> forall|k: int|
            0 <= k < columns@.len() && leaves(#[trigger] columns@[k], OperationType::View)
                ==> !has_key(r->Ok_0@, columns@[k].id@),
{
    let mut state = row;
    let mut i: usize = 0;
    while i < columns.len()
        invariant
            i <= columns.len(),
            coerced_row(columns@, row@, i as nat) == Ok::<Entries, SettingsErrorView>(state@),
        decreases columns.len() - i,
    {
        let column = &columns[i];
        let value = match state.swap_remove(column.id.as_str()) {
            Some(v) => v,
            None => Value::Null,
        };
        match validate_value(value, &column.column_type, column.id.as_str(), column.nullable) {
            Err(e) => {
                assert(coerced_row(columns@, row@, (i + 1) as nat) == Err::<
                    Entries,
                    SettingsErrorView,
                >(e@));
                proof {
                    lemma_coerced_row_fails(columns@, row@, (i + 1) as nat, columns@.len());
                }
                return Err(e);
            },
            Ok(v) => {
                state.insert(column.id.clone(), v);
            },
        }
        i += 1;
    }
    strip(columns, &mut state, OperationType::View);
    Ok(state)
}

/// Once a column has failed, the row has failed.
proof fn lemma_coerced_row_fails(columns: Seq<Column>, row: Entries, n: nat, m: nat)
    requires
        coerced_row(columns, row, n) is Err,
        n <= m <= columns.len(),
    ensures
        coerced_row(columns, row, m) == coerced_row(columns, row, n),
    decreases m - n,
{
    if n < m {
        lemma_coerced_row_fails(columns, row, n, (m - 1) as nat);
    }
}

/// Once a column has failed, the fields have failed.
proof fn lemma_parsed_fields_fails(
    columns: Seq<Column>,
    fields: Entries,
    operation: OperationType,
    n: nat,
    m: nat,
)
    requires
        parsed_fields(columns, fields, operation, n) is Err,
        n <= m <= columns.len(),
    ensures
        parsed_fields(columns, fields, operation, m) == parsed_fields(columns, fields, operation, n),
    decreases m - n,
{
    if n < m {
        lemma_parsed_fields_fails(columns, fields, operation, n, (m - 1) as nat);
    }
}

/// Once a field is found missing, it is the first that is.
proof fn lemma_first_missing_stays(
    columns: Seq<Column>,
    state: Entries,
    operation: OperationType,
    n: nat,
    m: nat,
)
    requires
        first_missing(columns, state, operation, n) is Some,
        n <= m <= columns.len(),
    ensures
        first_missing(columns, state, operation, m) == first_missing(columns, state, operation, n),
    decreases m - n,
{
    if n < m {
        lemma_first_missing_stays(columns, state, operation, n, (m - 1) as nat);
    }
}

/// Once a key column has failed, the key has failed.
proof fn lemma_key_fields_fails(columns: Seq<Column>, fields: Entries, n: nat, m: nat)
    requires
        key_fields(columns, fields, n) is Err,
        n <= m <= columns.len(),
    ensures
        key_fields(columns, fields, m) == key_fields(columns, fields, n),
    decreases m - n,
{
    if n < m {
        lemma_key_fields_fails(columns, fields, n, (m - 1) as nat);
    }
}

/// Validates the rows that a view backend gave, each as `view_row` does.
pub fn view_rows(columns: &Vec<Column>, rows: Vec<ValueMap>) -> (r: Result<
    Vec<ValueMap>,
    SettingsError,
>)
    ensures
        gives_rows(r, viewed_rows(columns@, rows_view(rows@))),
        r is Ok ==> forall|j: int, k: int|
            0 <= j < r->Ok_0@.len() && 0 <= k < columns@.len() && leaves(
                #[trigger] columns@[k],
                OperationType::View,
            ) ==> !has_key((#[trigger] r->Ok_0@[j])@, columns@[k].id@),
{
    let ghost all = rows_view(rows@);
    let ghost target = viewed_rows(columns@, all);
    let mut out: Vec<ValueMap> = Vec::new();
    let mut i: usize = 0;
    proof {
        assert(all.subrange(0, all.len() as int) == all);
        if target is Ok {
            assert(rows_view(out@) + target->Ok_0 == target->Ok_0);
        }
    }
    while i < rows.len()
        invariant
            i <= rows.len(),
            all == rows_view(rows@),
            target == viewed_rows(columns@, all),
            target == followed(
                rows_view(out@),
                viewed_rows(columns@, all.subrange(i as int, all.len() as int)),
            ),
            forall|j: int, k: int|
                0 <= j < out@.len() && 0 <= k < columns@.len() && leaves(
                    #[trigger] columns@[k],
                    OperationType::View,
                ) ==> !has_key((#[trigger] out@[j])@, columns@[k].id@),
        decreases rows.len() - i,
    {
        let ghost rest = all.subrange(i as int, all.len() as int);
        let ghost done = rows_view(out@);
        proof {
            assert(rest[0] == rows@[i as int]@);
            assert(rest.drop_first() == all.subrange(i as int + 1, all.len() as int));
        }
        match view_row(columns, rows[i].clone()) {
            Err(e) => {
                return Err(e);
            },
            Ok(row) => {
                out.push(row);
                proof {
                    let longer = rows_view(out@);
                    assert(longer == done.push(row@));
                    let tail = viewed_rows(columns@, rest.drop_first());
                    if tail is Ok {
                        assert(done + (seq![row@] + tail->Ok_0) == longer + tail->Ok_0);
                    }
                }
            },
        }
        i += 1;
    }
    proof {
        assert(all.subrange(all.len() as int, all.len() as int) == Seq::<Entries>::empty());
        assert(rows_view(out@) + Seq::<Entries>::empty() == rows_view(out@));
    }
    Ok(out)
}

/// The rows `done`, then what `rest` gives.
pub open spec fn followed(done: Seq<Entries>, rest: Result<Seq<Entries>, SettingsErrorView>)
    -> Result<Seq<Entries>, SettingsErrorView> {
    match rest {
        Ok(rows) => Ok(done + rows),
        Err(e) => Err(e),
    }
}


/// After the fields were parsed, each column that the operation does not
/// ignore has a field.
pub proof fn lemma_parsed_fields_present(
    columns: Seq<Column>,
    fields: Entries,
    operation: OperationType,
    n: nat,
)
    requires
        n <= columns.len(),
        parsed_fields(columns, fields, operation, n) is Ok,
    ensures
        forall|k: int|
            0 <= k < n && !(#[trigger] columns[k]).ignores(operation) ==> has_key(
                parsed_fields(columns, fields, operation, n)->Ok_0,
                columns[k].id@,
            ),
    decreases n,
{
    if n > 0 {
        let before = parsed_fields(columns, fields, operation, (n - 1) as nat);
        lemma_parsed_fields_present(columns, fields, operation, (n - 1) as nat);
        let state = before->Ok_0;
        let column = columns[n - 1];
        let now = parsed_fields(columns, fields, operation, n)->Ok_0;
        if !column.ignores(operation) {
            let outcome = coerced_field(entry_or_null(state, column.id@), column);
            let removed = swap_removed(state, column.id@);
            assert(now == inserted(removed, column.id@, outcome->Ok_0));
            assert forall|k: int|
                0 <= k < n && !(#[trigger] columns[k]).ignores(operation) implies has_key(
                now,
                columns[k].id@,
            ) by {
                lemma_inserted_keys(removed, column.id@, outcome->Ok_0, columns[k].id@);
                if columns[k].id@ != column.id@ {
                    lemma_swap_removed_keeps(state, column.id@, columns[k].id@);
                }
            }
        }
    }
}

/// What a create or an update makes of its fields before the backend is
/// asked: each field in canonical form, none of a required column absent,
/// and no field of a column that the operation ignores.
pub fn prepare_write(columns: &Vec<Column>, fields: ValueMap, operation: OperationType) -> (r:
    Result<ValueMap, SettingsError>)
    ensures
        gives(r, written(columns@, fields@, operation)),
        r is Ok ==> forall|k: int|
            0 <= k < columns@.len() && (#[trigger] columns@[k]).ignores(operation) ==> !has_key(
                r->Ok_0@,
                columns@[k].id@,
            ),
{
    let mut state = fields;
    let mut i: usize = 0;
    while i < columns.len()
        invariant
            i <= columns.len(),
            parsed_fields(columns@, fields@, operation, i as nat) == Ok::<
                Entries,
                SettingsErrorView,
            >(state@),
        decreases columns.len() - i,
    {
        let column = &columns[i];
        if !column.is_ignored_for(operation) {
            let value = match state.swap_remove(column.id.as_str()) {
                Some(v) => v,
                None => Value::Null,
            };
            let coerced = match value {
                Value::Null => Ok(Value::Null),
                other => validate_value(
                    other,
                    &column.column_type,
                    column.id.as_str(),
                    column.nullable,
                ),
            };
            match coerced {
                Err(e) => {
                    assert(parsed_fields(columns@, fields@, operation, (i + 1) as nat) == Err::<
                        Entries,
                        SettingsErrorView,
                    >(e@));
                    proof {
                        lemma_parsed_fields_fails(
                            columns@,
                            fields@,
                            operation,
                            (i + 1) as nat,
                            columns@.len(),
                        );
                    }
                    return Err(e);
                },
                Ok(v) => {
                    state.insert(column.id.clone(), v);
                },
            }
        }
        i += 1;
    }
    proof {
        lemma_parsed_fields_present(columns@, fields@, operation, columns@.len());
    }
    let mut j: usize = 0;
    while j < columns.len()
        invariant
            j <= columns.len(),
            parsed_fields(columns@, fields@, operation, columns@.len()) == Ok::<
                Entries,
                SettingsErrorView,
            >(state@),
            forall|k: int|
                0 <= k < columns@.len() && !(#[trigger] columns@[k]).ignores(operation)
                    ==> has_key(state@, columns@[k].id@),
            first_missing(columns@, state@, operation, j as nat) is None,
        decreases columns.len() - j,
    {
        let column = &columns[j];
        if !column.is_ignored_for(operation) {
            match state.get(column.id.as_str()) {
                None => {
                    assert(false);
                },
                Some(value) => {
                    if !column.nullable && matches!(value, Value::Null) {
                        proof {
                            assert(first_missing(columns@, state@, operation, (j + 1) as nat)
                                == Some(column.id@));
                            lemma_first_missing_stays(
                                columns@,
                                state@,
                                operation,
                                (j + 1) as nat,
                                columns@.len(),
                            );
                        }
                        return Err(
                            SettingsError::MissingOrInvalidField { field: column.id.clone() },
                        );
                    }
                },
            }
        }
        j += 1;
    }
    strip_ignored(columns, &mut state, operation);
    Ok(state)
}

/// Takes the columns that `operation` ignores out of `state`.
fn strip_ignored(columns: &Vec<Column>, state: &mut ValueMap, operation: OperationType)
    ensures
        final(state)@ == stripped(columns@, old(state)@, operation, columns@.len()),
        forall|k: int|
            0 <= k < columns@.len() && (#[trigger] columns@[k]).ignores(operation) ==> !has_key(
                final(state)@,
                columns@[k].id@,
            ),
{
    strip(columns, state, operation);
}

/// What a delete makes of its fields before the backend is asked: the key,
/// made of the validated fields of the key columns.
pub fn prepare_delete(columns: &Vec<Column>, fields: ValueMap) -> (r: Result<
    ValueMap,
    SettingsError,
>)
    ensures
        gives(r, deleted_key(columns@, fields@)),
{
    let mut left = fields;
    let mut key = ValueMap::new();
    let mut i: usize = 0;
    while i < columns.len()
        invariant
            i <= columns.len(),
            key_fields(columns@, fields@, i as nat) == Ok::<(Entries, Entries), SettingsErrorView>(
                (left@, key@),
            ),
        decreases columns.len() - i,
    {
        let column = &columns[i];
        if column.primary_key && !column.is_ignored_for(OperationType::Delete) {
            match left.swap_remove(column.id.as_str()) {
                None => {
                    proof {
                        assert(key_fields(columns@, fields@, (i + 1) as nat) == Err::<
                            (Entries, Entries),
                            SettingsErrorView,
                        >(missing_error(column.id@)));
                        lemma_key_fields_fails(columns@, fields@, (i + 1) as nat, columns@.len());
                    }
                    return Err(SettingsError::MissingOrInvalidField { field: column.id.clone() });
                },
                Some(value) => {
                    match validate_value(
                        value,
                        &column.column_type,
                        column.id.as_str(),
                        column.nullable,
                    ) {
                        Err(e) => {
                            proof {
                                assert(key_fields(columns@, fields@, (i + 1) as nat) == Err::<
                                    (Entries, Entries),
                                    SettingsErrorView,
                                >(e@));
                                lemma_key_fields_fails(
                                    columns@,
                                    fields@,
                                    (i + 1) as nat,
                                    columns@.len(),
                                );
                            }
                            return Err(e);
                        },
                        Ok(v) => {
                            key.insert(column.id.clone(), v);
                        },
                    }
                },
            }
        }
        i += 1;
    }
    Ok(key)
}

/// Views a setting: asks the backend for the rows that match `filters`,
/// validates each row and takes out what a view does not show.
pub fn settings_view<SettingsData, V: SettingView<SettingsData>, C, U, D>(
    setting: &Setting<V, C, U, D>,
    data: &SettingsData,
    filters: ValueMap,
) -> (r: Result<Vec<ValueMap>, SettingsError>)
    ensures
        match setting.operations.view {
            None => r is Err && r->Err_0@ == not_supported(OperationType::View),
            Some(backend) => exists|answer: Result<Vec<ValueMap>, SettingsError>|
                #[trigger] backend.may_answer(data, filters@, answer) && gives_rows(
                    r,
                    view_outcome(setting.columns@, answer),
                ),
        },
        r is Ok ==> forall|j: int, k: int|
            0 <= j < r->Ok_0@.len() && 0 <= k < setting.columns@.len() && leaves(
                #[trigger] setting.columns@[k],
                OperationType::View,
            ) ==> !has_key((#[trigger] r->Ok_0@[j])@, setting.columns@[k].id@),
{
    match &setting.operations.view {
        None => Err(SettingsError::OperationNotSupported { operation: OperationType::View }),
        Some(backend) => {
            let answer = backend.view(data, filters);
            let ghost given = answer;
            let r = finish_view(&setting.columns, answer);
            assert(backend.may_answer(data, filters@, given));
            r
        },
    }
}

/// What a view makes of the backend's answer.
pub open spec fn view_outcome(columns: Seq<Column>, answer: Result<Vec<ValueMap>, SettingsError>)
    -> Result<Seq<Entries>, SettingsErrorView> {
    match answer {
        Ok(rows) => viewed_rows(columns, rows_view(rows@)),
        Err(e) => Err(e@),
    }
}

/// What a view returns for the answer of its backend: the backend's error,
/// or the rows validated and without what a view does not show.
pub fn finish_view(columns: &Vec<Column>, answer: Result<Vec<ValueMap>, SettingsError>) -> (r:
    Result<Vec<ValueMap>, SettingsError>)
    ensures
        gives_rows(r, view_outcome(columns@, answer)),
        r is Ok ==> forall|j: int, k: int|
            0 <= j < r->Ok_0@.len() && 0 <= k < columns@.len() && leaves(
                #[trigger] columns@[k],
                OperationType::View,
            ) ==> !has_key((#[trigger] r->Ok_0@[j])@, columns@[k].id@),
{
    match answer {
        Ok(rows) => view_rows(columns, rows),
        Err(e) => Err(e),
    }
}

/// Creates a row of a setting: prepares the fields as `prepare_write` does
/// and hands them to the backend, whose answer is returned as it is.
pub fn settings_create<SettingsData, V, C: SettingCreator<SettingsData>, U, D>(
    setting: &Setting<V, C, U, D>,
    data: &SettingsData,
    fields: ValueMap,
) -> (r: Result<ValueMap, SettingsError>)
    ensures
        match setting.operations.create {
            None => r is Err && r->Err_0@ == not_supported(OperationType::Create),
            Some(backend) => match written(setting.columns@, fields@, OperationType::Create) {
                Err(e) => r is Err && r->Err_0@ == e,
                Ok(state) => backend.may_answer(data, state, r),
            },
        },
{
    match &setting.operations.create {
        None => Err(SettingsError::OperationNotSupported { operation: OperationType::Create }),
        Some(backend) => match prepare_write(&setting.columns, fields, OperationType::Create) {
            Err(e) => Err(e),
            Ok(state) => backend.create(data, state),
        },
    }
}

/// Updates a row of a setting: prepares the fields as `prepare_write` does
/// and hands them to the backend, whose answer is returned as it is.
pub fn settings_update<SettingsData, V, C, U: SettingUpdater<SettingsData>, D>(
    setting: &Setting<V, C, U, D>,
    data: &SettingsData,
    fields: ValueMap,
) -> (r: Result<ValueMap, SettingsError>)
    ensures
        match setting.operations.update {
            None => r is Err && r->Err_0@ == not_supported(OperationType::Update),
            Some(backend) => match written(setting.columns@, fields@, OperationType::Update) {
                Err(e) => r is Err && r->Err_0@ == e,
                Ok(state) => backend.may_answer(data, state, r),
            },
        },
{
    match &setting.operations.update {
        None => Err(SettingsError::OperationNotSupported { operation: OperationType::Update }),
        Some(backend) => match prepare_write(&setting.columns, fields, OperationType::Update) {
            Err(e) => Err(e),
            Ok(state) => backend.update(data, state),
        },
    }
}

/// Deletes a row of a setting: collects the key as `prepare_delete` does
/// and hands it to the backend, whose answer is returned as it is.
pub fn settings_delete<SettingsData, V, C, U, D: SettingDeleter<SettingsData>>(
    setting: &Setting<V, C, U, D>,
    data: &SettingsData,
    fields: ValueMap,
) -> (r: Result<(), SettingsError>)
    ensures
        match setting.operations.delete {
            None => r is Err && r->Err_0@ == not_supported(OperationType::Delete),
            Some(backend) => match deleted_key(setting.columns@, fields@) {
                Err(e) => r is Err && r->Err_0@ == e,
                Ok(state) => backend.may_answer(data, state, r),
            },
        },
{
    match &setting.operations.delete {
        None => Err(SettingsError::OperationNotSupported { operation: OperationType::Delete }),
        Some(backend) => match prepare_delete(&setting.columns, fields) {
            Err(e) => Err(e),
            Ok(state) => backend.delete(data, state),
        },
    }
}

} // verus!
