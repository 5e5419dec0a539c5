//! What holds of validation and of the operations on every input.

use crate::cfg::{canonical_flags, masked, null_error, validated};
use crate::error::SettingsErrorView;
use crate::operations::{
    coerced_field, coerced_row, deleted_key, entry_or_null, key_fields, keyed, leaves,
    missing_error, parsed_fields, stripped, viewed_row, viewed_rows, written,
};
use crate::types::{
    distinct_ids, flags_of, Column, ColumnType, Entries, InnerColumnType, OperationType,
};
use crate::value::{
    has_key, inserted, keys_unique, lemma_has_key, lemma_inserted_keys, lemma_position,
    lemma_position_is, lemma_swap_removed_keys, lookup, position, swap_removed, ValueView,
};
use vstd::prelude::*;

verus! {

/// In a column that is not nullable the absent value is always an error of
/// the null kind that names the column; nothing is put in its place.
pub proof fn law_null_is_rejected(column_type: ColumnType, column: Seq<char>)
    ensures
        validated(ValueView::Null, column_type, column, false) == Err::<
            ValueView,
            SettingsErrorView,
        >(null_error(column)),
{
}

/// In a nullable column the absent value stays the absent value.
pub proof fn law_null_is_kept(column_type: ColumnType, column: Seq<char>)
    ensures
        validated(ValueView::Null, column_type, column, true) == Ok::<
            ValueView,
            SettingsErrorView,
        >(ValueView::Null),
{
}

/// What is masked out of an input lies within the input.
proof fn lemma_masked_within(flags: Seq<(Seq<char>, i64)>, input: i64)
    ensures
        masked(flags, input) & input == masked(flags, input),
    decreases flags.len(),
{
    if flags.len() == 0 {
        assert(0i64 & input == 0i64) by (bit_vector);
    } else {
        lemma_masked_within(flags.drop_last(), input);
        let rest = masked(flags.drop_last(), input);
        let bit = flags.last().1;
        assert(rest & input == rest && bit & input == bit ==> (rest | bit) & input == (rest | bit))
            by (bit_vector);
    }
}

/// Masking by a wider input gives at least as much, where each flag of the
/// narrower input is one of the wider input.
proof fn lemma_masked_grows(flags: Seq<(Seq<char>, i64)>, narrow: i64, wide: i64)
    requires
        forall|k: int|
            0 <= k < flags.len() && (#[trigger] flags[k]).1 & narrow == flags[k].1 ==> flags[k].1
                & wide == flags[k].1,
    ensures
        masked(flags, narrow) & masked(flags, wide) == masked(flags, narrow),
    decreases flags.len(),
{
    if flags.len() == 0 {
        assert(0i64 & 0i64 == 0i64) by (bit_vector);
    } else {
        let shorter = flags.drop_last();
        assert forall|k: int|
            0 <= k < shorter.len() && (#[trigger] shorter[k]).1 & narrow == shorter[k].1
                implies shorter[k].1 & wide == shorter[k].1 by {
            assert(shorter[k] == flags[k]);
        }
        lemma_masked_grows(shorter, narrow, wide);
        let a = masked(shorter, narrow);
        let b = masked(shorter, wide);
        let bit = flags.last().1;
        assert(flags[flags.len() - 1] == flags.last());
        assert(a & b == a ==> (a | bit) & (b | bit) == (a | bit)) by (bit_vector);
        assert(a & b == a ==> a & (b | bit) == a) by (bit_vector);
    }
}

/// Each flag that an input has lies within what is masked out of the input.
proof fn lemma_flag_within_masked(flags: Seq<(Seq<char>, i64)>, input: i64, k: int)
    requires
        0 <= k < flags.len(),
        flags[k].1 & input == flags[k].1,
    ensures
        flags[k].1 & masked(flags, input) == flags[k].1,
    decreases flags.len(),
{
    let rest = masked(flags.drop_last(), input);
    let last = flags.last().1;
    let bit = flags[k].1;
    if k == flags.len() - 1 {
        assert(bit & (rest | bit) == bit) by (bit_vector);
    } else {
        assert(flags.drop_last()[k] == flags[k]);
        lemma_flag_within_masked(flags.drop_last(), input, k);
        assert(bit & rest == bit ==> bit & (rest | last) == bit) by (bit_vector);
    }
}

/// Masking what was masked changes nothing.
proof fn lemma_masked_twice(flags: Seq<(Seq<char>, i64)>, input: i64)
    ensures
        masked(flags, masked(flags, input)) == masked(flags, input),
{
    let once = masked(flags, input);
    let twice = masked(flags, once);
    lemma_masked_within(flags, once);
    assert forall|k: int|
        0 <= k < flags.len() && (#[trigger] flags[k]).1 & input == flags[k].1 implies flags[k].1
        & once == flags[k].1 by {
        lemma_flag_within_masked(flags, input, k);
    }
    lemma_masked_grows(flags, input, once);
    assert(twice & once == twice && once & twice == once ==> twice == once) by (bit_vector);
}

/// The canonical form of a canonical bit-flag value is that value.
pub proof fn law_canonical_flags_idempotent(flags: Seq<(Seq<char>, i64)>, input: i64)
    ensures
        canonical_flags(flags, input) matches Some(c) ==> canonical_flags(flags, c) == Some(c),
{
    if masked(flags, input) != 0 {
        lemma_masked_twice(flags, input);
    } else if flags.len() > 0 {
        let first = flags[0].1;
        lemma_masked_within(flags, first);
        assert(first & first == first) by (bit_vector);
        lemma_flag_within_masked(flags, first, 0);
        let m = masked(flags, first);
        assert(m & first == m && first & m == first ==> m == first) by (bit_vector);
    }
}

/// Validating a bit-flag integer that validation gave yields the same
/// integer again.
pub proof fn law_bitflag_validation_idempotent(
    values: indexmap::IndexMap<String, i64>,
    input: i64,
    column: Seq<char>,
    nullable: bool,
)
    ensures
        ({
            let column_type = ColumnType::Scalar { inner: InnerColumnType::BitFlag { values } };
            let once = validated(ValueView::Integer(input), column_type, column, nullable);
            once is Ok ==> validated(once->Ok_0, column_type, column, nullable) == once
        }),
{
    law_canonical_flags_idempotent(flags_of(values), input);
}

/// Taking an entry out keeps the keys distinct and leaves no entry of the
/// key.
pub proof fn lemma_swap_removed_unique<V>(s: Seq<(Seq<char>, V)>, gone: Seq<char>)
    requires
        keys_unique(s),
    ensures
        keys_unique(swap_removed(s, gone)),
        !has_key(swap_removed(s, gone), gone),
{
    let t = swap_removed(s, gone);
    lemma_position(s, gone);
    lemma_has_key(s, gone);
    lemma_has_key(t, gone);
    if has_key(s, gone) {
        let p = position(s, gone);
        assert forall|i: int, j: int| 0 <= i < j < t.len() implies (#[trigger] t[i]).0 != (
        #[trigger] t[j]).0 by {
            let a = if i == p {
                s.len() - 1
            } else {
                i
            };
            let b = if j == p {
                s.len() - 1
            } else {
                j
            };
            assert(t[i] == s[a]);
            assert(t[j] == s[b]);
            if a < b {
                assert(s[a].0 != s[b].0);
            } else {
                assert(s[b].0 != s[a].0);
            }
        }
        if has_key(t, gone) {
            let i = choose|i: int| 0 <= i < t.len() && (#[trigger] t[i]).0 == gone;
            let a = if i == p {
                s.len() - 1
            } else {
                i
            };
            assert(t[i] == s[a]);
            if a < p {
                assert(s[a].0 != s[p].0);
            } else {
                assert(s[p].0 != s[a].0);
            }
        }
    }
}

/// Putting an entry in keeps the keys distinct.
pub proof fn lemma_inserted_unique<V>(s: Seq<(Seq<char>, V)>, key: Seq<char>, value: V)
    requires
        keys_unique(s),
    ensures
        keys_unique(inserted(s, key, value)),
{
    let t = inserted(s, key, value);
    lemma_position(s, key);
    lemma_has_key(s, key);
    if has_key(s, key) {
        let p = position(s, key);
        assert forall|i: int, j: int| 0 <= i < j < t.len() implies (#[trigger] t[i]).0 != (
        #[trigger] t[j]).0 by {
            assert(t[i].0 == s[i].0);
            assert(t[j].0 == s[j].0);
        }
    } else {
        assert forall|i: int, j: int| 0 <= i < j < t.len() implies (#[trigger] t[i]).0 != (
        #[trigger] t[j]).0 by {
            assert(t[i] == s[i]);
            if j < s.len() {
                assert(t[j] == s[j]);
            }
        }
    }
}

/// Stripping keeps the keys distinct and leaves no field of a column that
/// leaves the operation.
proof fn lemma_stripped(columns: Seq<Column>, state: Entries, operation: OperationType, n: nat)
    requires
        keys_unique(state),
        n <= columns.len(),
    ensures
        keys_unique(stripped(columns, state, operation, n)),
        forall|k: int|
            0 <= k < n && leaves(#[trigger] columns[k], operation) ==> !has_key(
                stripped(columns, state, operation, n),
                columns[k].id@,
            ),
    decreases n,
{
    if n > 0 {
        lemma_stripped(columns, state, operation, (n - 1) as nat);
        let before = stripped(columns, state, operation, (n - 1) as nat);
        let now = stripped(columns, state, operation, n);
        let column = columns[n - 1];
        if leaves(column, operation) {
            lemma_swap_removed_unique(before, column.id@);
            assert forall|k: int| 0 <= k < n && leaves(#[trigger] columns[k], operation)
                implies !has_key(now, columns[k].id@) by {
                lemma_swap_removed_keys(before, column.id@, columns[k].id@);
            }
        }
    }
}

/// Parsing the fields keeps the keys distinct.
proof fn lemma_parsed_fields_unique(
    columns: Seq<Column>,
    fields: Entries,
    operation: OperationType,
    n: nat,
)
    requires
        keys_unique(fields),
        n <= columns.len(),
    ensures
        parsed_fields(columns, fields, operation, n) matches Ok(state) ==> keys_unique(state),
    decreases n,
{
    if n > 0 {
        lemma_parsed_fields_unique(columns, fields, operation, (n - 1) as nat);
        let before = parsed_fields(columns, fields, operation, (n - 1) as nat);
        let now = parsed_fields(columns, fields, operation, n);
        if before is Ok && now is Ok && !columns[n - 1].ignores(operation) {
            let key = columns[n - 1].id@;
            lemma_swap_removed_unique(before->Ok_0, key);
            let v = choose|v: ValueView|
                now->Ok_0 == inserted(swap_removed(before->Ok_0, key), key, v);
            lemma_inserted_unique(swap_removed(before->Ok_0, key), key, v);
        }
    }
}

/// Coercing a row keeps the keys distinct.
proof fn lemma_coerced_row_unique(columns: Seq<Column>, row: Entries, n: nat)
    requires
        keys_unique(row),
        n <= columns.len(),
    ensures
        coerced_row(columns, row, n) matches Ok(state) ==> keys_unique(state),
    decreases n,
{
    if n > 0 {
        lemma_coerced_row_unique(columns, row, (n - 1) as nat);
        let before = coerced_row(columns, row, (n - 1) as nat);
        let now = coerced_row(columns, row, n);
        if before is Ok && now is Ok {
            let key = columns[n - 1].id@;
            lemma_swap_removed_unique(before->Ok_0, key);
            let v = choose|v: ValueView|
                now->Ok_0 == inserted(swap_removed(before->Ok_0, key), key, v);
            lemma_inserted_unique(swap_removed(before->Ok_0, key), key, v);
        }
    }
}

/// A create or an update hands its backend no field of a column that the
/// operation ignores, whatever the fields were.
pub proof fn law_ignored_columns_are_left_out(
    columns: Seq<Column>,
    fields: Entries,
    operation: OperationType,
    k: int,
)
    requires
        keys_unique(fields),
        0 <= k < columns.len(),
        columns[k].ignores(operation),
    ensures
        written(columns, fields, operation) matches Ok(state) ==> !has_key(state, columns[k].id@),
{
    lemma_parsed_fields_unique(columns, fields, operation, columns.len());
    if parsed_fields(columns, fields, operation, columns.len()) is Ok {
        lemma_stripped(
            columns,
            parsed_fields(columns, fields, operation, columns.len())->Ok_0,
            operation,
            columns.len(),
        );
    }
}

/// A row that a view returns has no field of a secret column, nor of a
/// column that is ignored for a view, whatever the backend's row held.
pub proof fn law_secret_columns_are_hidden(columns: Seq<Column>, row: Entries, k: int)
    requires
        keys_unique(row),
        0 <= k < columns.len(),
        columns[k].secret || columns[k].ignores(OperationType::View),
    ensures
        viewed_row(columns, row) matches Ok(state) ==> !has_key(state, columns[k].id@),
{
    lemma_coerced_row_unique(columns, row, columns.len());
    if coerced_row(columns, row, columns.len()) is Ok {
        lemma_stripped(
            columns,
            coerced_row(columns, row, columns.len())->Ok_0,
            OperationType::View,
            columns.len(),
        );
    }
}


/// Where keys are distinct, each entry is the one that its key is looked up
/// to.
pub proof fn lemma_lookup_unique<V>(s: Seq<(Seq<char>, V)>, i: int)
    requires
        keys_unique(s),
        0 <= i < s.len(),
    ensures
        lookup(s, s[i].0) == Some(s[i].1),
{
    assert forall|j: int| 0 <= j < i implies (#[trigger] s[j]).0 != s[i].0 by {
        assert(s[j].0 != s[i].0);
    }
    lemma_position_is(s, s[i].0, i);
}

/// Taking an entry out changes the value under no other key.
pub proof fn lemma_lookup_swap_removed<V>(s: Seq<(Seq<char>, V)>, gone: Seq<char>, key: Seq<char>)
    requires
        keys_unique(s),
        key != gone,
    ensures
        lookup(swap_removed(s, gone), key) == lookup(s, key),
{
    let t = swap_removed(s, gone);
    lemma_swap_removed_unique(s, gone);
    lemma_swap_removed_keys(s, gone, key);
    lemma_position(s, key);
    lemma_position(s, gone);
    if has_key(s, gone) && has_key(s, key) {
        let p = position(s, gone);
        let i = position(s, key);
        let moved = if i == s.len() - 1 {
            p
        } else {
            i
        };
        assert(t[moved] == s[i]);
        lemma_lookup_unique(t, moved);
    }
}

/// Putting an entry in changes the value under no other key.
pub proof fn lemma_lookup_inserted<V>(
    s: Seq<(Seq<char>, V)>,
    added: Seq<char>,
    value: V,
    key: Seq<char>,
)
    requires
        key != added,
    ensures
        lookup(inserted(s, added, value), key) == lookup(s, key),
{
    let t = inserted(s, added, value);
    lemma_position(s, key);
    lemma_position(s, added);
    lemma_inserted_keys(s, added, value, key);
    if has_key(s, key) {
        let i = position(s, key);
        assert forall|j: int| 0 <= j < i implies (#[trigger] t[j]).0 != key by {
            if has_key(s, added) && j == position(s, added) {
            } else {
                assert(t[j] == s[j]);
            }
        }
        assert(t[i] == s[i]);
        lemma_position_is(t, key, i);
    }
}

/// What a view makes of the field of column `k` of a row of the backend.
pub open spec fn viewed_field(columns: Seq<Column>, row: Entries, k: int) -> Result<
    ValueView,
    SettingsErrorView,
> {
    validated(
        entry_or_null(row, columns[k].id@),
        columns[k].column_type,
        columns[k].id@,
        columns[k].nullable,
    )
}

/// After the first `n` columns of a row were coerced, each of them holds its
/// validated value, and the fields of the columns behind them are as they
/// were.
proof fn lemma_coerced_row_fields(columns: Seq<Column>, row: Entries, n: nat)
    requires
        distinct_ids(columns),
        keys_unique(row),
        n <= columns.len(),
        coerced_row(columns, row, n) is Ok,
    ensures
        keys_unique(coerced_row(columns, row, n)->Ok_0),
        forall|j: int|
            0 <= j < n ==> #[trigger] viewed_field(columns, row, j) is Ok && lookup(
                coerced_row(columns, row, n)->Ok_0,
                columns[j].id@,
            ) == Some(viewed_field(columns, row, j)->Ok_0),
        forall|j: int|
            n <= j < columns.len() ==> lookup(
                coerced_row(columns, row, n)->Ok_0,
                (#[trigger] columns[j]).id@,
            ) == lookup(row, columns[j].id@),
    decreases n,
{
    if n > 0 {
        lemma_coerced_row_fields(columns, row, (n - 1) as nat);
        let before = coerced_row(columns, row, (n - 1) as nat)->Ok_0;
        let now = coerced_row(columns, row, n)->Ok_0;
        let key = columns[n - 1].id@;
        let removed = swap_removed(before, key);
        let x = viewed_field(columns, row, n - 1)->Ok_0;
        assert(lookup(before, columns[n - 1].id@) == lookup(row, key));
        assert(now == inserted(removed, key, x));
        lemma_swap_removed_unique(before, key);
        lemma_inserted_unique(removed, key, x);
        lemma_inserted_keys(removed, key, x, key);
        assert forall|j: int| 0 <= j < columns.len() && j != n - 1 implies lookup(
            now,
            (#[trigger] columns[j]).id@,
        ) == lookup(before, columns[j].id@) by {
            if j < n - 1 {
                assert(columns[j].id@ != columns[n - 1].id@);
            } else {
                assert(columns[n - 1].id@ != columns[j].id@);
            }
            lemma_lookup_swap_removed(before, key, columns[j].id@);
            lemma_lookup_inserted(removed, key, x, columns[j].id@);
        }
        assert forall|j: int| 0 <= j < n implies #[trigger] viewed_field(columns, row, j) is Ok
            && lookup(now, columns[j].id@) == Some(viewed_field(columns, row, j)->Ok_0) by {
            if j < n - 1 {
                assert(lookup(now, columns[j].id@) == lookup(before, columns[j].id@));
            }
        }
    }
}

/// Stripping changes the field of no column that stays.
proof fn lemma_stripped_fields(
    columns: Seq<Column>,
    state: Entries,
    operation: OperationType,
    n: nat,
)
    requires
        distinct_ids(columns),
        keys_unique(state),
        n <= columns.len(),
    ensures
        forall|j: int|
            0 <= j < columns.len() && !leaves(#[trigger] columns[j], operation) ==> lookup(
                stripped(columns, state, operation, n),
                columns[j].id@,
            ) == lookup(state, columns[j].id@),
    decreases n,
{
    if n > 0 {
        lemma_stripped_fields(columns, state, operation, (n - 1) as nat);
        lemma_stripped(columns, state, operation, (n - 1) as nat);
        let before = stripped(columns, state, operation, (n - 1) as nat);
        let key = columns[n - 1].id@;
        if leaves(columns[n - 1], operation) {
            assert forall|j: int|
                0 <= j < columns.len() && !leaves(#[trigger] columns[j], operation) implies lookup(
                stripped(columns, state, operation, n),
                columns[j].id@,
            ) == lookup(state, columns[j].id@) by {
                if j < n - 1 {
                    assert(columns[j].id@ != columns[n - 1].id@);
                } else {
                    assert(columns[n - 1].id@ != columns[j].id@);
                }
                lemma_lookup_swap_removed(before, key, columns[j].id@);
            }
        }
    }
}

/// A row that a view returns holds, for each column that the view shows,
/// the validated value of the field that the backend's row had for it, where
/// the ids of the columns are distinct.
pub proof fn law_view_holds_validated_values(columns: Seq<Column>, row: Entries, k: int)
    requires
        distinct_ids(columns),
        keys_unique(row),
        0 <= k < columns.len(),
        !leaves(columns[k], OperationType::View),
    ensures
        viewed_row(columns, row) matches Ok(state) ==> viewed_field(columns, row, k) is Ok
            && lookup(state, columns[k].id@) == Some(viewed_field(columns, row, k)->Ok_0),
{
    if coerced_row(columns, row, columns.len()) is Ok {
        lemma_coerced_row_fields(columns, row, columns.len());
        let state = coerced_row(columns, row, columns.len())->Ok_0;
        lemma_stripped_fields(columns, state, OperationType::View, columns.len());
        assert(viewed_field(columns, row, k) is Ok);
    }
}

/// A view returns one row for each row of the backend, in the backend's
/// order: row `i` is what the view makes of the backend's row `i`.
pub proof fn law_view_keeps_rows(columns: Seq<Column>, rows: Seq<Entries>)
    ensures
        viewed_rows(columns, rows) matches Ok(out) ==> out.len() == rows.len() && forall|i: int|
            0 <= i < rows.len() ==> viewed_row(columns, #[trigger] rows[i]) == Ok::<
                Entries,
                SettingsErrorView,
            >(out[i]),
    decreases rows.len(),
{
    if rows.len() > 0 {
        let rest = rows.drop_first();
        law_view_keeps_rows(columns, rest);
        if viewed_rows(columns, rows) is Ok {
            let out = viewed_rows(columns, rows)->Ok_0;
            let tail = viewed_rows(columns, rest)->Ok_0;
            let first = viewed_row(columns, rows[0])->Ok_0;
            assert(out == seq![first] + tail);
            assert forall|i: int| 0 <= i < rows.len() implies viewed_row(
                columns,
                #[trigger] rows[i],
            ) == Ok::<Entries, SettingsErrorView>(out[i]) by {
                if i > 0 {
                    assert(rows[i] == rest[i - 1]);
                    assert(out[i] == tail[i - 1]);
                }
            }
        }
    }
}

/// What a create or an update makes of the field of column `k`.
pub open spec fn written_field(columns: Seq<Column>, fields: Entries, k: int) -> Result<
    ValueView,
    SettingsErrorView,
> {
    coerced_field(entry_or_null(fields, columns[k].id@), columns[k])
}

/// After the first `n` columns were parsed, each of them that the operation
/// does not ignore holds its coerced value, and the fields of the other
/// columns are as they were.
proof fn lemma_parsed_fields_fields(
    columns: Seq<Column>,
    fields: Entries,
    operation: OperationType,
    n: nat,
)
    requires
        distinct_ids(columns),
        keys_unique(fields),
        n <= columns.len(),
        parsed_fields(columns, fields, operation, n) is Ok,
    ensures
        keys_unique(parsed_fields(columns, fields, operation, n)->Ok_0),
        forall|j: int|
            0 <= j < n && !columns[j].ignores(operation) ==> #[trigger] written_field(
                columns,
                fields,
                j,
            ) is Ok && lookup(
                parsed_fields(columns, fields, operation, n)->Ok_0,
                columns[j].id@,
            ) == Some(written_field(columns, fields, j)->Ok_0),
        forall|j: int|
            n <= j < columns.len() ==> lookup(
                parsed_fields(columns, fields, operation, n)->Ok_0,
                (#[trigger] columns[j]).id@,
            ) == lookup(fields, columns[j].id@),
    decreases n,
{
    if n > 0 {
        lemma_parsed_fields_fields(columns, fields, operation, (n - 1) as nat);
        let before = parsed_fields(columns, fields, operation, (n - 1) as nat)->Ok_0;
        let now = parsed_fields(columns, fields, operation, n)->Ok_0;
        let key = columns[n - 1].id@;
        assert(lookup(before, columns[n - 1].id@) == lookup(fields, key));
        if !columns[n - 1].ignores(operation) {
            let removed = swap_removed(before, key);
            let x = written_field(columns, fields, n - 1)->Ok_0;
            assert(now == inserted(removed, key, x));
            lemma_swap_removed_unique(before, key);
            lemma_inserted_unique(removed, key, x);
            lemma_inserted_keys(removed, key, x, key);
            assert forall|j: int| 0 <= j < columns.len() && j != n - 1 implies lookup(
                now,
                (#[trigger] columns[j]).id@,
            ) == lookup(before, columns[j].id@) by {
                if j < n - 1 {
                    assert(columns[j].id@ != columns[n - 1].id@);
                } else {
                    assert(columns[n - 1].id@ != columns[j].id@);
                }
                lemma_lookup_swap_removed(before, key, columns[j].id@);
                lemma_lookup_inserted(removed, key, x, columns[j].id@);
            }
            assert forall|j: int| 0 <= j < n && !columns[j].ignores(operation) implies
                #[trigger] written_field(columns, fields, j) is Ok && lookup(
                now,
                columns[j].id@,
            ) == Some(written_field(columns, fields, j)->Ok_0) by {
                if j < n - 1 {
                    assert(lookup(now, columns[j].id@) == lookup(before, columns[j].id@));
                }
            }
        }
    }
}

/// The row that a create or an update hands to its backend holds, for each
/// column that the operation does not ignore, the coerced value of the field
/// that was given for it, where the ids of the columns are distinct.
pub proof fn law_write_holds_coerced_values(
    columns: Seq<Column>,
    fields: Entries,
    operation: OperationType,
    k: int,
)
    requires
        distinct_ids(columns),
        keys_unique(fields),
        0 <= k < columns.len(),
        !leaves(columns[k], operation),
    ensures
        written(columns, fields, operation) matches Ok(state) ==> written_field(
            columns,
            fields,
            k,
        ) is Ok && lookup(state, columns[k].id@) == Some(written_field(columns, fields, k)->Ok_0),
{
    if parsed_fields(columns, fields, operation, columns.len()) is Ok {
        lemma_parsed_fields_fields(columns, fields, operation, columns.len());
        let state = parsed_fields(columns, fields, operation, columns.len())->Ok_0;
        lemma_stripped_fields(columns, state, operation, columns.len());
        assert(written_field(columns, fields, k) is Ok);
    }
}


/// What a delete makes of the field of the key column `k`.
pub open spec fn deleted_field(columns: Seq<Column>, fields: Entries, k: int) -> Result<
    ValueView,
    SettingsErrorView,
> {
    match lookup(fields, columns[k].id@) {
        Some(v) => validated(v, columns[k].column_type, columns[k].id@, columns[k].nullable),
        None => Err(missing_error(columns[k].id@)),
    }
}

/// After the first `n` columns were looked at, the key holds the validated
/// value of each key column among them, and the fields of the columns behind
/// them are as they were.
proof fn lemma_key_fields_fields(columns: Seq<Column>, fields: Entries, n: nat)
    requires
        distinct_ids(columns),
        keys_unique(fields),
        n <= columns.len(),
        key_fields(columns, fields, n) is Ok,
    ensures
        keys_unique(key_fields(columns, fields, n)->Ok_0.0),
        forall|j: int|
            0 <= j < n && keyed(columns[j]) ==> #[trigger] deleted_field(columns, fields, j) is Ok
                && lookup(key_fields(columns, fields, n)->Ok_0.1, columns[j].id@) == Some(
                deleted_field(columns, fields, j)->Ok_0,
            ),
        forall|j: int|
            n <= j < columns.len() ==> lookup(
                key_fields(columns, fields, n)->Ok_0.0,
                (#[trigger] columns[j]).id@,
            ) == lookup(fields, columns[j].id@),
    decreases n,
{
    if n > 0 {
        lemma_key_fields_fields(columns, fields, (n - 1) as nat);
        let (left, key) = key_fields(columns, fields, (n - 1) as nat)->Ok_0;
        let (now_left, now_key) = key_fields(columns, fields, n)->Ok_0;
        let id = columns[n - 1].id@;
        assert(lookup(left, columns[n - 1].id@) == lookup(fields, id));
        if keyed(columns[n - 1]) {
            let x = deleted_field(columns, fields, n - 1)->Ok_0;
            assert(now_left == swap_removed(left, id));
            assert(now_key == inserted(key, id, x));
            lemma_swap_removed_unique(left, id);
            lemma_inserted_keys(key, id, x, id);
            assert forall|j: int| n <= j < columns.len() implies lookup(
                now_left,
                (#[trigger] columns[j]).id@,
            ) == lookup(fields, columns[j].id@) by {
                assert(columns[n - 1].id@ != columns[j].id@);
                lemma_lookup_swap_removed(left, id, columns[j].id@);
            }
            assert forall|j: int| 0 <= j < n && keyed(columns[j]) implies #[trigger] deleted_field(
                columns,
                fields,
                j,
            ) is Ok && lookup(now_key, columns[j].id@) == Some(
                deleted_field(columns, fields, j)->Ok_0,
            ) by {
                if j < n - 1 {
                    assert(columns[j].id@ != columns[n - 1].id@);
                    lemma_lookup_inserted(key, id, x, columns[j].id@);
                }
            }
        }
    }
}

/// The key that a delete hands to its backend holds, for each key column,
/// the validated value of the field that was given for it, where the ids of
/// the columns are distinct.
pub proof fn law_delete_key_holds_validated_values(columns: Seq<Column>, fields: Entries, k: int)
    requires
        distinct_ids(columns),
        keys_unique(fields),
        0 <= k < columns.len(),
        keyed(columns[k]),
    ensures
        deleted_key(columns, fields) matches Ok(key) ==> deleted_field(columns, fields, k) is Ok
            && lookup(key, columns[k].id@) == Some(deleted_field(columns, fields, k)->Ok_0),
{
    if key_fields(columns, fields, columns.len()) is Ok {
        lemma_key_fields_fields(columns, fields, columns.len());
        assert(deleted_field(columns, fields, k) is Ok);
    }
}

} // verus!
