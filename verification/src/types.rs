//! The schema: column types, columns, and the operations a setting supports.

use crate::error::{SettingsError, SettingsErrorView};
use crate::value::{ValueMap, ValueView};
use std::sync::Arc;
use vstd::prelude::*;
use vstd::std_specs::cmp::PartialEqSpecImpl;

verus! {

/// The declared flags of a bit-flag column in their order, each name with
/// its bits.
pub uninterp spec fn flags_of(values: indexmap::IndexMap<String, i64>) -> Seq<(Seq<char>, i64)>;

/// `IndexMap::iter`: the declared flags in their order, each name with its
/// bits.
#[verifier::external_body]
pub(crate) fn flag_entries(values: &indexmap::IndexMap<String, i64>) -> (r: Vec<(String, i64)>)
    ensures
        r@.len() == flags_of(*values).len(),
        forall|i: int|
            0 <= i < r@.len() ==> (#[trigger] r@[i]).0@ == flags_of(*values)[i].0 && r@[i].1
                == flags_of(*values)[i].1,
{
    values.iter().map(|(name, bits)| (name.clone(), *bits)).collect()
}

/// `IndexMap::get`: the bits of the flag called `name`.
#[verifier::external_body]
pub(crate) fn flag_lookup(values: &indexmap::IndexMap<String, i64>, name: &str) -> (r: Option<i64>)
    ensures
        r == crate::value::lookup(flags_of(*values), name@),
{
    values.get(name).copied()
}

/// The shape of a column: one value, or a list of values of one type.
#[derive(Debug, Clone, PartialEq)]
pub enum ColumnType {
    /// A single valued column.
    Scalar {
        /// The value type.
        inner: InnerColumnType,
    },
    /// An array column.
    Array {
        /// The type of each element.
        inner: InnerColumnType,
    },
}

impl ColumnType {
    /// Whether the column holds a list.
    pub fn is_array(&self) -> (r: bool)
        ensures
            r == (self is Array),
    {
        matches!(self, ColumnType::Array { .. })
    }

    /// Whether the column holds a single value.
    pub fn is_scalar(&self) -> (r: bool)
        ensures
            r == (self is Scalar),
    {
        matches!(self, ColumnType::Scalar { .. })
    }

    /// The type of a column that holds one value of the type `inner`.
    pub fn new_scalar(inner: InnerColumnType) -> (r: Self)
        ensures
            r == (ColumnType::Scalar { inner }),
    {
        ColumnType::Scalar { inner }
    }

    /// The type of a column that holds a list of values of the type `inner`.
    pub fn new_array(inner: InnerColumnType) -> (r: Self)
        ensures
            r == (ColumnType::Array { inner }),
    {
        ColumnType::Array { inner }
    }

    /// The element type.
    pub open spec fn inner(self) -> InnerColumnType {
        match self {
            ColumnType::Scalar { inner } => inner,
            ColumnType::Array { inner } => inner,
        }
    }
}

/// An atomic type with its constraints.
#[derive(Debug, Clone, PartialEq)]
pub enum InnerColumnType {
    String {
        min_length: Option<usize>,
        max_length: Option<usize>,
        /// If empty, all values are allowed.
        allowed_values: Vec<String>,
        /// What the text stands for (a channel, a user, ...). It guides
        /// rendering, not validation.
        kind: String,
    },
    Integer {},
    Float {},
    BitFlag {
        /// The declared flags: name to bits.
        values: indexmap::IndexMap<String, i64>,
    },
    Boolean {},
    Uuid {},
    Timestamp {},
    TimestampTz {},
    Interval {},
    Json {
        kind: String,
        max_bytes: Option<usize>,
    },
}

/// Suggestions to show for a column.
#[derive(Debug, Clone, PartialEq)]
pub enum ColumnSuggestion {
    Static { suggestions: Vec<String> },
    Nothing {},
}

/// One of the four operations on a setting.
#[derive(Debug, Clone, Copy, PartialEq, Eq, Hash, Structural)]
pub enum OperationType {
    View,
    Create,
    Update,
    Delete,
}

impl OperationType {
    /// The name of the operation.
    pub open spec fn name(self) -> Seq<char> {
        match self {
            OperationType::View => "View"@,
            OperationType::Create => "Create"@,
            OperationType::Update => "Update"@,
            OperationType::Delete => "Delete"@,
        }
    }

    /// The name of the operation.
    pub fn to_string(&self) -> (r: String)
        ensures
            r@ == self.name(),
    {
        match self {
            OperationType::View => "View".to_owned(),
            OperationType::Create => "Create".to_owned(),
            OperationType::Update => "Update".to_owned(),
            OperationType::Delete => "Delete".to_owned(),
        }
    }
}

/// One named, typed field of a setting.
#[derive(Debug, Clone)]
pub struct Column {
    /// The stable identifier of the column; unique within a setting.
    pub id: String,
    /// The friendly name of the column.
    pub name: String,
    /// The description of the column.
    pub description: String,
    /// The type of the column.
    pub column_type: ColumnType,
    /// Whether the column is part of the row's identity.
    pub primary_key: bool,
    /// Whether the column may hold the absent value.
    pub nullable: bool,
    /// Suggestions to display.
    pub suggestions: ColumnSuggestion,
    /// A secret column is never shown.
    pub secret: bool,
    /// The operations for which the column is neither asked for nor checked.
    pub ignored_for: Vec<OperationType>,
}

impl Column {
    /// Whether the column is left out of `operation`.
    pub open spec fn ignores(self, operation: OperationType) -> bool {
        self.ignored_for@.contains(operation)
    }

    /// Whether the column is left out of `operation`.
    pub fn is_ignored_for(&self, operation: OperationType) -> (r: bool)
        ensures
            r == self.ignores(operation),
    {
        let mut i: usize = 0;
        while i < self.ignored_for.len()
            invariant
                i <= self.ignored_for.len(),
                forall|k: int| 0 <= k < i ==> self.ignored_for@[k] != operation,
            decreases self.ignored_for.len() - i,
        {
            if self.ignored_for[i] == operation {
                return true;
            }
            i += 1;
        }
        false
    }
}


impl PartialEq for Column {
    /// Two columns are the same column when they have the same id.
    fn eq(&self, other: &Self) -> (r: bool) {
        self.id == other.id
    }
}

impl PartialEqSpecImpl for Column {
    open spec fn obeys_eq_spec() -> bool {
        true
    }

    open spec fn eq_spec(&self, other: &Self) -> bool {
        self.id@ == other.id@
    }
}

/// The entries of a row or of a set of fields.
pub type Entries = Seq<(Seq<char>, ValueView)>;

/// A backend that lists the rows of a setting.
pub trait SettingView<SettingsData> {
    /// Whether `answer` is one that the backend may give to a view with the
    /// filters `filters`. A backend that states what it answers fills this
    /// in; for any other backend every answer is one.
    open spec fn may_answer(
        &self,
        context: &SettingsData,
        filters: Entries,
        answer: Result<Vec<ValueMap>, SettingsError>,
    ) -> bool {
        true
    }

    /// The rows that match the filters.
    fn view(&self, context: &SettingsData, filters: ValueMap) -> (answer: Result<
        Vec<ValueMap>,
        SettingsError,
    >)
        ensures
            self.may_answer(context, filters@, answer),
    ;
}

/// A backend that creates a row of a setting.
pub trait SettingCreator<SettingsData> {
    /// Whether `answer` is one that the backend may give to the creation of
    /// the row `state`. A backend that states what it answers fills this in;
    /// for any other backend every answer is one.
    open spec fn may_answer(
        &self,
        context: &SettingsData,
        state: Entries,
        answer: Result<ValueMap, SettingsError>,
    ) -> bool {
        true
    }

    /// Creates the row and gives it back as stored.
    fn create(&self, context: &SettingsData, state: ValueMap) -> (answer: Result<
        ValueMap,
        SettingsError,
    >)
        ensures
            self.may_answer(context, state@, answer),
    ;
}

/// A backend that updates a row of a setting.
pub trait SettingUpdater<SettingsData> {
    /// Whether `answer` is one that the backend may give to the update with
    /// the fields `state`. A backend that states what it answers fills this
    /// in; for any other backend every answer is one.
    open spec fn may_answer(
        &self,
        context: &SettingsData,
        state: Entries,
        answer: Result<ValueMap, SettingsError>,
    ) -> bool {
        true
    }

    /// Updates the row and gives it back as stored.
    fn update(&self, context: &SettingsData, state: ValueMap) -> (answer: Result<
        ValueMap,
        SettingsError,
    >)
        ensures
            self.may_answer(context, state@, answer),
    ;
}

/// A backend that deletes a row of a setting.
pub trait SettingDeleter<SettingsData> {
    /// Whether `answer` is one that the backend may give to the deletion of
    /// the row with the key `state`. A backend that states what it answers
    /// fills this in; for any other backend every answer is one.
    open spec fn may_answer(
        &self,
        context: &SettingsData,
        state: Entries,
        answer: Result<(), SettingsError>,
    ) -> bool {
        true
    }

    /// Deletes the row.
    fn delete(&self, context: &SettingsData, state: ValueMap) -> (answer: Result<
        (),
        SettingsError,
    >)
        ensures
            self.may_answer(context, state@, answer),
    ;
}

/// Stands in the place of a backend that a setting does not have. Every
/// call fails as not supported.
#[derive(Debug, Clone, Copy, PartialEq, Eq, Structural)]
pub struct Unsupported;

/// The error of an operation that the setting has no backend for.
pub open spec fn not_supported(operation: OperationType) -> SettingsErrorView {
    SettingsErrorView::OperationNotSupported { operation }
}

impl<SettingsData> SettingView<SettingsData> for Unsupported {
    open spec fn may_answer(
        &self,
        context: &SettingsData,
        filters: Entries,
        answer: Result<Vec<ValueMap>, SettingsError>,
    ) -> bool {
        answer is Err && answer->Err_0@ == not_supported(OperationType::View)
    }

    fn view(&self, context: &SettingsData, filters: ValueMap) -> (answer: Result<
        Vec<ValueMap>,
        SettingsError,
    >) {
        Err(SettingsError::OperationNotSupported { operation: OperationType::View })
    }
}

impl<SettingsData> SettingCreator<SettingsData> for Unsupported {
    open spec fn may_answer(
        &self,
        context: &SettingsData,
        state: Entries,
        answer: Result<ValueMap, SettingsError>,
    ) -> bool {
        answer is Err && answer->Err_0@ == not_supported(OperationType::Create)
    }

    fn create(&self, context: &SettingsData, state: ValueMap) -> (answer: Result<
        ValueMap,
        SettingsError,
    >) {
        Err(SettingsError::OperationNotSupported { operation: OperationType::Create })
    }
}

impl<SettingsData> SettingUpdater<SettingsData> for Unsupported {
    open spec fn may_answer(
        &self,
        context: &SettingsData,
        state: Entries,
        answer: Result<ValueMap, SettingsError>,
    ) -> bool {
        answer is Err && answer->Err_0@ == not_supported(OperationType::Update)
    }

    fn update(&self, context: &SettingsData, state: ValueMap) -> (answer: Result<
        ValueMap,
        SettingsError,
    >) {
        Err(SettingsError::OperationNotSupported { operation: OperationType::Update })
    }
}

impl<SettingsData> SettingDeleter<SettingsData> for Unsupported {
    open spec fn may_answer(
        &self,
        context: &SettingsData,
        state: Entries,
        answer: Result<(), SettingsError>,
    ) -> bool {
        answer is Err && answer->Err_0@ == not_supported(OperationType::Delete)
    }

    fn delete(&self, context: &SettingsData, state: ValueMap) -> (answer: Result<
        (),
        SettingsError,
    >) {
        Err(SettingsError::OperationNotSupported { operation: OperationType::Delete })
    }
}

/// Wraps `v` in the shared handle that a setting keeps its backends in.
pub fn settings_wrap<T>(v: T) -> (r: Arc<T>)
    ensures
        *r == v,
{
    Arc::new(v)
}

/// The backends of a setting, each there or not.
pub struct SettingOperations<V, C, U, D> {
    /// How to view this setting.
    pub view: Option<Arc<V>>,
    /// How to create this setting.
    pub create: Option<Arc<C>>,
    /// How to update this setting.
    pub update: Option<Arc<U>>,
    /// How to delete this setting.
    pub delete: Option<Arc<D>>,
}

/// A named schema: its columns in order, and its backends.
pub struct Setting<V, C, U, D> {
    /// The ID of the setting.
    pub id: String,
    /// The name of the setting.
    pub name: String,
    /// The description of the setting.
    pub description: String,
    /// The template of the title under which a row is shown.
    pub title_template: String,
    /// The columns of the setting.
    pub columns: Arc<Vec<Column>>,
    /// The operations that the setting supports.
    pub operations: SettingOperations<V, C, U, D>,
}

/// Whether no two columns have the same id.
pub open spec fn distinct_ids(columns: Seq<Column>) -> bool {
    forall|i: int, j: int|
        0 <= i < j < columns.len() ==> (#[trigger] columns[i]).id@ != (#[trigger] columns[j]).id@
}

/// Whether some column is part of the key of a row.
pub open spec fn has_key_column(columns: Seq<Column>) -> bool {
    exists|i: int| 0 <= i < columns.len() && (#[trigger] columns[i]).primary_key
}

/// Whether the columns make a schema: their ids are distinct, and a row has
/// a key.
pub open spec fn is_schema(columns: Seq<Column>) -> bool {
    distinct_ids(columns) && has_key_column(columns)
}

/// Whether the columns make a schema.
pub fn check_schema(columns: &Vec<Column>) -> (r: bool)
    ensures
        r == is_schema(columns@),
{
    let mut keyed = false;
    let mut i: usize = 0;
    while i < columns.len()
        invariant
            i <= columns.len(),
            keyed <==> exists|k: int| 0 <= k < i && (#[trigger] columns@[k]).primary_key,
            forall|a: int, b: int|
                0 <= a < b < i ==> (#[trigger] columns@[a]).id@ != (#[trigger] columns@[b]).id@,
        decreases columns.len() - i,
    {
        let mut j: usize = 0;
        while j < i
            invariant
                j <= i < columns.len(),
                forall|a: int| 0 <= a < j ==> (#[trigger] columns@[a]).id@ != columns@[i as int].id@,
            decreases i - j,
        {
            if columns[j].id == columns[i].id {
                assert(columns@[j as int].id@ == columns@[i as int].id@);
                return false;
            }
            j += 1;
        }
        if columns[i].primary_key {
            keyed = true;
        }
        i += 1;
    }
    keyed
}

impl<V, C, U, D> Setting<V, C, U, D> {
    /// Whether the setting's columns make a schema.
    pub open spec fn well_formed(self) -> bool {
        is_schema(self.columns@)
    }

    /// Whether the setting's columns make a schema.
    pub fn is_well_formed(&self) -> (r: bool)
        ensures
            r == self.well_formed(),
    {
        check_schema(&self.columns)
    }
}

impl<V, C, U, D> PartialEq for Setting<V, C, U, D> {
    /// Two settings are the same setting when they have the same id.
    fn eq(&self, other: &Self) -> (r: bool) {
        self.id == other.id
    }
}

impl<V, C, U, D> PartialEqSpecImpl for Setting<V, C, U, D> {
    open spec fn obeys_eq_spec() -> bool {
        true
    }

    open spec fn eq_spec(&self, other: &Self) -> bool {
        self.id@ == other.id@
    }
}

impl<V, C, U, D> SettingOperations<V, C, U, D> {
    /// Which of the four operations have a backend, in the order view,
    /// create, update, delete.
    pub fn supported(&self) -> (r: Vec<OperationType>)
        ensures
            r@ == supported_operations(
                self.view is Some,
                self.create is Some,
                self.update is Some,
                self.delete is Some,
            ),
    {
        let mut out: Vec<OperationType> = Vec::new();
        if self.view.is_some() {
            out.push(OperationType::View);
        }
        if self.create.is_some() {
            out.push(OperationType::Create);
        }
        if self.update.is_some() {
            out.push(OperationType::Update);
        }
        if self.delete.is_some() {
            out.push(OperationType::Delete);
        }
        out
    }
}

/// Those of the four operations that are there, in the order view, create,
/// update, delete.
pub open spec fn supported_operations(view: bool, create: bool, update: bool, delete: bool) -> Seq<
    OperationType,
> {
    (if view {
        seq![OperationType::View]
    } else {
        Seq::empty()
    }) + (if create {
        seq![OperationType::Create]
    } else {
        Seq::empty()
    }) + (if update {
        seq![OperationType::Update]
    } else {
        Seq::empty()
    }) + (if delete {
        seq![OperationType::Delete]
    } else {
        Seq::empty()
    })
}

impl<U: Clone> SettingOperations<U, U, U, U> {
    /// All four operations, each by a copy of the backend `v`.
    pub fn from(v: U) -> (r: Self)
        ensures
            r.view is Some && cloned(v, *r.view->0),
            r.create is Some && cloned(v, *r.create->0),
            r.update is Some && cloned(v, *r.update->0),
            r.delete is Some && *r.delete->0 == v,
    {
        SettingOperations {
            view: Some(settings_wrap(v.clone())),
            create: Some(settings_wrap(v.clone())),
            update: Some(settings_wrap(v.clone())),
            delete: Some(settings_wrap(v)),
        }
    }
}

impl<T> SettingOperations<T, Unsupported, Unsupported, Unsupported> {
    /// The operations of a setting that supports view alone, by the backend `v`.
    pub fn to_view_op(v: T) -> (r: Self)
        ensures
            r.view is Some && *r.view->0 == v,
            r.create is None,
            r.update is None,
            r.delete is None,
    {
        SettingOperations {
            view: Some(settings_wrap(v)),
            create: None,
            update: None,
            delete: None,
        }
    }
}

impl<T> SettingOperations<Unsupported, T, Unsupported, Unsupported> {
    /// The operations of a setting that supports create alone, by the backend `v`.
    pub fn to_create_op(v: T) -> (r: Self)
        ensures
            r.view is None,
            r.create is Some && *r.create->0 == v,
            r.update is None,
            r.delete is None,
    {
        SettingOperations {
            view: None,
            create: Some(settings_wrap(v)),
            update: None,
            delete: None,
        }
    }
}

impl<T> SettingOperations<Unsupported, Unsupported, T, Unsupported> {
    /// The operations of a setting that supports update alone, by the backend `v`.
    pub fn to_update_op(v: T) -> (r: Self)
        ensures
            r.view is None,
            r.create is None,
            r.update is Some && *r.update->0 == v,
            r.delete is None,
    {
        SettingOperations {
            view: None,
            create: None,
            update: Some(settings_wrap(v)),
            delete: None,
        }
    }
}

impl<T> SettingOperations<Unsupported, Unsupported, Unsupported, T> {
    /// The operations of a setting that supports delete alone, by the backend `v`.
    pub fn to_delete_op(v: T) -> (r: Self)
        ensures
            r.view is None,
            r.create is None,
            r.update is None,
            r.delete is Some && *r.delete->0 == v,
    {
        SettingOperations {
            view: None,
            create: None,
            update: None,
            delete: Some(settings_wrap(v)),
        }
    }
}

impl<T: Clone> SettingOperations<T, T, Unsupported, Unsupported> {
    /// The operations of a setting that supports view, create alone, by the backend `v`.
    pub fn to_view_create_op(v: T) -> (r: Self)
        ensures
            r.view is Some && cloned(v, *r.view->0),
            r.create is Some && *r.create->0 == v,
            r.update is None,
            r.delete is None,
    {
        SettingOperations {
            view: Some(settings_wrap(v.clone())),
            create: Some(settings_wrap(v)),
            update: None,
            delete: None,
        }
    }
}

impl<T: Clone> SettingOperations<T, Unsupported, T, Unsupported> {
    /// The operations of a setting that supports view, update alone, by the backend `v`.
    pub fn to_view_update_op(v: T) -> (r: Self)
        ensures
            r.view is Some && cloned(v, *r.view->0),
            r.create is None,
            r.update is Some && *r.update->0 == v,
            r.delete is None,
    {
        SettingOperations {
            view: Some(settings_wrap(v.clone())),
            create: None,
            update: Some(settings_wrap(v)),
            delete: None,
        }
    }
}

impl<T: Clone> SettingOperations<T, Unsupported, Unsupported, T> {
    /// The operations of a setting that supports view, delete alone, by the backend `v`.
    pub fn to_view_delete_op(v: T) -> (r: Self)
        ensures
            r.view is Some && cloned(v, *r.view->0),
            r.create is None,
            r.update is None,
            r.delete is Some && *r.delete->0 == v,
    {
        SettingOperations {
            view: Some(settings_wrap(v.clone())),
            create: None,
            update: None,
            delete: Some(settings_wrap(v)),
        }
    }
}

impl<T: Clone> SettingOperations<Unsupported, T, T, Unsupported> {
    /// The operations of a setting that supports create, update alone, by the backend `v`.
    pub fn to_create_update_op(v: T) -> (r: Self)
        ensures
            r.view is None,
            r.create is Some && cloned(v, *r.create->0),
            r.update is Some && *r.update->0 == v,
            r.delete is None,
    {
        SettingOperations {
            view: None,
            create: Some(settings_wrap(v.clone())),
            update: Some(settings_wrap(v)),
            delete: None,
        }
    }
}

impl<T: Clone> SettingOperations<Unsupported, T, Unsupported, T> {
    /// The operations of a setting that supports create, delete alone, by the backend `v`.
    pub fn to_create_delete_op(v: T) -> (r: Self)
        ensures
            r.view is None,
            r.create is Some && cloned(v, *r.create->0),
            r.update is None,
            r.delete is Some && *r.delete->0 == v,
    {
        SettingOperations {
            view: None,
            create: Some(settings_wrap(v.clone())),
            update: None,
            delete: Some(settings_wrap(v)),
        }
    }
}

impl<T: Clone> SettingOperations<Unsupported, Unsupported, T, T> {
    /// The operations of a setting that supports update, delete alone, by the backend `v`.
    pub fn to_update_delete_op(v: T) -> (r: Self)
        ensures
            r.view is None,
            r.create is None,
            r.update is Some && cloned(v, *r.update->0),
            r.delete is Some && *r.delete->0 == v,
    {
        SettingOperations {
            view: None,
            create: None,
            update: Some(settings_wrap(v.clone())),
            delete: Some(settings_wrap(v)),
        }
    }
}

impl<T: Clone> SettingOperations<T, T, T, Unsupported> {
    /// The operations of a setting that supports view, create, update alone, by the backend `v`.
    pub fn to_view_create_update_op(v: T) -> (r: Self)
        ensures
            r.view is Some && cloned(v, *r.view->0),
            r.create is Some && cloned(v, *r.create->0),
            r.update is Some && *r.update->0 == v,
            r.delete is None,
    {
        SettingOperations {
            view: Some(settings_wrap(v.clone())),
            create: Some(settings_wrap(v.clone())),
            update: Some(settings_wrap(v)),
            delete: None,
        }
    }
}

impl<T: Clone> SettingOperations<T, T, Unsupported, T> {
    /// The operations of a setting that supports view, create, delete alone, by the backend `v`.
    pub fn to_view_create_delete_op(v: T) -> (r: Self)
        ensures
            r.view is Some && cloned(v, *r.view->0),
            r.create is Some && cloned(v, *r.create->0),
            r.update is None,
            r.delete is Some && *r.delete->0 == v,
    {
        SettingOperations {
            view: Some(settings_wrap(v.clone())),
            create: Some(settings_wrap(v.clone())),
            update: None,
            delete: Some(settings_wrap(v)),
        }
    }
}

impl<T: Clone> SettingOperations<T, Unsupported, T, T> {
    /// The operations of a setting that supports view, update, delete alone, by the backend `v`.
    pub fn to_view_update_delete_op(v: T) -> (r: Self)
        ensures
            r.view is Some && cloned(v, *r.view->0),
            r.create is None,
            r.update is Some && cloned(v, *r.update->0),
            r.delete is Some && *r.delete->0 == v,
    {
        SettingOperations {
            view: Some(settings_wrap(v.clone())),
            create: None,
            update: Some(settings_wrap(v.clone())),
            delete: Some(settings_wrap(v)),
        }
    }
}

impl<T: Clone> SettingOperations<Unsupported, T, T, T> {
    /// The operations of a setting that supports create, update, delete alone, by the backend `v`.
    pub fn to_create_update_delete_op(v: T) -> (r: Self)
        ensures
            r.view is None,
            r.create is Some && cloned(v, *r.create->0),
            r.update is Some && cloned(v, *r.update->0),
            r.delete is Some && *r.delete->0 == v,
    {
        SettingOperations {
            view: None,
            create: Some(settings_wrap(v.clone())),
            update: Some(settings_wrap(v.clone())),
            delete: Some(settings_wrap(v)),
        }
    }
}

impl<T: Clone> SettingOperations<T, T, T, T> {
    /// The operations of a setting that supports all four operations, by the backend `v`.
    pub fn to_view_create_update_delete_op(v: T) -> (r: Self)
        ensures
            r.view is Some && cloned(v, *r.view->0),
            r.create is Some && cloned(v, *r.create->0),
            r.update is Some && cloned(v, *r.update->0),
            r.delete is Some && *r.delete->0 == v,
    {
        SettingOperations {
            view: Some(settings_wrap(v.clone())),
            create: Some(settings_wrap(v.clone())),
            update: Some(settings_wrap(v.clone())),
            delete: Some(settings_wrap(v)),
        }
    }
}

} // verus!
