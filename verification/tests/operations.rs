use ar_settings::common_columns::{created_at, created_by, guild_id, last_updated_at, last_updated_by};
use ar_settings::error::{Check, SettingsError, TypeName};
use ar_settings::operations::{
    finish_view, prepare_delete, prepare_write, settings_create, settings_delete,
    settings_update, settings_view, view_row, view_rows,
};
use ar_settings::types::{
    check_schema, settings_wrap, Column, ColumnSuggestion, ColumnType, InnerColumnType, OperationType, Setting,
    SettingCreator, SettingDeleter, SettingOperations, SettingUpdater, SettingView, Unsupported,
};
use ar_settings::value::{Value, ValueMap};
use std::sync::{Arc, Mutex};

fn text(s: &str) -> Value {
    Value::String(s.to_string())
}

fn column(id: &str, inner: InnerColumnType) -> Column {
    Column {
        id: id.to_string(),
        name: id.to_uppercase(),
        description: format!("The {} column", id),
        column_type: ColumnType::new_scalar(inner),
        primary_key: false,
        nullable: false,
        suggestions: ColumnSuggestion::Nothing {},
        secret: false,
        ignored_for: vec![],
    }
}

fn string_inner() -> InnerColumnType {
    InnerColumnType::String {
        min_length: None,
        max_length: None,
        allowed_values: vec![],
        kind: "normal".to_string(),
    }
}

fn map(entries: Vec<(&str, Value)>) -> ValueMap {
    let mut m = ValueMap::new();
    for (k, v) in entries {
        m.insert(k.to_string(), v);
    }
    m
}

fn entries(m: &ValueMap) -> Vec<(String, Value)> {
    let mut out = Vec::new();
    let mut i = 0;
    while let Some((k, v)) = m.get_index(i) {
        out.push((k.clone(), v.clone()));
        i += 1;
    }
    out
}

fn pairs(expected: Vec<(&str, Value)>) -> Vec<(String, Value)> {
    expected.into_iter().map(|(k, v)| (k.to_string(), v)).collect()
}

/// id (ignored for create, required), name (required string), count
/// (nullable integer).
fn example_columns() -> Vec<Column> {
    let mut id = column("id", InnerColumnType::Integer {});
    id.ignored_for = vec![OperationType::Create];
    id.primary_key = true;
    let name = column("name", string_inner());
    let mut count = column("count", InnerColumnType::Integer {});
    count.nullable = true;
    vec![id, name, count]
}

/// A backend that records what it is handed and answers with what it was
/// told to.
#[derive(Clone)]
struct Recorder {
    seen: Arc<Mutex<Vec<Vec<(String, Value)>>>>,
    rows: Vec<Vec<(String, Value)>>,
    fail: Option<SettingsError>,
}

impl Recorder {
    fn new() -> Self {
        Recorder { seen: Arc::new(Mutex::new(Vec::new())), rows: Vec::new(), fail: None }
    }

    fn seen(&self) -> Vec<Vec<(String, Value)>> {
        self.seen.lock().unwrap().clone()
    }

    fn row(entries: &[(String, Value)]) -> ValueMap {
        let mut m = ValueMap::new();
        for (k, v) in entries {
            m.insert(k.clone(), v.clone());
        }
        m
    }
}

impl SettingView<u32> for Recorder {
    fn view(&self, _context: &u32, filters: ValueMap) -> Result<Vec<ValueMap>, SettingsError> {
        self.seen.lock().unwrap().push(entries(&filters));
        match &self.fail {
            Some(e) => Err(e.clone()),
            None => Ok(self.rows.iter().map(|r| Recorder::row(r)).collect()),
        }
    }
}

impl SettingCreator<u32> for Recorder {
    fn create(&self, context: &u32, state: ValueMap) -> Result<ValueMap, SettingsError> {
        self.seen.lock().unwrap().push(entries(&state));
        match &self.fail {
            Some(e) => Err(e.clone()),
            None => {
                let mut state = state;
                state.insert("id".to_string(), Value::Integer(*context as i64));
                Ok(state)
            }
        }
    }
}

impl SettingUpdater<u32> for Recorder {
    fn update(&self, _context: &u32, state: ValueMap) -> Result<ValueMap, SettingsError> {
        self.seen.lock().unwrap().push(entries(&state));
        match &self.fail {
            Some(e) => Err(e.clone()),
            None => Ok(state),
        }
    }
}

impl SettingDeleter<u32> for Recorder {
    fn delete(&self, _context: &u32, state: ValueMap) -> Result<(), SettingsError> {
        self.seen.lock().unwrap().push(entries(&state));
        match &self.fail {
            Some(e) => Err(e.clone()),
            None => Ok(()),
        }
    }
}

fn setting<V, C, U, D>(columns: Vec<Column>, operations: SettingOperations<V, C, U, D>) -> Setting<V, C, U, D> {
    Setting {
        id: "things".to_string(),
        name: "Things".to_string(),
        description: "All the things".to_string(),
        title_template: "{name}".to_string(),
        columns: settings_wrap(columns),
        operations,
    }
}

#[test]
fn create_end_to_end() {
    let backend = Recorder::new();
    let s = setting(example_columns(), SettingOperations::from(backend.clone()));
    let created = settings_create(&s, &7, map(vec![("name", text("x"))])).unwrap();
    assert_eq!(
        backend.seen(),
        vec![pairs(vec![("name", text("x")), ("count", Value::Null)])]
    );
    assert_eq!(
        entries(&created),
        pairs(vec![("name", text("x")), ("count", Value::Null), ("id", Value::Integer(7))])
    );
}

#[test]
fn create_missing_required_field() {
    let backend = Recorder::new();
    let s = setting(example_columns(), SettingOperations::from(backend.clone()));
    assert_eq!(
        settings_create(&s, &7, map(vec![("count", Value::Integer(1))])),
        Err(SettingsError::MissingOrInvalidField { field: "name".to_string() })
    );
    assert_eq!(
        settings_create(&s, &7, map(vec![("name", Value::Null), ("count", Value::Integer(1))])),
        Err(SettingsError::MissingOrInvalidField { field: "name".to_string() })
    );
    assert!(backend.seen().is_empty());
}

#[test]
fn create_omits_ignored_columns() {
    let columns = example_columns();
    // The ignored field is neither required ...
    let state = prepare_write(&columns, map(vec![("name", text("x"))]), OperationType::Create).unwrap();
    assert!(!state.contains_key("id"));
    // ... nor validated, nor handed on.
    let state = prepare_write(
        &columns,
        map(vec![("id", text("not an integer")), ("name", text("x")), ("count", text("3"))]),
        OperationType::Create,
    )
    .unwrap();
    // Taking the ignored field out moved the last field into its place.
    assert_eq!(entries(&state), pairs(vec![("count", Value::Integer(3)), ("name", text("x"))]));
    // For an update the same column is asked for.
    let r = prepare_write(
        &columns,
        map(vec![("id", text("not an integer")), ("name", text("x"))]),
        OperationType::Update,
    );
    assert!(matches!(
        r,
        Err(SettingsError::SchemaCheckValidationError { check: Check::IntegerSyntax, .. })
    ));
}

#[test]
fn create_coerces_fields_and_keeps_extra_ones() {
    let columns = example_columns();
    let state = prepare_write(
        &columns,
        map(vec![("extra", Value::Boolean(true)), ("count", text("12")), ("name", text("n"))]),
        OperationType::Create,
    )
    .unwrap();
    assert_eq!(
        entries(&state),
        pairs(vec![("extra", Value::Boolean(true)), ("name", text("n")), ("count", Value::Integer(12))])
    );
}

#[test]
fn create_reports_the_first_failing_column() {
    let columns = example_columns();
    let r = prepare_write(
        &columns,
        map(vec![("count", text("many")), ("name", Value::Integer(1))]),
        OperationType::Create,
    );
    assert_eq!(
        r,
        Err(SettingsError::SchemaTypeValidationError {
            column: "name".to_string(),
            expected_type: TypeName::String,
            got_type: TypeName::Integer,
        })
    );
}

#[test]
fn create_standard_columns_are_left_to_the_backend() {
    let mut columns = example_columns();
    columns.push(created_at());
    columns.push(created_by());
    columns.push(last_updated_at());
    columns.push(last_updated_by());
    columns.push(guild_id("guild_id", "Guild ID", "The guild of the row"));
    for operation in [OperationType::Create, OperationType::Update] {
        let mut fields = map(vec![("name", text("x")), ("created_by", text("someone"))]);
        if operation == OperationType::Update {
            fields.insert("id".to_string(), Value::Integer(1));
        }
        let state = prepare_write(&columns, fields, operation).unwrap();
        for id in ["created_at", "created_by", "last_updated_at", "last_updated_by", "guild_id"] {
            assert!(!state.contains_key(id));
        }
        assert!(state.contains_key("name"));
    }
}

#[test]
fn standard_columns() {
    let c = created_at();
    assert_eq!(c.id, "created_at");
    assert_eq!(c.name, "Created At");
    assert_eq!(c.description, "The time the record was created.");
    assert_eq!(
        c.column_type,
        ColumnType::Scalar {
            inner: InnerColumnType::String {
                min_length: None,
                max_length: None,
                allowed_values: vec![],
                kind: "timestamp".to_string(),
            }
        }
    );
    assert!(!c.nullable && !c.secret && !c.primary_key);
    assert_eq!(c.ignored_for, vec![OperationType::Create, OperationType::Update]);
    assert_eq!(c.suggestions, ColumnSuggestion::Nothing {});
    let c = created_by();
    assert_eq!((c.id.as_str(), c.name.as_str()), ("created_by", "Created By"));
    assert_eq!(c.column_type, ColumnType::new_scalar(InnerColumnType::String {
        min_length: None, max_length: None, allowed_values: vec![], kind: "user".to_string() }));
    let c = last_updated_at();
    assert_eq!((c.id.as_str(), c.name.as_str()), ("last_updated_at", "Last Updated At"));
    assert_eq!(c.description, "The time the record was last updated.");
    let c = last_updated_by();
    assert_eq!((c.id.as_str(), c.name.as_str()), ("last_updated_by", "Last Updated By"));
    assert_eq!(c.description, "The user who last updated the record.");
    let c = guild_id("gid", "Guild", "Which guild");
    assert_eq!((c.id.as_str(), c.name.as_str(), c.description.as_str()), ("gid", "Guild", "Which guild"));
    assert_eq!(c.column_type, ColumnType::new_scalar(InnerColumnType::String {
        min_length: None, max_length: None, allowed_values: vec![], kind: "guild_id".to_string() }));
    assert_eq!(c.ignored_for, vec![OperationType::Create, OperationType::Update]);
}

#[test]
fn update_end_to_end() {
    let backend = Recorder::new();
    let s = setting(example_columns(), SettingOperations::to_view_update_op(backend.clone()));
    let fields = map(vec![("id", text("5")), ("name", text("x")), ("count", Value::Integer(2))]);
    let updated = settings_update(&s, &1, fields).unwrap();
    let want = pairs(vec![("name", text("x")), ("id", Value::Integer(5)), ("count", Value::Integer(2))]);
    assert_eq!(backend.seen(), vec![want.clone()]);
    assert_eq!(entries(&updated), want);
    assert_eq!(
        settings_update(&s, &1, map(vec![("name", text("x"))])),
        Err(SettingsError::MissingOrInvalidField { field: "id".to_string() })
    );
}

#[test]
fn unsupported_operations() {
    let backend = Recorder::new();
    let s = setting(example_columns(), SettingOperations::to_view_op(backend.clone()));
    assert_eq!(
        settings_create(&s, &1, map(vec![("name", text("x"))])),
        Err(SettingsError::OperationNotSupported { operation: OperationType::Create })
    );
    assert_eq!(
        settings_update(&s, &1, map(vec![("name", text("x"))])),
        Err(SettingsError::OperationNotSupported { operation: OperationType::Update })
    );
    assert_eq!(
        settings_delete(&s, &1, map(vec![("id", Value::Integer(1))])),
        Err(SettingsError::OperationNotSupported { operation: OperationType::Delete })
    );
    assert!(settings_view(&s, &1, ValueMap::new()).is_ok());
    let s = setting(example_columns(), SettingOperations::to_create_op(backend.clone()));
    assert_eq!(
        settings_view(&s, &1, ValueMap::new()),
        Err(SettingsError::OperationNotSupported { operation: OperationType::View })
    );
    assert!(backend.seen().len() == 1);
}

#[test]
fn the_placeholder_backend_supports_nothing() {
    let u = Unsupported;
    assert_eq!(
        SettingView::<u32>::view(&u, &1, ValueMap::new()),
        Err(SettingsError::OperationNotSupported { operation: OperationType::View })
    );
    assert_eq!(
        SettingCreator::<u32>::create(&u, &1, ValueMap::new()),
        Err(SettingsError::OperationNotSupported { operation: OperationType::Create })
    );
    assert_eq!(
        SettingUpdater::<u32>::update(&u, &1, ValueMap::new()),
        Err(SettingsError::OperationNotSupported { operation: OperationType::Update })
    );
    assert_eq!(
        SettingDeleter::<u32>::delete(&u, &1, ValueMap::new()),
        Err(SettingsError::OperationNotSupported { operation: OperationType::Delete })
    );
}

#[test]
fn operations_constructors() {
    let b = Recorder::new();
    let o = SettingOperations::to_view_op(b.clone());
    assert_eq!(o.supported(), vec![OperationType::View]);
    let o = SettingOperations::to_create_op(b.clone());
    assert_eq!(o.supported(), vec![OperationType::Create]);
    let o = SettingOperations::to_update_op(b.clone());
    assert_eq!(o.supported(), vec![OperationType::Update]);
    let o = SettingOperations::to_delete_op(b.clone());
    assert_eq!(o.supported(), vec![OperationType::Delete]);
    let o = SettingOperations::to_view_create_op(b.clone());
    assert_eq!(o.supported(), vec![OperationType::View, OperationType::Create]);
    let o = SettingOperations::to_view_update_op(b.clone());
    assert_eq!(o.supported(), vec![OperationType::View, OperationType::Update]);
    let o = SettingOperations::to_view_delete_op(b.clone());
    assert_eq!(o.supported(), vec![OperationType::View, OperationType::Delete]);
    let o = SettingOperations::to_create_update_op(b.clone());
    assert_eq!(o.supported(), vec![OperationType::Create, OperationType::Update]);
    let o = SettingOperations::to_create_delete_op(b.clone());
    assert_eq!(o.supported(), vec![OperationType::Create, OperationType::Delete]);
    let o = SettingOperations::to_update_delete_op(b.clone());
    assert_eq!(o.supported(), vec![OperationType::Update, OperationType::Delete]);
    let o = SettingOperations::to_view_create_update_op(b.clone());
    assert_eq!(o.supported(), vec![OperationType::View, OperationType::Create, OperationType::Update]);
    let o = SettingOperations::to_view_create_delete_op(b.clone());
    assert_eq!(o.supported(), vec![OperationType::View, OperationType::Create, OperationType::Delete]);
    let o = SettingOperations::to_view_update_delete_op(b.clone());
    assert_eq!(o.supported(), vec![OperationType::View, OperationType::Update, OperationType::Delete]);
    let o = SettingOperations::to_create_update_delete_op(b.clone());
    assert_eq!(o.supported(), vec![OperationType::Create, OperationType::Update, OperationType::Delete]);
    let all = vec![OperationType::View, OperationType::Create, OperationType::Update, OperationType::Delete];
    let o = SettingOperations::to_view_create_update_delete_op(b.clone());
    assert_eq!(o.supported(), all);
    let o = SettingOperations::from(b);
    assert_eq!(o.supported(), all);
    assert_eq!(*settings_wrap(5u8), 5u8);
}

#[test]
fn backend_errors_are_passed_on() {
    let mut backend = Recorder::new();
    backend.fail = Some(SettingsError::RowExists { column_id: "name".to_string(), count: 1 });
    let s = setting(example_columns(), SettingOperations::from(backend.clone()));
    assert_eq!(
        settings_create(&s, &1, map(vec![("name", text("x"))])),
        Err(SettingsError::RowExists { column_id: "name".to_string(), count: 1 })
    );
    assert_eq!(
        settings_view(&s, &1, ValueMap::new()),
        Err(SettingsError::RowExists { column_id: "name".to_string(), count: 1 })
    );
    assert_eq!(
        settings_delete(&s, &1, map(vec![("id", Value::Integer(1))])),
        Err(SettingsError::RowExists { column_id: "name".to_string(), count: 1 })
    );
}

#[test]
fn a_backend_may_refuse_a_row() {
    let mut backend = Recorder::new();
    backend.fail = Some(SettingsError::MaximumCountReached { max: 3, current: 3 });
    let s = setting(example_columns(), SettingOperations::to_create_update_op(backend.clone()));
    assert_eq!(
        settings_create(&s, &1, map(vec![("name", text("x"))])),
        Err(SettingsError::MaximumCountReached { max: 3, current: 3 })
    );
    assert_eq!(
        settings_update(&s, &1, map(vec![("name", text("x")), ("id", Value::Integer(1))])),
        Err(SettingsError::MaximumCountReached { max: 3, current: 3 })
    );
    assert_eq!(backend.seen().len(), 2);
}

#[test]
fn view_strips_secret_columns() {
    let mut columns = example_columns();
    let mut secret = column("secret", string_inner());
    secret.secret = true;
    columns.insert(1, secret);
    let mut hidden = column("hidden", InnerColumnType::Boolean {});
    hidden.ignored_for = vec![OperationType::View];
    columns.push(hidden);
    for secret_value in [text("s3cr3t"), text(""), text("other")] {
        let row = map(vec![
            ("name", text("x")),
            ("secret", secret_value),
            ("hidden", text("true")),
            ("id", text("4")),
            ("count", Value::Null),
        ]);
        let shown = view_row(&columns, row).unwrap();
        assert!(!shown.contains_key("secret"));
        assert!(!shown.contains_key("hidden"));
        assert_eq!(shown.get("id"), Some(&Value::Integer(4)));
        assert_eq!(shown.get("name"), Some(&text("x")));
        assert_eq!(shown.get("count"), Some(&Value::Null));
        assert_eq!(shown.len(), 3);
    }
}

#[test]
fn view_validates_secret_columns_before_it_strips_them() {
    let mut columns = example_columns();
    let mut secret = column("secret", string_inner());
    secret.secret = true;
    columns.push(secret);
    let row = map(vec![("id", Value::Integer(1)), ("name", text("x"))]);
    assert_eq!(
        view_row(&columns, row),
        Err(SettingsError::SchemaNullValueValidationError { column: "secret".to_string() })
    );
}

#[test]
fn view_end_to_end() {
    let mut backend = Recorder::new();
    backend.rows = vec![
        pairs(vec![("count", text("2")), ("name", text("a")), ("id", Value::Integer(1))]),
        pairs(vec![("id", text("2")), ("name", text("b"))]),
    ];
    let s = setting(example_columns(), SettingOperations::to_view_op(backend.clone()));
    let rows = settings_view(&s, &1, map(vec![("name", text("a"))])).unwrap();
    assert_eq!(backend.seen(), vec![pairs(vec![("name", text("a"))])]);
    assert_eq!(rows.len(), 2);
    assert_eq!(
        entries(&rows[0]),
        pairs(vec![("name", text("a")), ("id", Value::Integer(1)), ("count", Value::Integer(2))])
    );
    assert_eq!(
        entries(&rows[1]),
        pairs(vec![("id", Value::Integer(2)), ("name", text("b")), ("count", Value::Null)])
    );
}

#[test]
fn view_fails_on_the_first_bad_row() {
    let columns = example_columns();
    let rows = vec![
        map(vec![("id", Value::Integer(1)), ("name", text("a"))]),
        map(vec![("id", Value::Integer(2))]),
        map(vec![("id", text("x")), ("name", text("c"))]),
    ];
    assert_eq!(
        view_rows(&columns, rows),
        Err(SettingsError::SchemaNullValueValidationError { column: "name".to_string() })
    );
    assert_eq!(finish_view(&columns, Ok(vec![])), Ok(vec![]));
    assert_eq!(
        finish_view(&columns, Err(SettingsError::RowDoesNotExist { column_id: "id".to_string() })),
        Err(SettingsError::RowDoesNotExist { column_id: "id".to_string() })
    );
}

#[test]
fn view_moves_the_last_field_into_the_place_of_a_validated_one() {
    let columns = vec![column("a", InnerColumnType::Integer {})];
    let row = map(vec![("a", text("1")), ("x", Value::Integer(8)), ("y", Value::Integer(9))]);
    let shown = view_row(&columns, row).unwrap();
    assert_eq!(
        entries(&shown),
        pairs(vec![("y", Value::Integer(9)), ("x", Value::Integer(8)), ("a", Value::Integer(1))])
    );
}

#[test]
fn delete_end_to_end() {
    let backend = Recorder::new();
    let s = setting(example_columns(), SettingOperations::from(backend.clone()));
    assert_eq!(
        settings_delete(&s, &1, map(vec![("name", text("x")), ("id", text("9"))])),
        Ok(())
    );
    assert_eq!(backend.seen(), vec![pairs(vec![("id", Value::Integer(9))])]);
}

#[test]
fn delete_needs_every_key_field() {
    let mut columns = example_columns();
    let mut second = column("region", string_inner());
    second.primary_key = true;
    columns.push(second);
    let mut skipped = column("shard", InnerColumnType::Integer {});
    skipped.primary_key = true;
    skipped.ignored_for = vec![OperationType::Delete];
    columns.push(skipped);
    assert_eq!(
        prepare_delete(&columns, map(vec![("id", Value::Integer(1))])),
        Err(SettingsError::MissingOrInvalidField { field: "region".to_string() })
    );
    assert_eq!(
        prepare_delete(&columns, map(vec![("region", text("eu"))])),
        Err(SettingsError::MissingOrInvalidField { field: "id".to_string() })
    );
    let key = prepare_delete(
        &columns,
        map(vec![("region", text("eu")), ("id", text("3")), ("name", text("n"))]),
    )
    .unwrap();
    assert_eq!(entries(&key), pairs(vec![("id", Value::Integer(3)), ("region", text("eu"))]));
    assert_eq!(
        prepare_delete(&columns, map(vec![("region", text("eu")), ("id", Value::Null)])),
        Err(SettingsError::SchemaNullValueValidationError { column: "id".to_string() })
    );
    assert!(matches!(
        prepare_delete(&columns, map(vec![("region", text("eu")), ("id", text("x"))])),
        Err(SettingsError::SchemaCheckValidationError { check: Check::IntegerSyntax, .. })
    ));
}

#[test]
fn schemas() {
    assert!(check_schema(&example_columns()));
    assert!(!check_schema(&vec![]));
    let mut no_key = example_columns();
    no_key[0].primary_key = false;
    assert!(!check_schema(&no_key));
    let mut twice = example_columns();
    twice.push(column("name", InnerColumnType::Boolean {}));
    assert!(!check_schema(&twice));
    let mut two_keys = example_columns();
    two_keys[1].primary_key = true;
    assert!(check_schema(&two_keys));
    let s = setting(example_columns(), SettingOperations::to_view_op(Recorder::new()));
    assert!(s.is_well_formed());
    let s = setting(twice, SettingOperations::to_view_op(Recorder::new()));
    assert!(!s.is_well_formed());
}

#[test]
fn columns_and_settings_are_compared_by_id() {
    let a = column("same", string_inner());
    let mut b = column("same", InnerColumnType::Integer {});
    b.nullable = true;
    assert!(a == b);
    assert!(a != column("other", string_inner()));
    let s1 = setting(vec![], SettingOperations::to_view_op(Recorder::new()));
    let mut s2 = setting(example_columns(), SettingOperations::to_view_op(Recorder::new()));
    assert!(s1 == s2);
    s2.id = "else".to_string();
    assert!(s1 != s2);
    assert!(a.is_ignored_for(OperationType::View) == false);
    let mut c = column("c", string_inner());
    c.ignored_for = vec![OperationType::Update, OperationType::Delete];
    assert!(c.is_ignored_for(OperationType::Delete) && !c.is_ignored_for(OperationType::Create));
}
