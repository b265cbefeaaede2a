use event_pipeline::doc::Document;
use event_pipeline::executor::run_schema;
use event_pipeline::schema::{schema_script, schema_steps, SchemaStep};
use event_pipeline::split::split_statements;
use event_pipeline::store::{SchemaObject, SchemaOp, StoreError, StoreModel};
use event_pipeline::writer::{write_events, Event};

fn all_objects() -> Vec<SchemaObject> {
    vec![
        SchemaObject::Database,
        SchemaObject::RawTable,
        SchemaObject::AggregateTable,
        SchemaObject::FoldingView,
        SchemaObject::MergeView,
    ]
}

#[test]
fn bootstrap_succeeds_on_fresh_store() {
    let mut store = StoreModel::new();
    let steps = schema_steps();
    assert_eq!(steps.len(), 9);
    let outcome = run_schema(&mut store, &steps);
    assert!(outcome.is_ok());
    for obj in all_objects() {
        assert!(store.has_object(obj));
    }
    assert_eq!(store.row_count(), 0);
    assert_eq!(store.issued_count(), 9);
}

#[test]
fn bootstrap_issues_operations_in_script_order() {
    let mut store = StoreModel::new();
    let steps = schema_steps();
    run_schema(&mut store, &steps).expect("bootstrap must succeed");
    for (i, step) in steps.iter().enumerate() {
        assert_eq!(store.issued_op(i), step.op);
    }
}

#[test]
fn bootstrap_twice_is_idempotent() {
    let mut store = StoreModel::new();
    let steps = schema_steps();
    run_schema(&mut store, &steps).expect("first bootstrap must succeed");
    let first: Vec<bool> = all_objects().iter().map(|o| store.has_object(*o)).collect();
    let outcome = run_schema(&mut store, &steps);
    assert!(outcome.is_ok(), "second bootstrap must succeed too");
    let second: Vec<bool> = all_objects().iter().map(|o| store.has_object(*o)).collect();
    assert_eq!(first, second);
    assert_eq!(store.row_count(), 0);
    assert_eq!(store.issued_count(), 18);
}

#[test]
fn executor_stops_at_first_failure() {
    let mut store = StoreModel::new();
    let steps = vec![
        SchemaStep {
            op: SchemaOp::CreateIfNotExists(SchemaObject::Database),
            sql: "CREATE DATABASE IF NOT EXISTS sam_test".to_string(),
        },
        SchemaStep {
            op: SchemaOp::Create(SchemaObject::RawTable),
            sql: "CREATE TABLE sam_test.event_insert_table".to_string(),
        },
        SchemaStep {
            op: SchemaOp::Create(SchemaObject::RawTable),
            sql: "CREATE TABLE sam_test.event_insert_table".to_string(),
        },
        SchemaStep {
            op: SchemaOp::Create(SchemaObject::AggregateTable),
            sql: "CREATE TABLE sam_test.event_agg_table".to_string(),
        },
    ];
    let err = run_schema(&mut store, &steps).expect_err("duplicate create must fail");
    assert_eq!(err.index, 2);
    assert_eq!(err.statement, "CREATE TABLE sam_test.event_insert_table");
    assert_eq!(err.cause, StoreError::ObjectExists);
    // the failing statement was issued; nothing after it was
    assert_eq!(store.issued_count(), 3);
    assert!(!store.has_object(SchemaObject::AggregateTable));
}

#[test]
fn create_without_database_is_refused() {
    let mut store = StoreModel::new();
    let steps = vec![SchemaStep {
        op: SchemaOp::Create(SchemaObject::RawTable),
        sql: "CREATE TABLE sam_test.event_insert_table".to_string(),
    }];
    let err = run_schema(&mut store, &steps).expect_err("missing database must fail");
    assert_eq!(err.index, 0);
    assert_eq!(err.cause, StoreError::MissingObject);
}

#[test]
fn schema_script_splits_back_into_its_statements() {
    let script = schema_script();
    let statements = split_statements(&script);
    let steps = schema_steps();
    assert_eq!(statements.len(), steps.len());
    for (got, step) in statements.iter().zip(steps.iter()) {
        assert_eq!(got, &step.sql);
    }
}

#[test]
fn bootstrap_clears_existing_rows() {
    let mut store = StoreModel::new();
    let steps = schema_steps();
    run_schema(&mut store, &steps).expect("bootstrap must succeed");
    let mut doc = Document::new();
    doc.set_field("fizz".to_string(), "buzz".to_string());
    let events = vec![Event { event_id: "e1".to_string(), event_data: doc }];
    write_events(&mut store, &events).expect("insert must succeed");
    assert_eq!(store.row_count(), 1);
    run_schema(&mut store, &steps).expect("second bootstrap must succeed");
    assert_eq!(store.row_count(), 0);
}
