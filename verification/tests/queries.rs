use event_pipeline::doc::{parse_document, Document};
use event_pipeline::executor::run_schema;
use event_pipeline::query::{run_query, Filter, Query, QueryError};
use event_pipeline::schema::schema_steps;
use event_pipeline::store::{StoreError, StoreModel};
use event_pipeline::writer::{write_events, Event, WriteError};

fn bootstrapped_store() -> StoreModel {
    let mut store = StoreModel::new();
    run_schema(&mut store, &schema_steps()).expect("bootstrap must succeed");
    store
}

fn document(pairs: &[(&str, &str)]) -> Document {
    let mut doc = Document::new();
    for (k, v) in pairs {
        doc.set_field(k.to_string(), v.to_string());
    }
    doc
}

#[test]
fn insert_then_query_round_trips_the_document() {
    let mut store = bootstrapped_store();
    let doc = document(&[("fizz", "buzz"), ("foo", "bar")]);
    let events = vec![Event { event_id: "e1".to_string(), event_data: doc }];
    let written = write_events(&mut store, &events).expect("insert must succeed");
    assert_eq!(written, 1);

    let query = Query { filter: Filter::ByKey("e1".to_string()) };
    let rows = run_query(&store, &query).expect("key query must succeed");
    assert_eq!(rows.len(), 1);
    assert_eq!(rows[0].event_id, "e1");
    let parsed = parse_document(&rows[0].event_data).expect("stored text must parse");
    assert_eq!(parsed.lookup("fizz"), Some("buzz".to_string()));
    assert_eq!(parsed.lookup("foo"), Some("bar".to_string()));
    let expected = document(&[("fizz", "buzz"), ("foo", "bar")]);
    assert!(parsed.same_content(&expected), "round trip must keep the document");
}

#[test]
fn same_key_yields_one_merged_row() {
    let mut store = bootstrapped_store();
    let events = vec![
        Event { event_id: "e1".to_string(), event_data: document(&[("v", "first")]) },
        Event { event_id: "e1".to_string(), event_data: document(&[("v", "second")]) },
    ];
    write_events(&mut store, &events).expect("insert must succeed");
    assert_eq!(store.row_count(), 2);

    let rows = run_query(&store, &Query { filter: Filter::All }).expect("query must succeed");
    let matching: Vec<_> = rows.iter().filter(|r| r.event_id == "e1").collect();
    assert_eq!(matching.len(), 1, "the merge view keeps one row per key");
    let parsed = parse_document(&matching[0].event_data).expect("stored text must parse");
    let v = parsed.lookup("v").expect("merged row must hold one of the values");
    assert!(v == "first" || v == "second");
}

#[test]
fn distinct_keys_each_keep_their_row() {
    let mut store = bootstrapped_store();
    let events = vec![
        Event { event_id: "a".to_string(), event_data: document(&[("n", "1")]) },
        Event { event_id: "b".to_string(), event_data: document(&[("n", "2")]) },
    ];
    write_events(&mut store, &events).expect("insert must succeed");
    let rows = run_query(&store, &Query { filter: Filter::All }).expect("query must succeed");
    assert_eq!(rows.len(), 2);
    assert_eq!(rows[0].event_id, "a");
    assert_eq!(rows[1].event_id, "b");
}

#[test]
fn subfield_filter_is_classified_as_unsupported() {
    let mut store = bootstrapped_store();
    let events = vec![Event {
        event_id: "e1".to_string(),
        event_data: document(&[("fizz", "buzz")]),
    }];
    write_events(&mut store, &events).expect("insert must succeed");

    let query = Query {
        filter: Filter::BySubfield("fizz".to_string(), "buzz".to_string()),
    };
    // matching data exists, so the outcome must not be a silent empty result,
    // and the failure must not be the generic category
    let err = run_query(&store, &query).expect_err("sub-field filter is unsupported");
    match err {
        QueryError::UnsupportedFilter { statement, cause } => {
            assert_eq!(
                statement,
                "SELECT event_id, event_data FROM sam_test.event_view \
                 WHERE event_data.fizz = 'buzz'"
            );
            assert_eq!(cause, StoreError::PathResolution);
        },
        QueryError::Store { .. } => panic!("must not be classified as a generic failure"),
    }
}

#[test]
fn query_without_schema_is_a_generic_store_failure() {
    let store = StoreModel::new();
    let err = run_query(&store, &Query { filter: Filter::All }).expect_err("no merge view");
    match err {
        QueryError::Store { cause, .. } => assert_eq!(cause, StoreError::MissingObject),
        QueryError::UnsupportedFilter { .. } => {
            panic!("a missing view is not the unsupported-filter case")
        },
    }
}

#[test]
fn write_without_raw_table_fails_and_changes_nothing() {
    let mut store = StoreModel::new();
    let events = vec![Event { event_id: "e1".to_string(), event_data: document(&[("a", "b")]) }];
    let err = write_events(&mut store, &events).expect_err("no raw table");
    match err {
        WriteError::Store { cause } => assert_eq!(cause, StoreError::MissingObject),
        WriteError::Serialization { .. } => panic!("the document is well-formed"),
    }
    assert_eq!(store.row_count(), 0);
}

#[test]
fn malformed_document_is_a_local_serialization_error() {
    let mut store = bootstrapped_store();
    let events = vec![
        Event { event_id: "ok".to_string(), event_data: document(&[("a", "b")]) },
        Event { event_id: "bad".to_string(), event_data: document(&[("a", "b\nc")]) },
    ];
    let err = write_events(&mut store, &events).expect_err("control character");
    match err {
        WriteError::Serialization { index } => assert_eq!(index, 1),
        WriteError::Store { .. } => panic!("nothing was sent to the store"),
    }
    assert_eq!(store.row_count(), 0, "the write is all or nothing");
}

#[test]
fn query_text_matches_the_projection() {
    let all = Query { filter: Filter::All };
    assert_eq!(all.to_sql(), "SELECT event_id, event_data FROM sam_test.event_view");
    let by_key = Query { filter: Filter::ByKey("e1".to_string()) };
    assert_eq!(
        by_key.to_sql(),
        "SELECT event_id, event_data FROM sam_test.event_view WHERE event_id = 'e1'"
    );
    let by_subfield = Query {
        filter: Filter::BySubfield("fizz".to_string(), "buzz".to_string()),
    };
    assert!(by_subfield.filters_on_subfield());
    assert!(!all.filters_on_subfield());
}
