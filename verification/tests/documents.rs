use event_pipeline::doc::{parse_document, Document};

fn sample_document() -> Document {
    let mut doc = Document::new();
    doc.set_field("fizz".to_string(), "buzz".to_string());
    doc.set_field("foo".to_string(), "bar".to_string());
    doc
}

#[test]
fn encodes_exact_json_text() {
    let doc = sample_document();
    let text = doc.to_json().expect("plain text must encode");
    assert_eq!(text, "{\"fizz\":\"buzz\",\"foo\":\"bar\"}");
}

#[test]
fn encoded_text_is_real_json() {
    let doc = sample_document();
    let text = doc.to_json().expect("plain text must encode");
    let value: serde_json::Value = serde_json::from_str(&text).expect("must parse as JSON");
    assert_eq!(value["fizz"], serde_json::Value::String("buzz".to_string()));
    assert_eq!(value["foo"], serde_json::Value::String("bar".to_string()));
}

#[test]
fn escapes_quotes_and_backslashes() {
    let mut doc = Document::new();
    doc.set_field("say".to_string(), "a \"quoted\" \\ value".to_string());
    let text = doc.to_json().expect("escapable text must encode");
    assert_eq!(text, "{\"say\":\"a \\\"quoted\\\" \\\\ value\"}");
    let value: serde_json::Value = serde_json::from_str(&text).expect("must parse as JSON");
    assert_eq!(
        value["say"],
        serde_json::Value::String("a \"quoted\" \\ value".to_string())
    );
}

#[test]
fn control_characters_cannot_be_encoded() {
    let mut doc = Document::new();
    doc.set_field("text".to_string(), "line one\nline two".to_string());
    assert!(doc.to_json().is_none());
    let mut doc = Document::new();
    doc.set_field("bad\tkey".to_string(), "value".to_string());
    assert!(doc.to_json().is_none());
}

#[test]
fn parse_undoes_encode() {
    let doc = sample_document();
    let text = doc.to_json().expect("plain text must encode");
    let parsed = parse_document(&text).expect("own encoding must parse");
    assert_eq!(parsed.len(), doc.len());
    assert_eq!(parsed.lookup("fizz"), Some("buzz".to_string()));
    assert_eq!(parsed.lookup("foo"), Some("bar".to_string()));
    assert_eq!(parsed.lookup("missing"), None);
}

#[test]
fn parse_undoes_encode_with_escapes() {
    let mut doc = Document::new();
    doc.set_field("k".to_string(), "\\\"".to_string());
    let text = doc.to_json().expect("escapable text must encode");
    let parsed = parse_document(&text).expect("own encoding must parse");
    assert_eq!(parsed.lookup("k"), Some("\\\"".to_string()));
}

#[test]
fn parse_rejects_malformed_text() {
    assert!(parse_document("").is_none());
    assert!(parse_document("not json").is_none());
    assert!(parse_document("{\"a\":\"b\"").is_none());
    assert!(parse_document("{\"a\":\"b\"}x").is_none());
    assert!(parse_document("{a:\"b\"}").is_none());
}

#[test]
fn parse_accepts_empty_document() {
    let doc = Document::new();
    let text = doc.to_json().expect("empty document must encode");
    assert_eq!(text, "{}");
    let parsed = parse_document(&text).expect("empty document must parse");
    assert_eq!(parsed.len(), 0);
}

#[test]
fn entries_keep_insertion_order() {
    let doc = sample_document();
    assert_eq!(doc.len(), 2);
    assert_eq!(doc.key_at(0), "fizz");
    assert_eq!(doc.value_at(0), "buzz");
    assert_eq!(doc.key_at(1), "foo");
    assert_eq!(doc.value_at(1), "bar");
}

#[test]
fn same_content_ignores_key_order() {
    let mut forward = Document::new();
    forward.set_field("a".to_string(), "1".to_string());
    forward.set_field("b".to_string(), "2".to_string());
    let mut backward = Document::new();
    backward.set_field("b".to_string(), "2".to_string());
    backward.set_field("a".to_string(), "1".to_string());
    assert!(forward.same_content(&backward));
    assert!(backward.same_content(&forward));
}

#[test]
fn same_content_sees_differences() {
    let mut left = Document::new();
    left.set_field("a".to_string(), "1".to_string());
    let mut right = Document::new();
    right.set_field("a".to_string(), "2".to_string());
    assert!(!left.same_content(&right));
    let mut wider = Document::new();
    wider.set_field("a".to_string(), "1".to_string());
    wider.set_field("b".to_string(), "2".to_string());
    assert!(!left.same_content(&wider));
    assert!(left.contains_pair("a", "1"));
    assert!(!left.contains_pair("a", "2"));
}

#[test]
fn set_field_replaces_existing_key() {
    let mut doc = Document::new();
    doc.set_field("k".to_string(), "first".to_string());
    doc.set_field("k".to_string(), "second".to_string());
    assert_eq!(doc.len(), 1);
    assert_eq!(doc.lookup("k"), Some("second".to_string()));
}
