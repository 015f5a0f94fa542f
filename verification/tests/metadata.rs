use akuna_core::index::{Metadata, MetadataFilter, MetadataValue};
use akuna_core::metadata::float_bits_equal;

fn text(value: &str) -> MetadataValue {
    MetadataValue::Text(value.to_string())
}

fn metadata(values: Vec<(&str, MetadataValue)>) -> Metadata {
    let mut metadata = Metadata::new();
    for (key, value) in values {
        metadata.insert(key.to_string(), value);
    }
    metadata
}

#[test]
fn equals_filter_matches_same_text() {
    let metadata = metadata(vec![("kind", text("note"))]);
    let filter = MetadataFilter::Equals { key: "kind".to_string(), value: text("note") };
    assert!(filter.matches(&metadata));
}

#[test]
fn equals_filter_rejects_other_text_and_missing_key() {
    let metadata = metadata(vec![("color", text("red"))]);
    let other = MetadataFilter::Equals { key: "color".to_string(), value: text("blue") };
    let missing = MetadataFilter::Equals { key: "size".to_string(), value: text("red") };
    assert!(!other.matches(&metadata));
    assert!(!missing.matches(&metadata));
}

#[test]
fn equals_filter_compares_kinds() {
    let metadata = metadata(vec![("n", MetadataValue::Integer(7))]);
    let as_text = MetadataFilter::Equals { key: "n".to_string(), value: text("7") };
    let as_integer = MetadataFilter::Equals { key: "n".to_string(), value: MetadataValue::Integer(7) };
    assert!(!as_text.matches(&metadata));
    assert!(as_integer.matches(&metadata));
}

#[test]
fn all_filter_needs_every_predicate() {
    let metadata = metadata(vec![
        ("text", text("value")),
        ("integer", MetadataValue::Integer(7)),
        ("float", MetadataValue::Float(1.5f64.to_bits())),
        ("boolean", MetadataValue::Boolean(true)),
    ]);
    let every = MetadataFilter::All(vec![
        MetadataFilter::Equals { key: "text".to_string(), value: text("value") },
        MetadataFilter::Equals { key: "integer".to_string(), value: MetadataValue::Integer(7) },
        MetadataFilter::Equals {
            key: "float".to_string(),
            value: MetadataValue::Float(1.5f64.to_bits()),
        },
        MetadataFilter::Equals { key: "boolean".to_string(), value: MetadataValue::Boolean(true) },
    ]);
    let one_wrong = MetadataFilter::All(vec![
        MetadataFilter::Equals { key: "text".to_string(), value: text("value") },
        MetadataFilter::Equals { key: "boolean".to_string(), value: MetadataValue::Boolean(false) },
    ]);
    assert!(every.matches(&metadata));
    assert!(!one_wrong.matches(&metadata));
}

#[test]
fn empty_all_filter_matches_anything() {
    assert!(MetadataFilter::All(Vec::new()).matches(&Metadata::new()));
}

#[test]
fn nested_all_filters() {
    let metadata = metadata(vec![("a", text("x")), ("b", text("y"))]);
    let nested = MetadataFilter::All(vec![
        MetadataFilter::All(vec![MetadataFilter::Equals { key: "a".to_string(), value: text("x") }]),
        MetadataFilter::Equals { key: "b".to_string(), value: text("y") },
    ]);
    assert!(nested.matches(&metadata));
}

#[test]
fn float_values_compare_as_f64() {
    let nan = f64::NAN.to_bits();
    assert!(!float_bits_equal(nan, nan));
    assert!(float_bits_equal(0.0f64.to_bits(), (-0.0f64).to_bits()));
    assert!(float_bits_equal(1.5f64.to_bits(), 1.5f64.to_bits()));
    assert!(!float_bits_equal(1.5f64.to_bits(), 2.5f64.to_bits()));
    assert!(MetadataValue::Float(0.0f64.to_bits()) == MetadataValue::Float((-0.0f64).to_bits()));
    assert!(MetadataValue::Float(nan) != MetadataValue::Float(nan));

    let metadata = metadata(vec![("f", MetadataValue::Float(nan))]);
    let filter = MetadataFilter::Equals { key: "f".to_string(), value: MetadataValue::Float(nan) };
    assert!(!filter.matches(&metadata));
}

#[test]
fn metadata_insert_replaces_and_returns_previous() {
    let mut metadata = Metadata::new();
    assert!(metadata.insert("k".to_string(), text("first")).is_none());
    let previous = metadata.insert("k".to_string(), text("second"));
    assert!(matches!(previous, Some(MetadataValue::Text(ref value)) if value == "first"));
    assert_eq!(metadata.len(), 1);
    assert!(matches!(metadata.get("k"), Some(MetadataValue::Text(value)) if value == "second"));
    assert!(metadata.get("other").is_none());
}

#[test]
fn metadata_entries_come_in_key_order() {
    let mut values = Metadata::new();
    values.insert("kind".to_string(), text("note"));
    values.insert("color".to_string(), text("red"));
    values.insert("Zone".to_string(), text("b"));
    values.insert("kind".to_string(), text("memo"));
    let entries: Vec<(String, MetadataValue)> =
        values.entries().into_iter().map(|(key, value)| (key.clone(), value.clone())).collect();
    assert_eq!(
        entries,
        vec![
            ("Zone".to_string(), text("b")),
            ("color".to_string(), text("red")),
            ("kind".to_string(), text("memo")),
        ]
    );
    assert!(Metadata::new().entries().is_empty());
}
