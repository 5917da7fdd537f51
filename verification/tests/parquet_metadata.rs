use spatial::metadata::{KeyValue, ParquetMetadataSet};

fn entry(key: &str, value: &str) -> KeyValue {
    KeyValue {
        key: key.to_string(),
        value: Some(value.to_string()),
    }
}

#[test]
fn insert_replaces_reserved_key_and_keeps_other_entries() {
    let mut set = ParquetMetadataSet::new(vec![
        entry("geo", "stale"),
        entry("custom", "keep-me"),
        entry("geo", "older"),
        KeyValue {
            key: "empty".to_string(),
            value: None,
        },
    ]);
    set.insert(entry("geo", "fresh"));
    assert_eq!(
        set.into_entries(),
        vec![
            entry("custom", "keep-me"),
            KeyValue {
                key: "empty".to_string(),
                value: None,
            },
            entry("geo", "fresh"),
        ]
    );
}

#[test]
fn second_insert_under_a_key_wins() {
    let mut set = ParquetMetadataSet::new(vec![entry("a", "1")]);
    set.insert(entry("geodisplay", "first"));
    set.insert(entry("geo", "g"));
    set.insert(entry("geodisplay", "second"));
    assert_eq!(
        set.into_entries(),
        vec![entry("a", "1"), entry("geo", "g"), entry("geodisplay", "second")]
    );
}

#[test]
fn new_set_returns_source_entries_unchanged() {
    let entries = vec![entry("geo", "x"), entry("geo", "y")];
    assert_eq!(ParquetMetadataSet::new(entries.clone()).into_entries(), entries);
}
