use typos_lsp::documents::{ContentChange, Document, DocumentStore, TextRange};

#[test]
fn test_update_document_full() {
    let mut doc = Document::new(0, "".to_string());
    let version = 1;
    let text = "hello world";

    let changes = vec![ContentChange {
        range: None,
        range_length: None,
        text: text.to_string(),
    }];

    doc.update(version, changes);

    assert_eq!(doc.text, "hello world");
    assert_eq!(doc.version, 1);
}

#[test]
fn update_stops_at_incremental_change() {
    let mut doc = Document::new(3, "old".to_string());
    let changes = vec![
        ContentChange { range: None, range_length: None, text: "first".to_string() },
        ContentChange {
            range: Some(TextRange { start_line: 0, start_character: 0, end_line: 0, end_character: 1 }),
            range_length: Some(1),
            text: "x".to_string(),
        },
        ContentChange { range: None, range_length: None, text: "third".to_string() },
    ];
    doc.update(4, changes);
    // the full change before the incremental one is applied, the version is kept
    assert_eq!(doc.text, "first");
    assert_eq!(doc.version, 3);
}

#[test]
fn update_with_no_changes_takes_version() {
    let mut doc = Document::new(1, "text".to_string());
    doc.update(7, vec![]);
    assert_eq!(doc.text, "text");
    assert_eq!(doc.version, 7);
}

#[test]
fn update_takes_last_full_text() {
    let mut doc = Document::new(1, "a".to_string());
    doc.update(
        2,
        vec![
            ContentChange { range: None, range_length: None, text: "b".to_string() },
            ContentChange { range: None, range_length: None, text: "c".to_string() },
        ],
    );
    assert_eq!(doc.text, "c");
    assert_eq!(doc.version, 2);
}

#[test]
fn store_open_get_change_close() {
    let mut store = DocumentStore::new();
    let uri = "file:///C%3A/diagnostics.txt".to_string();
    assert!(store.get(&uri).is_none());

    store.open(uri.clone(), Document::new(1, "hello".to_string()));
    let doc = store.get(&uri).unwrap();
    assert_eq!(doc.version, 1);
    assert_eq!(doc.text, "hello");

    // reopening replaces the document
    store.open(uri.clone(), Document::new(2, "again".to_string()));
    assert_eq!(store.get(&uri).unwrap().text, "again");
    assert_eq!(store.snapshot().len(), 1);

    let changed = store.change(
        &uri,
        3,
        vec![ContentChange { range: None, range_length: None, text: "fo typos".to_string() }],
    );
    assert!(changed);
    assert_eq!(store.get(&uri).unwrap().text, "fo typos");
    assert_eq!(store.get(&uri).unwrap().version, 3);

    store.close(&uri);
    assert!(store.get(&uri).is_none());
    assert!(store.snapshot().is_empty());
}

#[test]
fn store_change_of_unknown_document() {
    let mut store = DocumentStore::new();
    store.open("file:///a.txt".to_string(), Document::new(1, "a".to_string()));
    let changed = store.change(
        &"file:///b.txt".to_string(),
        2,
        vec![ContentChange { range: None, range_length: None, text: "b".to_string() }],
    );
    assert!(!changed);
    assert!(store.get(&"file:///b.txt".to_string()).is_none());
    assert_eq!(store.get(&"file:///a.txt".to_string()).unwrap().text, "a");
}

#[test]
fn store_snapshot_lists_each_document() {
    let mut store = DocumentStore::new();
    store.open("file:///a.txt".to_string(), Document::new(1, "a".to_string()));
    store.open("file:///b.txt".to_string(), Document::new(2, "b".to_string()));
    store.open("file:///c.txt".to_string(), Document::new(3, "c".to_string()));
    store.close(&"file:///b.txt".to_string());
    let mut snap = store.snapshot();
    snap.sort();
    assert_eq!(
        snap,
        vec![
            ("file:///a.txt".to_string(), 1, "a".to_string()),
            ("file:///c.txt".to_string(), 3, "c".to_string())
        ]
    );
}
