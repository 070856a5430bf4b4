use wikilinks::{replace_links, Index, IndexBuilder};

#[test]
fn new_index_is_empty() {
    let index = Index::new();
    assert_eq!(index.len(), 0);
    assert!(!index.contains_key("a"));
    assert_eq!(index.get("a"), None);
}

#[test]
fn insert_then_get() {
    let mut index = Index::new();
    index.insert("file1".to_string(), "file1.md".to_string());
    index.insert("file2".to_string(), "sub/file2.md".to_string());
    assert_eq!(index.len(), 2);
    assert_eq!(index.get("file1"), Some(&"file1.md".to_string()));
    assert_eq!(index.get("file2"), Some(&"sub/file2.md".to_string()));
    assert!(index.contains_key("file2"));
    assert_eq!(index.get("file3"), None);
}

#[test]
fn a_later_entry_replaces_an_earlier_one() {
    let mut index = Index::new();
    index.insert("a".to_string(), "first/a.md".to_string());
    index.insert("a".to_string(), "second/a.md".to_string());
    assert_eq!(index.len(), 1);
    assert_eq!(index.get("a"), Some(&"second/a.md".to_string()));
}

#[test]
fn add_document_keys_the_path() {
    let mut index = Index::new();
    index.add_document("sub/My Notes.md".to_string());
    assert_eq!(index.get("sub_my_notes"), Some(&"sub/My Notes.md".to_string()));
    assert_eq!(index.len(), 1);
}

#[test]
fn documents_with_one_key_collide_and_the_later_wins() {
    let mut index = Index::new();
    index.add_document("a/b.md".to_string());
    index.add_document("a_b.md".to_string());
    assert_eq!(index.len(), 1);
    assert_eq!(index.get("a_b"), Some(&"a_b.md".to_string()));
}

#[test]
fn builder_counts_every_document() {
    let mut builder = IndexBuilder::new();
    assert_eq!(builder.file_count(), 0);
    assert!(builder.has_room());
    builder.add_document("file1.md".to_string());
    builder.add_document("dir/file2.md".to_string());
    builder.add_document("dir_file2.md".to_string());
    assert_eq!(builder.file_count(), 3);
    let (index, summary) = builder.finish();
    assert_eq!(summary.file_count(), 3);
    assert_eq!(summary.files_changed(), 0);
    assert_eq!(summary.links_changed(), 0);
    assert_eq!(index.len(), 2);
    assert_eq!(index.get("file1"), Some(&"file1.md".to_string()));
    assert_eq!(index.get("dir_file2"), Some(&"dir_file2.md".to_string()));
}

#[test]
fn links_resolve_against_a_built_index() {
    let mut builder = IndexBuilder::new();
    builder.add_document("file_one.md".to_string());
    builder.add_document("guides/setup.md".to_string());
    let (index, _) = builder.finish();
    assert_eq!(
        replace_links("[[File One]], [[guides setup|Setup]], [[guides/setup]]", &index),
        "[file_one](file_one.md), [Setup](guides/setup.md), [guides/setup](guides/setup)"
    );
}

#[test]
fn an_empty_builder_yields_an_empty_index() {
    let (index, summary) = IndexBuilder::new().finish();
    assert_eq!(index.len(), 0);
    assert_eq!(summary.file_count(), 0);
}
