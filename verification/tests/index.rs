use canopy::document::NodeType;
use canopy::handle::{HandleId, HandleSource};
use canopy::index::pipeline::SEQUENTIAL_THRESHOLD;
use canopy::index::search::{code_type_params, escape_fts5_query, handle_from_cache_entry};
use canopy::index::symbol_cache::{SymbolCache, SymbolCacheEntry};

fn make_entry(name: &str, file: &str) -> (String, SymbolCacheEntry) {
    (
        name.to_lowercase(),
        SymbolCacheEntry {
            handle_id: format!("h_{name}"),
            file_path: file.to_string(),
            node_type: NodeType::Function.as_int() as i32,
            start_byte: 0,
            end_byte: 100,
            line_start: 1,
            line_end: 10,
            token_count: 50,
            preview: format!("fn {name}()"),
        },
    )
}

#[test]
fn escape_fts5_plain_query_unchanged() {
    assert_eq!(escape_fts5_query("hello world"), "hello world");
    assert_eq!(escape_fts5_query("simple"), "simple");
    assert_eq!(escape_fts5_query(""), "");
}

#[test]
fn escape_fts5_special_chars_quoted() {
    // Parentheses
    assert_eq!(escape_fts5_query("fn()"), "\"fn()\"");
    // Asterisk
    assert_eq!(escape_fts5_query("glob*"), "\"glob*\"");
    // Dash (NOT operator in FTS5)
    assert_eq!(escape_fts5_query("self-signed"), "\"self-signed\"");
    // Angle brackets
    assert_eq!(escape_fts5_query("Vec<T>"), "\"Vec<T>\"");
    // Double quotes are escaped by doubling
    assert_eq!(escape_fts5_query("say \"hello\""), "\"say \"\"hello\"\"\"");
}

#[test]
fn code_type_params_returns_four_code_types() {
    let params = code_type_params();
    assert_eq!(params.len(), 4);
    assert_eq!(params[0], NodeType::Function.as_int() as i32); // 3
    assert_eq!(params[1], NodeType::Class.as_int() as i32); // 4
    assert_eq!(params[2], NodeType::Struct.as_int() as i32); // 5
    assert_eq!(params[3], NodeType::Method.as_int() as i32); // 6
}

#[test]
fn handle_from_cache_entry_roundtrip() {
    let entry = SymbolCacheEntry {
        handle_id: "h_test".to_string(),
        file_path: "src/lib.rs".to_string(),
        node_type: NodeType::Function.as_int() as i32,
        start_byte: 10,
        end_byte: 200,
        line_start: 1,
        line_end: 15,
        token_count: 42,
        preview: "fn test()".to_string(),
    };

    let handle = handle_from_cache_entry(&entry);

    assert_eq!(handle.id, HandleId::from_raw("h_test".to_string()));
    assert_eq!(handle.file_path, "src/lib.rs");
    assert_eq!(handle.node_type, NodeType::Function);
    assert_eq!(handle.span, 10..200);
    assert_eq!(handle.line_range, (1, 15));
    assert_eq!(handle.token_count, 42);
    assert_eq!(handle.preview, "fn test()");
    assert!(handle.content.is_none());
    assert_eq!(handle.source, HandleSource::Local);
    assert!(handle.commit_sha.is_none());
    assert!(handle.generation.is_none());
}

#[test]
fn add_and_lookup_symbol_cache() {
    let mut cache = SymbolCache::new();
    let entries = vec![make_entry("foo", "src/lib.rs")];
    cache.add_to_symbol_cache(&entries);
    assert_eq!(cache.get("foo").unwrap().len(), 1);
    assert_eq!(cache.get("foo").unwrap()[0].handle_id, "h_foo");
    assert!(cache.names_in_file("src/lib.rs").unwrap().contains(&"foo".to_string()));
}

#[test]
fn remove_file_clears_entries_and_reverse_index() {
    let mut cache = SymbolCache::new();
    let entries = vec![
        make_entry("foo", "src/a.rs"),
        make_entry("bar", "src/a.rs"),
        make_entry("baz", "src/b.rs"),
    ];
    cache.add_to_symbol_cache(&entries);
    assert!(["foo", "bar", "baz"].iter().all(|name| cache.get(name).is_some()));

    cache.remove_file_from_symbol_cache("src/a.rs");
    assert!(!cache.get("foo").is_some());
    assert!(!cache.get("bar").is_some());
    assert!(cache.get("baz").is_some());
    assert!(!cache.names_in_file("src/a.rs").is_some());
    assert!(cache.names_in_file("src/b.rs").is_some());
}

#[test]
fn remove_nonexistent_file_is_noop() {
    let mut cache = SymbolCache::new();
    cache.remove_file_from_symbol_cache("no/such/file.rs");
    assert!(cache.get("file").is_none());
    assert!(cache.names_in_file("no/such/file.rs").is_none());
}

#[test]
fn add_multiple_entries_same_symbol_name() {
    let mut cache = SymbolCache::new();
    let entries = vec![
        make_entry("config", "src/a.rs"),
        make_entry("config", "src/b.rs"),
    ];
    cache.add_to_symbol_cache(&entries);
    assert_eq!(cache.get("config").unwrap().len(), 2);
}

#[test]
fn sequential_threshold_is_64() {
    assert_eq!(SEQUENTIAL_THRESHOLD, 64);
}
