use canopy::config::Config;
use canopy::document::{NodeType, RefType};
use canopy::error::CanopyError;
use canopy::handle::{Handle, HandleId};
use canopy::hashing::sha256;
use canopy::index::expand::{
    age_text, expand_row, files_to_invalidate, found_row, index_status, ExpandRow,
};
use canopy::index::file_discovery::{
    fd_arguments, ignore_glob_list, listed_by_walk, listed_files, rg_arguments, FileDiscovery,
};
use canopy::index::pipeline::{
    cache_entries, check_spans, is_batch_full, node_rows, partition_candidates, read_outcome,
    ref_rows, skips_unread, stored_hash, uses_pipeline, Candidate, FileMeta, FileOutcome,
    IndexTally,
};
use canopy::index::search::{
    cache_entry_from_row, cached_symbols, count_from_db, database_search, file_handle,
    handle_from_row, next_search, ref_handle_from_row, reference_search, search_in_files,
    select_files, DbSearch, HandleRow, RefRow,
};
use canopy::index::symbol_cache::{SymbolCache, SymbolCacheEntry};
use canopy::index::{
    check_schema_version, find_smallest_enclosing_node, gitignore_addition, reference_preview,
};
use canopy::parse::parse_file;
use canopy::query::execute::SearchRequest;

fn strings(items: &[&str]) -> Vec<String> {
    items.iter().map(|s| s.to_string()).collect()
}

fn entry(id: &str, file: &str) -> SymbolCacheEntry {
    SymbolCacheEntry {
        handle_id: id.to_string(),
        file_path: file.to_string(),
        node_type: 3,
        start_byte: 0,
        end_byte: 1,
        line_start: 1,
        line_end: 1,
        token_count: 1,
        preview: "p".to_string(),
    }
}

fn meta(mtime: i64, source: &str, indexed_at: i64, tokens: usize) -> FileMeta {
    FileMeta {
        mtime,
        hash: sha256(source.as_bytes()).to_vec(),
        indexed_at,
        tokens,
    }
}

#[test]
fn versions_are_checked() {
    assert!(matches!(check_schema_version(0), Ok(true)));
    assert!(matches!(check_schema_version(3), Ok(false)));
    assert!(matches!(
        check_schema_version(2),
        Err(CanopyError::SchemaVersionMismatch {
            found: 2,
            expected: 3
        })
    ));
}

#[test]
fn git_is_told_once() {
    assert_eq!(gitignore_addition(&None), Some("# Canopy index\n.canopy/\n"));
    let add = |content: &str| gitignore_addition(&Some(content.to_string()));
    assert_eq!(add("target\n"), Some("\n# Canopy index\n.canopy/\n"));
    assert_eq!(add("target\n  .canopy/ \n"), None);
    assert_eq!(add(".canopy"), None);
    assert_eq!(add(".canopy/index.db"), Some("\n# Canopy index\n.canopy/\n"));
}

#[test]
fn the_smallest_node_encloses() {
    let nodes = vec![(0..100, 1), (10..30, 2), (10..20, 3), (12..22, 4)];
    assert_eq!(find_smallest_enclosing_node(&(12..15), &nodes), Some(3));
    assert_eq!(find_smallest_enclosing_node(&(21..22), &nodes), Some(4));
    assert_eq!(find_smallest_enclosing_node(&(90..100), &nodes), Some(1));
    assert_eq!(find_smallest_enclosing_node(&(90..101), &nodes), None);
}

#[test]
fn references_show_their_line() {
    let source = "first\n  call(x);\nlast";
    assert_eq!(reference_preview(source, &(8..12), 100), "call(x);");
    assert_eq!(reference_preview(source, &(17..21), 100), "last");
    assert_eq!(reference_preview(source, &(0..5), 2), "fi...");
}

#[test]
fn searches_ask_the_database() {
    let text = SearchRequest::Text {
        pattern: "a-b".to_string(),
        limit: 4,
    };
    match database_search(&text) {
        DbSearch::Content { query, limit } => assert_eq!((query.as_str(), limit), ("\"a-b\"", 4)),
        _ => panic!("Expected Content"),
    }
    let sections = SearchRequest::Sections {
        heading: "INTRO".to_string(),
        limit: 4,
    };
    match database_search(&sections) {
        DbSearch::Headings {
            node_type, pattern, ..
        } => assert_eq!((node_type, pattern.as_str()), (0, "%intro%")),
        _ => panic!("Expected Headings"),
    }
    let code = SearchRequest::Code {
        symbol: "Foo".to_string(),
        limit: 4,
    };
    assert!(matches!(database_search(&code), DbSearch::Symbol { name_lower, .. } if name_lower == "foo"));
    assert!(matches!(next_search(&code, 0), Some(DbSearch::SymbolText { query, .. }) if query == "Foo"));
    assert!(next_search(&code, 1).is_none());
    let definitions = SearchRequest::Definitions {
        symbol: "Foo".to_string(),
        limit: 4,
    };
    assert!(next_search(&definitions, 0).is_none());
    assert_eq!(reference_search("Foo", 6), ("foo".to_string(), 6));
}

#[test]
fn rows_become_handles() {
    let row = |preview: Option<&str>| HandleRow {
        handle_id: "0a".to_string(),
        path: "a.rs".to_string(),
        node_type: 99,
        start_byte: -3,
        end_byte: 9,
        line_start: 1,
        line_end: 2,
        token_count: 5,
        preview: preview.map(str::to_string),
    };
    let handle = handle_from_row(row(None));
    assert_eq!(handle.node_type, NodeType::Chunk);
    assert_eq!(handle.span, 0..9);
    assert_eq!(handle.preview, "...");
    assert_eq!(handle_from_row(row(Some("p"))).preview, "p");
    assert_eq!(cache_entry_from_row(row(Some("p"))).end_byte, 9);
    assert_eq!(count_from_db(-1), 0);
    let reference = ref_handle_from_row(RefRow {
        path: "a.rs".to_string(),
        span_start: 1,
        span_end: 2,
        line_start: 3,
        line_end: 3,
        name: "n".to_string(),
        qualifier: None,
        ref_type: "other".to_string(),
        source_handle_id: Some("0b".to_string()),
        preview: None,
    });
    assert_eq!(reference.ref_type, RefType::Call);
    assert_eq!(reference.source_handle, Some(HandleId::from_raw("0b".to_string())));
    assert_eq!(reference.preview, "...");
}

#[test]
fn symbols_are_found_in_any_case() {
    let mut cache = SymbolCache::new();
    cache.add_to_symbol_cache(&vec![
        ("foo".to_string(), entry("1", "a.rs")),
        ("foo".to_string(), entry("2", "b.rs")),
    ]);
    let found = cached_symbols(&cache, "FOO", 9).unwrap();
    assert_eq!(found.len(), 2);
    assert_eq!(cached_symbols(&cache, "foo", 1).unwrap()[0].id.raw(), "1");
    assert!(cached_symbols(&cache, "foo", 0).is_none());
    assert!(cached_symbols(&cache, "bar", 9).is_none());
    cache.replace_file("a.rs", &vec![("bar".to_string(), entry("3", "a.rs"))]);
    assert_eq!(cached_symbols(&cache, "foo", 9).unwrap().len(), 1);
    assert_eq!(cached_symbols(&cache, "bar", 9).unwrap()[0].id.raw(), "3");
    assert_eq!(*cache.names_in_file("a.rs").unwrap(), strings(&["bar"]));
    cache.clear();
    assert!(cache.get("bar").is_none() && cache.names_in_file("b.rs").is_none());
}

#[test]
fn files_are_selected_by_glob() {
    let files = vec![("a.rs".to_string(), 3), ("b.md".to_string(), -1)];
    assert_eq!(select_files(&files, "*").unwrap(), vec![("a.rs".to_string(), 3), ("b.md".to_string(), 0)]);
    assert!(matches!(select_files(&files, "["), Err(CanopyError::GlobPattern(_))));
    let handle = file_handle("a.rs", 7, "x\ny\n", 10);
    assert_eq!(handle.line_range, (1, 2));
    assert_eq!(handle.span, 0..4);
    assert_eq!(handle.preview, "x y");
    assert_eq!(handle.id, HandleId::new("a.rs", NodeType::Chunk, &(0..4)));
    assert_eq!(file_handle("a", 0, "", 1).line_range, (1, 1));
    let found: Vec<Handle> = vec![
        file_handle("a.rs", 1, "", 1),
        file_handle("b.md", 1, "", 1),
        file_handle("c.rs", 1, "", 1),
    ];
    assert_eq!(search_in_files(&found, "*.rs", 1).unwrap()[0].file_path, "a.rs");
    assert_eq!(search_in_files(&found, "*.rs", 9).unwrap().len(), 2);
    assert!(search_in_files(&found, "[", 9).is_err());
}

#[test]
fn fresh_files_are_not_read() {
    let known = meta(5, "x", 100, 7);
    assert!(skips_unread(&known, 5, 109, 10));
    assert!(!skips_unread(&known, 5, 110, 10));
    assert!(!skips_unread(&known, 6, 109, 10));
    let candidates = vec![
        Candidate {
            mtime: 5,
            meta: Some(meta(5, "x", 100, 7)),
        },
        Candidate {
            mtime: 5,
            meta: None,
        },
        Candidate {
            mtime: 6,
            meta: Some(meta(5, "x", 100, 7)),
        },
    ];
    let parts = partition_candidates(&candidates, 100, 10);
    assert_eq!(parts.to_read, vec![1, 2]);
    assert_eq!((parts.tally.files_skipped, parts.tally.skipped_tokens), (1, 7));
    assert!(uses_pipeline(65) && !uses_pipeline(64));
    assert!(is_batch_full(500) && !is_batch_full(499));
}

#[test]
fn unchanged_files_are_not_parsed() {
    let config = Config::default();
    let known = Some(meta(5, "fn f() {}", 100, 7));
    assert!(matches!(
        read_outcome("a.rs", "fn f() {}", &config, &known, 6),
        FileOutcome::Unchanged(7)
    ));
    match read_outcome("a.rs", "fn g() {}", &config, &known, 6) {
        FileOutcome::Parsed(parsed) => {
            assert_eq!(parsed.mtime, 6);
            assert_eq!(parsed.content_hash, sha256(b"fn g() {}"));
        }
        _ => panic!("Expected Parsed"),
    }
    assert_eq!(stored_hash(vec![1; 32]), vec![1; 32]);
    assert_eq!(stored_hash(vec![1; 31]), vec![0; 32]);
}

#[test]
fn tallies_add_up() {
    let mut tally = IndexTally::new();
    tally.skip(3);
    tally.index(4);
    tally.index(5);
    let stats = tally.stats(11);
    assert_eq!((stats.files_indexed, stats.files_skipped), (2, 1));
    assert_eq!((stats.total_tokens, stats.index_size_bytes), (12, 11));
}

#[test]
fn nodes_and_references_become_rows() {
    let source = "struct Foo;\n\nimpl Foo {\n    fn Bar(&self) { baz(); }\n}\n";
    let parsed = parse_file("/r/a.rs", source, &Config::default(), 0);
    assert!(check_spans(&parsed));
    let rows = node_rows("a.rs", &parsed, 10);
    let method = rows.iter().find(|r| r.node_type == NodeType::Function).unwrap();
    assert_eq!(method.name.as_deref(), Some("Bar"));
    assert_eq!(method.name_lower.as_deref(), Some("bar"));
    assert_eq!(method.parent_name_lower.as_deref(), Some("foo"));
    assert_eq!(method.content, "fn Bar(&self) { baz(); }");
    assert_eq!(method.preview, "fn Bar(&se...");
    assert_eq!(
        method.handle_id,
        HandleId::new("a.rs", NodeType::Function, &method.span).raw()
    );
    let entries = cache_entries("a.rs", &rows);
    assert!(entries.iter().any(|(name, e)| name == "bar" && e.node_type == 3));
    let ids: Vec<(std::ops::Range<usize>, i64)> = rows
        .iter()
        .enumerate()
        .map(|(i, r)| (r.span.clone(), i as i64))
        .collect();
    let refs = ref_rows(&parsed, &ids, 10);
    let call = refs.iter().find(|r| r.name == "baz").unwrap();
    assert_eq!(call.ref_type, "call");
    let place = rows.iter().position(|r| r.node_type == NodeType::Function).unwrap();
    assert_eq!(call.source_node_id, Some(place as i64));
    assert_eq!(call.preview, "fn Bar(&self) {...");
}

#[test]
fn expansion_reads_the_file() {
    let id = HandleId::from_raw("0a".to_string());
    let row = |source: &str, start: i64, end: i64| ExpandRow {
        path: "a.rs".to_string(),
        start,
        end,
        node_type: 3,
        token_count: 2,
        content_hash: sha256(source.as_bytes()).to_vec(),
    };
    let detail = expand_row(&id, row("fn f() {}", 3, 99), "fn f() {}").unwrap();
    assert_eq!(detail.handle_id, "h0a");
    assert_eq!(detail.content, "f() {}");
    assert_eq!(detail.node_type, NodeType::Function);
    assert!(matches!(
        expand_row(&id, row("old", 0, 1), "new"),
        Err(CanopyError::StaleIndex { path }) if path == "a.rs"
    ));
    assert!(matches!(found_row(&id, None), Err(CanopyError::HandleNotFound(i)) if i == "h0a"));
    assert!(found_row(&id, Some(row("x", 0, 1))).is_ok());
}

#[test]
fn status_says_how_long_ago() {
    assert_eq!(age_text(59), "59 seconds ago");
    assert_eq!(age_text(60), "1 minutes ago");
    assert_eq!(age_text(7199), "1 hours ago");
    assert_eq!(age_text(86400), "1 days ago");
    assert_eq!(age_text(-5), "-5 seconds ago");
    let status = index_status(-1, 9, 4, Some(100), 160);
    assert_eq!((status.files_indexed, status.total_tokens), (0, 9));
    assert_eq!(status.last_indexed.as_deref(), Some("1 minutes ago"));
    assert_eq!(status.schema_version, 3);
    assert!(index_status(0, 0, 0, None, 0).last_indexed.is_none());
}

#[test]
fn invalidation_takes_what_matches() {
    let files = vec![(1, "src/a.rs".to_string()), (2, "b.md".to_string())];
    assert_eq!(
        files_to_invalidate(&files, "src/**").unwrap(),
        vec![(1, "src/a.rs".to_string())]
    );
    assert!(matches!(files_to_invalidate(&files, "["), Err(CanopyError::GlobPattern(_))));
}

#[test]
fn tools_get_their_arguments() {
    let patterns = strings(&["target"]);
    assert_eq!(
        fd_arguments("**/*.rs", &patterns),
        strings(&["--type", "f", "--hidden", "--glob", "-p", "**/*.rs", "--exclude", "target"])
    );
    assert_eq!(
        rg_arguments("**/*.rs", &patterns),
        strings(&["--files", "--hidden", "--glob", "**/*.rs", "--glob", "!target", "--glob", "!target/**"])
    );
    assert_eq!(listed_files("a\n\nb\r\n"), strings(&["a", "b"]));
    assert_eq!(FileDiscovery::choose_backend(true, true).name(), "fd");
    assert_eq!(FileDiscovery::choose_backend(false, true).name(), "ripgrep");
    assert_eq!(FileDiscovery::choose_backend(false, false).name(), "ignore-crate");
}

#[test]
fn walks_leave_out_what_is_ignored() {
    assert_eq!(
        ignore_glob_list(&strings(&["target", "*.lock"])),
        strings(&["**/target", "**/target/**", "*.lock", "**/*.lock/**"])
    );
    let paths = strings(&["a.rs", "target/b.rs", "x/target/c.rs", "d.md", "Cargo.lock"]);
    let listed = listed_by_walk(&paths, "**/*.rs", &strings(&["target", "["])).unwrap();
    assert_eq!(listed, vec![true, false, false, false, false]);
    assert!(matches!(
        listed_by_walk(&paths, "[", &strings(&[])),
        Err(CanopyError::GlobPattern(_))
    ));
}
