use canopy::document::{NodeType, Span};
use canopy::handle::Handle;
use canopy::merge::overlap::ranges_overlap;
use canopy::merge::{merge_results, overlap};
use canopy::query::QueryResult;

fn make_handle(file: &str, start: usize, end: usize) -> Handle {
    Handle::new(
        file.to_string(),
        NodeType::Function,
        Span {
            start: start * 10,
            end: end * 10,
        },
        (start, end),
        100,
        "preview".to_string(),
    )
}

fn no_result() -> QueryResult {
    QueryResult {
        handles: vec![],
        ref_handles: None,
        total_tokens: 0,
        truncated: false,
        total_matches: 0,
        auto_expanded: false,
        expand_note: None,
    }
}

#[test]
fn merge_test_ranges_overlap() {
    assert!(ranges_overlap((1, 10), (5, 15)));
    assert!(ranges_overlap((5, 15), (1, 10)));
    assert!(ranges_overlap((1, 10), (1, 10)));
    assert!(ranges_overlap((1, 10), (10, 20)));
    assert!(!ranges_overlap((1, 10), (11, 20)));
}

#[test]
fn merge_test_merge_empty() {
    let result = merge_results(no_result(), no_result(), &vec![]);
    assert!(result.handles.is_empty());
    let result = overlap::merge_results(no_result(), no_result(), &vec![]);
    assert!(result.handles.is_empty());
}

#[test]
fn test_merge_drops_all_service_handles_for_dirty_files() {
    let local = QueryResult {
        handles: vec![make_handle("src/dirty.rs", 1, 10)],
        ref_handles: None,
        total_tokens: 100,
        truncated: false,
        total_matches: 1,
        auto_expanded: false,
        expand_note: None,
    };
    let service = QueryResult {
        handles: vec![
            make_handle("src/dirty.rs", 20, 30), // non-overlapping but dirty
            make_handle("src/clean.rs", 1, 10),  // clean file, kept
        ],
        ref_handles: None,
        total_tokens: 200,
        truncated: false,
        total_matches: 2,
        auto_expanded: false,
        expand_note: None,
    };
    let dirty = vec!["src/dirty.rs".to_string()];

    let result = merge_results(local, service, &dirty);
    assert_eq!(result.handles.len(), 2); // 1 local + 1 clean service
    assert_eq!(result.handles[0].file_path, "src/dirty.rs"); // local
    assert_eq!(result.handles[1].file_path, "src/clean.rs"); // service
}

#[test]
fn test_merge_keeps_all_handles_for_clean_files() {
    let local = QueryResult {
        handles: vec![],
        ref_handles: None,
        total_tokens: 0,
        truncated: false,
        total_matches: 0,
        auto_expanded: false,
        expand_note: None,
    };
    let service = QueryResult {
        handles: vec![
            make_handle("src/a.rs", 1, 10),
            make_handle("src/b.rs", 1, 10),
        ],
        ref_handles: None,
        total_tokens: 200,
        truncated: false,
        total_matches: 2,
        auto_expanded: false,
        expand_note: None,
    };
    let dirty = vec![];
    let result = merge_results(local, service, &dirty);
    assert_eq!(result.handles.len(), 2);
}
