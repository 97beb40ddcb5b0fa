use canopy::document::NodeType;
use canopy::handle::HandleSource;
use canopy::provenance::{HandleProvenance, ProvenanceTracker, PROVENANCE_CAP};
use canopy::query::QueryResult;
use canopy::runtime::feedback::record_provenance_for_result;

fn make_provenance(source: HandleSource, repo_id: Option<&str>) -> HandleProvenance {
    HandleProvenance {
        source,
        generation: Some(1),
        repo_id: repo_id.map(|s| s.to_string()),
        file_path: "src/main.rs".to_string(),
        node_type: NodeType::Function,
        token_count: 100,
    }
}

#[test]
fn record_and_get_returns_provenance() {
    let mut tracker = ProvenanceTracker::new();
    let prov = make_provenance(HandleSource::Local, Some("repo1"));
    tracker.record("repo1", "handle_1", prov);

    let retrieved = tracker.get("repo1", "handle_1");
    assert!(retrieved.is_some());
    let retrieved = retrieved.unwrap();
    assert_eq!(retrieved.source, HandleSource::Local);
    assert_eq!(retrieved.file_path, "src/main.rs");
    assert_eq!(retrieved.token_count, 100);
}

#[test]
fn get_returns_none_for_missing_handle() {
    let tracker = ProvenanceTracker::new();
    assert!(tracker.get("repo1", "nonexistent").is_none());
}

#[test]
fn eviction_at_provenance_cap() {
    let mut tracker = ProvenanceTracker::new();

    // Fill to capacity + 1
    for i in 0..=PROVENANCE_CAP {
        let prov = make_provenance(HandleSource::Service, Some("repo1"));
        tracker.record("repo1", &format!("handle_{}", i), prov);
    }

    // The first entry should have been evicted
    assert!(tracker.get("repo1", "handle_0").is_none());
    // The last entry should still be present
    assert!(tracker
        .get("repo1", &format!("handle_{}", PROVENANCE_CAP))
        .is_some());
    // Total entries should be at the cap
    assert_eq!(tracker.len(), PROVENANCE_CAP);
}

#[test]
fn mark_expanded_and_was_recently_expanded() {
    let mut tracker = ProvenanceTracker::new();

    assert!(!tracker.was_recently_expanded("repo1", "handle_1"));

    tracker.mark_expanded("repo1", "handle_1");
    assert!(tracker.was_recently_expanded("repo1", "handle_1"));

    // Different handle should not be marked
    assert!(!tracker.was_recently_expanded("repo1", "handle_2"));

    // Different repo should not be marked
    assert!(!tracker.was_recently_expanded("repo2", "handle_1"));
}

#[test]
fn invalidate_repo_removes_matching_entries() {
    let mut tracker = ProvenanceTracker::new();

    tracker.record("repo1", "h1", make_provenance(HandleSource::Service, Some("repo1")));
    tracker.record("repo2", "h2", make_provenance(HandleSource::Service, Some("repo2")));
    tracker.record("repo1", "h3", make_provenance(HandleSource::Local, None));

    tracker.invalidate_repo("repo1");

    // Handle with repo_id="repo1" should be gone
    assert!(tracker.get("repo1", "h1").is_none());
    // Handle with repo_id="repo2" should remain
    assert!(tracker.get("repo2", "h2").is_some());
    // Handle with repo_id=None should remain (invalidate matches on repo_id, not repo_key)
    assert!(tracker.get("repo1", "h3").is_some());
}

#[test]
fn query_event_record_and_lookup() {
    let mut tracker = ProvenanceTracker::new();

    assert!(tracker.query_event_id("repo1", "h1").is_none());

    tracker.record_query_event("repo1", "h1", 42);
    assert_eq!(tracker.query_event_id("repo1", "h1"), Some(42));

    // Different handle should return None
    assert!(tracker.query_event_id("repo1", "h2").is_none());
}

#[test]
fn record_overwrites_provenance_without_adding_to_order() {
    let mut tracker = ProvenanceTracker::new();

    let prov1 = HandleProvenance {
        token_count: 100,
        ..make_provenance(HandleSource::Local, Some("repo1"))
    };
    let prov2 = HandleProvenance {
        token_count: 200,
        ..make_provenance(HandleSource::Service, Some("repo1"))
    };

    tracker.record("repo1", "h1", prov1);
    tracker.record("repo1", "h1", prov2);

    // Should have the updated value
    let retrieved = tracker.get("repo1", "h1").unwrap();
    assert_eq!(retrieved.token_count, 200);
    assert_eq!(retrieved.source, HandleSource::Service);

    // Map should only have one entry (no duplicate from overwrite)
    assert_eq!(tracker.len(), 1);
}

#[test]
fn mod_test_provenance_eviction() {
    let mut tracker = ProvenanceTracker::new();

    // Insert more than PROVENANCE_CAP entries
    for i in 0..PROVENANCE_CAP + 10 {
        let handle_id = format!("h{:024x}", i);
        tracker.record(
            "/tmp/test-repo",
            &handle_id,
            HandleProvenance {
                source: HandleSource::Local,
                generation: None,
                repo_id: None,
                file_path: "src/test.rs".to_string(),
                node_type: NodeType::Function,
                token_count: 10,
            },
        );
    }

    // The earliest entry was evicted
    assert!(tracker.get("/tmp/test-repo", &format!("h{:024x}", 0)).is_none());
    // And a later entry still exists
    assert!(tracker
        .get("/tmp/test-repo", &format!("h{:024x}", PROVENANCE_CAP + 5))
        .is_some());
}

#[test]
fn runtime_test_provenance_eviction() {
    let mut tracker = ProvenanceTracker::new();

    // Insert more than PROVENANCE_CAP entries
    for i in 0..PROVENANCE_CAP + 10 {
        tracker.record(
            "/tmp/test-repo",
            &format!("h{:024x}", i),
            HandleProvenance {
                source: HandleSource::Local,
                generation: None,
                repo_id: None,
                file_path: "src/test.rs".to_string(),
                node_type: NodeType::Function,
                token_count: 10,
            },
        );
    }

    let result = QueryResult {
        handles: vec![],
        ref_handles: None,
        total_tokens: 0,
        truncated: false,
        total_matches: 0,
        auto_expanded: false,
        expand_note: None,
    };
    record_provenance_for_result(
        &mut tracker,
        "/tmp/test-repo",
        &result,
        HandleSource::Local,
        None,
        &None,
    );

    assert!(tracker.len() <= PROVENANCE_CAP);
}
