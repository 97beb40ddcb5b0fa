use canopy::commands::{build_query_params, ignored_warning, parse_kind, parse_match_mode, query_input, QueryArgs};
use canopy::dirty::{
    compute_fingerprint, needs_rebuild, rebuild_local_index, DirtyFile, DirtyState, DirtyStatus,
    RebuildStep,
};
use canopy::document::{NodeType, RefType};
use canopy::error::{CanopyError, ErrorEnvelope};
use canopy::feedback::{excess_events, retention_cutoff};
use canopy::generation::{Generation, RepoShard, ShardStatus};
use canopy::handle::{Handle, HandleId, HandleSource, RefHandle};
use canopy::index::ExpandedHandleDetail;
use canopy::merge::{merge_results, overlap};
use canopy::output::{error_fields, repo_line, result_lines, summary_lines, Line, Style};
use canopy::predict::{check_braces, extract_extensions_from_glob, predict_globs, rerank_globs};
use canopy::protocol::{expand_request, expanded_pairs, ExpandResponse, ExpandedContent};
use canopy::provenance::{HandleProvenance, ProvenanceTracker};
use canopy::query::{MatchMode, QueryKind, QueryOptions, QueryParams, QueryResult};
use canopy::runtime::dispatch::{answer_query, plan_overlay, Generations};
use canopy::runtime::expand::{
    batch_generation, ExpandReply, ExpandRun, ExpandTask, ServiceHandle,
};
use canopy::runtime::feedback::{
    auto_expand_events, expand_events, missing_handle_ids, query_event, query_handles,
    record_provenance_for_evidence_pack, record_provenance_for_result, record_recently_expanded,
    recorded_contents, remember_query_event, DetailRun, DetailTask, EvidenceHandle,
};
use canopy::runtime::predictive::{entry_point_globs, plan_index, IndexPlan, PredictiveRun};
use canopy::runtime::{
    evidence_limits, pattern_fallback_params, query_input_text, require_service,
    rewrite_expand_suggestions, route, split_terms, QueryInput, Route,
};
use canopy::service_client::{
    after_resolve, after_wait, asks_again, connection_error, parse_error, poll_ready, reply_error,
    PollStep, ResolveStep, ServiceClient,
};

fn strings(items: &[&str]) -> Vec<String> {
    items.iter().map(|s| s.to_string()).collect()
}

fn handle(file: &str, lines: (usize, usize), tokens: usize) -> Handle {
    Handle::new(
        file.to_string(),
        NodeType::Function,
        lines.0 * 10..lines.1 * 10,
        lines,
        tokens,
        "pre \"view\"".to_string(),
    )
}

fn result(handles: Vec<Handle>) -> QueryResult {
    QueryResult {
        total_tokens: handles.iter().map(|h| h.token_count).sum(),
        total_matches: handles.len(),
        handles,
        ref_handles: None,
        truncated: false,
        auto_expanded: false,
        expand_note: None,
    }
}

fn reference(file: &str) -> RefHandle {
    RefHandle {
        file_path: file.to_string(),
        span: 0..1,
        line_range: (1, 2),
        name: "f".to_string(),
        qualifier: Some("q".to_string()),
        ref_type: RefType::Call,
        source_handle: Some(HandleId::from_raw("0a".to_string())),
        preview: "x".to_string(),
    }
}

fn provenance(source: HandleSource, repo_id: Option<&str>) -> HandleProvenance {
    HandleProvenance {
        source,
        generation: Some(4),
        repo_id: repo_id.map(str::to_string),
        file_path: "a.rs".to_string(),
        node_type: NodeType::Function,
        token_count: 9,
    }
}

fn shard(status: ShardStatus) -> RepoShard {
    RepoShard {
        repo_id: "r1".to_string(),
        repo_root: "/repo".to_string(),
        name: "repo".to_string(),
        commit_sha: Some("0123456789".to_string()),
        generation: Generation::from_value(3),
        status,
    }
}

fn no_args() -> QueryArgs {
    QueryArgs {
        query: None,
        pattern: None,
        patterns: None,
        symbol: None,
        section: None,
        parent: None,
        kind: None,
        glob: None,
        match_mode: None,
        expand_budget: None,
        limit: None,
    }
}

fn shown(lines: &[Line]) -> Vec<String> {
    lines
        .iter()
        .map(|line| line.pieces.iter().map(|p| p.text.as_str()).collect::<Vec<_>>().concat())
        .collect()
}

// ---------------------------------------------------------------------------
// Dirty files and merging
// ---------------------------------------------------------------------------

#[test]
fn fingerprints_do_not_depend_on_the_order() {
    let a = vec![("a.rs".to_string(), 1), ("b.rs".to_string(), 2)];
    let b = vec![("b.rs".to_string(), 2), ("a.rs".to_string(), 1)];
    let expected = "e23d57b10ab4e8fdd930810aa6c90e42d875532fde484c8879a8046c17f0fdf3";
    assert_eq!(compute_fingerprint(&a), expected);
    assert_eq!(compute_fingerprint(&b), expected);
    assert_ne!(compute_fingerprint(&vec![("a.rs".to_string(), 2)]), expected);
}

#[test]
fn rebuilds_follow_changes() {
    let file = |path: &str, status| DirtyFile {
        path: path.to_string(),
        status,
    };
    let state = DirtyState {
        files: vec![
            file("a.rs", DirtyStatus::Modified),
            file("b.rs", DirtyStatus::Deleted),
            file("c.rs", DirtyStatus::Added),
        ],
        fingerprint: "fp".to_string(),
    };
    assert!(needs_rebuild(&state, &None));
    assert!(needs_rebuild(&state, &Some("other".to_string())));
    assert!(!needs_rebuild(&state, &Some(" fp\n".to_string())));
    let steps: Vec<String> = rebuild_local_index(&state)
        .into_iter()
        .map(|step| match step {
            RebuildStep::Invalidate(path) => format!("-{}", path),
            RebuildStep::Index(path) => format!("+{}", path),
        })
        .collect();
    assert_eq!(steps, strings(&["-a.rs", "-b.rs", "-c.rs", "+a.rs", "+c.rs"]));
    assert_eq!(state.dirty_paths(), strings(&["a.rs", "b.rs", "c.rs"]));
}

#[test]
fn merging_prefers_local_results() {
    let mut local = result(vec![handle("dirty.rs", (1, 5), 3)]);
    local.ref_handles = Some(vec![reference("dirty.rs")]);
    let mut service = result(vec![handle("dirty.rs", (20, 30), 5), handle("clean.rs", (1, 2), 7)]);
    service.ref_handles = Some(vec![reference("clean.rs"), reference("dirty.rs")]);
    let merged = merge_results(local, service, &strings(&["dirty.rs"]));
    let files: Vec<&str> = merged.handles.iter().map(|h| h.file_path.as_str()).collect();
    assert_eq!(files, vec!["dirty.rs", "clean.rs"]);
    assert_eq!(merged.total_tokens, 10);
    let refs = merged.ref_handles.unwrap();
    assert_eq!(refs.len(), 2);
    assert_eq!(refs[1].file_path, "clean.rs");
}

#[test]
fn overlapping_ranges_are_replaced() {
    let local = result(vec![handle("dirty.rs", (1, 5), 3)]);
    let service = result(vec![handle("dirty.rs", (5, 9), 5), handle("dirty.rs", (20, 30), 7)]);
    let merged = overlap::merge_results(local, service, &strings(&["dirty.rs"]));
    let lines: Vec<(usize, usize)> = merged.handles.iter().map(|h| h.line_range).collect();
    assert_eq!(lines, vec![(1, 5), (20, 30)]);
}

// ---------------------------------------------------------------------------
// Prediction
// ---------------------------------------------------------------------------

#[test]
fn predictions_are_sorted_and_distinct() {
    let globs = predict_globs("LOGIN and login", &strings(&["rs", "rs"]));
    assert!(globs.windows(2).all(|w| w[0] < w[1]));
    assert!(globs.contains(&"**/main.rs".to_string()));
    assert_eq!(globs, predict_globs("login", &strings(&["rs"])));
}

#[test]
fn scores_move_globs_to_the_front() {
    let globs = strings(&["a", "b", "c", "d"]);
    let ranked = rerank_globs(&globs, &vec![None, Some(5), Some(-1), Some(5)]);
    assert_eq!(ranked, strings(&["b", "d", "a", "c"]));
    assert_eq!(rerank_globs(&globs, &vec![]), globs);
}

#[test]
fn extensions_come_from_globs() {
    assert_eq!(extract_extensions_from_glob("**/*.{a, b}"), strings(&["a", "b"]));
    assert_eq!(extract_extensions_from_glob("src/*.rs"), strings(&["rs"]));
    assert_eq!(extract_extensions_from_glob("src/**"), strings(&["ts", "js", "py", "rs"]));
    assert_eq!(extract_extensions_from_glob("*.x/*"), strings(&["ts", "js", "py", "rs"]));
    assert!(check_braces("{a}") && check_braces("{a") && !check_braces("}{"));
}

#[test]
fn predictive_passes_stop_when_enough_is_indexed() {
    assert_eq!(plan_index(0, 1000), IndexPlan::Everything);
    assert_eq!(plan_index(0, 1001), IndexPlan::Predicted);
    assert_eq!(plan_index(1000, 0), IndexPlan::Nothing);
    assert_eq!(plan_index(1001, 0), IndexPlan::Predicted);
    let mut run = PredictiveRun::start(strings(&["g1", "g2", "g3"]));
    assert_eq!(run.next().unwrap(), "g1");
    run.record(&Some(strings(&["a.rs", "b.rs"])), Some(499));
    assert_eq!(run.next().unwrap(), "g2");
    run.record(&Some(strings(&["b.rs", "c.rs"])), Some(1));
    assert!(run.next().is_none());
    let pending = run.finish();
    assert_eq!(pending.files_indexed, 500);
    let found = result(vec![handle("b.rs", (1, 2), 1), handle("c.rs", (1, 2), 1)]);
    let listed = query_handles(&found, &Some(pending));
    assert_eq!(listed[0].first_match_glob.as_deref(), Some("g1"));
    assert_eq!(listed[1].first_match_glob.as_deref(), Some("g2"));
    assert_eq!(entry_point_globs(0), strings(&["**/main.*", "**/index.*", "**/app.*"]));
    assert!(entry_point_globs(1).is_empty());
}

// ---------------------------------------------------------------------------
// The runtime
// ---------------------------------------------------------------------------

#[test]
fn expressions_go_past_the_service() {
    let dsl = QueryInput::Dsl("(grep \"x\")".to_string(), QueryOptions::new());
    let params = QueryInput::Params(QueryParams::symbol("f").with_glob("*.rs"));
    assert_eq!(route(false, &dsl), Route::Standalone);
    assert_eq!(route(true, &dsl), Route::PastService);
    assert_eq!(route(true, &params), Route::Service);
    assert_eq!(query_input_text(&dsl), "(grep \"x\")");
    assert_eq!(query_input_text(&params), "f *.rs");
    assert!(require_service(true).is_ok());
}

#[test]
fn overlays_need_dirty_files() {
    assert!(!plan_overlay(true, true).rebuild);
    assert!(!plan_overlay(true, true).query_local);
    assert!(plan_overlay(false, true).rebuild);
    assert!(plan_overlay(false, false).query_local);
}

#[test]
fn answers_record_where_handles_came_from() {
    let mut tracker = ProvenanceTracker::new();
    let mut generations = Generations::new();
    let mut found = handle("clean.rs", (1, 2), 3);
    found.generation = Some(7);
    let id = found.id.to_string();
    let local = handle("dirty.rs", (1, 2), 4);
    let local_id = local.id.to_string();
    let answer = answer_query(
        &mut tracker,
        &mut generations,
        "repo",
        "r1",
        result(vec![found.clone()]),
        Some(result(vec![local])),
        &strings(&["dirty.rs"]),
    );
    assert_eq!(answer.handles.len(), 2);
    let known = tracker.get("repo", &id).unwrap();
    assert_eq!(known.source, HandleSource::Service);
    assert_eq!((known.generation, known.repo_id.as_deref()), (Some(7), Some("r1")));
    assert_eq!(tracker.get("repo", &local_id).unwrap().source, HandleSource::Local);
    found.generation = Some(8);
    answer_query(
        &mut tracker,
        &mut generations,
        "repo",
        "r1",
        result(vec![found]),
        None,
        &vec![],
    );
    assert!(tracker.get("repo", &id).is_none());
    assert!(tracker.get("repo", &local_id).is_some());
}

#[test]
fn expansions_fall_back_to_single_handles() {
    let mut tracker = ProvenanceTracker::new();
    tracker.record("repo", "h1", provenance(HandleSource::Local, None));
    tracker.record("repo", "h2", provenance(HandleSource::Service, Some("old")));
    let mut run = ExpandRun::plan(&tracker, "repo", &strings(&["h1", "h2", "h1", "h3"]));
    assert!(matches!(run.next(), Some(ExpandTask::LocalBatch(ids)) if ids.len() == 1));
    run.answer(ExpandReply::Failed {
        repo_not_found: false,
    });
    assert!(matches!(run.next(), Some(ExpandTask::LocalOne(id)) if id == "h1"));
    run.answer(ExpandReply::Contents(vec![("h1".to_string(), "one".to_string())]));
    assert!(matches!(run.next(), Some(ExpandTask::ServiceResolve(_))));
    run.answer(ExpandReply::Repo("new".to_string()));
    assert!(matches!(run.next(), Some(ExpandTask::ServiceBatch(repo, _)) if repo == "new"));
    run.answer(ExpandReply::Failed {
        repo_not_found: false,
    });
    match run.next() {
        Some(ExpandTask::ServiceOne(repo, id, generation)) => {
            assert_eq!((repo.as_str(), id.as_str(), *generation), ("old", "h2", Some(4)));
        }
        _ => panic!("Expected ServiceOne"),
    }
    run.answer(ExpandReply::Failed {
        repo_not_found: false,
    });
    assert!(matches!(run.next(), Some(ExpandTask::UnknownLocal(id)) if id == "h3"));
    run.answer(ExpandReply::Failed {
        repo_not_found: false,
    });
    assert!(matches!(run.next(), Some(ExpandTask::UnknownResolve(_))));
    run.answer(ExpandReply::Repo("new".to_string()));
    assert!(matches!(run.next(), Some(ExpandTask::UnknownReady(_, repo)) if repo == "new"));
    run.answer(ExpandReply::Ready);
    assert!(matches!(run.next(), Some(ExpandTask::ServiceOne(_, _, None))));
    run.answer(ExpandReply::Contents(vec![("h3".to_string(), "three".to_string())]));
    assert!(run.next().is_none());
    let outcome = run.finish().unwrap();
    assert_eq!(outcome.contents.len(), 2);
    assert_eq!(outcome.failed_ids, strings(&["h2"]));
}

#[test]
fn expansions_refresh_unknown_repositories() {
    let mut tracker = ProvenanceTracker::new();
    tracker.record("repo", "h2", provenance(HandleSource::Service, Some("old")));
    let mut run = ExpandRun::plan(&tracker, "repo", &strings(&["h2"]));
    run.answer(ExpandReply::Repo("r".to_string()));
    run.answer(ExpandReply::Failed {
        repo_not_found: true,
    });
    assert!(matches!(run.next(), Some(ExpandTask::ServiceRefresh(_))));
    run.answer(ExpandReply::Repo("fresh".to_string()));
    assert!(matches!(run.next(), Some(ExpandTask::ServiceOne(repo, _, _)) if repo == "fresh"));
    run.answer(ExpandReply::Failed {
        repo_not_found: true,
    });
    match run.finish() {
        Err(CanopyError::HandleNotFound(ids)) => assert_eq!(ids, "h2"),
        _ => panic!("Expected HandleNotFound"),
    }
    let none = ExpandRun::plan(&tracker, "repo", &vec![]);
    assert!(none.finish().unwrap().contents.is_empty());
}

#[test]
fn queries_leave_events() {
    let mut first = handle("a.rs", (1, 2), 3);
    first.content = Some("body".to_string());
    let found = result(vec![first, handle("b.rs", (1, 2), 4)]);
    let event = query_event("text", &None, &found);
    assert_eq!((event.handles_returned, event.total_tokens, event.files_indexed), (2, 7, 0));
    assert!(event.predicted_globs.is_none());
    let events = auto_expand_events(&found, 9);
    assert_eq!(events.len(), 1);
    assert_eq!((events[0].query_event_id, events[0].auto_expanded), (Some(9), true));
    let mut tracker = ProvenanceTracker::new();
    remember_query_event(&mut tracker, "repo", &found, 9);
    assert_eq!(tracker.query_event_id("repo", &found.handles[1].id.to_string()), Some(9));
}

#[test]
fn expansions_leave_events() {
    let mut tracker = ProvenanceTracker::new();
    tracker.record("repo", "h1", provenance(HandleSource::Service, None));
    let contents = vec![
        ("h1".to_string(), "one".to_string()),
        ("h2".to_string(), "two".to_string()),
        ("h3".to_string(), "Hello, world!".to_string()),
    ];
    assert_eq!(recorded_contents(&tracker, "repo", &contents, false).len(), 3);
    assert!(recorded_contents(&tracker, "repo", &contents, true).is_empty());
    let missing = missing_handle_ids(&tracker, "repo", &contents);
    assert_eq!(missing, strings(&["h2", "h3"]));
    let mut run = DetailRun::start(missing);
    assert!(matches!(run.tasks.first(), Some(DetailTask::Batch(ids)) if ids.len() == 2));
    run.answer(None);
    assert!(matches!(run.tasks.first(), Some(DetailTask::One(id)) if id == "h2"));
    run.answer(Some(vec![ExpandedHandleDetail {
        handle_id: "h2".to_string(),
        file_path: "b.rs".to_string(),
        node_type: NodeType::Class,
        token_count: 5,
        content: "two".to_string(),
    }]));
    run.answer(None);
    assert!(run.tasks.is_empty());
    tracker.record_query_event("repo", "h1", 8);
    let events = expand_events(&tracker, "repo", &contents, &run.details);
    assert_eq!(events[0].file_path, "a.rs");
    assert_eq!(events[0].query_event_id, Some(8));
    assert_eq!((events[1].node_type, events[1].token_count), (NodeType::Class, 5));
    assert_eq!(events[2].file_path, "<unknown>");
    assert_eq!((events[2].node_type, events[2].token_count), (NodeType::Chunk, 4));
    record_recently_expanded(&mut tracker, "repo", &contents);
    assert!(tracker.was_recently_expanded("repo", "h3"));
}

#[test]
fn results_keep_their_own_generation() {
    let mut tracker = ProvenanceTracker::new();
    let mut found = handle("a.rs", (1, 2), 3);
    found.generation = Some(2);
    let id = found.id.to_string();
    let found = result(vec![found]);
    let service = HandleSource::Service;
    record_provenance_for_result(&mut tracker, "repo", &found, service, None, &None);
    assert_eq!(tracker.get("repo", &id).unwrap().generation, Some(2));
    record_provenance_for_result(&mut tracker, "repo", &found, service, Some(5), &None);
    assert_eq!(tracker.get("repo", &id).unwrap().generation, Some(5));
}

#[test]
fn suggestions_put_fresh_handles_first() {
    let mut tracker = ProvenanceTracker::new();
    tracker.mark_expanded("repo", "h1");
    let ids = strings(&["h1", "h2", "h3"]);
    let suggested = rewrite_expand_suggestions(&tracker, "repo", strings(&["h1", "h2"]), &ids);
    assert_eq!(suggested.len(), 2);
    assert_eq!(suggested[0], "h2");
}

#[test]
fn patterns_fall_back_to_their_terms() {
    assert_eq!(split_terms("Foo_bar, baz! foo_bar"), strings(&["foo_bar", "baz"]));
    assert!(pattern_fallback_params(&QueryParams::symbol("a b")).is_none());
    assert_eq!(evidence_limits(0, 100), (1, 8));
    assert_eq!(evidence_limits(100, 0), (64, 1));
}

#[test]
fn old_events_are_dropped() {
    assert_eq!(retention_cutoff(2_592_001), 1);
    assert_eq!(excess_events(12, 10), 2);
    assert_eq!(excess_events(10, 10), 0);
}

// ---------------------------------------------------------------------------
// The service
// ---------------------------------------------------------------------------

#[test]
fn repositories_become_ready() {
    let look = |status, elapsed| poll_ready(&vec![shard(status)], "r1", elapsed, 300);
    assert!(matches!(look(ShardStatus::Ready, 0), PollStep::Ready));
    assert!(matches!(look(ShardStatus::Pending, 299_999), PollStep::Wait));
    assert!(matches!(
        look(ShardStatus::Indexing, 300_000),
        PollStep::Failed(CanopyError::ServiceError { code, message, .. })
            if code == "timeout" && message == "Repo r1 still indexing after 300s"
    ));
    assert!(matches!(
        look(ShardStatus::Error, 0),
        PollStep::Failed(CanopyError::ServiceError { code, .. }) if code == "index_error"
    ));
    assert!(matches!(
        poll_ready(&vec![], "r1", 0, 300),
        PollStep::Failed(CanopyError::ServiceError { code, .. }) if code == "repo_not_found"
    ));
}

#[test]
fn repositories_are_registered_anew_once() {
    let unknown = || reply_error(404, "404 Not Found", Some(ErrorEnvelope::new("repo_not_found", "", "")));
    assert!(matches!(
        after_resolve(Ok("r1".to_string()), false),
        ResolveStep::EnsureReady { fresh: false, .. }
    ));
    assert!(matches!(after_resolve(Err(unknown()), false), ResolveStep::Failed(_)));
    assert!(matches!(after_wait("r1".to_string(), false, Err(unknown())), ResolveStep::Refresh));
    assert!(matches!(after_wait("r1".to_string(), true, Err(unknown())), ResolveStep::Failed(_)));
    assert!(matches!(after_wait("r1".to_string(), true, Ok(())), ResolveStep::Done(id) if id == "r1"));
    assert!(asks_again(&unknown(), false) && !asks_again(&unknown(), true));
    assert!(!asks_again(&CanopyError::NotInitialized, false));
}

#[test]
fn service_errors_say_what_happened() {
    assert_eq!(
        connection_error("refused").to_string(),
        "Service error [connection_error]: refused \u{2014} Is canopy-service running?"
    );
    assert_eq!(
        parse_error("eof").to_string(),
        "Service error [parse_error]: eof \u{2014} Unexpected response from service"
    );
    assert_eq!(
        reply_error(502, "502 Bad Gateway", None).to_string(),
        "Service error [http_502]: HTTP 502 Bad Gateway from service \u{2014} Check service logs"
    );
}

#[test]
fn clients_remember_repositories() {
    let mut client = ServiceClient::new("http://h//", Some("k".to_string()));
    assert_eq!(client.url("/query"), "http://h/query");
    assert_eq!(client.api_key_header(), Some(("x-api-key", "k".to_string())));
    assert!(client.cached_repo_id("/repo").is_none());
    client.remember_repo_id("/repo", "r1".to_string());
    assert_eq!(client.cached_repo_id("/repo").as_deref(), Some("r1"));
    client.forget_repo_id("/repo");
    assert!(client.cached_repo_id("/repo").is_none());
}

#[test]
fn requests_name_handles_and_generation() {
    let request = expand_request("r1", &strings(&["h1", "h2"]), Some(3));
    assert_eq!(request.repo, "r1");
    assert_eq!(request.handles[1].id, "h2");
    assert_eq!(request.handles[1].generation, Some(3));
    let response = ExpandResponse {
        contents: vec![ExpandedContent {
            handle_id: "h1".to_string(),
            content: "c".to_string(),
        }],
    };
    assert_eq!(expanded_pairs(&response), vec![("h1".to_string(), "c".to_string())]);
}

// ---------------------------------------------------------------------------
// The command line
// ---------------------------------------------------------------------------

#[test]
fn arguments_make_queries() {
    let mut args = no_args();
    assert!(matches!(
        query_input(&args),
        Err(CanopyError::QueryParse { position: 0, message }) if message.starts_with("Must provide")
    ));
    args.query = Some("(grep \"x\")".to_string());
    args.glob = Some("*.rs".to_string());
    args.kind = Some("any".to_string());
    args.limit = Some(3);
    assert!(matches!(
        query_input(&args),
        Ok(QueryInput::Dsl(dsl, QueryOptions { limit: Some(3), expand_budget: None })) if dsl == "(grep \"x\")"
    ));
    assert_eq!(
        ignored_warning(&args).unwrap(),
        "Warning: --glob, --kind ignored in DSL query mode. Use structured flags \
         (--pattern/--symbol) or encode in the query expression."
    );
    args.symbol = Some("f".to_string());
    args.kind = Some("definition".to_string());
    args.match_mode = Some("all".to_string());
    assert!(ignored_warning(&args).is_none());
    let params = build_query_params(&args).unwrap();
    assert_eq!(params.symbol.as_deref(), Some("f"));
    assert_eq!((params.kind, params.match_mode), (QueryKind::Definition, MatchMode::All));
    assert!(matches!(query_input(&args), Ok(QueryInput::Params(_))));
    assert_eq!(parse_kind("reference"), QueryKind::Reference);
    assert_eq!(parse_kind("x"), QueryKind::Any);
    assert_eq!(parse_match_mode("any"), MatchMode::Any);
}

#[test]
fn results_are_shown_by_line() {
    let mut first = handle("a.rs", (1, 2), 3);
    first.content = Some("body".to_string());
    let second = handle("b.rs", (3, 4), 4);
    let (first_id, second_id) = (first.id.to_string(), second.id.to_string());
    let found = result(vec![first, second]);
    assert_eq!(
        shown(&result_lines(&found)),
        vec![
            format!("{}: a.rs:1-2 [3 tokens]", first_id),
            "body".to_string(),
            String::new(),
            format!("{}: b.rs:3-4 [4 tokens] \"pre \\\"view\\\"\"", second_id),
        ]
    );
    let mut refs = result(vec![]);
    refs.ref_handles = Some(vec![reference("a.rs")]);
    assert_eq!(
        shown(&result_lines(&refs)),
        vec!["ref: a.rs:1-2 q.f (call) \"x\"".to_string(), " in h0a".to_string()]
    );
    let mut cut = found;
    cut.truncated = true;
    cut.total_matches = 9;
    cut.auto_expanded = true;
    cut.expand_note = Some("note".to_string());
    assert_eq!(
        shown(&summary_lines(&cut)),
        strings(&[
            "... (truncated showing 2 of 9 results)",
            "Note: note",
            "(2 results, 7 tokens, auto-expanded)"
        ])
    );
}

#[test]
fn repositories_are_shown_by_line() {
    let line = repo_line(&shard(ShardStatus::Ready));
    assert_eq!(
        shown(std::slice::from_ref(&line)),
        vec!["r1: repo [ready] (gen 3 @ 01234567) \u{2014} /repo".to_string()]
    );
    assert_eq!(line.pieces[0].style, Style::Cyan);
    let mut named = shard(ShardStatus::Pending);
    named.name = "/repo".to_string();
    named.commit_sha = None;
    assert_eq!(
        shown(std::slice::from_ref(&repo_line(&named))),
        vec!["r1: /repo [pending] (gen 3)".to_string()]
    );
}

#[test]
fn errors_have_fields() {
    assert_eq!(
        error_fields(&connection_error("x")),
        (
            "connection_error".to_string(),
            "x".to_string(),
            "Is canopy-service running?".to_string()
        )
    );
    assert_eq!(
        error_fields(&CanopyError::HandleNotFound("h1".to_string())),
        ("error".to_string(), "Handle not found: h1".to_string(), String::new())
    );
}

#[test]
fn batch_is_asked_for_the_generation_of_its_first_handle() {
    let one = |id: &str, generation: Option<u64>| ServiceHandle {
        id: id.to_string(),
        generation,
        repo_id: None,
    };
    assert_eq!(batch_generation(&vec![one("a", Some(3)), one("b", Some(4))]), Some(3));
    assert_eq!(batch_generation(&vec![one("a", None), one("b", Some(4))]), None);
    assert_eq!(batch_generation(&vec![]), None);
}

#[test]
fn evidence_handles_are_traced() {
    let evidence = |id: &str, source: HandleSource| EvidenceHandle {
        id: id.to_string(),
        file_path: "a.rs".to_string(),
        node_type: NodeType::Function,
        token_count: 7,
        source,
        generation: Some(2),
    };
    let mut tracker = ProvenanceTracker::new();
    let handles =
        vec![evidence("h1", HandleSource::Local), evidence("h2", HandleSource::Service)];
    record_provenance_for_evidence_pack(&mut tracker, "repo", &handles, &Some("id".to_string()));
    let local = tracker.get("repo", "h1").unwrap();
    assert_eq!(local.source, HandleSource::Local);
    assert_eq!(local.repo_id, None);
    let service = tracker.get("repo", "h2").unwrap();
    assert_eq!(service.source, HandleSource::Service);
    assert_eq!(service.repo_id, Some("id".to_string()));
    assert_eq!(service.generation, Some(2));
    assert_eq!(service.token_count, 7);
    assert!(tracker.get("other", "h1").is_none());
}
