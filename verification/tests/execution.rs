use canopy::document::{NodeType, RefType};
use canopy::error::CanopyError;
use canopy::handle::{Handle, HandleId, RefHandle};
use canopy::query::execute::{
    check_limits, check_plan, execute_query_internal, filter_by_glob, finish_query, plan_expansion,
    plan_query, reference_result, result_limit, search_requests, select_handles, sum_tokens,
    try_reference_result, Expansion, QueryPlan, SearchRequest,
};
use canopy::query::parser::parse_query;
use canopy::query::{MatchMode, Query, QueryKind, QueryOptions, QueryParams};

fn handle(file: &str, start: usize, tokens: usize) -> Handle {
    Handle::new(
        file.to_string(),
        NodeType::Function,
        start..start + 1,
        (1, 1),
        tokens,
        "p".to_string(),
    )
}

fn reference(preview: &str) -> RefHandle {
    RefHandle {
        file_path: "a.rs".to_string(),
        span: 0..1,
        line_range: (1, 1),
        name: "n".to_string(),
        qualifier: None,
        ref_type: RefType::Call,
        source_handle: None,
        preview: preview.to_string(),
    }
}

fn failure() -> CanopyError {
    CanopyError::Database("down".to_string())
}

fn ids(handles: &[Handle]) -> Vec<String> {
    handles.iter().map(|h| h.id.to_string()).collect()
}

fn error_at(input: &str) -> (usize, String) {
    match parse_query(input) {
        Err(CanopyError::QueryParse { position, message }) => (position, message),
        _ => panic!("Expected a parse error"),
    }
}

#[test]
fn parse_errors_name_their_position() {
    assert_eq!(error_at(" \n "), (0, "Empty query".to_string()));
    assert_eq!(error_at("  section"), (0, "Expected '('".to_string()));
    assert_eq!(error_at("(in-file \"g\" x)"), (13, "Expected '('".to_string()));
    assert_eq!(error_at("()"), (1, "Expected identifier".to_string()));
    assert_eq!(error_at("(find \"x\")"), (5, "Unknown operator: find".to_string()));
    assert_eq!(error_at("(grep x)"), (6, "Expected '\"'".to_string()));
    assert_eq!(error_at("(grep \"x"), (8, "Unterminated string".to_string()));
    assert_eq!(error_at("(grep \"x\" \"y\")"), (10, "Expected ')'".to_string()));
    assert_eq!(error_at("(limit x (grep \"a\"))"), (7, "Expected number".to_string()));
    assert_eq!(
        error_at("(limit 99999999999999999999999 (grep \"a\"))").1,
        "Expected number"
    );
    assert_eq!(error_at("(union (grep \"a\")").1, "Expected '('");
}

#[test]
fn parse_reads_every_operator() {
    assert!(matches!(parse_query("(children \"A\")"), Ok(Query::Children(p)) if p == "A"));
    assert!(matches!(
        parse_query("(children-named \"A\" \"b\")"),
        Ok(Query::ChildrenNamed(p, s)) if p == "A" && s == "b"
    ));
    assert!(matches!(parse_query("(definition \"f\")"), Ok(Query::Definition(s)) if s == "f"));
    assert!(matches!(parse_query("(references \"f\")"), Ok(Query::References(s)) if s == "f"));
    assert!(matches!(parse_query("(file \"f\") and more"), Ok(Query::File(f)) if f == "f"));
    assert!(matches!(parse_query("(union)"), Ok(Query::Union(qs)) if qs.is_empty()));
    assert!(matches!(parse_query("\t( grep\n\"\\\"\\t\\\\\" )"), Ok(Query::Grep(s)) if s == "\"\t\\"));
}

#[test]
fn parameters_make_queries() {
    let query = |p: QueryParams| p.to_query().unwrap();
    assert!(matches!(query(QueryParams::parent("A")), Query::Children(p) if p == "A"));
    assert!(matches!(
        query(QueryParams::symbol("f").with_parent("A")),
        Query::ChildrenNamed(p, s) if p == "A" && s == "f"
    ));
    assert!(matches!(
        query(QueryParams::symbol("f").with_kind(QueryKind::Definition)),
        Query::Definition(s) if s == "f"
    ));
    assert!(matches!(
        query(QueryParams::symbol("f").with_kind(QueryKind::Reference)),
        Query::References(s) if s == "f"
    ));
    assert!(QueryParams::pattern("x").with_kind(QueryKind::Reference).to_query().is_err());
    let one = QueryParams::patterns(vec!["a".to_string()]).with_match_mode(MatchMode::All);
    assert!(matches!(query(one), Query::Intersect(qs) if qs.len() == 1));
    match query(QueryParams::pattern("x").with_glob("*.rs").with_limit(3)) {
        Query::Limit(3, inner) => assert!(matches!(*inner, Query::InFile(_, _))),
        _ => panic!("Expected Limit"),
    }
}

#[test]
fn searches_are_listed_in_order() {
    let query = parse_query(
        "(union (in-file \"*.rs\" (grep \"a\")) (in-file \"*.rs\" (code \"b\")) (limit 3 (section \"c\")))",
    )
    .unwrap();
    let requests = search_requests(&query, 10);
    assert_eq!(requests.len(), 3);
    assert!(matches!(&requests[0], SearchRequest::InFiles { limit: 10, .. }));
    assert!(matches!(&requests[1], SearchRequest::Code { limit: 20, .. }));
    assert!(matches!(&requests[2], SearchRequest::Sections { limit: 3, .. }));
    let query = parse_query("(intersect (file \"f\") (references \"r\"))").unwrap();
    let requests = search_requests(&query, 10);
    assert!(matches!(&requests[0], SearchRequest::File { .. }));
    assert!(matches!(&requests[1], SearchRequest::ReferenceSources { limit: 20, .. }));
}

#[test]
fn limits_can_be_too_large() {
    let query = parse_query("(intersect (grep \"a\"))").unwrap();
    assert!(check_limits(&query, usize::MAX / 2));
    assert!(!check_limits(&query, usize::MAX));
    let options = QueryOptions::new().with_limit(usize::MAX);
    assert!(!check_plan(&Query::Grep("a".to_string()), &options, 1));
    assert_eq!(result_limit(&options, 1), usize::MAX);
    assert_eq!(result_limit(&QueryOptions::new(), 7), 7);
}

#[test]
fn plans_double_the_limit() {
    let options = QueryOptions::new().with_limit(5);
    match plan_query(&Query::References("f".to_string()), &options, 100) {
        QueryPlan::References {
            symbol,
            search_limit,
            limit,
        } => assert_eq!((symbol.as_str(), search_limit, limit), ("f", 10, 5)),
        _ => panic!("Expected References"),
    }
    match plan_query(&Query::Grep("f".to_string()), &QueryOptions::new(), 100) {
        QueryPlan::Searches {
            requests,
            search_limit,
            limit,
        } => {
            assert_eq!((search_limit, limit), (200, 100));
            assert!(matches!(&requests[0], SearchRequest::Text { limit: 200, .. }));
        }
        _ => panic!("Expected Searches"),
    }
}

#[test]
fn union_keeps_the_first_of_each() {
    let query = parse_query("(union (grep \"a\") (grep \"b\"))").unwrap();
    let (a, b, c) = (handle("a", 0, 1), handle("b", 0, 1), handle("c", 0, 1));
    let answers = vec![vec![a.clone(), b.clone(), a.clone()], vec![b.clone(), c.clone()]];
    let found = execute_query_internal(&query, 10, &answers, failure()).unwrap();
    assert_eq!(ids(&found), ids(&[a.clone(), b.clone(), c]));
    let found = execute_query_internal(&query, 2, &answers, failure()).unwrap();
    assert_eq!(ids(&found), ids(&[a, b]));
}

#[test]
fn intersection_keeps_what_all_found() {
    let query = parse_query("(intersect (grep \"a\") (grep \"b\"))").unwrap();
    let (a, b, c) = (handle("a", 0, 1), handle("b", 0, 1), handle("c", 0, 1));
    let answers = vec![vec![a.clone(), b.clone(), c.clone()], vec![c.clone(), a.clone()]];
    let found = execute_query_internal(&query, 10, &answers, failure()).unwrap();
    assert_eq!(ids(&found), ids(&[a.clone(), c]));
    let found = execute_query_internal(&query, 1, &answers, failure()).unwrap();
    assert_eq!(ids(&found), ids(&[a]));
    let none = parse_query("(intersect)").unwrap();
    assert!(execute_query_internal(&none, 10, &vec![], failure()).unwrap().is_empty());
}

#[test]
fn globs_filter_and_limits_cut() {
    let (a, b) = (handle("src/a.rs", 0, 1), handle("doc/b.md", 0, 1));
    let query = parse_query("(in-file \"src/*\" (code \"x\"))").unwrap();
    let answers = vec![vec![b.clone(), a.clone()]];
    let found = execute_query_internal(&query, 10, &answers, failure()).unwrap();
    assert_eq!(ids(&found), ids(&[a.clone()]));
    let query = parse_query("(limit 1 (grep \"x\"))").unwrap();
    let found = execute_query_internal(&query, 10, &answers, failure()).unwrap();
    assert_eq!(ids(&found), ids(&[b.clone()]));
    assert_eq!(filter_by_glob(&vec![a.clone(), b], "**/*.rs").unwrap().len(), 1);
    assert!(filter_by_glob(&vec![a], "[").is_err());
}

#[test]
fn failures_come_in_order() {
    let query = parse_query("(union (in-file \"[\" (code \"x\")) (grep \"y\"))").unwrap();
    let answers = vec![vec![handle("a", 0, 1)]];
    assert!(matches!(
        execute_query_internal(&query, 10, &answers, failure()),
        Err(CanopyError::GlobPattern(_))
    ));
    assert!(matches!(
        execute_query_internal(&query, 10, &vec![], failure()),
        Err(CanopyError::Database(e)) if e == "down"
    ));
}

#[test]
fn results_are_cut_and_counted() {
    let found = vec![handle("a", 0, 3), handle("b", 0, 4), handle("c", 0, 5)];
    assert_eq!(sum_tokens(&found), Some(12));
    assert_eq!(sum_tokens(&vec![handle("a", 0, usize::MAX), handle("b", 0, 1)]), None);
    assert_eq!(select_handles(found.clone(), 2).len(), 2);
    let result = finish_query(found, 2, None, None);
    assert_eq!(result.handles.len(), 2);
    assert_eq!((result.total_tokens, result.total_matches), (7, 3));
    assert!(result.truncated && !result.auto_expanded);
    assert!(result.expand_note.is_none() && result.ref_handles.is_none());
}

#[test]
fn expansion_depends_on_the_budget() {
    let found = vec![handle("a", 0, 3), handle("b", 0, 4)];
    assert!(matches!(plan_expansion(&found, 7, None), Expansion::NotAsked));
    assert!(matches!(plan_expansion(&found, 7, Some(0)), Expansion::NotAsked));
    match plan_expansion(&found, 7, Some(7)) {
        Expansion::Wanted(wanted) => assert_eq!(wanted, ids(&found)),
        _ => panic!("Expected Wanted"),
    }
    match plan_expansion(&found, 7, Some(6)) {
        Expansion::Exceeded(note) => assert_eq!(
            note,
            "Results (7 tokens) exceed expand_budget (6). Use canopy_expand to retrieve specific handles."
        ),
        _ => panic!("Expected Exceeded"),
    }
    let contents = Some(vec![(found[1].id.to_string(), "body".to_string())]);
    let result = finish_query(found.clone(), 10, Some(7), contents);
    assert!(result.auto_expanded);
    assert!(result.handles[0].content.is_none());
    assert_eq!(result.handles[1].content.as_deref(), Some("body"));
    let result = finish_query(found, 10, Some(7), None);
    assert!(!result.auto_expanded);
    assert_eq!(result.expand_note.as_deref(), Some("Failed to expand handles"));
}

#[test]
fn references_count_their_previews() {
    let found = vec![reference("Hello, world!"), reference("Hello, world!"), reference("x")];
    let result = reference_result(found, 2);
    assert_eq!(result.total_tokens, 8);
    assert_eq!(result.total_matches, 3);
    assert!(result.truncated && result.handles.is_empty());
    assert_eq!(result.ref_handles.unwrap().len(), 2);
    assert!(try_reference_result(vec![], 2).is_some());
}

#[test]
fn ids_are_compared_without_prefix() {
    let mut twice = handle("a", 0, 1);
    twice.id = HandleId::from_raw("0a".to_string());
    let query = parse_query("(union (grep \"a\"))").unwrap();
    let answers = vec![vec![twice.clone(), twice]];
    assert_eq!(execute_query_internal(&query, 9, &answers, failure()).unwrap().len(), 1);
}
