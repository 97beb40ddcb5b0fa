use canopy::error::CanopyError;
use canopy::query::parser::parse_query;
use canopy::query::{MatchMode, Query, QueryParams};

#[test]
fn test_parse_section() {
    let query = parse_query("(section \"auth\")").unwrap();
    assert!(matches!(query, Query::Section(s) if s == "auth"));
}

#[test]
fn test_parse_grep() {
    let query = parse_query("(grep \"TODO\")").unwrap();
    assert!(matches!(query, Query::Grep(s) if s == "TODO"));
}

#[test]
fn test_parse_file() {
    let query = parse_query("(file \"README.md\")").unwrap();
    assert!(matches!(query, Query::File(s) if s == "README.md"));
}

#[test]
fn test_parse_code() {
    let query = parse_query("(code \"authenticate\")").unwrap();
    assert!(matches!(query, Query::Code(s) if s == "authenticate"));
}

#[test]
fn test_parse_in_file() {
    let query = parse_query("(in-file \"src/**/*.rs\" (grep \"error\"))").unwrap();
    assert!(matches!(query, Query::InFile(glob, _) if glob == "src/**/*.rs"));
}

#[test]
fn test_parse_union() {
    let query = parse_query("(union (grep \"TODO\") (grep \"FIXME\"))").unwrap();
    assert!(matches!(query, Query::Union(qs) if qs.len() == 2));
}

#[test]
fn test_parse_intersect() {
    let query = parse_query("(intersect (grep \"test\") (code \"validate\"))").unwrap();
    assert!(matches!(query, Query::Intersect(qs) if qs.len() == 2));
}

#[test]
fn test_parse_limit() {
    let query = parse_query("(limit 5 (grep \"TODO\"))").unwrap();
    assert!(matches!(query, Query::Limit(5, _)));
}

#[test]
fn test_parse_nested() {
    let query = parse_query(
        "(limit 10 (in-file \"src/*.rs\" (union (grep \"error\") (grep \"panic\"))))",
    )
    .unwrap();
    assert!(matches!(query, Query::Limit(10, _)));
}

#[test]
fn test_parse_escaped_string() {
    let query = parse_query("(grep \"line1\\nline2\")").unwrap();
    assert!(matches!(query, Query::Grep(s) if s == "line1\nline2"));
}

#[test]
fn test_parse_error_missing_paren() {
    let result = parse_query("section \"auth\"");
    assert!(result.is_err());
}

#[test]
fn test_parse_error_unknown_op() {
    let result = parse_query("(unknown \"arg\")");
    assert!(result.is_err());
}

#[test]
fn test_parse_error_unterminated_string() {
    let result = parse_query("(grep \"unterminated)");
    assert!(result.is_err());
}

#[test]
fn test_query_params_single_pattern() {
    let params = QueryParams::pattern("error");
    let query = params.to_query().unwrap();
    assert!(matches!(query, Query::Grep(s) if s == "error"));
}

#[test]
fn test_query_params_multi_pattern_default_match_mode() {
    let params = QueryParams::patterns(vec!["TODO".to_string(), "FIXME".to_string()]);
    let query = params.to_query().unwrap();
    match query {
        Query::Union(queries) => {
            assert_eq!(queries.len(), 2);
            assert!(matches!(&queries[0], Query::Grep(s) if s == "TODO"));
            assert!(matches!(&queries[1], Query::Grep(s) if s == "FIXME"));
        }
        _ => panic!("Expected Query::Union"),
    }
}

#[test]
fn test_query_params_multi_pattern_match_mode_all() {
    let params = QueryParams::patterns(vec!["auth".to_string(), "validate".to_string()])
        .with_match_mode(MatchMode::All);
    let query = params.to_query().unwrap();
    match query {
        Query::Intersect(queries) => {
            assert_eq!(queries.len(), 2);
            assert!(matches!(&queries[0], Query::Grep(s) if s == "auth"));
            assert!(matches!(&queries[1], Query::Grep(s) if s == "validate"));
        }
        _ => panic!("Expected Query::Intersect"),
    }
}

#[test]
fn test_query_params_symbol_search() {
    let params = QueryParams::symbol("authenticate");
    let query = params.to_query().unwrap();
    assert!(matches!(query, Query::Code(s) if s == "authenticate"));
}

#[test]
fn test_query_params_section_search() {
    let params = QueryParams::section("auth");
    let query = params.to_query().unwrap();
    assert!(matches!(query, Query::Section(s) if s == "auth"));
}

#[test]
fn test_query_params_with_glob() {
    let params = QueryParams::pattern("error").with_glob("src/*.rs");
    let query = params.to_query().unwrap();
    match query {
        Query::InFile(glob, inner) => {
            assert_eq!(glob, "src/*.rs");
            assert!(matches!(*inner, Query::Grep(s) if s == "error"));
        }
        _ => panic!("Expected Query::InFile"),
    }
}

#[test]
fn test_query_params_with_limit() {
    let params = QueryParams::pattern("error").with_limit(10);
    let query = params.to_query().unwrap();
    match query {
        Query::Limit(n, inner) => {
            assert_eq!(n, 10);
            assert!(matches!(*inner, Query::Grep(s) if s == "error"));
        }
        _ => panic!("Expected Query::Limit"),
    }
}

#[test]
fn test_query_params_with_expand_budget() {
    let params = QueryParams::pattern("error").with_expand_budget(5000);
    // expand_budget doesn't affect the Query, only QueryOptions
    let query = params.to_query().unwrap();
    assert!(matches!(query, Query::Grep(s) if s == "error"));
    // Verify expand_budget is in options
    let options = params.to_options();
    assert_eq!(options.expand_budget, Some(5000));
}

#[test]
fn test_query_params_empty_returns_error() {
    let params = QueryParams::new();
    let result = params.to_query();
    assert!(result.is_err());
    let err = result.unwrap_err();
    assert!(
        matches!(err, CanopyError::QueryParse { message, .. } if message.contains("Must specify"))
    );
}

#[test]
fn test_query_params_empty_patterns_returns_error() {
    let params = QueryParams::patterns(vec![]);
    let result = params.to_query();
    assert!(result.is_err());
    let err = result.unwrap_err();
    assert!(
        matches!(err, CanopyError::QueryParse { message, .. } if message.contains("Empty patterns"))
    );
}
