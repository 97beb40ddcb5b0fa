use canopy::json::JsonObject;
use canopy::predict::{extract_extensions_from_glob, extract_query_text, predict_globs};

fn json(text: &str) -> JsonObject {
    JsonObject::parse(text).unwrap()
}

#[test]
fn test_predict_auth_query() {
    let globs = predict_globs("How does authentication work?", &vec!["ts".to_string()]);
    assert!(globs.iter().any(|g| g.contains("auth")));
    assert!(globs.iter().any(|g| g.contains("login")));
}

#[test]
fn test_predict_database_query() {
    let globs = predict_globs("database query optimization", &vec!["ts".to_string()]);
    assert!(globs
        .iter()
        .any(|g| g.contains("db") || g.contains("database")));
}

#[test]
fn test_fallback_on_no_keywords() {
    let globs = predict_globs("explain this", &vec!["ts".to_string()]);
    // Should include src/** and entry points
    assert!(globs.iter().any(|g| g.contains("src/")));
    assert!(globs.iter().any(|g| g.contains("main.ts")));
}

#[test]
fn test_extract_extensions() {
    assert_eq!(
        extract_extensions_from_glob("**/*.{ts,tsx}"),
        vec!["ts", "tsx"]
    );
    assert_eq!(extract_extensions_from_glob("**/*.rs"), vec!["rs"]);
}

#[test]
fn test_extract_query_text_pattern() {
    let args = json("{ \"pattern\": \"authentication\" }");
    assert_eq!(extract_query_text(&args), "authentication");
}

#[test]
fn test_extract_query_text_patterns() {
    let args = json("{ \"patterns\": [\"auth\", \"login\"] }");
    assert_eq!(extract_query_text(&args), "auth login");
}

#[test]
fn test_extract_query_text_empty() {
    let args = json("{}");
    assert_eq!(extract_query_text(&args), "");
}
