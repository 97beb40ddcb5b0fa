use canopy::error::{is_error_code, CanopyError};
use canopy::runtime::require_service;
use canopy::service_client::ServiceClient;

#[test]
fn service_client_new_trims_trailing_slash() {
    let client = ServiceClient::new("http://localhost:3000/", None);
    assert_eq!(client.base_url, "http://localhost:3000");
}

#[test]
fn service_client_new_preserves_url_without_trailing_slash() {
    let client = ServiceClient::new("http://localhost:3000", None);
    assert_eq!(client.base_url, "http://localhost:3000");
}

#[test]
fn service_client_stores_api_key() {
    let client = ServiceClient::new("http://localhost:3000", Some("secret-key".to_string()));
    assert_eq!(client.api_key, Some("secret-key".to_string()));
}

#[test]
fn is_error_code_matches_service_error() {
    let err = CanopyError::ServiceError {
        code: "repo_not_found".to_string(),
        message: "not found".to_string(),
        hint: "register it".to_string(),
    };
    assert!(is_error_code(&err, "repo_not_found"));
    assert!(!is_error_code(&err, "stale_generation"));
}

#[test]
fn is_error_code_returns_false_for_non_service_errors() {
    let err = CanopyError::HandleNotFound("h1".to_string());
    assert!(!is_error_code(&err, "handle_not_found"));

    let err = CanopyError::InvalidHandle("bad".to_string());
    assert!(!is_error_code(&err, "invalid_handle"));
}

#[test]
fn mod_test_list_repos_without_service() {
    let err = require_service(false).unwrap_err();
    assert!(matches!(err, CanopyError::NoServiceConfigured));
}

#[test]
fn mod_test_service_status_without_service() {
    let err = require_service(false).unwrap_err();
    assert!(matches!(err, CanopyError::NoServiceConfigured));
}

#[test]
fn mod_test_reindex_by_id_without_service() {
    let err = require_service(false).unwrap_err();
    assert!(matches!(err, CanopyError::NoServiceConfigured));
}
