//! The pure route helpers and end-to-end Python endpoint detection.

use anchor::python::{is_api_url, normalize_url, strip_quotes};

#[test]
fn test_normalize_url() {
    assert_eq!(normalize_url("/api/users/{id}"), "/api/users/:param");
    assert_eq!(normalize_url("/api/users/<int:id>"), "/api/users/:param");
    assert_eq!(
        normalize_url("/api/items/<id>/comments/<cid>"),
        "/api/items/:param/comments/:param"
    );
}

#[test]
fn test_is_api_url() {
    assert!(is_api_url("/api/users"));
    assert!(is_api_url("/v1/products"));
    assert!(is_api_url("/users"));
    assert!(!is_api_url(""));
    assert!(!is_api_url("/static/styles.css"));
}

#[test]
fn test_strip_quotes() {
    assert_eq!(strip_quotes("\"/api/users\""), "/api/users");
    assert_eq!(strip_quotes("'/api/users'"), "/api/users");
    assert_eq!(strip_quotes("f\"/api/users/{id}\""), "/api/users/{id}");
}

#[test]
fn test_strip_quotes_short_and_triple() {
    assert_eq!(strip_quotes("x"), "x");
    assert_eq!(strip_quotes("  \"a\"  "), "a");
    assert_eq!(strip_quotes("\"\"\"doc\"\"\""), "doc");
}

#[test]
fn test_normalize_url_plain() {
    assert_eq!(normalize_url("/api/users"), "/api/users");
    assert_eq!(normalize_url("{unterminated"), ":param");
}
