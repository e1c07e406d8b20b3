use task_store::policy::origin_allowed;

#[test]
fn localhost_origins_are_let_in() {
    assert!(origin_allowed(b"http://localhost"));
    assert!(origin_allowed(b"http://localhost:3000"));
    assert!(origin_allowed(b"http://localhost.example.com"));
}

#[test]
fn null_origin_is_let_in() {
    assert!(origin_allowed(b"null"));
}

#[test]
fn other_origins_are_kept_out() {
    assert!(!origin_allowed(b""));
    assert!(!origin_allowed(b"https://localhost"));
    assert!(!origin_allowed(b"http://localhos"));
    assert!(!origin_allowed(b"http://127.0.0.1:8080"));
    assert!(!origin_allowed(b"https://example.com"));
    assert!(!origin_allowed(b"nul"));
    assert!(!origin_allowed(b"null "));
    assert!(!origin_allowed(b"Null"));
    assert!(!origin_allowed(b"nulx"));
    assert!(!origin_allowed(b" http://localhost"));
}
