use rapr::scoped::Scoped;

#[test]
fn test_is_app_scoped_empty_scopes() {
    let scoped = Scoped::new();
    assert!(scoped.is_app_scoped("any-app"));
}

#[test]
fn test_is_app_scoped_with_matching_scope() {
    let scoped = Scoped::with_scopes(vec!["app1".to_string(), "app2".to_string()]);
    assert!(scoped.is_app_scoped("app1"));
    assert!(scoped.is_app_scoped("app2"));
}

#[test]
fn test_is_app_scoped_with_non_matching_scope() {
    let scoped = Scoped::with_scopes(vec!["app1".to_string(), "app2".to_string()]);
    assert!(!scoped.is_app_scoped("app3"));
}

#[test]
fn test_is_app_scoped_exact_match_only() {
    // No prefix, suffix or case-folding semantics.
    let scoped = Scoped::with_scopes(vec!["app1".to_string()]);
    assert!(!scoped.is_app_scoped("app"));
    assert!(!scoped.is_app_scoped("app11"));
    assert!(!scoped.is_app_scoped("APP1"));
    assert!(!scoped.is_app_scoped(" app1"));
}

#[test]
fn test_scoped_default_allows_all() {
    let scoped = Scoped::default();
    assert!(scoped.is_app_scoped(""));
    assert!(scoped.is_app_scoped("whatever"));
}

#[test]
fn test_scoped_clone() {
    let scoped = Scoped::with_scopes(vec!["app1".to_string()]);
    let copy = scoped.clone();
    assert!(copy.is_app_scoped("app1"));
    assert!(!copy.is_app_scoped("app2"));
}
