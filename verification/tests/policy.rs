use ztunnel::policy::{matches_glob, PolicyAction, PolicyEngine, PolicyRule};

#[test]
fn test_exact_match() {
    assert!(matches_glob("/api/users", "/api/users"));
    assert!(!matches_glob("/api/users", "/api/posts"));
}

#[test]
fn test_wildcard() {
    assert!(matches_glob("/api/*", "/api/users"));
    assert!(!matches_glob("/api/*", "/api/users/123"));
}

#[test]
fn test_double_wildcard() {
    assert!(matches_glob("/admin/**", "/admin/settings"));
    assert!(matches_glob("/admin/**", "/admin/users/123/edit"));
}

#[test]
fn test_policy_engine() {
    let mut engine = PolicyEngine::new();
    engine.add_rule(PolicyRule {
        path_pattern: "/admin/**".into(),
        method: None,
        action: PolicyAction::Block(403),
    });
    engine.add_rule(PolicyRule {
        path_pattern: "/api/**".into(),
        method: Some("DELETE".into()),
        action: PolicyAction::RequireAuth,
    });

    assert!(matches!(engine.evaluate("/admin/settings", "GET"), PolicyAction::Block(403)));
    assert!(matches!(engine.evaluate("/api/users", "DELETE"), PolicyAction::RequireAuth));
    assert!(matches!(engine.evaluate("/api/users", "GET"), PolicyAction::Allow));
    assert!(matches!(engine.evaluate("/public", "GET"), PolicyAction::Allow));
}

#[test]
fn double_wildcard_stands_for_no_segment_too() {
    assert!(matches_glob("/admin/**", "/admin"));
    assert!(matches_glob("/admin/**", "/admin/"));
    assert!(matches_glob("/a/**/z", "/a/z"));
    assert!(matches_glob("/a/**/z", "/a/b/c/z"));
    assert!(!matches_glob("/a/**/z", "/a/b/c"));
    assert!(matches_glob("**", "/anything/at/all"));
    assert!(matches_glob("/**", ""));
}

#[test]
fn empty_segments_do_not_count() {
    assert!(matches_glob("/api//users", "api/users/"));
    assert!(matches_glob("/*", "//x//"));
    assert!(!matches_glob("/*", "/"));
    assert!(matches_glob("", ""));
    assert!(!matches_glob("", "/a"));
}

#[test]
fn the_first_rule_that_matches_decides() {
    let mut engine = PolicyEngine::new();
    engine.add_rule(PolicyRule {
        path_pattern: "/x/*".into(),
        method: Some("post".into()),
        action: PolicyAction::RateLimit(7),
    });
    engine.add_rule(PolicyRule {
        path_pattern: "/x/**".into(),
        method: None,
        action: PolicyAction::Redirect("https://elsewhere".into()),
    });
    engine.add_rule(PolicyRule {
        path_pattern: "/x/y".into(),
        method: None,
        action: PolicyAction::AddHeader("a".into(), "b".into()),
    });
    assert!(matches!(engine.evaluate("/x/y", "POST"), PolicyAction::RateLimit(7)));
    match engine.evaluate("/x/y", "GET") {
        PolicyAction::Redirect(u) => assert_eq!(u, "https://elsewhere"),
        other => panic!("unexpected action {:?}", other),
    }
    assert!(matches!(PolicyEngine::default().evaluate("/x/y", "GET"), PolicyAction::Allow));
}
