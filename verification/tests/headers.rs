use ztunnel::headers::{upsert, HeaderRewriter, HeaderRule};

fn pair(k: &str, v: &str) -> (String, String) {
    (k.to_string(), v.to_string())
}

#[test]
fn test_proxy_headers() {
    let rw = HeaderRewriter::default();
    let mut h: Vec<(String, String)> = vec![("Host".into(), "example.com".into())];
    rw.rewrite_request(&mut h, Some("1.2.3.4"), "myapp.example.com");
    assert!(h.iter().any(|(k, v)| k == "X-Forwarded-For" && v == "1.2.3.4"));
    assert!(h.iter().any(|(k, v)| k == "X-Forwarded-Proto" && v == "https"));
}

#[test]
fn test_cors_injection() {
    let rw = HeaderRewriter { inject_cors: true, ..Default::default() };
    let mut h: Vec<(String, String)> = vec![];
    rw.rewrite_response(&mut h);
    assert!(h.iter().any(|(k, _)| k == "Access-Control-Allow-Origin"));
}

#[test]
fn test_custom_rules() {
    let rw = HeaderRewriter {
        inject_proxy_headers: false,
        inject_cors: false,
        rules: vec![
            HeaderRule::Overwrite("X-Custom".into(), "hello".into()),
            HeaderRule::Remove("Cookie".into()),
        ],
    };
    let mut h: Vec<(String, String)> = vec![("Cookie".into(), "secret".into())];
    rw.rewrite_request(&mut h, None, "");
    assert!(!h.iter().any(|(k, _)| k == "Cookie"));
    assert!(h.iter().any(|(k, v)| k == "X-Custom" && v == "hello"));
}

#[test]
fn proxy_headers_in_full_and_in_order() {
    let rw = HeaderRewriter::default();
    let mut h = vec![pair("Host", "example.com")];
    rw.rewrite_request(&mut h, Some("1.2.3.4"), "myapp.example.com");
    assert_eq!(
        h,
        vec![
            pair("Host", "example.com"),
            pair("X-Forwarded-For", "1.2.3.4"),
            pair("X-Forwarded-Proto", "https"),
            pair("X-Forwarded-Host", "myapp.example.com"),
            pair("X-Real-IP", "1.2.3.4"),
        ]
    );
}

#[test]
fn proxy_headers_without_client_address() {
    let rw = HeaderRewriter::default();
    let mut h = vec![];
    rw.rewrite_request(&mut h, None, "a.example");
    assert_eq!(
        h,
        vec![
            pair("X-Forwarded-Proto", "https"),
            pair("X-Forwarded-Host", "a.example"),
            pair("X-Real-IP", "unknown"),
        ]
    );
}

#[test]
fn upsert_keeps_the_name_and_place_of_the_first_match() {
    let mut h = vec![pair("a", "1"), pair("X-REAL-ip", "old"), pair("x-real-ip", "older")];
    upsert(&mut h, "X-Real-IP", "new");
    assert_eq!(h, vec![pair("a", "1"), pair("X-REAL-ip", "new"), pair("x-real-ip", "older")]);
    upsert(&mut h, "b", "2");
    assert_eq!(h.len(), 4);
    assert_eq!(h[3], pair("b", "2"));
}

#[test]
fn add_rule_does_not_overwrite_and_remove_takes_all() {
    let rw = HeaderRewriter {
        inject_proxy_headers: false,
        inject_cors: false,
        rules: vec![
            HeaderRule::Add("Server".into(), "mine".into()),
            HeaderRule::Add("Via".into(), "relay".into()),
            HeaderRule::Remove("cookie".into()),
        ],
    };
    let mut h = vec![pair("SERVER", "theirs"), pair("Cookie", "a"), pair("x", "y"), pair("COOKIE", "b")];
    rw.rewrite_response(&mut h);
    assert_eq!(h, vec![pair("SERVER", "theirs"), pair("x", "y"), pair("Via", "relay")]);
}

#[test]
fn cors_headers_in_full() {
    let rw = HeaderRewriter { inject_proxy_headers: false, inject_cors: true, rules: vec![] };
    let mut h = vec![pair("access-control-allow-origin", "https://a")];
    rw.rewrite_response(&mut h);
    assert_eq!(
        h,
        vec![
            pair("access-control-allow-origin", "*"),
            pair("Access-Control-Allow-Methods", "GET, POST, PUT, DELETE, PATCH, OPTIONS"),
            pair("Access-Control-Allow-Headers", "Content-Type, Authorization"),
            pair("Access-Control-Max-Age", "86400"),
        ]
    );
}
