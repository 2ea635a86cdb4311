use ztunnel::acme::{cert_file_name, cert_from_json, json_of_cert, needs_renewal, AcmeChallenges, CertEntry};
use ztunnel::config::{
    config_candidates, default_host, default_inspect_port, default_proto, default_relay,
    default_true, ConfigError, InspectorConfig, IpFilterConfig, TunnelConfig, ZTunnelConfig,
};
use ztunnel::crypto::{Session, X25519Keypair};
use ztunnel::error::Error;
use ztunnel::frame::{TunnelRequest, TunnelResponse};
use ztunnel::inspector::{exchange_entry, InspectorLog, MAX_ENTRIES};
use ztunnel::json::Json;
use ztunnel::log_export::{
    find_header, log_file_name, log_level, log_line, needs_rotation, request_entry, rotation_plan,
    LogExportConfig,
};
use ztunnel::metrics::{LatencyHistogram, Metrics, SubdomainMetrics};
use ztunnel::numerals::{read_decimal, to_decimal, to_hex};
use ztunnel::protocol::{fits_message, MessageType, MAX_MESSAGE_SIZE, PROTOCOL_VERSION};
use ztunnel::scan::{byte_lines, words};
use ztunnel::text::{chars_of, eq_ignore_ascii_case, split_chars, string_of, trim_chars};

fn chars(s: &str) -> Vec<char> {
    s.chars().collect()
}

#[test]
fn numerals() {
    assert_eq!(to_decimal(0), "0");
    assert_eq!(to_decimal(10), "10");
    assert_eq!(to_decimal(u64::MAX), "18446744073709551615");
    assert_eq!(to_hex(0), "0");
    assert_eq!(to_hex(255), "ff");
    assert_eq!(to_hex(0x1_0000), "10000");
    assert_eq!(to_hex(u128::MAX), "f".repeat(32));
    assert_eq!(read_decimal(&chars("0032"), 32), Some(32));
    assert_eq!(read_decimal(&chars("33"), 32), None);
    assert_eq!(read_decimal(&chars(""), 32), None);
    assert_eq!(read_decimal(&chars("3a"), 32), None);
    assert_eq!(read_decimal(&chars("18446744073709551615"), u64::MAX), Some(u64::MAX));
    assert_eq!(read_decimal(&chars("18446744073709551616"), u64::MAX), None);
    assert_eq!(read_decimal(&chars("99999999999999999999999"), u64::MAX), None);
}

#[test]
fn texts() {
    assert_eq!(chars_of("aé\u{1F600}"), vec!['a', 'é', '\u{1F600}']);
    assert_eq!(string_of(&['a', 'é']), "aé");
    let fields: Vec<String> = split_chars(&chars("a,,b,"), ',').iter().map(|f| f.iter().collect()).collect();
    assert_eq!(fields, vec!["a", "", "b", ""]);
    assert_eq!(split_chars(&[], ',').len(), 1);
    assert_eq!(trim_chars(&chars(" \t\u{a0}a b\u{3000}\r\n")), chars("a b"));
    assert_eq!(trim_chars(&chars("   ")), Vec::<char>::new());
    assert!(eq_ignore_ascii_case("Content-LENGTH", "content-length"));
    assert!(!eq_ignore_ascii_case("é", "É"));
    assert!(!eq_ignore_ascii_case("a", "ab"));
    assert!(!eq_ignore_ascii_case("@", "`"));
    assert!(!eq_ignore_ascii_case("[", "{"));
}

#[test]
fn runs() {
    assert_eq!(byte_lines(b"\r\na\r\n\r\nbc\nd\r"), vec![b"a".to_vec(), b"bc".to_vec(), b"d".to_vec()]);
    assert_eq!(byte_lines(b""), Vec::<Vec<u8>>::new());
    assert_eq!(words(&chars("  a  bc\td ")), vec![chars("a"), chars("bc"), chars("d")]);
}

#[test]
fn the_protocol() {
    assert_eq!(MAX_MESSAGE_SIZE, 16 * 1024 * 1024);
    assert_eq!(PROTOCOL_VERSION, 1);
    assert!(fits_message(MAX_MESSAGE_SIZE));
    assert!(!fits_message(MAX_MESSAGE_SIZE + 1));
    let all = [
        (MessageType::ClientHello, 0x01u8),
        (MessageType::ServerHello, 0x02),
        (MessageType::Data, 0x10),
        (MessageType::TunnelRequest, 0x20),
        (MessageType::TunnelResponse, 0x21),
        (MessageType::Ping, 0x30),
        (MessageType::Pong, 0x31),
        (MessageType::Close, 0xFF),
    ];
    for (t, code) in all {
        assert_eq!(t.code(), code);
        assert_eq!(MessageType::from_code(code), Some(t));
    }
    assert_eq!(MessageType::from_code(0), None);
    assert_eq!(MessageType::from_code(0x11), None);
}

#[test]
fn the_messages_of_errors() {
    assert_eq!(Error::Connection("refused".into()).message(), "Connection error: refused");
    assert_eq!(Error::Tunnel("t".into()).message(), "Tunnel error: t");
    assert_eq!(Error::Crypto("c".into()).message(), "Crypto error: c");
    assert_eq!(Error::Protocol("p".into()).message(), "Protocol error: p");
    assert_eq!(Error::Io("i".into()).message(), "IO error: i");
    assert_eq!(Error::AuthFailed.message(), "Authentication failed");
    assert_eq!(Error::InvalidMessage.message(), "Invalid message");
    assert_eq!(Error::Timeout.message(), "Timeout");
}

#[test]
fn key_pairs_and_sessions() {
    let a = X25519Keypair::generate(0x0123_4567_89ab_cdef);
    for i in 0..32usize {
        let want = ((0x0123_4567_89ab_cdefu64 >> (i % 8)) ^ (i as u64 * 17)) as u8;
        assert_eq!(a.private_key[i], want);
        assert_eq!(a.public_key[i], want ^ 0x55);
    }
    let b = X25519Keypair::generate(42);
    let s1 = a.shared_secret(&b.private_key);
    let s2 = b.shared_secret(&a.private_key);
    assert_eq!(s1, s2);
    let mut sender = Session::new(&s1);
    let receiver = Session::new(&s2);
    assert_eq!(sender.session_key, s1);
    assert_eq!(sender.nonce_counter, 0);
    let plain: Vec<u8> = (0..100u8).collect();
    let (cipher, nonce, tag) = sender.encrypt(&plain).unwrap();
    assert_eq!(nonce, [0u8; 12]);
    assert_eq!(tag, [0u8; 16]);
    assert_eq!(cipher.len(), plain.len());
    assert_eq!(cipher[33], plain[33] ^ s1[1] ^ nonce[9]);
    assert_eq!(receiver.decrypt(&cipher, &nonce, &tag).unwrap(), plain);
    let (cipher2, nonce2, _) = sender.encrypt(&plain).unwrap();
    assert_eq!(nonce2, [0, 0, 0, 0, 1, 0, 0, 0, 0, 0, 0, 0]);
    assert_ne!(cipher2, cipher);
    assert_eq!(sender.nonce_counter, 2);
}

#[test]
fn nonces_count_up_and_start_over() {
    let mut s = Session { session_key: [0; 32], nonce_counter: 0x0102_0304_0506_0708 };
    assert_eq!(s.next_nonce(), [0, 0, 0, 0, 8, 7, 6, 5, 4, 3, 2, 1]);
    assert_eq!(s.nonce_counter, 0x0102_0304_0506_0709);
    let mut s = Session { session_key: [0; 32], nonce_counter: u64::MAX };
    assert_eq!(s.next_nonce(), [0, 0, 0, 0, 255, 255, 255, 255, 255, 255, 255, 255]);
    assert_eq!(s.nonce_counter, 0);
}

fn tunnel_config(name: &str, proto: &str, port: u16) -> TunnelConfig {
    TunnelConfig {
        name: name.into(),
        proto: proto.into(),
        local_port: port,
        subdomain: None,
        inspect: default_true(),
        ip_filter: None,
        throttle_bps: 0,
        local_host: default_host(),
    }
}

fn config(tunnels: Vec<TunnelConfig>) -> ZTunnelConfig {
    ZTunnelConfig {
        relay: default_relay(),
        auth_token: None,
        inspector: InspectorConfig::default(),
        tunnels,
        ip_filter: IpFilterConfig::default(),
    }
}

#[test]
fn configuration_defaults() {
    assert_eq!(default_relay(), "ws://localhost:8080/tunnel");
    assert_eq!(default_proto(), "http");
    assert_eq!(default_host(), "127.0.0.1");
    assert_eq!(default_inspect_port(), 4040);
    let i = InspectorConfig::default();
    assert!(i.enabled);
    assert_eq!(i.port, 4040);
    assert_eq!(config_candidates(), vec!["ztunnel.yml", "ztunnel.yaml", ".ztunnel.yml", ".ztunnel.yaml"]);
}

#[test]
fn configuration_is_validated() {
    assert!(config(vec![tunnel_config("api", "http", 3000), tunnel_config("db", "tcp", 5432), tunnel_config("u", "udp", 1)])
        .validate()
        .is_ok());
    let e = config(vec![]).validate().unwrap_err();
    assert!(matches!(e, ConfigError::NoTunnels));
    assert_eq!(e.message(), "No tunnels defined in configuration");
    let e = config(vec![tunnel_config("", "nope", 0)]).validate().unwrap_err();
    assert!(matches!(e, ConfigError::EmptyName));
    assert_eq!(e.message(), "Tunnel name cannot be empty");
    let e = config(vec![tunnel_config("api", "http", 1), tunnel_config("x", "HTTP", 0)]).validate().unwrap_err();
    assert_eq!(e.message(), "Invalid protocol 'HTTP' for tunnel 'x'");
    let e = config(vec![tunnel_config("api", "tcp", 0), tunnel_config("", "", 0)]).validate().unwrap_err();
    assert_eq!(e.message(), "Invalid port 0 for tunnel 'api'");
}

#[test]
fn latencies() {
    let mut h = LatencyHistogram::new(4);
    assert_eq!(h.percentile(50), 0);
    assert_eq!(h.average(), 0);
    h.record(30);
    h.record(10);
    assert_eq!(h.percentile(0), 10);
    assert_eq!(h.percentile(50), 30);
    assert_eq!(h.percentile(100), 30);
    assert_eq!(h.average(), 20);
    h.record(20);
    h.record(40);
    h.record(50);
    assert_eq!(h.values, vec![50, 10, 20, 40]);
    assert_eq!(h.pos, 1);
    assert_eq!(h.count, 5);
    assert_eq!(h.sum, 150);
    assert_eq!(h.percentile(50), 40);
    assert_eq!(h.percentile(95), 50);
    assert_eq!(h.percentile(99), 50);
    assert_eq!(h.percentile(25), 20);
    assert_eq!(h.percentile(u64::MAX), 50);
    assert_eq!(h.average(), 30);
}

#[test]
fn metrics_are_counted_and_exposed() {
    let mut m = Metrics::new();
    m.tunnel_opened();
    m.tunnel_opened();
    m.tunnel_closed();
    m.record_request("app", 200, 1_000, 10, 100);
    m.record_request("app", 404, 3_000, 0, 5);
    m.record_request("other", 503, 2_000, 1, 0);
    m.record_request("app", 302, 2_000, 0, 0);
    m.record_request("app", 100, 2_000, 0, 0);
    assert_eq!(m.total_requests, 5);
    assert_eq!(m.active_tunnels, 1);
    assert_eq!((m.status_2xx, m.status_3xx, m.status_4xx, m.status_5xx), (1, 1, 1, 1));
    assert_eq!((m.bytes_in, m.bytes_out), (11, 105));
    let app: &SubdomainMetrics = m.subdomain_metrics.get("app").unwrap();
    assert_eq!((app.requests, app.errors, app.bytes_in, app.bytes_out), (4, 1, 10, 105));
    let other = m.subdomain_metrics.get("other").unwrap();
    assert_eq!((other.requests, other.errors), (1, 1));
    let text = m.to_prometheus();
    let want = "# HELP ztunnel_requests_total Total number of requests processed\n\
# TYPE ztunnel_requests_total counter\n\
ztunnel_requests_total 5\n\
\n\
# HELP ztunnel_active_tunnels Number of active tunnel connections\n\
# TYPE ztunnel_active_tunnels gauge\n\
ztunnel_active_tunnels 1\n\
\n\
# HELP ztunnel_requests_by_status Requests by HTTP status class\n\
# TYPE ztunnel_requests_by_status counter\n\
ztunnel_requests_by_status{status=\"2xx\"} 1\n\
ztunnel_requests_by_status{status=\"3xx\"} 1\n\
ztunnel_requests_by_status{status=\"4xx\"} 1\n\
ztunnel_requests_by_status{status=\"5xx\"} 1\n\
\n\
# HELP ztunnel_bytes_total Total bytes transferred\n\
# TYPE ztunnel_bytes_total counter\n\
ztunnel_bytes_total{direction=\"in\"} 11\n\
ztunnel_bytes_total{direction=\"out\"} 105\n\
\n\
# HELP ztunnel_latency_us Request latency in microseconds\n\
# TYPE ztunnel_latency_us summary\n\
ztunnel_latency_us{quantile=\"0.5\"} 2000\n\
ztunnel_latency_us{quantile=\"0.95\"} 3000\n\
ztunnel_latency_us{quantile=\"0.99\"} 3000\n\
ztunnel_latency_us_avg 2000\n";
    assert_eq!(text, want);
}

#[test]
fn counters_start_over() {
    let mut m = Metrics::new();
    m.tunnel_closed();
    assert_eq!(m.active_tunnels, u64::MAX);
    m.bytes_in = u64::MAX;
    m.record_request("a", 200, 0, 2, 0);
    assert_eq!(m.bytes_in, 1);
}

fn exchange(id: &str) -> ztunnel::inspector::InspectorEntry {
    exchange_entry(
        TunnelRequest { id: id.into(), method: "GET".into(), path: "/".into(), headers: vec![], body: None },
        &TunnelResponse { id: id.into(), status: 200, headers: vec![], body: Some(vec![]) },
        "2026-01-01T00:00:00+00:00".into(),
        1,
    )
}

#[test]
fn the_entry_of_an_exchange() {
    let e = exchange_entry(
        TunnelRequest {
            id: "r1".into(),
            method: "POST".into(),
            path: "/x".into(),
            headers: vec![("A".into(), "b".into())],
            body: Some(b"q\xff".to_vec()),
        },
        &TunnelResponse { id: "r1".into(), status: 201, headers: vec![("C".into(), "d".into())], body: Some(b"hello".to_vec()) },
        "now".into(),
        12,
    );
    assert_eq!(e.id, "r1");
    assert_eq!(e.timestamp, "now");
    assert_eq!((e.method.as_str(), e.path.as_str(), e.status, e.latency_ms), ("POST", "/x", 201, 12));
    assert_eq!(e.req_headers, vec![("A".to_string(), "b".to_string())]);
    assert_eq!(e.req_body, Some("q\u{fffd}".to_string()));
    assert_eq!(e.res_headers, vec![("C".to_string(), "d".to_string())]);
    assert_eq!(e.res_body, Some("hello".to_string()));
    assert_eq!(e.res_body_size, 5);
    let e = exchange("x");
    assert_eq!(e.req_body, None);
    assert_eq!(e.res_body, Some(String::new()));
    assert_eq!(e.res_body_size, 0);
}

#[test]
fn the_record_of_exchanges_holds_the_latest() {
    let mut log = InspectorLog::new();
    assert!(log.get_entry("r0").is_none());
    for i in 0..MAX_ENTRIES + 3 {
        log.record(exchange(&format!("r{}", i)));
    }
    assert_eq!(log.len(), MAX_ENTRIES);
    assert_eq!(log.entry(0).unwrap().id, format!("r{}", MAX_ENTRIES + 2));
    assert_eq!(log.entry(MAX_ENTRIES - 1).unwrap().id, "r3");
    assert!(log.entry(MAX_ENTRIES).is_none());
    assert!(log.get_entry("r2").is_none());
    assert_eq!(log.get_entry("r3").unwrap().id, "r3");
    let mut newer = exchange("r3");
    newer.status = 500;
    log.record(newer);
    assert_eq!(log.get_entry("r3").unwrap().status, 500);
}

#[test]
fn log_entries_and_lines() {
    let d = LogExportConfig::default();
    assert!(!d.file_enabled);
    assert_eq!(d.log_dir, "./logs");
    assert_eq!(d.max_file_size, 100 * 1024 * 1024);
    assert_eq!(d.max_files, 10);
    assert_eq!(d.webhook_url, None);
    assert_eq!(log_level(499), "INFO");
    assert_eq!(log_level(500), "ERROR");
    let headers = vec![("USER-agent".to_string(), "curl".to_string()), ("user-agent".to_string(), "other".to_string())];
    assert_eq!(find_header(&headers, "User-Agent"), Some("curl".to_string()));
    assert_eq!(find_header(&headers, "Accept"), None);
    let e = request_entry("t".into(), "app".into(), "GET".into(), "/p".into(), 502, 7, 1, 2, Some("1.2.3.4".into()), &headers);
    assert_eq!(e.level, "ERROR");
    assert_eq!(e.user_agent, Some("curl".to_string()));
    assert_eq!(
        String::from_utf8(log_line(&e)).unwrap(),
        "{\"bytes_in\":1,\"bytes_out\":2,\"client_ip\":\"1.2.3.4\",\"latency_us\":7,\"level\":\"ERROR\",\"method\":\"GET\",\"path\":\"/p\",\"status\":502,\"subdomain\":\"app\",\"timestamp\":\"t\",\"user_agent\":\"curl\"}\n"
    );
}

#[test]
fn log_files_are_rotated() {
    assert!(needs_rotation(0, 0, 100, false));
    assert!(!needs_rotation(90, 10, 100, true));
    assert!(needs_rotation(90, 11, 100, true));
    assert!(needs_rotation(u64::MAX, u64::MAX, u64::MAX, true));
    assert_eq!(log_file_name(0), "ztunnel.log");
    assert_eq!(log_file_name(12), "ztunnel.12.log");
    let plan = rotation_plan(3);
    assert_eq!(plan.delete, "ztunnel.3.log");
    let pairs: Vec<(&str, &str)> = plan.renames.iter().map(|(a, b)| (a.as_str(), b.as_str())).collect();
    assert_eq!(pairs, vec![("ztunnel.2.log", "ztunnel.3.log"), ("ztunnel.1.log", "ztunnel.2.log"), ("ztunnel.log", "ztunnel.1.log")]);
    assert_eq!(rotation_plan(0).renames.len(), 1);
    assert_eq!(rotation_plan(1).renames.len(), 1);
    assert_eq!(rotation_plan(0).delete, "ztunnel.log");
}

#[test]
fn certificates() {
    let c = CertEntry { domain: "a.example".into(), cert_pem: "CERT".into(), key_pem: "KEY".into(), expires_at: 10_000_000 };
    assert!(!needs_renewal(Some(&c), 10_000_000 - 2_592_000));
    assert!(needs_renewal(Some(&c), 10_000_000 - 2_592_000 + 1));
    assert!(needs_renewal(None, 0));
    assert!(needs_renewal(Some(&c), u64::MAX));
    let text = json_of_cert(&c).render();
    assert_eq!(
        String::from_utf8(text.clone()).unwrap(),
        r#"{"cert_pem":"CERT","domain":"a.example","expires_at":10000000,"key_pem":"KEY"}"#
    );
    let back = cert_from_json(&Json::parse(&text).unwrap()).unwrap();
    assert_eq!((back.domain, back.cert_pem, back.key_pem, back.expires_at), (c.domain, c.cert_pem, c.key_pem, c.expires_at));
    let partial = cert_from_json(&Json::parse(br#"{"domain":"d","expires_at":"soon"}"#).unwrap()).unwrap();
    assert_eq!((partial.cert_pem.as_str(), partial.expires_at), ("", 0));
    assert!(cert_from_json(&Json::parse(br#"{"domain":""}"#).unwrap()).is_none());
    assert!(cert_from_json(&Json::parse(b"[]").unwrap()).is_none());
    assert_eq!(cert_file_name("a.example"), "a.example.json");
}

#[test]
fn challenges() {
    let mut c = AcmeChallenges::new();
    assert_eq!(c.respond("tok"), None);
    c.set("tok".into(), "auth".into());
    assert_eq!(c.respond("tok"), Some("auth".to_string()));
    c.set("tok".into(), "auth2".into());
    assert_eq!(c.respond("tok"), Some("auth2".to_string()));
    c.remove("tok");
    assert_eq!(c.respond("tok"), None);
}
