use ztunnel::circuit_breaker::{CircuitBreaker, CircuitBreakerConfig, CircuitState};
use ztunnel::frame::{decode_request, encode_response, TunnelResponse};
use ztunnel::ip_filter::{IpAddress, IpFilter};
use ztunnel::proxy::{
    body_fits, dispatch, enqueue_failed, not_found, request_body, screen, settle,
    subdomain_of_host, too_large, translate_response, Dispatched, WaitOutcome, MAX_BODY_BYTES,
};
use ztunnel::registration::{
    acknowledge, encode_acknowledgement, on_agent_frame, on_agent_message, on_tunnel_up,
    on_write_failed, read_acknowledgement, read_advertisement, ControlMessage, RelayAction,
};
use ztunnel::registry::Allocation;
use ztunnel::tunnel::{Delivery, Tunnel};

fn tunnel_with(filter: IpFilter, config: CircuitBreakerConfig) -> Tunnel {
    let (tx, _rx) = tokio::sync::mpsc::channel::<Vec<u8>>(100);
    Tunnel::new("app".to_string(), tx, filter, CircuitBreaker::new(config, 0), 0)
}

fn tunnel() -> Tunnel {
    tunnel_with(IpFilter::default(), CircuitBreakerConfig::default())
}

fn response(id: &str, status: u16) -> TunnelResponse {
    TunnelResponse { id: id.to_string(), status, headers: vec![], body: Some(b"hello".to_vec()) }
}

fn h(k: &str, v: &str) -> (String, String) {
    (k.to_string(), v.to_string())
}

#[test]
fn a_response_reaches_the_request_that_waits_under_its_id() {
    let mut t = tunnel();
    let (tx1, mut rx1) = tokio::sync::oneshot::channel();
    let (tx2, mut rx2) = tokio::sync::oneshot::channel();
    assert!(t.open_request("r1".into(), tx1).is_ok());
    assert!(t.open_request("r2".into(), tx2).is_ok());
    assert_eq!(t.pending_count(), 2);
    let sent = TunnelResponse {
        id: "r2".into(),
        status: 418,
        headers: vec![h("b", "2"), h("a", "1"), h("b", "3")],
        body: Some(vec![0, 255, 7]),
    };
    assert!(matches!(t.complete(sent.clone()), Delivery::Delivered));
    let got = rx2.try_recv().unwrap();
    assert_eq!(got.id, "r2");
    assert_eq!(got.status, 418);
    assert_eq!(got.headers, sent.headers);
    assert_eq!(got.body, sent.body);
    assert!(rx1.try_recv().is_err());
    assert_eq!(t.pending_count(), 1);
    assert!(t.is_pending("r1"));
    assert!(!t.is_pending("r2"));
}

#[test]
fn a_late_response_finds_no_one() {
    let mut t = tunnel();
    assert!(matches!(t.complete(response("r1", 200)), Delivery::NoWaiter));
    let (tx, rx) = tokio::sync::oneshot::channel();
    t.open_request("r1".into(), tx).unwrap();
    assert!(t.abandon("r1"));
    assert!(!t.abandon("r1"));
    assert!(matches!(t.complete(response("r1", 200)), Delivery::NoWaiter));
    drop(rx);
}

#[test]
fn a_request_that_stopped_listening_gets_the_response_back() {
    let mut t = tunnel();
    let (tx, rx) = tokio::sync::oneshot::channel();
    t.open_request("r1".into(), tx).unwrap();
    drop(rx);
    match t.complete(response("r1", 201)) {
        Delivery::WaiterGone(back) => assert_eq!(back.status, 201),
        other => panic!("unexpected {:?}", other),
    }
    assert_eq!(t.pending_count(), 0);
}

#[test]
fn an_id_is_never_entered_twice() {
    let mut t = tunnel();
    let (tx1, mut rx1) = tokio::sync::oneshot::channel::<TunnelResponse>();
    let (tx2, _rx2) = tokio::sync::oneshot::channel::<TunnelResponse>();
    t.open_request("r1".into(), tx1).unwrap();
    assert!(t.open_request("r1".into(), tx2).is_err());
    assert_eq!(t.pending_count(), 1);
    assert!(matches!(rx1.try_recv(), Err(tokio::sync::oneshot::error::TryRecvError::Empty)));
}

#[test]
fn closing_a_tunnel_cancels_all_that_wait() {
    let mut t = tunnel();
    let (tx1, mut rx1) = tokio::sync::oneshot::channel::<TunnelResponse>();
    let (tx2, mut rx2) = tokio::sync::oneshot::channel::<TunnelResponse>();
    t.open_request("r1".into(), tx1).unwrap();
    t.open_request("r2".into(), tx2).unwrap();
    assert_eq!(t.cancel_pending(), 2);
    assert_eq!(t.pending_count(), 0);
    assert!(matches!(rx1.try_recv(), Err(tokio::sync::oneshot::error::TryRecvError::Closed)));
    assert!(matches!(rx2.try_recv(), Err(tokio::sync::oneshot::error::TryRecvError::Closed)));
}

#[test]
fn clients_take_turns() {
    let mut t = tunnel();
    assert_eq!(t.subdomain(), "app");
    assert_eq!(t.created_at(), 0);
    assert_eq!(t.next_client(), None);
    let (a, rx_a) = tokio::sync::mpsc::channel::<Vec<u8>>(1);
    t.add_lb_client(a);
    assert_eq!(t.next_client(), None);
    let (b, _rx_b) = tokio::sync::mpsc::channel::<Vec<u8>>(1);
    let (c, rx_c) = tokio::sync::mpsc::channel::<Vec<u8>>(1);
    t.add_lb_client(b);
    t.add_lb_client(c);
    assert_eq!(t.next_client(), Some(0));
    assert_eq!(t.next_client(), Some(1));
    assert_eq!(t.next_client(), Some(2));
    assert_eq!(t.next_client(), Some(0));
    assert!(t.client(2).is_some());
    assert!(t.client(3).is_none());
    drop(rx_a);
    drop(rx_c);
    t.cleanup_lb_clients();
    assert!(t.client(0).is_some());
    assert!(t.client(1).is_none());
    assert!(!t.client(0).unwrap().is_closed());
    assert!(t.primary().is_closed());
}

#[test]
fn closed_clients_leave_and_the_others_keep_their_order() {
    let mut t = tunnel();
    t.cleanup_lb_clients();
    assert!(t.client(0).is_none());
    let (a, rx_a) = tokio::sync::mpsc::channel::<Vec<u8>>(1);
    let (b, mut rx_b) = tokio::sync::mpsc::channel::<Vec<u8>>(1);
    let (c, rx_c) = tokio::sync::mpsc::channel::<Vec<u8>>(1);
    let (d, mut rx_d) = tokio::sync::mpsc::channel::<Vec<u8>>(1);
    t.add_lb_client(a);
    t.add_lb_client(b);
    t.add_lb_client(c);
    t.add_lb_client(d);
    assert_eq!(t.closed_clients(), vec![false, false, false, false]);
    drop(rx_a);
    drop(rx_c);
    assert_eq!(t.closed_clients(), vec![true, false, true, false]);
    t.cleanup_lb_clients();
    assert_eq!(t.closed_clients(), vec![false, false]);
    t.client(0).unwrap().try_send(vec![1]).unwrap();
    t.client(1).unwrap().try_send(vec![2]).unwrap();
    assert_eq!(rx_b.try_recv().unwrap(), vec![1]);
    assert_eq!(rx_d.try_recv().unwrap(), vec![2]);
    assert!(t.client(2).is_none());

    t.drop_clients(&[false, true, true]);
    assert!(t.client(1).is_none());
    t.client(0).unwrap().try_send(vec![3]).unwrap();
    assert_eq!(rx_b.try_recv().unwrap(), vec![3]);
    t.drop_clients(&[]);
    assert!(t.client(0).is_some());
    t.drop_clients(&[true]);
    assert!(t.client(0).is_none());
}

#[test]
fn the_primary_client_is_the_one_the_tunnel_was_made_with() {
    let (tx, mut rx) = tokio::sync::mpsc::channel::<Vec<u8>>(4);
    let mut t = Tunnel::new(
        "app".to_string(),
        tx,
        IpFilter::default(),
        CircuitBreaker::new(CircuitBreakerConfig::default(), 0),
        0,
    );
    t.primary().try_send(vec![7]).unwrap();
    assert_eq!(rx.try_recv().unwrap(), vec![7]);
    let (other, mut rx_other) = tokio::sync::mpsc::channel::<Vec<u8>>(4);
    t.add_lb_client(other);
    t.cleanup_lb_clients();
    t.primary().try_send(vec![8]).unwrap();
    assert_eq!(rx.try_recv().unwrap(), vec![8]);
    assert!(rx_other.try_recv().is_err());
}

#[test]
fn request_numbers_count_up() {
    let mut t = tunnel();
    assert_eq!(t.sequence(), 0);
    assert_eq!(t.next_sequence(), 0);
    assert_eq!(t.next_sequence(), 1);
    assert_eq!(t.sequence(), 2);
}

// --- the proxy handler ----------------------------------------------------

#[test]
fn the_leftmost_label_of_the_host_is_the_subdomain() {
    assert_eq!(subdomain_of_host("app.example"), "app");
    assert_eq!(subdomain_of_host("app.example.com:8080"), "app");
    assert_eq!(subdomain_of_host("localhost"), "localhost");
    assert_eq!(subdomain_of_host(""), "");
    assert_eq!(subdomain_of_host(".example"), "");
}

#[test]
fn a_body_over_ten_mebibytes_is_too_large() {
    assert_eq!(MAX_BODY_BYTES, 10 * 1024 * 1024);
    assert!(body_fits(0));
    assert!(body_fits(10 * 1024 * 1024));
    assert!(!body_fits(10 * 1024 * 1024 + 1));
    assert!(!body_fits(20 * 1024 * 1024));
    assert_eq!(too_large().status, 413);
    assert_eq!(not_found().status, 404);
    assert_eq!(not_found().body, b"Tunnel not found".to_vec());
    assert_eq!(request_body(vec![]), None);
    assert_eq!(request_body(vec![1]), Some(vec![1]));
}

#[test]
fn the_filter_turns_addresses_away() {
    let filter = IpFilter::from_strings(&["10.0.0.0/8".to_string()], &["10.1.2.3/32".to_string()]);
    let t = tunnel_with(filter, CircuitBreakerConfig::default());
    let inside = Some(IpAddress::parse("10.9.9.9").unwrap());
    let outside = Some(IpAddress::parse("8.8.4.4").unwrap());
    let denied = screen(&t, &[h("X-Forwarded-For", "10.1.2.3")], inside).unwrap();
    assert_eq!(denied.status, 403);
    assert_eq!(denied.body, b"Access denied".to_vec());
    assert!(denied.metered);
    assert!(screen(&t, &[h("X-Forwarded-For", "10.2.3.4")], outside).is_none());
    assert_eq!(screen(&t, &[h("X-Forwarded-For", "8.8.8.8")], inside).unwrap().status, 403);
    let open = tunnel();
    assert!(screen(&open, &[h("X-Forwarded-For", "8.8.8.8")], outside).is_none());
    assert!(screen(&open, &[], outside).is_none());
}

#[test]
fn without_an_address_in_the_headers_the_peer_is_filtered() {
    let filter = IpFilter::from_strings(&["10.0.0.0/8".to_string()], &["10.1.2.3/32".to_string()]);
    let t = tunnel_with(filter, CircuitBreakerConfig::default());
    let inside = Some(IpAddress::parse("10.9.9.9").unwrap());
    let denied = Some(IpAddress::parse("10.1.2.3").unwrap());
    let outside = Some(IpAddress::parse("8.8.4.4").unwrap());
    let six = Some(IpAddress::parse("::1").unwrap());
    assert!(screen(&t, &[], inside).is_none());
    assert_eq!(screen(&t, &[], denied).unwrap().status, 403);
    assert_eq!(screen(&t, &[], outside).unwrap().status, 403);
    assert_eq!(screen(&t, &[], six).unwrap().status, 403);
    assert!(screen(&t, &[h("X-Forwarded-For", "garbage")], inside).is_none());
    assert_eq!(screen(&t, &[h("X-Forwarded-For", "garbage")], outside).unwrap().status, 403);
    assert_eq!(screen(&t, &[h("X-Real-IP", "8.8.8.8")], inside).unwrap().status, 403);
    assert!(screen(&t, &[h("X-Real-IP", "10.2.3.4")], outside).is_none());
    assert!(screen(&t, &[], None).is_none());
    let deny_only = tunnel_with(
        IpFilter::from_strings(&[], &["10.1.2.3/32".to_string()]),
        CircuitBreakerConfig::default(),
    );
    assert!(screen(&deny_only, &[], six).is_none());
    assert_eq!(screen(&deny_only, &[], denied).unwrap().status, 403);
}

fn forward(t: &mut Tunnel, now: u64, nanos: u128) -> (Dispatched, tokio::sync::oneshot::Receiver<TunnelResponse>) {
    let (tx, rx) = tokio::sync::oneshot::channel();
    let d = dispatch(
        t,
        "GET".to_string(),
        "/ping".to_string(),
        vec![h("Host", "app.example")],
        None,
        tx,
        now,
        nanos,
    );
    (d, rx)
}

#[test]
fn a_request_goes_through_and_comes_back() {
    let mut t = tunnel();
    let (d, mut rx) = forward(&mut t, 10, 0xabc);
    let (id, payload) = match d {
        Dispatched::Forward { id, payload, client } => {
            assert_eq!(client, None);
            (id, payload)
        }
        _ => panic!("the frame should pass"),
    };
    assert_eq!(id, "rabc-0");
    assert!(t.is_pending("rabc-0"));
    let request = decode_request(&payload).unwrap();
    assert_eq!(request.id, id);
    assert_eq!(request.method, "GET");
    assert_eq!(request.path, "/ping");
    assert_eq!(request.headers, vec![h("Host", "app.example")]);
    assert_eq!(request.body, None);

    let frame = encode_response(&TunnelResponse {
        id: id.clone(),
        status: 200,
        headers: vec![h("Content-Length", "5")],
        body: Some(b"hello".to_vec()),
    });
    assert!(matches!(on_agent_frame(&mut t, &frame, 20), Ok(Delivery::Delivered)));
    assert_eq!(t.pending_count(), 0);
    let reply = settle(&mut t, &id, WaitOutcome::Response(rx.try_recv().unwrap()), 21);
    assert_eq!(reply.status, 200);
    assert_eq!(reply.body, b"hello".to_vec());
    assert_eq!(reply.headers, vec![h("Content-Length", "5")]);
    assert_eq!(t.circuit_breaker().consecutive_failures(), 0);
}

#[test]
fn a_timeout_is_504_and_leaves_nothing_behind() {
    let mut t = tunnel();
    let (d, _rx) = forward(&mut t, 10, 1);
    let id = match d {
        Dispatched::Forward { id, .. } => id,
        _ => panic!("the frame should pass"),
    };
    let reply = settle(&mut t, &id, WaitOutcome::TimedOut, 30_010);
    assert_eq!(reply.status, 504);
    assert_eq!(t.pending_count(), 0);
    assert_eq!(t.circuit_breaker().consecutive_failures(), 1);
    let late = encode_response(&response(&id, 200));
    assert!(matches!(on_agent_frame(&mut t, &late, 30_011), Ok(Delivery::NoWaiter)));
    assert_eq!(t.circuit_breaker().consecutive_failures(), 0);
}

#[test]
fn a_closed_receptacle_and_a_failed_enqueue_are_502() {
    let mut t = tunnel();
    let (d, _rx) = forward(&mut t, 10, 1);
    let id = match d {
        Dispatched::Forward { id, .. } => id,
        _ => panic!("the frame should pass"),
    };
    assert_eq!(settle(&mut t, &id, WaitOutcome::Closed, 11).status, 502);
    assert_eq!(t.pending_count(), 0);
    let (d, _rx) = forward(&mut t, 12, 2);
    let id = match d {
        Dispatched::Forward { id, .. } => id,
        _ => panic!("the frame should pass"),
    };
    let reply = enqueue_failed(&mut t, &id, 13);
    assert_eq!(reply.status, 502);
    assert_eq!(reply.body, b"Upstream send failed".to_vec());
    assert_eq!(t.pending_count(), 0);
    assert_eq!(t.circuit_breaker().consecutive_failures(), 2);
}

#[test]
fn the_breaker_opens_and_queues() {
    let config = CircuitBreakerConfig { max_queue_size: 2, ..CircuitBreakerConfig::default() };
    let mut t = tunnel_with(IpFilter::default(), config);
    for n in 0..3u64 {
        let (d, _rx) = forward(&mut t, n, n as u128);
        let id = match d {
            Dispatched::Forward { id, .. } => id,
            _ => panic!("the frame should pass"),
        };
        assert_eq!(enqueue_failed(&mut t, &id, n).status, 502);
    }
    assert_eq!(t.circuit_breaker().state(), CircuitState::Open);
    for (n, want_queued) in [(4u64, true), (5, true), (6, false)] {
        let (d, _rx) = forward(&mut t, n, n as u128);
        match d {
            Dispatched::Unavailable { reply, queued } => {
                assert_eq!(reply.status, 503);
                assert!(reply.metered);
                assert_eq!(queued, want_queued);
            }
            _ => panic!("the breaker is open"),
        }
        assert_eq!(t.pending_count(), 0);
    }
    assert_eq!(t.circuit_breaker().queue_size(), 2);

    let frames = on_tunnel_up(&mut t, 1_000);
    assert_eq!(frames.len(), 2);
    assert_eq!(decode_request(&frames[0]).unwrap().id, "r4-3");
    assert_eq!(decode_request(&frames[1]).unwrap().id, "r5-4");
    assert_eq!(t.circuit_breaker().state(), CircuitState::Closed);
    let (d, _rx) = forward(&mut t, 1_001, 9);
    assert!(matches!(d, Dispatched::Forward { .. }));
}

#[test]
fn an_id_that_is_in_use_is_a_collision() {
    let mut t = tunnel();
    let (tx, _rx0) = tokio::sync::oneshot::channel();
    t.open_request("r7-0".into(), tx).unwrap();
    let (d, _rx) = forward(&mut t, 1, 7);
    match d {
        Dispatched::Collision { reply, .. } => assert_eq!(reply.status, 500),
        _ => panic!("the id is in use"),
    }
    assert_eq!(t.pending_count(), 1);
    assert_eq!(t.sequence(), 0);
}

#[test]
fn a_body_that_is_too_large_touches_nothing() {
    let mut t = tunnel();
    let (tx, mut rx) = tokio::sync::oneshot::channel();
    let d = dispatch(
        &mut t,
        "POST".to_string(),
        "/upload".to_string(),
        vec![],
        Some(vec![0u8; 20 * 1024 * 1024]),
        tx,
        1,
        1,
    );
    match d {
        Dispatched::TooLarge { reply, receptacle } => {
            assert_eq!(reply.status, 413);
            assert!(!reply.metered);
            drop(receptacle);
        }
        _ => panic!("the body is too large"),
    }
    assert!(matches!(rx.try_recv(), Err(tokio::sync::oneshot::error::TryRecvError::Closed)));
    assert_eq!(t.pending_count(), 0);
    assert_eq!(t.sequence(), 0);
    assert_eq!(t.circuit_breaker().queue_size(), 0);
    assert_eq!(t.circuit_breaker().consecutive_failures(), 0);
}

#[test]
fn the_answer_to_the_public_caller() {
    let reply = translate_response(TunnelResponse {
        id: "x".into(),
        status: 99,
        headers: vec![
            h("X-Ok", "fine"),
            h("Bad Name", "v"),
            h("X-Bad-Value", "line\nbreak"),
            h("", "v"),
            h("x-ok", "again"),
        ],
        body: None,
    });
    assert_eq!(reply.status, 200);
    assert_eq!(reply.headers, vec![h("X-Ok", "fine"), h("x-ok", "again")]);
    assert_eq!(reply.body, Vec::<u8>::new());
    let reply = translate_response(TunnelResponse {
        id: "x".into(),
        status: 200,
        headers: vec![
            h("X-Tab", "a\tb"),
            h("X-Latin", "caf\u{e9}"),
            h("X-Del", "a\u{7f}b"),
            h("X-Nul", "a\u{0}b"),
            h("X-\u{e9}", "v"),
            h("X:Colon", "v"),
            h("!#$%&'*+-.^_`|~09AZaz", ""),
            h(&"n".repeat(65535), "long"),
            h(&"n".repeat(65536), "too long"),
        ],
        body: Some(vec![1]),
    });
    let kept: Vec<&str> = reply.headers.iter().map(|(_, v)| v.as_str()).collect();
    assert_eq!(kept, vec!["a\tb", "caf\u{e9}", "", "long"]);
    assert_eq!(reply.headers[2].0, "!#$%&'*+-.^_`|~09AZaz");
    for (status, want) in [(0u16, 200u16), (100, 100), (404, 404), (999, 999), (1000, 200)] {
        let r = translate_response(TunnelResponse { id: "x".into(), status, headers: vec![], body: None });
        assert_eq!(r.status, want);
    }
}

// --- the registration ------------------------------------------------------

#[test]
fn an_advertisement_is_read() {
    let a = read_advertisement(Some(
        r#"{"subdomain":"app","type":"http","local_port":3000,"ip_filter":{"allow":["10.0.0.0/8"],"deny":["10.1.2.3/32","x"]}}"#,
    ));
    assert_eq!(a.subdomain, Some("app".to_string()));
    assert_eq!(a.allow, vec!["10.0.0.0/8".to_string()]);
    assert_eq!(a.deny, vec!["10.1.2.3/32".to_string(), "x".to_string()]);
    let f = a.ip_filter();
    assert_eq!(f.allow.len(), 1);
    assert_eq!(f.deny.len(), 1);
}

#[test]
fn an_advertisement_that_is_malformed_or_missing_is_anonymous() {
    for text in [None, Some("not json"), Some("[]"), Some(r#"{"subdomain":7}"#), Some(r#"{"subdomain":null}"#)] {
        let a = read_advertisement(text);
        assert_eq!(a.subdomain, None);
        assert!(a.allow.is_empty() && a.deny.is_empty());
        assert!(a.ip_filter().is_empty());
    }
    let a = read_advertisement(Some(r#"{"subdomain":"a","ip_filter":{"allow":["1.2.3.4/32", 5],"deny":"x"}}"#));
    assert_eq!(a.subdomain, Some("a".to_string()));
    assert!(a.allow.is_empty() && a.deny.is_empty());
}

#[test]
fn an_acknowledgement_is_written_and_read() {
    let given = Allocation { subdomain: "app-1f".to_string(), reassigned: true };
    let ack = acknowledge(Some(&given), "example.net");
    assert!(ack.success);
    assert_eq!(ack.subdomain, "app-1f");
    assert_eq!(ack.url, "https://app-1f.example.net");
    assert!(ack.reassigned);
    assert_eq!(ack.error, None);
    let text = String::from_utf8(encode_acknowledgement(&ack)).unwrap();
    assert_eq!(
        text,
        r#"{"reassigned":true,"subdomain":"app-1f","success":true,"url":"https://app-1f.example.net"}"#
    );
    let reading = read_acknowledgement(&text).unwrap();
    assert!(reading.success);
    assert_eq!(reading.url, Some("https://app-1f.example.net".to_string()));
    assert_eq!(reading.error, None);

    let failed = acknowledge(None, "example.net");
    assert!(!failed.success);
    let text = String::from_utf8(encode_acknowledgement(&failed)).unwrap();
    let reading = read_acknowledgement(&text).unwrap();
    assert!(!reading.success);
    assert_eq!(reading.error, Some("No subdomain available".to_string()));
    assert!(read_acknowledgement("nope").is_none());
    assert!(!read_acknowledgement("{}").unwrap().success);
}

#[test]
fn the_messages_of_the_agent() {
    let mut t = tunnel();
    assert!(matches!(
        on_agent_message(&mut t, ControlMessage::Ping(vec![1, 2]), 1),
        RelayAction::Pong(ref d) if d == &vec![1u8, 2]
    ));
    assert!(matches!(on_agent_message(&mut t, ControlMessage::Close, 1), RelayAction::Stop));
    assert!(matches!(on_agent_message(&mut t, ControlMessage::End, 1), RelayAction::Stop));
    assert!(matches!(on_agent_message(&mut t, ControlMessage::Failed, 1), RelayAction::Continue));
    assert!(matches!(on_agent_message(&mut t, ControlMessage::Text("x".into()), 1), RelayAction::Continue));
    assert!(matches!(on_agent_message(&mut t, ControlMessage::Pong(vec![]), 1), RelayAction::Continue));
    t.circuit_breaker_mut().record_failure(2);
    assert!(matches!(on_agent_message(&mut t, ControlMessage::Binary(b"junk".to_vec()), 3), RelayAction::Continue));
    assert_eq!(t.circuit_breaker().consecutive_failures(), 1);
    let frame = encode_response(&response("nobody", 200));
    assert!(matches!(on_agent_message(&mut t, ControlMessage::Binary(frame), 4), RelayAction::Continue));
    assert_eq!(t.circuit_breaker().consecutive_failures(), 0);
    assert!(matches!(on_write_failed(&mut t, 5), RelayAction::Stop));
    assert_eq!(t.circuit_breaker().consecutive_failures(), 1);
}
