use ztunnel::agent::{
    after_tunnel, begin_forward, encode_registration, finish_forward, on_relay_message, serve_as,
    AfterTunnel, AgentAction, Registration, ServeAs,
};
use ztunnel::forwarder::{
    find_header_end, parse_head, parse_status_code, split_header_kv, write_request,
    ResponseReader, MAX_HEAD_READS,
};
use ztunnel::frame::{decode_response, encode_request, DecodeError, TunnelRequest};
use ztunnel::registration::ControlMessage;

fn h(k: &str, v: &str) -> (String, String) {
    (k.to_string(), v.to_string())
}

fn request(headers: Vec<(String, String)>, body: Option<Vec<u8>>) -> TunnelRequest {
    TunnelRequest { id: "r1".into(), method: "GET".into(), path: "/ping".into(), headers, body }
}

fn text(bytes: Vec<u8>) -> String {
    String::from_utf8(bytes).unwrap()
}

#[test]
fn the_request_for_the_local_service() {
    let r = request(vec![h("Accept", "*/*"), h("X-Two", "a: b")], None);
    assert_eq!(
        text(write_request(&r, "127.0.0.1", 3000)),
        "GET /ping HTTP/1.1\r\nHost: 127.0.0.1:3000\r\nAccept: */*\r\nX-Two: a: b\r\n\r\n"
    );
}

#[test]
fn a_body_gets_its_length() {
    let r = request(vec![h("Accept", "*/*")], Some(b"hello".to_vec()));
    assert_eq!(
        text(write_request(&r, "localhost", 80)),
        "GET /ping HTTP/1.1\r\nHost: localhost:80\r\nAccept: */*\r\nContent-Length: 5\r\n\r\nhello"
    );
    let r = request(vec![], Some(vec![]));
    assert_eq!(
        text(write_request(&r, "h", 65535)),
        "GET /ping HTTP/1.1\r\nHost: h:65535\r\nContent-Length: 0\r\n\r\n"
    );
}

#[test]
fn a_length_that_is_there_is_kept_or_made_to_match() {
    let r = request(vec![h("content-length", " 5 "), h("A", "b")], Some(b"hello".to_vec()));
    assert_eq!(
        text(write_request(&r, "h", 1)),
        "GET /ping HTTP/1.1\r\nHost: h:1\r\ncontent-length:  5 \r\nA: b\r\n\r\nhello"
    );
    let r = request(vec![h("CONTENT-LENGTH", "99"), h("A", "b")], Some(b"hello".to_vec()));
    assert_eq!(
        text(write_request(&r, "h", 1)),
        "GET /ping HTTP/1.1\r\nHost: h:1\r\nCONTENT-LENGTH: 5\r\nA: b\r\n\r\nhello"
    );
    let r = request(vec![h("Content-Length", "99")], None);
    assert_eq!(text(write_request(&r, "h", 1)), "GET /ping HTTP/1.1\r\nHost: h:1\r\nContent-Length: 99\r\n\r\n");
}

#[test]
fn the_end_of_the_head() {
    assert_eq!(find_header_end(b""), None);
    assert_eq!(find_header_end(b"\r\n\r"), None);
    assert_eq!(find_header_end(b"\r\n\r\n"), Some(0));
    assert_eq!(find_header_end(b"HTTP/1.1 200 OK\r\n\r\nbody\r\n\r\n"), Some(15));
    assert_eq!(find_header_end(b"a\n\nb\r\r\n\r\n"), Some(5));
}

#[test]
fn the_status_of_a_status_line() {
    assert_eq!(parse_status_code(b"HTTP/1.1 200 OK"), Some(200));
    assert_eq!(parse_status_code(b"  HTTP/1.1 \t 404   Not Found"), Some(404));
    assert_eq!(parse_status_code(b"HTTP/1.1 999"), Some(999));
    assert_eq!(parse_status_code(b"HTTP/1.1 100 Continue"), Some(100));
    assert_eq!(parse_status_code(b"200 OK"), None);
    assert_eq!(parse_status_code(b"HTTP/1.1"), None);
    assert_eq!(parse_status_code(b""), None);
    assert_eq!(parse_status_code(b"HTTP/1.1 20 OK"), None);
    assert_eq!(parse_status_code(b"HTTP/1.1 2000 OK"), None);
    assert_eq!(parse_status_code(b"HTTP/1.1 099 OK"), None);
    assert_eq!(parse_status_code(b"HTTP/1.1 000 OK"), None);
    assert_eq!(parse_status_code(b"HTTP/1.1 +20 OK"), None);
    assert_eq!(parse_status_code(b"HTTP/1.1 2x0 OK"), None);
    assert_eq!(parse_status_code(b"HTTP/1.1 200 \xff"), None);
}

#[test]
fn a_header_line_is_split_at_its_first_colon() {
    assert_eq!(split_header_kv(b"Content-Type: text/plain"), Some(h("Content-Type", "text/plain")));
    assert_eq!(split_header_kv(b"  A  :  b : c  "), Some(h("A", "b : c")));
    assert_eq!(split_header_kv(b":"), Some(h("", "")));
    assert_eq!(split_header_kv(b"no colon"), None);
    assert_eq!(split_header_kv(b"A: \xff"), None);
    assert_eq!(split_header_kv(b"h\xc3\xa9: \xe2\x82\xac"), Some(h("hé", "€")));
    assert_eq!(split_header_kv(b""), None);
}

#[test]
fn a_head_is_parsed() {
    let p = parse_head(b"HTTP/1.1 201 Created\r\nB: 2\r\nnot a header\r\nA: 1\r\ncontent-length: 7\r\nB: 3");
    assert_eq!(p.status, 201);
    assert_eq!(p.headers, vec![h("B", "2"), h("A", "1"), h("content-length", "7"), h("B", "3")]);
    assert_eq!(p.content_length, Some(7));
    let p = parse_head(b"garbage\nContent-Length: 1\nContent-Length: x\nContent-Length: +2");
    assert_eq!(p.status, 200);
    assert_eq!(p.content_length, Some(2));
    assert_eq!(p.headers.len(), 3);
    let p = parse_head(b"");
    assert_eq!((p.status, p.headers.len(), p.content_length), (200, 0, None));
    let p = parse_head(b"HTTP/1.1 200 OK\r\nContent-Length: 99999999999999999999999999");
    assert_eq!(p.content_length, None);
}

fn read_all(chunks: &[&[u8]]) -> (ResponseReader, usize) {
    let mut reader = ResponseReader::new();
    let mut used = 0;
    for chunk in chunks {
        used += 1;
        if !reader.on_read(chunk) {
            break;
        }
    }
    (reader, used)
}

#[test]
fn a_response_with_a_length_is_read_to_its_length() {
    let (reader, used) = read_all(&[b"HTTP/1.1 200 OK\r\nContent-Le", b"ngth: 5\r\n\r\nhe", b"llo", b"never read"]);
    assert_eq!(used, 3);
    let r = reader.finish("r1".to_string());
    assert_eq!(r.id, "r1");
    assert_eq!(r.status, 200);
    assert_eq!(r.headers, vec![h("Content-Length", "5")]);
    assert_eq!(r.body, Some(b"hello".to_vec()));
}

#[test]
fn a_body_that_runs_over_is_cut_and_one_that_ends_early_is_kept() {
    let (reader, used) = read_all(&[b"HTTP/1.1 200 OK\r\nContent-Length: 5\r\n\r\nhello and more"]);
    assert_eq!(used, 1);
    assert_eq!(reader.finish("x".into()).body, Some(b"hello".to_vec()));
    let (reader, used) = read_all(&[b"HTTP/1.1 200 OK\r\nContent-Length: 50\r\n\r\nhel", b"lo", b"", b"x"]);
    assert_eq!(used, 3);
    assert_eq!(reader.finish("x".into()).body, Some(b"hello".to_vec()));
}

#[test]
fn without_a_length_the_body_is_what_was_read_with_the_head() {
    let (reader, used) = read_all(&[b"HTTP/1.1 404 Not Found\r\nA: b\r\n\r\npart", b"rest"]);
    assert_eq!(used, 1);
    let r = reader.finish("x".into());
    assert_eq!(r.status, 404);
    assert_eq!(r.body, Some(b"part".to_vec()));
}

#[test]
fn without_a_head_all_is_body() {
    let (reader, used) = read_all(&[b"no head", b" at all", b""]);
    assert_eq!(used, 3);
    let r = reader.finish("x".into());
    assert_eq!(r.status, 200);
    assert!(r.headers.is_empty());
    assert_eq!(r.body, Some(b"no head at all".to_vec()));
    let (reader, _) = read_all(&[b""]);
    assert_eq!(reader.finish("x".into()).body, Some(vec![]));
}

#[test]
fn the_head_is_given_up_after_the_largest_number_of_reads() {
    let mut reader = ResponseReader::new();
    for n in 1..=MAX_HEAD_READS {
        assert_eq!(reader.on_read(b"x"), n < MAX_HEAD_READS, "read {}", n);
    }
    assert_eq!(reader.finish("x".into()).body, Some(vec![b'x'; MAX_HEAD_READS]));
}

#[test]
fn a_frame_is_served() {
    let frame = encode_request(&request(vec![h("A", "b")], Some(b"hi".to_vec())));
    let f = begin_forward(&frame, "127.0.0.1", 3000).unwrap();
    assert_eq!(f.request.id, "r1");
    assert_eq!(
        text(f.bytes),
        "GET /ping HTTP/1.1\r\nHost: 127.0.0.1:3000\r\nA: b\r\nContent-Length: 2\r\n\r\nhi"
    );
    let mut reader = ResponseReader::new();
    assert!(!reader.on_read(b"HTTP/1.1 200 OK\r\nContent-Length: 5\r\n\r\nhello"));
    let answer = finish_forward(&f.request, reader);
    assert_eq!(answer.response.status, 200);
    let back = decode_response(&answer.payload).unwrap();
    assert_eq!(back.id, "r1");
    assert_eq!(back.status, 200);
    assert_eq!(back.body, Some(b"hello".to_vec()));
    assert_eq!(begin_forward(b"junk", "h", 1).err(), Some(DecodeError::NotJson));
    assert_eq!(begin_forward(b"{}", "h", 1).err(), Some(DecodeError::WrongShape));
}

#[test]
fn the_happy_path_of_one_request() {
    let frame = encode_request(&TunnelRequest {
        id: "R".into(),
        method: "GET".into(),
        path: "/ping".into(),
        headers: vec![],
        body: None,
    });
    let f = begin_forward(&frame, "localhost", 3000).unwrap();
    let written = text(f.bytes);
    assert_eq!(written, "GET /ping HTTP/1.1\r\nHost: localhost:3000\r\n\r\n");
    assert!(written.starts_with("GET /ping HTTP/1.1\r\nHost: localhost:3000\r\n"));
    assert!(!written.to_ascii_lowercase().contains("content-length"));

    let mut reader = ResponseReader::new();
    assert!(!reader.on_read(b"HTTP/1.1 200 OK\r\nContent-Length: 5\r\n\r\nhello"));
    let answer = finish_forward(&f.request, reader);
    let back = decode_response(&answer.payload).unwrap();
    assert_eq!(back.id, "R");
    assert_eq!(back.status, 200);
    assert_eq!(back.headers, vec![h("Content-Length", "5")]);
    assert_eq!(back.body, Some(b"hello".to_vec()));
}

#[test]
fn after_a_tunnel_has_ended() {
    assert_eq!(after_tunnel(true), AfterTunnel::Stop);
    assert_eq!(after_tunnel(false), AfterTunnel::Retry { delay_ms: 5000 });
}

#[test]
fn the_messages_of_the_relay() {
    assert!(matches!(on_relay_message(ControlMessage::Binary(vec![1])), AgentAction::Serve(ref d) if d == &vec![1u8]));
    assert!(matches!(on_relay_message(ControlMessage::Ping(vec![2])), AgentAction::Pong(ref d) if d == &vec![2u8]));
    assert!(matches!(on_relay_message(ControlMessage::Close), AgentAction::Stop));
    assert!(matches!(on_relay_message(ControlMessage::End), AgentAction::Stop));
    assert!(matches!(on_relay_message(ControlMessage::Failed), AgentAction::Stop));
    assert!(matches!(on_relay_message(ControlMessage::Text("t".into())), AgentAction::Continue));
    assert!(matches!(on_relay_message(ControlMessage::Pong(vec![])), AgentAction::Continue));
    assert_eq!(serve_as("http"), ServeAs::Http);
    assert_eq!(serve_as("tcp"), ServeAs::Tcp);
    assert_eq!(serve_as("udp"), ServeAs::Nothing);
    assert_eq!(serve_as("HTTP"), ServeAs::Nothing);
}

#[test]
fn an_advertisement_is_written() {
    let r = Registration { subdomain: Some("app".into()), proto: "http".into(), local_port: 3000, name: None, ip_filter: None };
    assert_eq!(text(encode_registration(&r)), r#"{"local_port":3000,"subdomain":"app","type":"http"}"#);
    let r = Registration {
        subdomain: None,
        proto: "tcp".into(),
        local_port: 5432,
        name: Some("db".into()),
        ip_filter: Some((vec!["10.0.0.0/8".into()], vec![])),
    };
    assert_eq!(
        text(encode_registration(&r)),
        r#"{"ip_filter":{"allow":["10.0.0.0/8"],"deny":[]},"local_port":5432,"name":"db","subdomain":null,"type":"tcp"}"#
    );
    let read = ztunnel::registration::read_advertisement(Some(&text(encode_registration(&r))));
    assert_eq!(read.subdomain, None);
    assert_eq!(read.allow, vec!["10.0.0.0/8".to_string()]);
}
