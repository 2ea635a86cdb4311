use ztunnel::tls::{extract_sni, TlsMode};

#[test]
fn test_tls_mode_parse() {
    assert_eq!(TlsMode::from_str("terminate"), TlsMode::Terminate);
    assert_eq!(TlsMode::from_str("passthrough"), TlsMode::Passthrough);
    assert_eq!(TlsMode::from_str("pass"), TlsMode::Passthrough);
    assert_eq!(TlsMode::from_str("none"), TlsMode::Off);
    assert_eq!(TlsMode::from_str(""), TlsMode::Off);
}

#[test]
fn tls_mode_ignores_case() {
    assert_eq!(TlsMode::from_str("TERMINATE"), TlsMode::Terminate);
    assert_eq!(TlsMode::from_str("PassThrough"), TlsMode::Passthrough);
    assert_eq!(TlsMode::from_str("Pass"), TlsMode::Passthrough);
    assert_eq!(TlsMode::from_str("terminate "), TlsMode::Off);
}

fn client_hello(name: &[u8], before: &[(u16, Vec<u8>)]) -> Vec<u8> {
    let mut ext = Vec::new();
    for (kind, body) in before {
        ext.extend_from_slice(&kind.to_be_bytes());
        ext.extend_from_slice(&(body.len() as u16).to_be_bytes());
        ext.extend_from_slice(body);
    }
    let mut sni = Vec::new();
    sni.extend_from_slice(&((name.len() + 3) as u16).to_be_bytes());
    sni.push(0);
    sni.extend_from_slice(&(name.len() as u16).to_be_bytes());
    sni.extend_from_slice(name);
    ext.extend_from_slice(&0u16.to_be_bytes());
    ext.extend_from_slice(&(sni.len() as u16).to_be_bytes());
    ext.extend_from_slice(&sni);

    let mut body = Vec::new();
    body.extend_from_slice(&[3, 3]);
    body.extend_from_slice(&[7u8; 32]);
    body.push(2);
    body.extend_from_slice(&[9, 9]);
    body.extend_from_slice(&4u16.to_be_bytes());
    body.extend_from_slice(&[0x13, 0x01, 0x13, 0x02]);
    body.push(1);
    body.push(0);
    body.extend_from_slice(&(ext.len() as u16).to_be_bytes());
    body.extend_from_slice(&ext);

    let mut out = vec![0x16, 3, 1];
    out.extend_from_slice(&((body.len() + 4) as u16).to_be_bytes());
    out.push(1);
    out.extend_from_slice(&[0, (body.len() >> 8) as u8, body.len() as u8]);
    out.extend_from_slice(&body);
    out
}

#[test]
fn sni_is_found() {
    let hello = client_hello(b"app.example.com", &[]);
    assert_eq!(extract_sni(&hello), Some("app.example.com".to_string()));
}

#[test]
fn sni_is_found_behind_other_extensions() {
    let hello = client_hello(b"x.test", &[(10, vec![1, 2, 3]), (11, vec![])]);
    assert_eq!(extract_sni(&hello), Some("x.test".to_string()));
}

#[test]
fn sni_needs_a_client_hello() {
    assert_eq!(extract_sni(&[]), None);
    assert_eq!(extract_sni(&[0x16, 3, 1, 0, 0]), None);
    let mut hello = client_hello(b"app.example.com", &[]);
    hello[0] = 0x17;
    assert_eq!(extract_sni(&hello), None);
    let mut hello = client_hello(b"app.example.com", &[]);
    hello[5] = 2;
    assert_eq!(extract_sni(&hello), None);
}

#[test]
fn sni_that_is_cut_short_or_no_text_is_none() {
    let hello = client_hello(b"app.example.com", &[]);
    assert_eq!(extract_sni(&hello[..hello.len() - 1]), None);
    let hello = client_hello(&[0xff, 0xfe], &[]);
    assert_eq!(extract_sni(&hello), None);
}
