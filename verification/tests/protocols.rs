use refractium::protocols::dns::Dns;
use refractium::protocols::ftp::Ftp;
use refractium::protocols::http::Http;
use refractium::protocols::https::Https;
use refractium::protocols::ssh::Ssh;
use refractium::protocols::{DynamicProtocol, FallbackProtocol, Protocol, ProtocolRegistry, RefractiumProtocol};
use refractium::types::Transport;

fn tls_client_hello_google() -> Vec<u8> {
    vec![
        0x16, 0x03, 0x01, 0x00, 0xba, 0x01, 0x00, 0x00, 0xb6, 0x03, 0x03, 0xfa, 0xaf, 0xaf, 0xaf, 0xaf,
        0xaf, 0xaf, 0xaf, 0xaf, 0xaf, 0xaf, 0xaf, 0xaf, 0xaf, 0xaf, 0xaf, 0xaf, 0xaf, 0xaf, 0xaf, 0xaf,
        0xaf, 0xaf, 0xaf, 0xaf, 0xaf, 0xaf, 0xaf, 0xaf, 0xaf, 0xaf, 0xaf, 0x00, 0x00, 0x02, 0x00, 0x2f,
        0x01, 0x00, 0x00, 0x8b, 0x00, 0x00, 0x00, 0x0f, 0x00, 0x0d, 0x00, 0x00, 0x0a, 0x67, 0x6f, 0x6f,
        0x67, 0x6c, 0x65, 0x2e, 0x63, 0x6f, 0x6d,
    ]
}

#[test]
fn test_https_identify_invalid() {
    let proto = Https;
    assert!(proto.identify(b"GET / HTTP/1.1").is_none());
}

#[test]
fn test_sni_parsing() {
    let sni_ext = vec![
        0x00, 0x0b, // list len
        0x00, // type host_name
        0x00, 0x08, // name len
        b'e', b'x', b'a', b'm', b'p', b'l', b'e', b'.',
    ];
    if let Some(sni) = Https::parse_sni(&sni_ext) {
        assert_eq!(sni, "example.");
    } else {
        panic!("SNI parsing failed");
    }
}

#[test]
fn sni_parsing_rejects_short_or_inconsistent_lists() {
    assert_eq!(Https::parse_sni(&[0x00, 0x03, 0x00, 0x00]), None);
    // list length larger than the data
    assert_eq!(Https::parse_sni(&[0x00, 0x20, 0x00, 0x00, 0x01, b'a']), None);
    // list length below the minimum of one entry
    assert_eq!(Https::parse_sni(&[0x00, 0x02, 0x00, 0x00, 0x01, b'a']), None);
}

#[test]
fn sni_parsing_skips_other_name_types() {
    let ext = vec![
        0x00, 0x09, // list len
        0x01, 0x00, 0x01, b'x', // type 1, one byte
        0x00, 0x00, 0x02, b'o', b'k', // host name "ok"
    ];
    assert_eq!(Https::parse_sni(&ext), Some("ok".to_string()));
}

#[test]
fn https_extracts_sni_from_client_hello() {
    let data = tls_client_hello_google();
    let m = Https.identify(&data).expect("client hello");
    assert_eq!(m.name, "https");
    assert_eq!(m.metadata, Some("google.com".to_string()));
    assert_eq!(Https::client_hello(&data), Some(Some("google.com".to_string())));
}

#[test]
fn https_client_hello_without_sni_has_no_metadata() {
    let mut data = tls_client_hello_google();
    // change the extension type from server_name (0) to another type
    data[54] = 0x01;
    let m = Https.identify(&data).expect("client hello");
    assert_eq!(m.metadata, None);
}

#[test]
fn https_rejects_truncated_hello() {
    let data = tls_client_hello_google();
    assert!(Https.identify(&data[..42]).is_none());
    assert!(Https.identify(&data[..44]).is_none());
    let mut not_hello = data.clone();
    not_hello[5] = 0x02;
    assert!(Https.identify(&not_hello).is_none());
}

#[test]
fn http_methods_and_preface() {
    for m in ["GET ", "POST ", "PUT ", "DELETE ", "HEAD ", "OPTIONS ", "CONNECT ", "TRACE ", "PATCH "] {
        let data = format!("{}/ HTTP/1.1\r\n", m);
        let r = Http.identify(data.as_bytes()).expect("http");
        assert_eq!(r.name, "http");
        assert_eq!(r.metadata, None);
    }
    assert!(Http::matches(b"PRI * HTTP/2.0\r\n\r\nSM\r\n\r\n"));
    assert!(!Http::matches(b"GET"));
    assert!(!Http::matches(b"get / HTTP/1.1"));
    assert!(!Http::matches(b" GET /"));
    assert_eq!(Http.name(), "http");
    assert_eq!(Http.transport(), Transport::Tcp);
}

#[test]
fn ssh_version_strings() {
    assert!(Ssh.identify(b"SSH-2.0-OpenSSH_8.2p1\r\n").is_some());
    assert!(Ssh.identify(b"SSH-1.99-foo").is_some());
    assert!(Ssh.identify(b"SSH-1.5-foo").is_none());
    assert_eq!(Ssh.name(), "ssh");
}

#[test]
fn ftp_signatures() {
    assert!(Ftp.identify(b"USER anonymous\r\n").is_some());
    assert!(Ftp.identify(b"AUTH TLS\r\n").is_some());
    assert!(Ftp.identify(b"220 welcome").is_some());
    assert!(Ftp.identify(b"221 bye").is_none());
    assert_eq!(Ftp.identify(b"USER x").unwrap().name, "ftp");
}

#[test]
fn dns_queries_only() {
    let query = [0x24, 0x1a, 0x01, 0x00, 0x00, 0x01, 0x00, 0x00, 0x00, 0x00, 0x00, 0x00, 0x07];
    assert!(Dns::matches(&query));
    assert_eq!(Dns.identify(&query).unwrap().name, "dns");
    let mut response = query;
    response[2] = 0x81;
    assert!(!Dns::matches(&response));
    let mut opcode = query;
    opcode[2] = 0x08; // opcode 1
    assert!(!Dns::matches(&opcode));
    assert!(!Dns::matches(&query[..11]));
    assert_eq!(Dns.transport(), Transport::Udp);
}

#[test]
fn dynamic_protocol_finds_patterns_anywhere() {
    let p = DynamicProtocol {
        name: "MyApp".to_string(),
        patterns: vec!["\x01\x02\x03".to_string(), "MY_PROTO_V1".to_string()],
    };
    let m = p.identify(b"xxMY_PROTO_V1yy").expect("match");
    assert_eq!(m.name, "my_app");
    assert_eq!(p.name(), "MyApp");
    assert!(p.identify(&[9, 1, 2, 3, 9]).is_some());
    assert!(p.identify(b"MY_PROTO_V").is_none());
    assert_eq!(p.transport(), Transport::Both);
}

#[test]
fn dynamic_protocol_matches_utf8_of_patterns() {
    let p = DynamicProtocol { name: "Minecraft".to_string(), patterns: vec!["\u{00fe}\x01".to_string()] };
    assert!(p.identify(&[0x00, 0xc3, 0xbe, 0x01]).is_some());
    assert!(p.identify(&[0xfe, 0x01]).is_none());
    assert_eq!(p.identify(&[0xc3, 0xbe, 0x01]).unwrap().name, "minecraft");
}

#[test]
fn fallback_protocol_identifies_nothing() {
    assert!(FallbackProtocol.identify(b"GET / HTTP/1.1").is_none());
    assert_eq!(FallbackProtocol.name(), "fallback");
}

#[test]
fn registry_probes_in_order() {
    let mut reg = ProtocolRegistry::new();
    reg.register(Protocol::Dynamic(DynamicProtocol { name: "Greedy".to_string(), patterns: vec!["GET".to_string()] }));
    reg.register(Protocol::Http(Http));
    let m = reg.probe(b"GET / HTTP/1.1").unwrap();
    assert_eq!(m.name, "greedy");
    let m = reg.probe(b"POST / HTTP/1.1").unwrap();
    assert_eq!(m.name, "http");
    assert!(reg.probe(b"\x00\x00").is_none());
    assert_eq!(reg.get_registered_names(), vec!["greedy".to_string(), "http".to_string()]);
}

#[test]
fn registry_mixed_traffic() {
    let mut reg = ProtocolRegistry::default();
    reg.register(Protocol::Http(Http));
    reg.register(Protocol::Https(Https));
    reg.register(Protocol::Ssh(Ssh));
    reg.register(Protocol::Ftp(Ftp));
    reg.register(Protocol::Dns(Dns));
    assert_eq!(reg.probe(b"SSH-2.0-OpenSSH_8.2p1 Ubuntu\r\n").unwrap().name, "ssh");
    assert_eq!(reg.probe(&tls_client_hello_google()).unwrap().name, "https");
    assert_eq!(reg.probe(b"USER anonymous\r\n").unwrap().name, "ftp");
    assert!(reg.probe(&[0u8; 128]).unwrap().name == "dns");
    assert!(reg.probe(&[0u8; 8]).is_none());
}
