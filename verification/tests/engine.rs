use refractium::engine::balancer::{BackendPool, LoadBalancer};
use refractium::engine::health::HealthMonitor;
use refractium::engine::limits::{Admission, ClientIp, ConnectionLimiter};
use refractium::engine::router::{hooks_of, RouteResult, Router};
use refractium::engine::sessions::{
    packet_action, session_step, PacketAction, PeerAddr, SessionAction, SessionEvent, SessionTable,
    SESSION_IDLE_SECS,
};
use refractium::engine::{format_report, format_status_line, Refractium};
use refractium::protocols::http::Http;
use refractium::protocols::https::Https;
use refractium::protocols::ssh::Ssh;
use refractium::protocols::dns::Dns;
use refractium::protocols::{
    BuiltinProtocol, CustomProtocol, DynamicProtocol, FallbackProtocol, HookedProtocol, Protocol,
    ProtocolRegistry, RefractiumProtocol, UserProtocol,
};
use refractium::types::Transport;
use std::sync::Arc;
use refractium::types::{ForwardTarget, ProtocolRoute};

fn route(p: Protocol, sni: Option<&str>, addrs: &[&str]) -> ProtocolRoute {
    let forward_to = if addrs.len() == 1 {
        ForwardTarget::Single(addrs[0].to_string())
    } else {
        ForwardTarget::Multiple(addrs.iter().map(|a| a.to_string()).collect())
    };
    ProtocolRoute { protocol: p, sni: sni.map(|s| s.to_string()), forward_to }
}

fn hello_with_sni(name: &str) -> Vec<u8> {
    let mut d = vec![0x16, 0x03, 0x01, 0x00, 0x00, 0x01];
    d.resize(43, 0xaa);
    d.push(0x00); // session id length
    d.extend_from_slice(&[0x00, 0x02, 0x00, 0x2f]); // cipher suites
    d.extend_from_slice(&[0x01, 0x00]); // compression methods
    let n = name.len() as u16;
    let ext_len = n + 9;
    d.extend_from_slice(&ext_len.to_be_bytes());
    d.extend_from_slice(&[0x00, 0x00]);
    d.extend_from_slice(&(n + 5).to_be_bytes());
    d.extend_from_slice(&(n + 3).to_be_bytes());
    d.push(0x00);
    d.extend_from_slice(&n.to_be_bytes());
    d.extend_from_slice(name.as_bytes());
    d
}

#[test]
fn forward_target_to_vec() {
    assert_eq!(ForwardTarget::Single("a:1".to_string()).to_vec(), vec!["a:1".to_string()]);
    let m = ForwardTarget::Multiple(vec!["a:1".to_string(), "b:2".to_string()]);
    assert_eq!(m.to_vec(), vec!["a:1".to_string(), "b:2".to_string()]);
}

#[test]
fn health_monitor_records_probes() {
    let mut h = HealthMonitor::new();
    assert!(h.is_healthy("10.0.0.1:80"));
    h.set_status("10.0.0.1:80", false);
    assert!(!h.is_healthy("10.0.0.1:80"));
    assert!(h.is_healthy("10.0.0.2:80"));
    h.set_status("10.0.0.1:80", true);
    assert!(h.is_healthy("10.0.0.1:80"));
    h.set_status("10.0.0.3:80", false);
    h.start_monitoring(&vec!["10.0.0.3:80".to_string(), "10.0.0.4:80".to_string()]);
    assert!(!h.is_healthy("10.0.0.3:80"));
    assert!(h.is_healthy("10.0.0.4:80"));
    let mut t = h.targets();
    t.sort();
    assert_eq!(t, vec!["10.0.0.1:80", "10.0.0.3:80", "10.0.0.4:80"]);
}

#[test]
fn balancer_round_robin_and_health() {
    let lb_routes = vec![route(Protocol::Http(Http), None, &["a:1", "b:2", "c:3"])];
    let mut lb = LoadBalancer::new(lb_routes);
    let mut h = HealthMonitor::new();
    let picks: Vec<String> = (0..4).map(|_| lb.next_available("http", None, &h).unwrap()).collect();
    assert_eq!(picks, vec!["a:1", "b:2", "c:3", "a:1"]);
    h.set_status("c:3", false);
    assert_eq!(lb.next_available("http", None, &h).unwrap(), "b:2");
    assert_eq!(lb.next_available("http", None, &h).unwrap(), "a:1");
    assert_eq!(lb.next_available("http", None, &h).unwrap(), "b:2");
    h.set_status("a:1", false);
    h.set_status("b:2", false);
    assert_eq!(lb.next_available("http", None, &h), None);
    assert_eq!(lb.next_available("ssh", None, &h), None);
}

#[test]
fn balancer_prefers_sni_pool_and_fallback() {
    let routes = vec![
        route(Protocol::Https(Https), None, &["generic:443"]),
        route(Protocol::Https(Https), Some("example.com"), &["example:443"]),
        route(Protocol::Fallback(FallbackProtocol), None, &["fallback:80"]),
    ];
    let mut lb = LoadBalancer::new(routes);
    let mut h = HealthMonitor::new();
    assert_eq!(lb.next_available("https", Some("example.com"), &h).unwrap(), "example:443");
    assert_eq!(lb.next_available("https", Some("other.org"), &h).unwrap(), "generic:443");
    assert_eq!(lb.next_available("https", None, &h).unwrap(), "generic:443");
    h.set_status("example:443", false);
    assert_eq!(lb.next_available("https", Some("example.com"), &h).unwrap(), "generic:443");
    assert_eq!(lb.next_available("fallback", None, &h).unwrap(), "fallback:80");
    h.set_status("fallback:80", false);
    assert_eq!(lb.next_available("fallback", None, &h), None);
    let mut status = lb.get_status(&h);
    status.sort();
    assert_eq!(
        status,
        vec![
            ("https".to_string(), vec![("generic:443".to_string(), true)]),
            ("https:example.com".to_string(), vec![("example:443".to_string(), false)]),
        ]
    );
}

#[test]
fn balancer_later_route_replaces_earlier() {
    let routes = vec![
        route(Protocol::Http(Http), None, &["old:80"]),
        route(Protocol::Http(Http), None, &["new:80"]),
    ];
    let mut lb = LoadBalancer::new(routes);
    let h = HealthMonitor::new();
    assert_eq!(lb.next_available("http", None, &h).unwrap(), "new:80");
    assert_eq!(lb.get_status(&h).len(), 1);
}

#[test]
fn backend_pool_holds_addresses() {
    let p = BackendPool::new(vec!["a:1".to_string()]);
    assert_eq!(p.addresses, vec!["a:1".to_string()]);
}

#[test]
fn router_matches_falls_back_or_discards() {
    let routes = vec![
        route(Protocol::Http(Http), None, &["web:80"]),
        route(Protocol::Fallback(FallbackProtocol), None, &["fb:80"]),
    ];
    let mut reg = ProtocolRegistry::new();
    reg.register(Protocol::Http(Http));
    reg.register(Protocol::Ssh(Ssh));
    let mut router = Router::new(reg, LoadBalancer::new(routes));
    let mut h = HealthMonitor::new();
    match router.route(b"GET / HTTP/1.1", &h) {
        Some(RouteResult::Matched(p, a, _)) => {
            assert_eq!(p, "http");
            assert_eq!(a, "web:80");
        }
        _ => panic!("expected a match"),
    }
    // ssh is identified but has no route: fallback
    assert!(matches!(router.route(b"SSH-2.0-x", &h), Some(RouteResult::Fallback(a)) if a == "fb:80"));
    // unidentified data: more bytes needed
    assert!(router.route(b"xyz", &h).is_none());
    h.set_status("web:80", false);
    assert!(matches!(router.route(b"GET /", &h), Some(RouteResult::Fallback(_))));
    h.set_status("fb:80", false);
    assert!(matches!(router.route(b"GET /", &h), Some(RouteResult::Discarded)));
    assert!(matches!(router.route_fallback(&h), RouteResult::Discarded));
    router.update_balancer(vec![route(Protocol::Http(Http), None, &["web2:80"])]);
    assert!(matches!(router.route(b"GET /", &h), Some(RouteResult::Matched(_, a, _)) if a == "web2:80"));
    assert_eq!(router.get_health_status(&h).len(), 1);
}

#[test]
fn router_routes_https_by_sni() {
    let routes = vec![
        route(Protocol::Https(Https), Some("a.example"), &["a:443"]),
        route(Protocol::Https(Https), Some("b.example"), &["b:443"]),
    ];
    let mut reg = ProtocolRegistry::new();
    reg.register(Protocol::Https(Https));
    let mut router = Router::new(reg, LoadBalancer::new(routes));
    let h = HealthMonitor::new();
    assert!(matches!(router.route(&hello_with_sni("b.example"), &h), Some(RouteResult::Matched(_, a, _)) if a == "b:443"));
    assert!(matches!(router.route(&hello_with_sni("a.example"), &h), Some(RouteResult::Matched(_, a, _)) if a == "a:443"));
    assert!(matches!(router.route(&hello_with_sni("c.example"), &h), Some(RouteResult::Discarded)));
}

#[test]
fn limiter_caps_per_ip_and_total() {
    let mut l = ConnectionLimiter::new(3, 2);
    let a = ClientIp { v6: false, bits: 0x0a000001 };
    let b = ClientIp { v6: false, bits: 0x0a000002 };
    assert_eq!(l.try_accept(a), Admission::Admitted);
    assert_eq!(l.try_accept(a), Admission::Admitted);
    assert_eq!(l.try_accept(a), Admission::RejectedPerIp);
    assert_eq!(l.try_accept(b), Admission::Admitted);
    assert_eq!(l.try_accept(b), Admission::RejectedGlobal);
    assert_eq!(l.connections_of(a), 2);
    l.release(a);
    assert_eq!(l.connections_of(a), 1);
    assert_eq!(l.try_accept(b), Admission::Admitted);
    l.release(b);
    l.release(b);
    assert_eq!(l.connections_of(b), 0);
    l.release(b);
    assert_eq!(l.connections_of(b), 0);
    let mut z = ConnectionLimiter::new(10, 0);
    assert_eq!(z.try_accept(a), Admission::RejectedPerIp);
}

#[test]
fn session_table_roundtrip() {
    let mut t: SessionTable<u32> = SessionTable::new();
    let p = PeerAddr { ip: ClientIp { v6: true, bits: 1 }, port: 5353 };
    let q = PeerAddr { ip: ClientIp { v6: true, bits: 1 }, port: 5354 };
    assert!(t.get(p).is_none());
    t.insert(p, 7);
    t.insert(q, 8);
    assert_eq!(t.get(p), Some(&7));
    t.insert(p, 9);
    assert_eq!(t.get(p), Some(&9));
    assert_eq!(t.len(), 2);
    assert_eq!(t.remove(p), Some(9));
    assert!(t.get(p).is_none());
    assert_eq!(t.get(q), Some(&8));
    assert_eq!(t.remove(p), None);
}

#[test]
fn builder_defaults_and_build() {
    let b = Refractium::builder();
    let e = b
        .routes(vec![route(Protocol::Http(Http), None, &["127.0.0.1:8080"])], Vec::new())
        .build()
        .expect("build");
    assert_eq!(e.peek_buffer_size(), 1024);
    assert_eq!(e.peek_timeout_ms(), 3000);
    assert_eq!(e.max_connections(), 10000);
    assert_eq!(e.max_connections_per_ip(), 50);
    assert_eq!(e.health_targets(), vec!["127.0.0.1:8080".to_string()]);
    let e2 = Refractium::builder().peek_config(16, 10).max_connections(5).max_connections_per_ip(2).build().unwrap();
    assert_eq!(e2.peek_buffer_size(), 16);
    assert_eq!(e2.peek_timeout_ms(), 10);
    assert_eq!(e2.max_connections(), 5);
    assert_eq!(e2.max_connections_per_ip(), 2);
}

#[test]
fn engine_routes_and_reloads() {
    let mut e = Refractium::builder()
        .routes(
            vec![route(Protocol::Http(Http), None, &["web:80"])],
            vec![route(Protocol::Dynamic(DynamicProtocol { name: "dns".to_string(), patterns: vec!["\x01".to_string()] }), None, &["dns:53"])],
        )
        .build()
        .unwrap();
    assert!(matches!(e.route_tcp(b"GET /"), Some(RouteResult::Matched(_, a, _)) if a == "web:80"));
    assert!(matches!(e.route_udp(&[0, 1, 2]), Some(RouteResult::Matched(_, a, _)) if a == "dns:53"));
    assert!(matches!(e.route_fallback_tcp(), RouteResult::Discarded));
    e.reload_routes(
        vec![route(Protocol::Http(Http), None, &["web2:80"]), route(Protocol::Fallback(FallbackProtocol), None, &["fb:1"])],
        Vec::new(),
    )
    .unwrap();
    assert!(matches!(e.route_tcp(b"GET /"), Some(RouteResult::Matched(_, a, _)) if a == "web2:80"));
    assert!(matches!(e.route_fallback_tcp(), RouteResult::Fallback(a) if a == "fb:1"));
    e.set_backend_status("web2:80", false);
    assert!(matches!(e.route_tcp(b"GET /"), Some(RouteResult::Fallback(a)) if a == "fb:1"));
    let mut t = e.health_targets();
    t.sort();
    assert_eq!(t, vec!["dns:53", "fb:1", "web2:80", "web:80"]);
}

#[test]
fn health_report_lines() {
    let line = format_status_line("http", &vec![("a:1".to_string(), true), ("b:2".to_string(), false)]);
    assert_eq!(line, "  http -> a:1 [\x1b[32mUP\x1b[0m], b:2 [\x1b[31mDOWN\x1b[0m]");
    let report = format_report(&vec![("ssh".to_string(), vec![("s:22".to_string(), true)])], &Vec::new());
    assert_eq!(report, vec!["\n[TCP Backends]".to_string(), "  ssh -> s:22 [\x1b[32mUP\x1b[0m]".to_string(), String::new()]);
    let empty = format_report(&Vec::new(), &Vec::new());
    assert_eq!(empty, vec![String::new()]);
    let e = Refractium::builder().build().unwrap();
    assert_eq!(e.health_report(), vec![String::new()]);
}

#[test]
fn udp_packets_forwarded_opened_or_dropped() {
    let mut e = Refractium::builder()
        .routes(
            Vec::new(),
            vec![
                route(Protocol::Dynamic(DynamicProtocol { name: "dns".to_string(), patterns: vec!["\x01".to_string()] }), None, &["dns:53"]),
                route(Protocol::Fallback(FallbackProtocol), None, &["fb:53"]),
            ],
        )
        .build()
        .unwrap();
    let mut sessions: SessionTable<u8> = SessionTable::new();
    let p = PeerAddr { ip: ClientIp { v6: false, bits: 0x7f000001 }, port: 4000 };
    assert!(matches!(packet_action(&mut e, &sessions, p, &[0, 1]), PacketAction::Open(a) if a == "dns:53"));
    assert!(matches!(packet_action(&mut e, &sessions, p, &[0, 2]), PacketAction::Open(a) if a == "fb:53"));
    sessions.insert(p, 1);
    assert!(matches!(packet_action(&mut e, &sessions, p, &[0, 2]), PacketAction::Forward));
    e.set_backend_status("dns:53", false);
    let q = PeerAddr { ip: ClientIp { v6: false, bits: 0x7f000001 }, port: 4001 };
    assert!(matches!(packet_action(&mut e, &sessions, q, &[1]), PacketAction::Open(a) if a == "fb:53"));
}

#[test]
fn udp_unidentified_dropped_without_fallback() {
    let mut e = Refractium::builder().build().unwrap();
    let sessions: SessionTable<u8> = SessionTable::new();
    let p = PeerAddr { ip: ClientIp { v6: false, bits: 1 }, port: 1 };
    assert!(matches!(packet_action(&mut e, &sessions, p, &[9]), PacketAction::Drop));
}

#[test]
fn reload_adds_protocols() {
    let mut e = Refractium::builder()
        .routes(vec![route(Protocol::Http(Http), None, &["a:80"])], Vec::new())
        .build()
        .unwrap();
    assert!(e.route_tcp(b"SSH-2.0-OpenSSH_9.0").is_none());
    e.reload_routes(
        vec![route(Protocol::Http(Http), None, &["a:80"]), route(Protocol::Ssh(Ssh), None, &["b:22"])],
        Vec::new(),
    )
    .unwrap();
    assert!(matches!(e.route_tcp(b"SSH-2.0-OpenSSH_9.0"), Some(RouteResult::Matched(n, a, _)) if n == "ssh" && a == "b:22"));
}

#[test]
fn duplicate_routes_are_config_errors() {
    let r = Refractium::builder()
        .routes(
            vec![route(Protocol::Http(Http), None, &["10.0.0.1:80"]), route(Protocol::Http(Http), None, &["10.0.0.2:80"])],
            Vec::new(),
        )
        .build();
    match r {
        Err(refractium::RefractiumError::ConfigError(m)) => assert_eq!(m, "Duplicate route: 'http'"),
        _ => panic!("duplicate routes accepted"),
    }
    let ok = Refractium::builder()
        .routes(
            vec![route(Protocol::Https(Https), Some("a.example"), &["a:443"]), route(Protocol::Https(Https), None, &["b:443"])],
            Vec::new(),
        )
        .build();
    assert!(ok.is_ok());
    let mut e = Refractium::builder()
        .routes(vec![route(Protocol::Http(Http), None, &["web:80"])], Vec::new())
        .build()
        .unwrap();
    let dup = e.reload_routes(
        Vec::new(),
        vec![route(Protocol::Dns(Dns), None, &["d:53"]), route(Protocol::Dns(Dns), None, &["e:53"])],
    );
    assert!(matches!(dup, Err(refractium::RefractiumError::ConfigError(m)) if m == "Duplicate route: 'dns'"));
    assert!(matches!(e.route_tcp(b"GET /"), Some(RouteResult::Matched(_, a, _)) if a == "web:80"));
}

#[test]
fn pattern_protocol_routed_under_snake_case_name() {
    let mut e = Refractium::builder()
        .routes(
            vec![route(
                Protocol::Dynamic(DynamicProtocol { name: "my-app".to_string(), patterns: vec!["MAGIC".to_string()] }),
                None,
                &["10.0.0.1:9000"],
            )],
            Vec::new(),
        )
        .build()
        .unwrap();
    assert!(matches!(e.route_tcp(b"MAGIC"), Some(RouteResult::Matched(n, a, _)) if n == "my_app" && a == "10.0.0.1:9000"));
}

#[test]
fn hooked_protocol_carries_its_hooks() {
    let hooked = Protocol::Hooked(HookedProtocol { base: BuiltinProtocol::Http, hooks: vec![7, 9] });
    assert_eq!(hooked.name(), "http");
    assert_eq!(hooked.hooks(), vec![7, 9]);
    let mut e = Refractium::builder()
        .routes(
            vec![
                route(hooked, None, &["web:80"]),
                route(Protocol::Ssh(Ssh), None, &["ssh:22"]),
            ],
            Vec::new(),
        )
        .build()
        .unwrap();
    let r = e.route_tcp(b"GET / HTTP/1.1").unwrap();
    assert!(matches!(&r, RouteResult::Matched(n, a, _) if n == "http" && a == "web:80"));
    assert_eq!(hooks_of(&r), vec![7, 9]);
    let s = e.route_tcp(b"SSH-2.0-x").unwrap();
    assert!(hooks_of(&s).is_empty());
    assert!(hooks_of(&e.route_fallback_tcp()).is_empty());
}

struct MagicProtocol;

impl UserProtocol for MagicProtocol {
    fn user_view(&self) -> refractium::protocols::CustomView {
        panic!("specification only; never called")
    }

    fn name(&self) -> String {
        "magic".to_string()
    }

    fn identify(&self, data: &[u8]) -> Option<(String, Option<String>)> {
        if data.starts_with(b"MAGIC") {
            Some(("magic".to_string(), None))
        } else {
            None
        }
    }

    fn transport(&self) -> Transport {
        Transport::Tcp
    }
}

#[test]
fn user_protocols_are_registered_and_routed() {
    let custom = || Protocol::Custom(CustomProtocol { inner: Arc::new(MagicProtocol) });
    let mut reg = ProtocolRegistry::new();
    reg.register(custom());
    assert_eq!(reg.get_registered_names(), vec!["magic".to_string()]);
    let m = reg.probe(b"MAGIC!").unwrap();
    assert_eq!(m.name, "magic");
    assert_eq!(custom().transport(), Transport::Tcp);
    assert!(reg.probe(b"nope").is_none());
    let mut e = Refractium::builder()
        .routes(vec![route(custom(), None, &["m:1"])], Vec::new())
        .build()
        .unwrap();
    assert!(matches!(e.route_tcp(b"MAGIC"), Some(RouteResult::Matched(n, a, _)) if n == "magic" && a == "m:1"));
}

#[test]
fn engine_keeps_the_given_cancellation_token() {
    let token = tokio_util::sync::CancellationToken::new();
    let e = Refractium::builder().cancel_token(token.clone()).build().unwrap();
    assert!(e.cancel_token() == token);
    assert!(!e.cancel_token().is_cancelled());
    token.cancel();
    assert!(e.cancel_token().is_cancelled());
}

#[test]
fn session_steps() {
    assert_eq!(SESSION_IDLE_SECS, 30);
    assert_eq!(session_step(SessionEvent::BackendReply), SessionAction::RelayAndReset);
    assert_eq!(session_step(SessionEvent::ClientActivity), SessionAction::Reset);
    assert_eq!(session_step(SessionEvent::IdleTimeout), SessionAction::Close);
}

#[test]
fn distinct_builtin_routes_build() {
    let r = Refractium::builder()
        .routes(
            vec![
                route(Protocol::Http(Http), None, &["web:80"]),
                route(Protocol::Ssh(Ssh), None, &["ssh:22"]),
                route(Protocol::Dynamic(DynamicProtocol { name: "Fallback".to_string(), patterns: vec!["Z".to_string()] }), None, &["z:1"]),
            ],
            Vec::new(),
        )
        .build();
    assert!(r.is_ok());
}
