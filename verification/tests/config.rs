use refractium::commands::init::init_config;
use refractium::commands::run::{build_protocol, get_routes, setup_engine, setup_refractium};
use refractium::commands::{Cli, Commands};
use refractium::config::{
    fallback_of, lowercase_name,
    default_hot_reload, default_max_connections, default_max_conns_per_ip, default_peek_buffer,
    default_peek_timeout, default_transport, is_default_buffer, is_default_connections,
    is_default_max_conns_per_ip, is_default_timeout, is_default_transport, ConfigWarning, TomlConfig,
    TomlRoute, TomlTarget,
};
use refractium::display::resolve_error_text;
use refractium::engine::router::RouteResult;
use refractium::types::{ForwardTarget, ProxyConfig, TomlRouteData, Transport};
use refractium::RefractiumError;
use tokio_util::sync::CancellationToken;

fn cli(forward: &[&str]) -> Cli {
    Cli {
        command: None,
        bind: None,
        port: None,
        config: "refractium.toml".to_string(),
        debug: false,
        forward: forward.iter().map(|s| s.to_string()).collect(),
        peek_buffer: None,
        peek_timeout: None,
        max_connections: None,
        no_hot_reload: false,
    }
}

fn data_route(name: &str, patterns: Option<Vec<&str>>, target: ForwardTarget, transport: Transport) -> TomlRouteData {
    TomlRouteData {
        name: name.to_string(),
        sni: None,
        patterns: patterns.map(|v| v.iter().map(|s| s.to_string()).collect()),
        forward_to: target,
        transport,
    }
}

fn proxy(protocols: Vec<TomlRouteData>, fallback_tcp: Option<&str>, fallback_udp: Option<&str>) -> ProxyConfig {
    ProxyConfig {
        bind: "0.0.0.0".to_string(),
        port: 8080,
        peek_buffer_size: 1024,
        peek_timeout_ms: 3000,
        max_connections: 10000,
        max_connections_per_ip: 50,
        hot_reload: true,
        protocols,
        fallback_tcp: fallback_tcp.map(|s| s.to_string()),
        fallback_udp: fallback_udp.map(|s| s.to_string()),
    }
}

#[test]
fn defaults() {
    assert_eq!(default_peek_buffer(), 1024);
    assert_eq!(default_peek_timeout(), 3000);
    assert_eq!(default_max_connections(), 10000);
    assert_eq!(default_max_conns_per_ip(), 50);
    assert!(default_hot_reload());
    assert_eq!(default_transport(), Transport::Both);
    assert!(is_default_buffer(&1024) && !is_default_buffer(&1023));
    assert!(is_default_timeout(&3000) && !is_default_timeout(&1));
    assert!(is_default_connections(&10000) && !is_default_connections(&1));
    assert!(is_default_max_conns_per_ip(&50) && !is_default_max_conns_per_ip(&51));
    assert!(is_default_transport(&Transport::Both) && !is_default_transport(&Transport::Tcp));
    let c = TomlConfig::default();
    assert_eq!(c.server.bind, "0.0.0.0");
    assert_eq!(c.server.port, 8080);
    assert!(c.protocols.is_empty());
}

#[test]
fn cli_forward_rules_are_grouped() {
    let c = TomlConfig::default();
    let merged = c.merge_cli(&cli(&["HTTP=10.0.0.1:80", "ssh=127.0.0.1:22", "http=10.0.0.2:80", "bogus"]));
    assert_eq!(merged.protocols.len(), 2);
    assert_eq!(merged.protocols[0].name, "http");
    match &merged.protocols[0].forward_to {
        TomlTarget::Multiple(v) => assert_eq!(v, &vec!["10.0.0.1:80".to_string(), "10.0.0.2:80".to_string()]),
        _ => panic!("expected several backends"),
    }
    assert_eq!(merged.protocols[1].name, "ssh");
    assert!(matches!(&merged.protocols[1].forward_to, TomlTarget::Single(a) if a == "127.0.0.1:22"));
    assert_eq!(merged.protocols[1].transport, Transport::Both);
}

#[test]
fn cli_overrides_existing_route_and_settings() {
    let mut c = TomlConfig::default();
    c.protocols.push(TomlRoute {
        name: "http".to_string(),
        sni: Some("example.com".to_string()),
        patterns: None,
        forward_to: TomlTarget::Single("old:80".to_string()),
        transport: Transport::Tcp,
    });
    let mut args = cli(&["http=new:80=x"]);
    args.bind = Some("127.0.0.1".to_string());
    args.port = Some(9000);
    args.peek_timeout = Some(6000);
    args.no_hot_reload = true;
    let merged = c.merge_cli(&args);
    assert_eq!(merged.server.bind, "127.0.0.1");
    assert_eq!(merged.server.port, 9000);
    assert_eq!(merged.server.peek_timeout_ms, 6000);
    assert_eq!(merged.server.peek_buffer_size, 1024);
    assert!(!merged.server.hot_reload);
    assert_eq!(merged.protocols.len(), 1);
    assert_eq!(merged.protocols[0].sni, Some("example.com".to_string()));
    assert_eq!(merged.protocols[0].transport, Transport::Tcp);
    assert!(matches!(&merged.protocols[0].forward_to, TomlTarget::Single(a) if a == "new:80=x"));
    assert_eq!(merged.validate(), vec![ConfigWarning::SlowPeekTimeout(6000)]);
}

#[test]
fn validation_warnings() {
    let mut c = TomlConfig::default();
    assert!(c.validate().is_empty());
    c.server.max_connections_per_ip = 300;
    c.server.max_connections = 100;
    c.server.peek_timeout_ms = 5001;
    assert_eq!(
        c.validate(),
        vec![
            ConfigWarning::SlowPeekTimeout(5001),
            ConfigWarning::HighPerIpLimit(300),
            ConfigWarning::PerIpNotBelowTotal
        ]
    );
    c.server.max_connections = 0;
    c.server.max_connections_per_ip = 10;
    c.server.peek_timeout_ms = 5000;
    assert!(c.validate().is_empty());
}

#[test]
fn load_config_without_file() {
    let (p, w) = TomlConfig::load_config(None, &cli(&["ssh=127.0.0.1:22"]));
    assert!(w.is_empty());
    assert_eq!(p.port, 8080);
    assert_eq!(p.peek_buffer_size, 1024);
    assert!(p.hot_reload);
    assert_eq!(p.protocols.len(), 1);
    assert_eq!(p.protocols[0].name, "ssh");
    assert!(matches!(&p.protocols[0].forward_to, ForwardTarget::Single(a) if a == "127.0.0.1:22"));
    assert_eq!(p.fallback_tcp, None);
}

#[test]
fn into_proxy_config_keeps_routes() {
    let mut c = TomlConfig::default();
    c.fallback_udp = Some("1.1.1.1:53".to_string());
    c.protocols.push(TomlRoute {
        name: "my_app".to_string(),
        sni: None,
        patterns: Some(vec!["\x01\x02".to_string()]),
        forward_to: TomlTarget::Multiple(vec!["a:1".to_string(), "b:2".to_string()]),
        transport: Transport::Udp,
    });
    let p = c.into_proxy_config();
    assert_eq!(p.fallback_udp, Some("1.1.1.1:53".to_string()));
    assert_eq!(p.protocols[0].patterns, Some(vec!["\x01\x02".to_string()]));
    assert_eq!(p.protocols[0].transport, Transport::Udp);
    assert_eq!(p.protocols[0].forward_to.to_vec(), vec!["a:1".to_string(), "b:2".to_string()]);
}

#[test]
fn init_config_has_http_route() {
    let c = init_config();
    assert_eq!(c.server.port, 8080);
    assert_eq!(c.protocols.len(), 1);
    assert_eq!(c.protocols[0].name, "http");
    assert!(matches!(&c.protocols[0].forward_to, TomlTarget::Single(a) if a == "127.0.0.1:3000"));
}

#[test]
fn unknown_protocol_is_a_config_error() {
    let r = build_protocol(&data_route("gopher", None, ForwardTarget::Single("x:70".to_string()), Transport::Tcp));
    match r {
        Err(RefractiumError::ConfigError(m)) => assert_eq!(m, "Unknown protocol: 'gopher'. Built-in or patterns required."),
        _ => panic!("expected a configuration error"),
    }
    let p = proxy(vec![data_route("gopher", None, ForwardTarget::Single("x:70".to_string()), Transport::Udp)], None, None);
    assert!(setup_engine(&p, Transport::Tcp).unwrap().is_empty());
    assert!(matches!(setup_engine(&p, Transport::Udp), Err(RefractiumError::ConfigError(_))));
    assert!(setup_refractium(&p, CancellationToken::new()).is_err());
}

#[test]
fn routes_are_filtered_by_transport_with_fallback() {
    let p = proxy(
        vec![
            data_route("http", None, ForwardTarget::Single("web:80".to_string()), Transport::Tcp),
            data_route("dns", None, ForwardTarget::Single("dns:53".to_string()), Transport::Udp),
            data_route("Custom", Some(vec!["MAGIC"]), ForwardTarget::Single("c:9".to_string()), Transport::Both),
        ],
        Some("fb:80"),
        Some("fb:53"),
    );
    let tcp = setup_engine(&p, Transport::Tcp).unwrap();
    assert_eq!(tcp.len(), 3);
    assert_eq!(tcp[2].forward_to.to_vec(), vec!["fb:80".to_string()]);
    let udp = get_routes(&p, Transport::Udp).unwrap();
    assert_eq!(udp.len(), 3);
    assert_eq!(udp[2].forward_to.to_vec(), vec!["fb:53".to_string()]);
    let both = setup_engine(&p, Transport::Both).unwrap();
    assert_eq!(both.len(), 1);
    let mut e = setup_refractium(&p, CancellationToken::new()).unwrap();
    // the pool is keyed by the name the matches carry: the snake_case form
    assert!(matches!(e.route_tcp(b"xxMAGICxx"), Some(RouteResult::Matched(n, a, _)) if n == "custom" && a == "c:9"));
    let p2 = proxy(
        vec![data_route("custom", Some(vec!["MAGIC"]), ForwardTarget::Single("c:9".to_string()), Transport::Both)],
        None,
        None,
    );
    let mut e2 = setup_refractium(&p2, CancellationToken::new()).unwrap();
    assert!(matches!(e2.route_tcp(b"xxMAGICxx"), Some(RouteResult::Matched(n, a, _)) if n == "custom" && a == "c:9"));
    assert!(matches!(e.route_tcp(b"SSH-2.0-"), None));
    assert!(matches!(e.route_fallback_tcp(), RouteResult::Fallback(a) if a == "fb:80"));
}

#[test]
fn commands_and_messages() {
    assert_ne!(Commands::Tcp, Commands::Udp);
    assert_eq!(
        resolve_error_text("0.0.0.0:x"),
        "The bind address '0.0.0.0:x' is invalid or could not be resolved."
    );
    refractium::display::print_resolve_error("0.0.0.0:x", "invalid port");
}

#[test]
fn file_port_kept_without_port_option() {
    let mut c = TomlConfig::default();
    c.server.port = 443;
    c.fallback_tcp = Some("127.0.0.1:8080".to_string());
    c.protocols.push(TomlRoute {
        name: "https".to_string(),
        sni: None,
        patterns: None,
        forward_to: TomlTarget::Multiple(vec!["10.0.0.1:443".to_string(), "10.0.0.2:443".to_string()]),
        transport: Transport::Both,
    });
    let (p, _) = TomlConfig::load_config(Some(c), &cli(&[]));
    assert_eq!(p.port, 443);
    assert_eq!(p.bind, "0.0.0.0");
    assert_eq!(p.fallback_tcp, Some("127.0.0.1:8080".to_string()));
    assert_eq!(p.protocols.len(), 1);
    assert_eq!(p.protocols[0].name, "https");
    let mut args = cli(&[]);
    args.port = Some(80);
    let (q, _) = TomlConfig::load_config(None, &args);
    assert_eq!(q.port, 80);
}

#[test]
fn fallback_written_under_server_is_used() {
    assert_eq!(fallback_of(None, Some("s:1".to_string())), Some("s:1".to_string()));
    assert_eq!(fallback_of(Some("t:1".to_string()), Some("s:1".to_string())), Some("t:1".to_string()));
    assert_eq!(fallback_of(None, None), None);
    assert_eq!(lowercase_name("HTTP"), "http");
    assert_eq!(lowercase_name("My-App"), "my-app");
}
